use vstd::prelude::*;

verus! {

/// Tessellation levels handed to the tessellation shaders. Each level occupies the
/// first of four `u32` slots, as a `uvec4`-aligned uniform block lays them out:
/// four outer levels at slots 0, 4, 8, 12 and two inner levels at slots 0, 4.
#[derive(Copy, Clone)]
pub struct TessellationParameters {
    pub outer: [u32; 16],
    pub inner: [u32; 8],
}

/// Sum of the six levels the shaders read.
pub open spec fn level_sum(p: TessellationParameters) -> int {
    p.outer[0] + p.outer[4] + p.outer[8] + p.outer[12] + p.inner[0] + p.inner[4]
}

/// Every level the shaders read equals `level`.
pub open spec fn all_levels_are(p: TessellationParameters, level: u32) -> bool {
    &&& p.outer[0] == level
    &&& p.outer[4] == level
    &&& p.outer[8] == level
    &&& p.outer[12] == level
    &&& p.inner[0] == level
    &&& p.inner[4] == level
}

impl Default for TessellationParameters {
    fn default() -> (parameters: Self)
        ensures
            forall|i: int| 0 <= i < 16 ==> parameters.outer[i] == 0,
            forall|i: int| 0 <= i < 8 ==> parameters.inner[i] == 0,
    {
        TessellationParameters { outer: [0; 16], inner: [0; 8] }
    }
}

impl TessellationParameters {
    /// Parameters with every slot set to `level`.
    pub fn uniform(level: u32) -> (parameters: Self)
        ensures
            forall|i: int| 0 <= i < 16 ==> parameters.outer[i] == level,
            forall|i: int| 0 <= i < 8 ==> parameters.inner[i] == level,
    {
        TessellationParameters { outer: [level; 16], inner: [level; 8] }
    }

    /// The mean of the six levels, rounded down: the value a single control over
    /// all levels shows.
    pub fn average_level(&self) -> (average: u32)
        requires
            level_sum(*self) <= u32::MAX,
        ensures
            average == level_sum(*self) / 6,
    {
        let mut tessellation_value: u32 = 0;
        tessellation_value = tessellation_value + self.outer[0];
        tessellation_value = tessellation_value + self.outer[4];
        tessellation_value = tessellation_value + self.outer[8];
        tessellation_value = tessellation_value + self.outer[12];
        tessellation_value = tessellation_value + self.inner[0];
        tessellation_value = tessellation_value + self.inner[4];
        tessellation_value / 6
    }

    /// Sets all six levels to `level`; the unused slots stay as they are.
    pub fn set_all_levels(&mut self, level: u32)
        ensures
            all_levels_are(*final(self), level),
            forall|i: int|
                0 <= i < 16 && i % 4 != 0 ==> final(self).outer[i] == old(self).outer[i],
            forall|i: int|
                0 <= i < 8 && i % 4 != 0 ==> final(self).inner[i] == old(self).inner[i],
    {
        let mut i: usize = 0;
        while i < 4
            invariant
                0 <= i <= 4,
                forall|j: int| 0 <= j < 4 * i && j % 4 == 0 ==> self.outer[j] == level,
                forall|j: int| 0 <= j < 16 && (j % 4 != 0 || j >= 4 * i) ==> self.outer[j] == old(self).outer[j],
                self.inner == old(self).inner,
            decreases 4 - i,
        {
            self.outer[i * 4] = level;
            i = i + 1;
        }
        let mut i: usize = 0;
        while i < 2
            invariant
                0 <= i <= 2,
                forall|j: int| 0 <= j < 16 && j % 4 == 0 ==> self.outer[j] == level,
                forall|j: int| 0 <= j < 16 && j % 4 != 0 ==> self.outer[j] == old(self).outer[j],
                forall|j: int| 0 <= j < 4 * i && j % 4 == 0 ==> self.inner[j] == level,
                forall|j: int| 0 <= j < 8 && (j % 4 != 0 || j >= 4 * i) ==> self.inner[j] == old(self).inner[j],
            decreases 2 - i,
        {
            self.inner[i * 4] = level;
            i = i + 1;
        }
        assert(self.outer[0] == level && self.outer[4] == level);
        assert(self.outer[8] == level && self.outer[12] == level);
        assert(self.inner[0] == level && self.inner[4] == level);
    }
}

/// Setting all levels to one value and reading their mean back gives that value.
pub proof fn lemma_set_all_then_average(p: TessellationParameters, level: u32)
    requires
        all_levels_are(p, level),
    ensures
        level_sum(p) == 6 * level,
        level_sum(p) / 6 == level,
{
}

} // verus!
