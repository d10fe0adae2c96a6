use vstd::prelude::*;

verus! {

/// Position of a terrain chunk on the chunk grid.
pub type ChunkPosition = (i32, i32);

/// Number of chunk rows kept loaded around the camera.
pub const CHUNK_LOAD_ROWS: usize = 5;

/// Number of chunk columns kept loaded around the camera.
pub const CHUNK_LOAD_COLUMNS: usize = 5;

/// Offset of the first loaded row and column from the camera's chunk.
pub open spec fn window_half() -> int {
    2
}

/// The chunks that must be loaded while the camera stands in chunk
/// `(center_x, center_y)`, row by row: entry `row * 5 + column` is the chunk
/// `(center_x + column - 2, center_y + row - 2)`.
pub open spec fn window_seq(center_x: int, center_y: int) -> Seq<ChunkPosition> {
    Seq::new(
        25,
        |k: int|
            (
                (center_x + k % 5 - window_half()) as i32,
                (center_y + k / 5 - window_half()) as i32,
            ),
    )
}

/// The camera chunk lies far enough from the ends of the `i32` range that every
/// chunk of its window has a position.
pub open spec fn center_in_range(center_x: int, center_y: int) -> bool {
    &&& i32::MIN + window_half() <= center_x <= i32::MAX - window_half()
    &&& i32::MIN + window_half() <= center_y <= i32::MAX - window_half()
}

/// Whether a chunk lies in the window around `(center_x, center_y)`.
pub open spec fn in_window(center_x: int, center_y: int, key: ChunkPosition) -> bool {
    &&& center_x - window_half() <= key.0 <= center_x + window_half()
    &&& center_y - window_half() <= key.1 <= center_y + window_half()
}

/// The chunks to drop and the chunks to create when the camera moves.
pub struct ChunkUpdate {
    pub remove: Vec<ChunkPosition>,
    pub add: Vec<ChunkPosition>,
}

/// The loaded chunks that fall out of the window.
pub open spec fn chunks_to_remove(loaded: Seq<ChunkPosition>, center_x: int, center_y: int) -> Seq<
    ChunkPosition,
> {
    loaded.filter(|key: ChunkPosition| !window_seq(center_x, center_y).contains(key))
}

/// The window chunks that are not loaded yet, in window order.
pub open spec fn chunks_to_add(loaded: Seq<ChunkPosition>, center_x: int, center_y: int) -> Seq<
    ChunkPosition,
> {
    window_seq(center_x, center_y).filter(|key: ChunkPosition| !loaded.contains(key))
}

/// The set of loaded chunks once an update has been carried out.
pub open spec fn apply_update(
    loaded: Set<ChunkPosition>,
    remove: Seq<ChunkPosition>,
    add: Seq<ChunkPosition>,
) -> Set<ChunkPosition> {
    loaded.difference(remove.to_set()).union(add.to_set())
}

/// A window entry lies in the window, and every chunk of the window is an entry.
pub proof fn lemma_window_membership(center_x: int, center_y: int, key: ChunkPosition)
    requires
        center_in_range(center_x, center_y),
    ensures
        window_seq(center_x, center_y).contains(key) <==> in_window(center_x, center_y, key),
{
    let w = window_seq(center_x, center_y);
    if w.contains(key) {
        let k = choose|k: int| 0 <= k < w.len() && w[k] == key;
        assert(0 <= k % 5 < 5 && 0 <= k / 5 < 5);
    }
    if in_window(center_x, center_y, key) {
        let column = key.0 - center_x + window_half();
        let row = key.1 - center_y + window_half();
        let k = row * 5 + column;
        assert(k % 5 == column && k / 5 == row);
        assert(w[k] == key);
    }
}

/// Carrying out the update planned for a camera chunk leaves exactly the window of
/// that chunk loaded, whatever was loaded before; no loaded chunk is created again
/// and only loaded chunks are dropped.
pub proof fn lemma_update_loads_window(loaded: Seq<ChunkPosition>, center_x: int, center_y: int)
    ensures
        apply_update(
            loaded.to_set(),
            chunks_to_remove(loaded, center_x, center_y),
            chunks_to_add(loaded, center_x, center_y),
        ) == window_seq(center_x, center_y).to_set(),
        forall|key: ChunkPosition|
            chunks_to_add(loaded, center_x, center_y).contains(key) ==> !loaded.contains(key),
        forall|key: ChunkPosition|
            chunks_to_remove(loaded, center_x, center_y).contains(key) ==> loaded.contains(key),
{
    broadcast use vstd::seq_lib::group_filter_ensures;

    let w = window_seq(center_x, center_y);
    let not_in_window = |key: ChunkPosition| !w.contains(key);
    let not_loaded = |key: ChunkPosition| !loaded.contains(key);
    let remove = loaded.filter(not_in_window);
    let add = w.filter(not_loaded);
    assert forall|key: ChunkPosition| remove.contains(key) <==> loaded.contains(key) && !w.contains(
        key,
    ) by {
        if remove.contains(key) {
            loaded.lemma_filter_contains_rev(not_in_window, key);
            let i = choose|i: int| 0 <= i < remove.len() && remove[i] == key;
            loaded.lemma_filter_pred(not_in_window, i);
        }
        if loaded.contains(key) && !w.contains(key) {
            let i = choose|i: int| 0 <= i < loaded.len() && loaded[i] == key;
            loaded.lemma_filter_contains(not_in_window, i);
        }
    }
    assert forall|key: ChunkPosition| add.contains(key) <==> w.contains(key) && !loaded.contains(
        key,
    ) by {
        if add.contains(key) {
            w.lemma_filter_contains_rev(not_loaded, key);
            let i = choose|i: int| 0 <= i < add.len() && add[i] == key;
            w.lemma_filter_pred(not_loaded, i);
        }
        if w.contains(key) && !loaded.contains(key) {
            let i = choose|i: int| 0 <= i < w.len() && w[i] == key;
            w.lemma_filter_contains(not_loaded, i);
        }
    }
    assert(apply_update(loaded.to_set(), remove, add) =~= w.to_set());
}

/// Whether `key` is one of `keys`.
fn contains_position(keys: &Vec<ChunkPosition>, key: ChunkPosition) -> (found: bool)
    ensures
        found == keys@.contains(key),
{
    let mut i: usize = 0;
    while i < keys.len()
        invariant
            i <= keys.len(),
            forall|j: int| 0 <= j < i ==> keys@[j] != key,
        decreases keys.len() - i,
    {
        let candidate = keys[i];
        if candidate.0 == key.0 && candidate.1 == key.1 {
            assert(keys@[i as int] == key);
            return true;
        }
        i = i + 1;
    }
    false
}

/// The chunks to keep loaded around the camera chunk `(center_x, center_y)`, row by row.
pub fn chunk_window(center_x: i32, center_y: i32) -> (keys: Vec<ChunkPosition>)
    requires
        center_in_range(center_x as int, center_y as int),
    ensures
        keys@ == window_seq(center_x as int, center_y as int),
{
    let mut keys: Vec<ChunkPosition> = Vec::new();
    let half: i32 = 2;
    let mut y: usize = 0;
    while y < CHUNK_LOAD_ROWS
        invariant
            y <= 5,
            half == window_half(),
            center_in_range(center_x as int, center_y as int),
            keys@ == window_seq(center_x as int, center_y as int).take(5 * y as int),
        decreases 5 - y,
    {
        let mut x: usize = 0;
        while x < CHUNK_LOAD_COLUMNS
            invariant
                x <= 5,
                y < 5,
                half == window_half(),
                center_in_range(center_x as int, center_y as int),
                keys@ == window_seq(center_x as int, center_y as int).take(5 * y + x),
            decreases 5 - x,
        {
            let key_x = (x as i32) - half + center_x;
            let key_y = (y as i32) - half + center_y;
            let ghost k = 5 * y + x;
            assert(k % 5 == x && k / 5 == y);
            keys.push((key_x, key_y));
            assert(keys@ =~= window_seq(center_x as int, center_y as int).take(5 * y + x + 1));
            x = x + 1;
        }
        y = y + 1;
    }
    assert(keys@ =~= window_seq(center_x as int, center_y as int));
    keys
}

/// Plans what to do with the loaded chunks when the camera stands in chunk
/// `(center_x, center_y)`: drop the loaded chunks outside its window (in the order
/// they are loaded) and create the window chunks that are missing (in window order).
pub fn plan_chunk_update(loaded: &Vec<ChunkPosition>, center_x: i32, center_y: i32) -> (update:
    ChunkUpdate)
    requires
        center_in_range(center_x as int, center_y as int),
    ensures
        update.remove@ == chunks_to_remove(loaded@, center_x as int, center_y as int),
        update.add@ == chunks_to_add(loaded@, center_x as int, center_y as int),
{
    broadcast use vstd::seq_lib::group_filter_ensures;

    let window = chunk_window(center_x, center_y);
    let ghost not_in_window = |key: ChunkPosition| !window@.contains(key);
    let ghost not_loaded = |key: ChunkPosition| !loaded@.contains(key);
    let mut remove: Vec<ChunkPosition> = Vec::new();
    let mut i: usize = 0;
    while i < loaded.len()
        invariant
            i <= loaded.len(),
            not_in_window == (|key: ChunkPosition| !window@.contains(key)),
            remove@ == loaded@.take(i as int).filter(not_in_window),
        decreases loaded.len() - i,
    {
        let key = loaded[i];
        let inside = contains_position(&window, key);
        proof {
            assert(loaded@.take(i + 1) =~= loaded@.take(i as int).push(key));
            loaded@.take(i as int).lemma_filter_push(key, not_in_window);
        }
        if !inside {
            remove.push(key);
        }
        i = i + 1;
    }
    assert(loaded@.take(loaded.len() as int) =~= loaded@);
    let mut add: Vec<ChunkPosition> = Vec::new();
    let mut j: usize = 0;
    while j < window.len()
        invariant
            j <= window.len(),
            not_loaded == (|key: ChunkPosition| !loaded@.contains(key)),
            add@ == window@.take(j as int).filter(not_loaded),
        decreases window.len() - j,
    {
        let key = window[j];
        let present = contains_position(loaded, key);
        proof {
            assert(window@.take(j + 1) =~= window@.take(j as int).push(key));
            window@.take(j as int).lemma_filter_push(key, not_loaded);
        }
        if !present {
            add.push(key);
        }
        j = j + 1;
    }
    assert(window@.take(window.len() as int) =~= window@);
    ChunkUpdate { remove, add }
}

} // verus!
