use vstd::prelude::*;

verus! {

/// The direction a first-person camera moves in.
#[allow(non_camel_case_types)]
#[derive(Debug, Copy, Clone, PartialEq, Eq, Structural)]
pub enum MovementDirection {
    FORWARD,
    BACKWARD,
    LEFT,
    RIGHT,
}

/// The kinds of light a scene can be lit by.
#[derive(Debug, Copy, Clone, PartialEq, Eq, Structural)]
pub enum LightType {
    Directional,
    Point,
    Spot,
}

impl LightType {
    /// The label shown for this kind of light.
    pub fn name(self) -> (name: &'static str)
        ensures
            name@ == match self {
                LightType::Directional => "Directional"@,
                LightType::Point => "Point"@,
                LightType::Spot => "Spot"@,
            },
    {
        match self {
            LightType::Directional => "Directional",
            LightType::Point => "Point",
            LightType::Spot => "Spot",
        }
    }
}

/// A menu entry that flips a setting when clicked; returns the setting's new value.
pub fn menu_toggle(clicked: bool, toggle: &mut bool) -> (value: bool)
    ensures
        *final(toggle) == (*old(toggle) != clicked),
        value == *final(toggle),
{
    if clicked {
        *toggle = !*toggle;
    }
    *toggle
}

/// The direction along one axis that a pair of opposing keys asks for: `1` when
/// only the positive key is held, `-1` when only the negative key is, `0` when both
/// or neither are.
pub fn key_axis(positive: bool, negative: bool) -> (direction: i8)
    ensures
        direction == if positive && !negative {
            1
        } else if negative && !positive {
            -1
        } else {
            0
        },
{
    if positive ^ negative {
        if positive {
            1
        } else {
            -1
        }
    } else {
        0
    }
}

/// The compass abbreviations of the eight 45-degree sectors, starting north.
pub open spec fn compass_name(sector: int) -> Seq<char> {
    if sector == 0 {
        "N"@
    } else if sector == 1 {
        "NE"@
    } else if sector == 2 {
        "E"@
    } else if sector == 3 {
        "SE"@
    } else if sector == 4 {
        "S"@
    } else if sector == 5 {
        "SW"@
    } else if sector == 6 {
        "W"@
    } else {
        "NW"@
    }
}

/// The compass abbreviation of a bearing sector: sector `s` covers the bearings
/// within 22.5 degrees of `45 * s`.
pub fn bearing_char(sector: u8) -> (name: &'static str)
    requires
        sector < 8,
    ensures
        name@ == compass_name(sector as int),
{
    match sector {
        0 => "N",
        1 => "NE",
        2 => "E",
        3 => "SE",
        4 => "S",
        5 => "SW",
        6 => "W",
        _ => "NW",
    }
}

/// A movement a camera controller asks its camera to make.
#[derive(Debug, Copy, Clone, PartialEq, Eq, Structural)]
pub enum CameraCommand {
    MoveForward,
    MoveBackward,
    MoveRight,
    MoveLeft,
    MoveUp,
    MoveDown,
    LookUp,
    LookDown,
    LookRight,
    LookLeft,
    RollCcw,
    RollCw,
}

/// The keys a camera controller listens to, and whether each is held.
#[derive(Debug, Copy, Clone)]
pub struct ControlKeys {
    pub w: bool,
    pub s: bool,
    pub a: bool,
    pub d: bool,
    pub space: bool,
    pub left_control: bool,
    pub up_arrow: bool,
    pub down_arrow: bool,
    pub right_arrow: bool,
    pub left_arrow: bool,
    pub q: bool,
    pub e: bool,
}

/// `seq![command]` when `held`, nothing otherwise.
#[verifier::opaque]
pub open spec fn when_held(held: bool, command: CameraCommand) -> Seq<CameraCommand> {
    if held {
        seq![command]
    } else {
        Seq::empty()
    }
}

/// The commands for the held keys, in the controller's fixed key order. Note that
/// `A` moves right and `D` moves left.
pub open spec fn commands_for(keys: ControlKeys) -> Seq<CameraCommand> {
    when_held(keys.w, CameraCommand::MoveForward) + when_held(keys.s, CameraCommand::MoveBackward)
        + when_held(keys.a, CameraCommand::MoveRight) + when_held(keys.d, CameraCommand::MoveLeft)
        + when_held(keys.space, CameraCommand::MoveUp) + when_held(
        keys.left_control,
        CameraCommand::MoveDown,
    ) + when_held(keys.up_arrow, CameraCommand::LookUp) + when_held(
        keys.down_arrow,
        CameraCommand::LookDown,
    ) + when_held(keys.right_arrow, CameraCommand::LookRight) + when_held(
        keys.left_arrow,
        CameraCommand::LookLeft,
    ) + when_held(keys.q, CameraCommand::RollCcw) + when_held(keys.e, CameraCommand::RollCw)
}

/// How often a held key asks for its movement in one frame: once, or not at all.
pub open spec fn once_if(held: bool) -> nat {
    if held {
        1
    } else {
        0
    }
}

proof fn lemma_count_after(
    before: Seq<CameraCommand>,
    held: bool,
    command: CameraCommand,
    c: CameraCommand,
)
    ensures
        (before + when_held(held, command)).to_multiset().count(c) == before.to_multiset().count(
            c,
        ) + asks(held, command, c),
        (before + when_held(held, command)).len() == before.len() + once_if(held),
{
    broadcast use vstd::seq_lib::group_to_multiset_ensures;

    reveal(when_held);
    reveal(asks);
    if held {
        assert(before + when_held(held, command) =~= before.push(command));
    } else {
        assert(before + when_held(held, command) =~= before);
    }
}

/// One if the held key's movement is `c`, zero otherwise.
#[verifier::opaque]
spec fn asks(held: bool, command: CameraCommand, c: CameraCommand) -> nat {
    if held && c == command {
        1
    } else {
        0
    }
}

proof fn lemma_count_in_frame(keys: ControlKeys, c: CameraCommand)
    ensures
        commands_for(keys).to_multiset().count(c) == asks(keys.w, CameraCommand::MoveForward, c)
            + asks(keys.s, CameraCommand::MoveBackward, c)
            + asks(keys.a, CameraCommand::MoveRight, c)
            + asks(keys.d, CameraCommand::MoveLeft, c)
            + asks(keys.space, CameraCommand::MoveUp, c)
            + asks(keys.left_control, CameraCommand::MoveDown, c)
            + asks(keys.up_arrow, CameraCommand::LookUp, c)
            + asks(keys.down_arrow, CameraCommand::LookDown, c)
            + asks(keys.right_arrow, CameraCommand::LookRight, c)
            + asks(keys.left_arrow, CameraCommand::LookLeft, c)
            + asks(keys.q, CameraCommand::RollCcw, c)
            + asks(keys.e, CameraCommand::RollCw, c),
        commands_for(keys).len() == once_if(keys.w)
            + once_if(keys.s)
            + once_if(keys.a)
            + once_if(keys.d)
            + once_if(keys.space)
            + once_if(keys.left_control)
            + once_if(keys.up_arrow)
            + once_if(keys.down_arrow)
            + once_if(keys.right_arrow)
            + once_if(keys.left_arrow)
            + once_if(keys.q)
            + once_if(keys.e),
{
    let p0 = Seq::<CameraCommand>::empty();
    let p1 = when_held(keys.w, CameraCommand::MoveForward);
    let p2 = p1 + when_held(keys.s, CameraCommand::MoveBackward);
    let p3 = p2 + when_held(keys.a, CameraCommand::MoveRight);
    let p4 = p3 + when_held(keys.d, CameraCommand::MoveLeft);
    let p5 = p4 + when_held(keys.space, CameraCommand::MoveUp);
    let p6 = p5 + when_held(keys.left_control, CameraCommand::MoveDown);
    let p7 = p6 + when_held(keys.up_arrow, CameraCommand::LookUp);
    let p8 = p7 + when_held(keys.down_arrow, CameraCommand::LookDown);
    let p9 = p8 + when_held(keys.right_arrow, CameraCommand::LookRight);
    let p10 = p9 + when_held(keys.left_arrow, CameraCommand::LookLeft);
    let p11 = p10 + when_held(keys.q, CameraCommand::RollCcw);
    assert(p0 + p1 =~= p1) by {
        reveal(when_held);
    }
    assert(p0.to_multiset().count(c) == 0) by {
        broadcast use vstd::seq_lib::group_to_multiset_ensures;
    }
    lemma_count_after(p0, keys.w, CameraCommand::MoveForward, c);
    lemma_count_after(p1, keys.s, CameraCommand::MoveBackward, c);
    lemma_count_after(p2, keys.a, CameraCommand::MoveRight, c);
    lemma_count_after(p3, keys.d, CameraCommand::MoveLeft, c);
    lemma_count_after(p4, keys.space, CameraCommand::MoveUp, c);
    lemma_count_after(p5, keys.left_control, CameraCommand::MoveDown, c);
    lemma_count_after(p6, keys.up_arrow, CameraCommand::LookUp, c);
    lemma_count_after(p7, keys.down_arrow, CameraCommand::LookDown, c);
    lemma_count_after(p8, keys.right_arrow, CameraCommand::LookRight, c);
    lemma_count_after(p9, keys.left_arrow, CameraCommand::LookLeft, c);
    lemma_count_after(p10, keys.q, CameraCommand::RollCcw, c);
    lemma_count_after(p11, keys.e, CameraCommand::RollCw, c);
}

/// Each key asks for its own movement exactly once while it is held and never
/// otherwise: W forward, S backward, A right, D left, space up, left control
/// down, the arrows look up, down, right and left, Q rolls counterclockwise and
/// E clockwise. Nothing else is asked for.
pub proof fn lemma_each_key_moves_once(keys: ControlKeys, commands: Seq<CameraCommand>)
    requires
        commands == commands_for(keys),
    ensures
        commands.to_multiset().count(CameraCommand::MoveForward) == once_if(keys.w),
        commands.to_multiset().count(CameraCommand::MoveBackward) == once_if(keys.s),
        commands.to_multiset().count(CameraCommand::MoveRight) == once_if(keys.a),
        commands.to_multiset().count(CameraCommand::MoveLeft) == once_if(keys.d),
        commands.to_multiset().count(CameraCommand::MoveUp) == once_if(keys.space),
        commands.to_multiset().count(CameraCommand::MoveDown) == once_if(keys.left_control),
        commands.to_multiset().count(CameraCommand::LookUp) == once_if(keys.up_arrow),
        commands.to_multiset().count(CameraCommand::LookDown) == once_if(keys.down_arrow),
        commands.to_multiset().count(CameraCommand::LookRight) == once_if(keys.right_arrow),
        commands.to_multiset().count(CameraCommand::LookLeft) == once_if(keys.left_arrow),
        commands.to_multiset().count(CameraCommand::RollCcw) == once_if(keys.q),
        commands.to_multiset().count(CameraCommand::RollCw) == once_if(keys.e),
        commands.len() == once_if(keys.w) + once_if(keys.s) + once_if(keys.a) + once_if(keys.d)
            + once_if(keys.space) + once_if(keys.left_control) + once_if(keys.up_arrow)
            + once_if(keys.down_arrow) + once_if(keys.right_arrow) + once_if(keys.left_arrow)
            + once_if(keys.q) + once_if(keys.e),
{
    reveal(asks);
    lemma_count_in_frame(keys, CameraCommand::MoveForward);
    lemma_count_in_frame(keys, CameraCommand::MoveBackward);
    lemma_count_in_frame(keys, CameraCommand::MoveRight);
    lemma_count_in_frame(keys, CameraCommand::MoveLeft);
    lemma_count_in_frame(keys, CameraCommand::MoveUp);
    lemma_count_in_frame(keys, CameraCommand::MoveDown);
    lemma_count_in_frame(keys, CameraCommand::LookUp);
    lemma_count_in_frame(keys, CameraCommand::LookDown);
    lemma_count_in_frame(keys, CameraCommand::LookRight);
    lemma_count_in_frame(keys, CameraCommand::LookLeft);
    lemma_count_in_frame(keys, CameraCommand::RollCcw);
    lemma_count_in_frame(keys, CameraCommand::RollCw);
}

fn push_when_held(commands: &mut Vec<CameraCommand>, held: bool, command: CameraCommand)
    ensures
        final(commands)@ == old(commands)@ + when_held(held, command),
{
    reveal(when_held);
    if held {
        commands.push(command);
    }
    assert(final(commands)@ =~= old(commands)@ + when_held(held, command));
}

/// The camera movements a controller makes for the keys held this frame, in order;
/// each is applied with the frame's speed.
pub fn handle_input(keys: &ControlKeys) -> (commands: Vec<CameraCommand>)
    ensures
        commands@ == commands_for(*keys),
{
    let mut commands: Vec<CameraCommand> = Vec::new();
    push_when_held(&mut commands, keys.w, CameraCommand::MoveForward);
    push_when_held(&mut commands, keys.s, CameraCommand::MoveBackward);
    push_when_held(&mut commands, keys.a, CameraCommand::MoveRight);
    push_when_held(&mut commands, keys.d, CameraCommand::MoveLeft);
    push_when_held(&mut commands, keys.space, CameraCommand::MoveUp);
    push_when_held(&mut commands, keys.left_control, CameraCommand::MoveDown);
    push_when_held(&mut commands, keys.up_arrow, CameraCommand::LookUp);
    push_when_held(&mut commands, keys.down_arrow, CameraCommand::LookDown);
    push_when_held(&mut commands, keys.right_arrow, CameraCommand::LookRight);
    push_when_held(&mut commands, keys.left_arrow, CameraCommand::LookLeft);
    push_when_held(&mut commands, keys.q, CameraCommand::RollCcw);
    push_when_held(&mut commands, keys.e, CameraCommand::RollCw);
    assert(commands@ =~= commands_for(*keys));
    commands
}

} // verus!
