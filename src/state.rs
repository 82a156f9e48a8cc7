//! The actor's states and the selector that picks the next one at random.

use crate::geometry::{clamp_to_i32, MonitorSize, Point};
use crate::random::{choose_from, random_in};
use rand::rngs::StdRng;
use vstd::prelude::*;

verus! {

/// How far, in pixels, a walk target keeps from each edge of the monitor.
pub const WALK_MARGIN: u32 = 150;

/// How many kinds of state there are.
pub const STATE_KIND_COUNT: u8 = 8;

/// The kind of a state, without the data that some states carry.
#[derive(Clone, Copy, Debug, PartialEq, Eq, Structural, Hash)]
pub enum StateKind {
    Idle,
    Walking,
    Pooping,
    Chasing,
    Teaching,
    Meowing,
    Bird,
    Scratch,
}

impl StateKind {
    /// The place of the kind in the order the kinds are declared in.
    pub open spec fn index(self) -> int {
        match self {
            StateKind::Idle => 0,
            StateKind::Walking => 1,
            StateKind::Pooping => 2,
            StateKind::Chasing => 3,
            StateKind::Teaching => 4,
            StateKind::Meowing => 5,
            StateKind::Bird => 6,
            StateKind::Scratch => 7,
        }
    }

    /// The kind in place `i` of the declaration order.
    pub open spec fn at(i: int) -> StateKind {
        if i <= 0 {
            StateKind::Idle
        } else if i == 1 {
            StateKind::Walking
        } else if i == 2 {
            StateKind::Pooping
        } else if i == 3 {
            StateKind::Chasing
        } else if i == 4 {
            StateKind::Teaching
        } else if i == 5 {
            StateKind::Meowing
        } else if i == 6 {
            StateKind::Bird
        } else {
            StateKind::Scratch
        }
    }

    pub fn from_index(i: u8) -> (k: StateKind)
        requires
            i < STATE_KIND_COUNT,
        ensures
            k == StateKind::at(i as int),
            k.index() == i,
    {
        match i {
            0 => StateKind::Idle,
            1 => StateKind::Walking,
            2 => StateKind::Pooping,
            3 => StateKind::Chasing,
            4 => StateKind::Teaching,
            5 => StateKind::Meowing,
            6 => StateKind::Bird,
            _ => StateKind::Scratch,
        }
    }

    pub fn position(&self) -> (r: u8)
        ensures
            r == self.index(),
            r < STATE_KIND_COUNT,
    {
        match self {
            StateKind::Idle => 0,
            StateKind::Walking => 1,
            StateKind::Pooping => 2,
            StateKind::Chasing => 3,
            StateKind::Teaching => 4,
            StateKind::Meowing => 5,
            StateKind::Bird => 6,
            StateKind::Scratch => 7,
        }
    }
}

/// The state of the actor: exactly one at a time.
#[derive(Clone, Copy, Debug, PartialEq, Eq, Structural, Hash)]
pub enum BonnieState {
    Idle,
    /// Walking to the given point.
    Walking(Point),
    Pooping,
    Chasing,
    Teaching,
    Meowing,
    Bird,
    Scratch,
}

impl BonnieState {
    pub open spec fn kind_of(self) -> StateKind {
        match self {
            BonnieState::Idle => StateKind::Idle,
            BonnieState::Walking(_) => StateKind::Walking,
            BonnieState::Pooping => StateKind::Pooping,
            BonnieState::Chasing => StateKind::Chasing,
            BonnieState::Teaching => StateKind::Teaching,
            BonnieState::Meowing => StateKind::Meowing,
            BonnieState::Bird => StateKind::Bird,
            BonnieState::Scratch => StateKind::Scratch,
        }
    }

    /// The state of the given kind; a walk goes to the origin.
    pub open spec fn of_kind(k: StateKind) -> BonnieState {
        match k {
            StateKind::Idle => BonnieState::Idle,
            StateKind::Walking => BonnieState::Walking(Point { x: 0, y: 0 }),
            StateKind::Pooping => BonnieState::Pooping,
            StateKind::Chasing => BonnieState::Chasing,
            StateKind::Teaching => BonnieState::Teaching,
            StateKind::Meowing => BonnieState::Meowing,
            StateKind::Bird => BonnieState::Bird,
            StateKind::Scratch => BonnieState::Scratch,
        }
    }

    pub fn kind(&self) -> (k: StateKind)
        ensures
            k == self.kind_of(),
    {
        match self {
            BonnieState::Idle => StateKind::Idle,
            BonnieState::Walking(_) => StateKind::Walking,
            BonnieState::Pooping => StateKind::Pooping,
            BonnieState::Chasing => StateKind::Chasing,
            BonnieState::Teaching => StateKind::Teaching,
            BonnieState::Meowing => StateKind::Meowing,
            BonnieState::Bird => StateKind::Bird,
            BonnieState::Scratch => StateKind::Scratch,
        }
    }
}

impl Default for BonnieState {
    fn default() -> (s: BonnieState)
        ensures
            s == BonnieState::Idle,
    {
        BonnieState::Idle
    }
}

impl From<StateKind> for BonnieState {
    fn from(k: StateKind) -> (s: BonnieState) {
        match k {
            StateKind::Idle => BonnieState::Idle,
            StateKind::Walking => BonnieState::Walking(Point { x: 0, y: 0 }),
            StateKind::Pooping => BonnieState::Pooping,
            StateKind::Chasing => BonnieState::Chasing,
            StateKind::Teaching => BonnieState::Teaching,
            StateKind::Meowing => BonnieState::Meowing,
            StateKind::Bird => BonnieState::Bird,
            StateKind::Scratch => BonnieState::Scratch,
        }
    }
}

impl vstd::std_specs::convert::FromSpecImpl<StateKind> for BonnieState {
    open spec fn obeys_from_spec() -> bool {
        true
    }

    open spec fn from_spec(k: StateKind) -> BonnieState {
        BonnieState::of_kind(k)
    }
}

/// The kinds other than `current`, in declaration order.
pub fn other_kinds(current: StateKind) -> (r: Vec<StateKind>)
    ensures
        r@.len() == STATE_KIND_COUNT - 1,
        forall|i: int|
            0 <= i < r@.len() ==> r@[i] == StateKind::at(
                if i < current.index() {
                    i
                } else {
                    i + 1
                },
            ),
        forall|k: StateKind| r@.contains(k) <==> k != current,
{
    let skip = current.position();
    let mut r: Vec<StateKind> = Vec::new();
    let mut i: u8 = 0;
    while i < STATE_KIND_COUNT
        invariant
            i <= STATE_KIND_COUNT,
            skip == current.index(),
            r@.len() == if i <= skip {
                i as int
            } else {
                i - 1
            },
            forall|j: int|
                0 <= j < r@.len() ==> r@[j] == StateKind::at(
                    if j < skip {
                        j
                    } else {
                        j + 1
                    },
                ),
        decreases STATE_KIND_COUNT - i,
    {
        if i != skip {
            r.push(StateKind::from_index(i));
        }
        i = i + 1;
    }
    assert forall|k: StateKind| r@.contains(k) <==> k != current by {
        if k != current {
            let j = if k.index() < skip {
                k.index()
            } else {
                k.index() - 1
            };
            assert(r@[j] == k);
        }
        if r@.contains(k) {
            let j = choose|j: int| 0 <= j < r@.len() && r@[j] == k;
            assert(r@[j] == k);
        }
    }
    r
}

/// The half-open range a walk target is drawn from on one axis: `margin`
/// pixels in from each edge, or the whole axis where that leaves no room.
pub open spec fn walk_bounds(dimension: u32, margin: u32) -> (int, int) {
    let max: int = if dimension > margin {
        dimension - margin
    } else {
        0
    };
    if max > margin {
        (margin as int, max)
    } else {
        (0, dimension as int)
    }
}

/// Whether `t` lies in the area walk targets are drawn from.
pub open spec fn in_walk_area(t: Point, monitor: MonitorSize, margin: u32) -> bool {
    &&& walk_bounds(monitor.width, margin).0 <= t.x < walk_bounds(monitor.width, margin).1
    &&& walk_bounds(monitor.height, margin).0 <= t.y < walk_bounds(monitor.height, margin).1
}

/// The range walk targets are drawn from on an axis of `dimension` pixels.
pub fn walk_range(dimension: u32, margin: u32) -> (r: (u32, u32))
    ensures
        r.0 == walk_bounds(dimension, margin).0,
        r.1 == walk_bounds(dimension, margin).1,
{
    let max = dimension.saturating_sub(margin);
    if max > margin {
        (margin, max)
    } else {
        (0, dimension)
    }
}

/// On a monitor longer than twice the margin on both axes, every point of
/// the walk area keeps the margin from all four edges.
pub proof fn lemma_walk_target_keeps_margin(t: Point, monitor: MonitorSize, margin: u32)
    requires
        in_walk_area(t, monitor, margin),
        monitor.width > 2 * margin,
        monitor.height > 2 * margin,
    ensures
        margin <= t.x < monitor.width - margin,
        margin <= t.y < monitor.height - margin,
{
}

/// Whether a monitor can be walked on: it has pixels on both axes.
pub open spec fn is_walkable(monitor: MonitorSize) -> bool {
    0 < monitor.width && 0 < monitor.height
}

pub fn walkable(monitor: MonitorSize) -> (r: bool)
    ensures
        r == is_walkable(monitor),
{
    0 < monitor.width && 0 < monitor.height
}

/// Draws a walk target on `monitor`. On a monitor wider or taller than an
/// `i32` reaches, a coordinate past `i32::MAX` is held at `i32::MAX`.
pub fn random_walk_target(rng: &mut StdRng, monitor: MonitorSize) -> (t: Point)
    requires
        is_walkable(monitor),
    ensures
        in_walk_area(t, monitor, WALK_MARGIN),
{
    let (x_lo, x_hi) = walk_range(monitor.width, WALK_MARGIN);
    let (y_lo, y_hi) = walk_range(monitor.height, WALK_MARGIN);
    let x = random_in(rng, x_lo, x_hi);
    let y = random_in(rng, y_lo, y_hi);
    Point { x: clamp_to_i32(x as i64), y: clamp_to_i32(y as i64) }
}

/// Picks the next state: a kind other than the current one, each equally
/// likely, and for a walk a target inside the walk area of `monitor`.
pub fn random_state(current: &BonnieState, rng: &mut StdRng, monitor: MonitorSize) -> (r:
    BonnieState)
    requires
        is_walkable(monitor),
    ensures
        r.kind_of() != current.kind_of(),
        r matches BonnieState::Walking(t) ==> in_walk_area(t, monitor, WALK_MARGIN),
{
    let candidates = other_kinds(current.kind());
    let picked = choose_from(rng, &candidates);
    let kind = match picked {
        Some(k) => k,
        None => StateKind::Idle,
    };
    match kind {
        StateKind::Walking => BonnieState::Walking(random_walk_target(rng, monitor)),
        _ => BonnieState::from(kind),
    }
}

} // verus!
