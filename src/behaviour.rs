//! What each state does on entry and on every frame, and how clicks on the
//! transient windows are handled.

use crate::bonnie::{Bonnie, MachineOp, StateMachine, Timer};
use crate::geometry::{clamp_i32, dist_sq, MonitorSize, Point};
use crate::movement::{
    arrives, calculate_movement_speed, lemma_steer_no_overshoot, movement_speed, steer, steer_to,
    to_whole_pixels, travel, whole_pixels,
};
use crate::random::random_in;
use crate::state::{
    in_walk_area, is_walkable, random_state, walkable, BonnieState, StateKind, WALK_MARGIN,
};
use rand::rngs::StdRng;
use vstd::prelude::*;

verus! {

/// Shortest countdown drawn after a change of state, in microseconds.
pub const TIMER_MIN_US: u32 = 1_000_000;

/// Bound (exclusive) of the countdown drawn after a change of state, in microseconds.
pub const TIMER_MAX_US: u32 = 4_000_000;

/// Draws the countdown for a new state.
pub fn random_timer_duration(rng: &mut StdRng) -> (r: u64)
    ensures
        TIMER_MIN_US <= r < TIMER_MAX_US,
{
    random_in(rng, TIMER_MIN_US, TIMER_MAX_US) as u64
}

/// Commits a change of state: the actor takes `new_state` and the countdown
/// starts again with `duration_us`.
pub fn commit_transition(
    machine: &mut StateMachine,
    bonnie: &mut Bonnie,
    new_state: BonnieState,
    duration_us: u64,
)
    ensures
        final(bonnie).state == new_state,
        *final(machine) == old(machine).after(MachineOp::Reset(duration_us)),
{
    bonnie.state = new_state;
    machine.timer.reset(duration_us);
}

/// Whether the transition loop changes state this frame, given the machine
/// after its tick: the machine must be due and the monitor known, with pixels.
pub open spec fn fires(ticked: StateMachine, monitor: Option<MonitorSize>) -> bool {
    &&& ticked.is_due()
    &&& monitor matches Some(m)
    &&& is_walkable(m)
}

/// Runs once per frame: ticks the machine by `delta_us` and, when it is open
/// and run out, moves the actor to a random other state and restarts the
/// countdown with a random duration. Returns the new state, if any. A frame
/// without a usable monitor changes nothing but the tick.
pub fn handle_state_transitions(
    machine: &mut StateMachine,
    bonnie: &mut Bonnie,
    delta_us: u64,
    monitor: Option<MonitorSize>,
    rng: &mut StdRng,
) -> (r: Option<BonnieState>)
    ensures
        ({
            let ticked = old(machine).after(MachineOp::Tick(delta_us));
            if fires(ticked, monitor) {
                &&& r == Some(final(bonnie).state)
                &&& final(bonnie).state.kind_of() != old(bonnie).state.kind_of()
                &&& (final(bonnie).state matches BonnieState::Walking(t) ==> in_walk_area(
                    t,
                    monitor.unwrap(),
                    WALK_MARGIN,
                ))
                &&& final(machine).can_change
                &&& final(machine).timer == Timer::started(final(machine).timer.duration_us)
                &&& TIMER_MIN_US <= final(machine).timer.duration_us < TIMER_MAX_US
            } else {
                &&& r is None
                &&& *final(machine) == ticked
                &&& *final(bonnie) == *old(bonnie)
                &&& *final(rng) == *old(rng)
            }
        }),
{
    machine.timer.tick(delta_us);
    if !machine.is_due_now() {
        return None;
    }
    let m = match monitor {
        Some(m) => m,
        None => {
            return None;
        },
    };
    if !walkable(m) {
        return None;
    }
    let new_state = random_state(&bonnie.state, rng, m);
    let duration = random_timer_duration(rng);
    commit_transition(machine, bonnie, new_state, duration);
    Some(new_state)
}

/// Offset from the actor window's position to the actor's centre, x.
pub const CENTER_OFFSET_X: i32 = 90;

/// Offset from the actor window's position to the actor's centre, y.
pub const CENTER_OFFSET_Y: i32 = 147;

/// An idle actor wakes when the pointer comes closer than this, in pixels.
pub const IDLE_WAKE_RADIUS: u32 = 70;

/// A chase ends when the pointer is closer than this, in pixels.
pub const CHASE_CATCH_RADIUS: u32 = 35;

/// Whether the actor's centre, for a window at `window_pos`, lies closer
/// than `radius` to `cursor`.
pub open spec fn is_near(window_pos: Point, cursor: Point, radius: int) -> bool {
    let dx = window_pos.x + CENTER_OFFSET_X - cursor.x;
    let dy = window_pos.y + CENTER_OFFSET_Y - cursor.y;
    dx * dx + dy * dy < radius * radius
}

pub fn cursor_within(window_pos: Point, cursor: Point, radius: u32) -> (r: bool)
    ensures
        r == is_near(window_pos, cursor, radius as int),
{
    let dx: i128 = window_pos.x as i128 + CENTER_OFFSET_X as i128 - cursor.x as i128;
    let dy: i128 = window_pos.y as i128 + CENTER_OFFSET_Y as i128 - cursor.y as i128;
    let rad: i128 = radius as i128;
    assert(0 <= dx * dx < 0x4_0000_0000_0000_0000 && 0 <= dy * dy < 0x4_0000_0000_0000_0000 && 0
        <= rad * rad < 0x1_0000_0000_0000_0000)
        by (nonlinear_arith)
        requires
            -0x2_0000_0000 < dx < 0x2_0000_0000,
            -0x2_0000_0000 < dy < 0x2_0000_0000,
            0 <= rad <= 0xffff_ffff,
    ;
    dx * dx + dy * dy < rad * rad
}

/// Whether the actor is in a state of kind `kind` and the pointer is known
/// and closer than `radius` to its centre.
pub open spec fn pointer_caught(
    state: BonnieState,
    kind: StateKind,
    window_pos: Option<Point>,
    cursor: Option<Point>,
    radius: int,
) -> bool {
    &&& state.kind_of() == kind
    &&& window_pos matches Some(p)
    &&& cursor matches Some(c)
    &&& is_near(p, c, radius)
}

fn finish_when_near(
    machine: &mut StateMachine,
    state: &BonnieState,
    kind: StateKind,
    window_pos: Option<Point>,
    cursor: Option<Point>,
    radius: u32,
)
    ensures
        *final(machine) == if pointer_caught(*state, kind, window_pos, cursor, radius as int) {
            old(machine).after(MachineOp::Finish)
        } else {
            *old(machine)
        },
{
    if state.kind() == kind {
        if let Some(p) = window_pos {
            if let Some(c) = cursor {
                if cursor_within(p, c, radius) {
                    machine.finish();
                }
            }
        }
    }
}

/// An idle actor wakes up, finishing the machine, when the pointer comes near.
pub fn handle_idling(
    machine: &mut StateMachine,
    state: &BonnieState,
    window_pos: Option<Point>,
    cursor: Option<Point>,
)
    ensures
        *final(machine) == if pointer_caught(
            *state,
            StateKind::Idle,
            window_pos,
            cursor,
            IDLE_WAKE_RADIUS as int,
        ) {
            old(machine).after(MachineOp::Finish)
        } else {
            *old(machine)
        },
{
    finish_when_near(machine, state, StateKind::Idle, window_pos, cursor, IDLE_WAKE_RADIUS);
}

/// A chase ends, finishing the machine, once the pointer is caught.
pub fn handle_chasing(
    machine: &mut StateMachine,
    state: &BonnieState,
    window_pos: Option<Point>,
    cursor: Option<Point>,
)
    ensures
        *final(machine) == if pointer_caught(
            *state,
            StateKind::Chasing,
            window_pos,
            cursor,
            CHASE_CATCH_RADIUS as int,
        ) {
            old(machine).after(MachineOp::Finish)
        } else {
            *old(machine)
        },
{
    finish_when_near(machine, state, StateKind::Chasing, window_pos, cursor, CHASE_CATCH_RADIUS);
}

/// What entering a state does to the machine: states that end on a condition
/// of their own close it; one-shot states finish it at once.
pub open spec fn entered(machine: StateMachine, k: StateKind) -> StateMachine {
    match k {
        StateKind::Walking | StateKind::Chasing | StateKind::Teaching => machine.after(
            MachineOp::Block,
        ),
        StateKind::Pooping | StateKind::Meowing | StateKind::Bird | StateKind::Scratch => machine.after(
            MachineOp::Finish,
        ),
        StateKind::Idle => machine,
    }
}

/// Applies to the machine what entering `state` does to it.
pub fn enter_state(machine: &mut StateMachine, state: &BonnieState)
    ensures
        *final(machine) == entered(*old(machine), state.kind_of()),
{
    match state {
        BonnieState::Walking(_) | BonnieState::Chasing | BonnieState::Teaching => machine.block(),
        BonnieState::Pooping | BonnieState::Meowing | BonnieState::Bird | BonnieState::Scratch => {
            machine.finish()
        },
        BonnieState::Idle => {},
    }
}

/// The role of a transient window, which decides what a click on it does.
#[derive(Clone, Copy, Debug, PartialEq, Eq, Structural, Hash)]
pub enum WindowRole {
    Poop,
    Teach,
    Observer,
    Bird,
    Scratch,
}

/// What the windowing layer is to do after a click.
#[derive(Clone, Copy, Debug, PartialEq, Eq, Structural)]
pub struct CloseEffects {
    /// Close the window that was clicked.
    pub despawn_window: bool,
    /// Close the small observer window that accompanies a teaching popup.
    pub despawn_observer: bool,
    /// Remove what the teaching popup showed, ready for the next image.
    pub clear_teach_layer: bool,
    /// Play the munching sound.
    pub play_munch: bool,
}

/// Whether a left click closes a window of this role.
pub open spec fn closes_on_click(role: WindowRole) -> bool {
    role is Poop || role is Teach || role is Bird
}

pub open spec fn close_effects(role: WindowRole, left_press: bool) -> CloseEffects {
    let closes = left_press && closes_on_click(role);
    CloseEffects {
        despawn_window: closes,
        despawn_observer: closes && role is Teach,
        clear_teach_layer: closes && role is Teach,
        play_munch: closes && role is Poop,
    }
}

/// Handles a mouse press on a transient window. A left press closes a poop,
/// teaching or bird window; closing the teaching popup also finishes the machine.
pub fn handle_window_click(machine: &mut StateMachine, role: WindowRole, left_press: bool) -> (r:
    CloseEffects)
    ensures
        r == close_effects(role, left_press),
        *final(machine) == if left_press && role is Teach {
            old(machine).after(MachineOp::Finish)
        } else {
            *old(machine)
        },
{
    let closes = left_press && match role {
        WindowRole::Poop | WindowRole::Teach | WindowRole::Bird => true,
        WindowRole::Observer | WindowRole::Scratch => false,
    };
    let teach = match role {
        WindowRole::Teach => true,
        _ => false,
    };
    let poop = match role {
        WindowRole::Poop => true,
        _ => false,
    };
    if closes && teach {
        machine.finish();
    }
    CloseEffects {
        despawn_window: closes,
        despawn_observer: closes && teach,
        clear_teach_layer: closes && teach,
        play_munch: closes && poop,
    }
}

/// Where a chasing actor's window heads: so that its centre meets the pointer.
pub open spec fn chase_target(cursor: Point) -> Point {
    Point { x: clamp_i32(cursor.x - CENTER_OFFSET_X), y: clamp_i32(cursor.y - CENTER_OFFSET_Y) }
}

/// Where the actor's window is heading in `state`, if anywhere: a walk goes
/// to its target, a chase to the pointer while its position is known.
pub open spec fn movement_target(state: BonnieState, cursor: Option<Point>) -> Option<Point> {
    match state {
        BonnieState::Walking(t) => Some(t),
        BonnieState::Chasing => match cursor {
            Some(c) => Some(chase_target(c)),
            None => None,
        },
        _ => None,
    }
}

/// Moves the actor's window one frame toward where its state is heading.
/// Returns the new window position, or `None` where there is nowhere to go
/// this frame. On arrival the machine is opened and finished.
pub fn handle_movement(
    machine: &mut StateMachine,
    state: &BonnieState,
    window_pos: Point,
    cursor: Option<Point>,
    monitor: MonitorSize,
    elapsed_us: u64,
) -> (r: Option<Point>)
    ensures
        match movement_target(*state, cursor) {
            None => r is None && *final(machine) == *old(machine),
            Some(t) => {
                let p = movement_speed(monitor, state.kind_of()) * elapsed_us;
                &&& r == Some(steer_to(window_pos, t, p))
                &&& (p > 0 && window_pos != t) ==> dist_sq(steer_to(window_pos, t, p), t) < dist_sq(
                    window_pos,
                    t,
                )
                &&& *final(machine) == if arrives(window_pos, t, p) {
                    old(machine).after(MachineOp::Unblock).after(MachineOp::Finish)
                } else {
                    *old(machine)
                }
            },
        },
{
    let target = match state {
        BonnieState::Walking(t) => *t,
        BonnieState::Chasing => match cursor {
            Some(c) => c.offset(-CENTER_OFFSET_X, -CENTER_OFFSET_Y),
            None => {
                return None;
            },
        },
        _ => {
            return None;
        },
    };
    let speed = calculate_movement_speed(monitor, state);
    let p = travel(speed, elapsed_us);
    let (next, arrived) = steer(window_pos, target, p);
    proof {
        lemma_steer_no_overshoot(window_pos, target, p as int);
    }
    if arrived {
        machine.unblock();
        machine.finish();
    }
    Some(next)
}

/// Offset from the actor's window to where the teaching popup settles, x.
pub const TEACH_POPUP_OFFSET_X: i32 = -170;

/// Offset from the actor's window to where the teaching popup settles, y.
pub const TEACH_POPUP_OFFSET_Y: i32 = 200;

/// Where the teaching popup first appears, off screen, x.
pub const TEACH_POPUP_START_X: i32 = -1000;

/// Where the teaching popup first appears, y.
pub const TEACH_POPUP_START_Y: i32 = 300;

/// Offset from the actor's window to the observer window, on both axes.
pub const OBSERVER_OFFSET: i32 = 140;

pub open spec fn teach_popup_target(actor_pos: Point) -> Point {
    Point {
        x: clamp_i32(actor_pos.x + TEACH_POPUP_OFFSET_X),
        y: clamp_i32(actor_pos.y + TEACH_POPUP_OFFSET_Y),
    }
}

/// Where the small observer window of a teaching session is placed.
pub fn observer_position(actor_pos: Point) -> (r: Point)
    ensures
        r.x == clamp_i32(actor_pos.x + OBSERVER_OFFSET),
        r.y == clamp_i32(actor_pos.y + OBSERVER_OFFSET),
{
    actor_pos.offset(OBSERVER_OFFSET, OBSERVER_OFFSET)
}

/// Moves the teaching popup one frame toward its place beside the actor,
/// which may itself be moving.
pub fn handle_teaching(popup_pos: Point, actor_pos: Point, monitor: MonitorSize, elapsed_us: u64) -> (r:
    Point)
    ensures
        r == steer_to(
            popup_pos,
            teach_popup_target(actor_pos),
            movement_speed(monitor, StateKind::Teaching) * elapsed_us,
        ),
        (movement_speed(monitor, StateKind::Teaching) * elapsed_us > 0 && popup_pos
            != teach_popup_target(actor_pos)) ==> dist_sq(r, teach_popup_target(actor_pos))
            < dist_sq(popup_pos, teach_popup_target(actor_pos)),
{
    let target = actor_pos.offset(TEACH_POPUP_OFFSET_X, TEACH_POPUP_OFFSET_Y);
    let speed = calculate_movement_speed(monitor, &BonnieState::Teaching);
    let p = travel(speed, elapsed_us);
    let (next, _) = steer(popup_pos, target, p);
    proof {
        lemma_steer_no_overshoot(popup_pos, target, p as int);
    }
    next
}

/// A bird turns around when it comes closer than this to an edge, in pixels.
pub const BIRD_EDGE_BUFFER: i32 = 80;

/// Where a bird starts, on both axes.
pub const BIRD_START: i32 = 100;

/// A bird flying across the screen, bouncing off its edges.
#[derive(Clone, Copy, Debug, PartialEq, Eq, Structural)]
pub struct Bird {
    pub position: Point,
    /// The sign of its motion on each axis.
    pub direction: Point,
}

/// The direction on one axis after a bounce: toward the inside near an edge.
pub open spec fn bounce(pos: int, dir: int, extent: int) -> int {
    if pos < BIRD_EDGE_BUFFER {
        1
    } else if pos + BIRD_EDGE_BUFFER > extent {
        -1
    } else {
        dir
    }
}

fn bounce_axis(pos: i32, dir: i32, extent: u32) -> (r: i32)
    ensures
        r == bounce(pos as int, dir as int, extent as int),
{
    if pos < BIRD_EDGE_BUFFER {
        1
    } else if pos as i64 + BIRD_EDGE_BUFFER as i64 > extent as i64 {
        -1
    } else {
        dir
    }
}

fn advance_axis(pos: i32, dir: i32, step: u128) -> (r: i32)
    ensures
        r == clamp_i32(pos + dir * step),
{
    let s: i128 = if step > 0x1_0000_0000_0000_0000 {
        0x1_0000_0000_0000_0000
    } else {
        step as i128
    };
    assert(-0x1_0000_0000_0000_0000_0000_0000 <= dir * s <= 0x1_0000_0000_0000_0000_0000_0000)
        by (nonlinear_arith)
        requires
            -0x8000_0000 <= dir < 0x8000_0000,
            0 <= s <= 0x1_0000_0000_0000_0000,
    ;
    let v: i128 = pos as i128 + dir as i128 * s;
    assert(clamp_i32(v as int) == clamp_i32(pos + dir * step)) by (nonlinear_arith)
        requires
            v == pos + dir * s,
            s == step || (s == 0x1_0000_0000_0000_0000 && step > s),
            -0x8000_0000 <= pos < 0x8000_0000,
            -0x8000_0000 <= dir < 0x8000_0000,
    ;
    if v < i32::MIN as i128 {
        i32::MIN
    } else if v > i32::MAX as i128 {
        i32::MAX
    } else {
        v as i32
    }
}

impl Bird {
    /// A bird as it is spawned: near the top left corner, heading down and right.
    pub fn new() -> (b: Bird)
        ensures
            b.position == (Point { x: BIRD_START, y: BIRD_START }),
            b.direction == (Point { x: 1, y: 1 }),
    {
        Bird { position: Point { x: BIRD_START, y: BIRD_START }, direction: Point { x: 1, y: 1 } }
    }

    /// The bird after one frame: it turns away from any edge it is near,
    /// then moves along its direction by one frame's step at bird speed.
    pub open spec fn flown(self, monitor: MonitorSize, elapsed_us: int) -> Bird {
        let dx = bounce(self.position.x as int, self.direction.x as int, monitor.width as int);
        let dy = bounce(self.position.y as int, self.direction.y as int, monitor.height as int);
        let step = whole_pixels(movement_speed(monitor, StateKind::Bird) * elapsed_us);
        Bird {
            position: Point {
                x: clamp_i32(self.position.x + dx * step),
                y: clamp_i32(self.position.y + dy * step),
            },
            direction: Point { x: dx as i32, y: dy as i32 },
        }
    }

    /// Advances the bird by one frame.
    pub fn update(&mut self, monitor: MonitorSize, elapsed_us: u64)
        ensures
            *final(self) == old(self).flown(monitor, elapsed_us as int),
    {
        let dx = bounce_axis(self.position.x, self.direction.x, monitor.width);
        let dy = bounce_axis(self.position.y, self.direction.y, monitor.height);
        let speed = calculate_movement_speed(monitor, &BonnieState::Bird);
        let step = to_whole_pixels(travel(speed, elapsed_us));
        self.direction = Point { x: dx, y: dy };
        self.position = Point {
            x: advance_axis(self.position.x, dx, step),
            y: advance_axis(self.position.y, dy, step),
        };
    }
}

/// Pixels the debug arrow keys move the actor's window per frame.
pub const NUDGE_PIXELS: i32 = 10;

/// Which arrow keys are held.
#[derive(Clone, Copy, Debug, PartialEq, Eq, Structural)]
pub struct ArrowKeys {
    pub left: bool,
    pub right: bool,
    pub up: bool,
    pub down: bool,
}

pub open spec fn key_delta(minus: bool, plus: bool) -> int {
    (if plus {
        NUDGE_PIXELS as int
    } else {
        0
    }) - (if minus {
        NUDGE_PIXELS as int
    } else {
        0
    })
}

/// The actor's window position after one frame of the debug arrow keys.
pub fn move_window(pos: Point, keys: ArrowKeys) -> (r: Point)
    ensures
        r.x == clamp_i32(pos.x + key_delta(keys.left, keys.right)),
        r.y == clamp_i32(pos.y + key_delta(keys.up, keys.down)),
{
    let mut dx: i32 = 0;
    let mut dy: i32 = 0;
    if keys.left {
        dx = dx - NUDGE_PIXELS;
    }
    if keys.right {
        dx = dx + NUDGE_PIXELS;
    }
    if keys.up {
        dy = dy - NUDGE_PIXELS;
    }
    if keys.down {
        dy = dy + NUDGE_PIXELS;
    }
    pos.offset(dx, dy)
}

} // verus!
