use bonnie_buddy::geometry::{MonitorSize, Point};
use bonnie_buddy::state::{
    other_kinds, random_state, random_walk_target, walk_range, walkable, BonnieState, StateKind,
    WALK_MARGIN,
};
use rand::rngs::StdRng;
use rand::SeedableRng;

fn all_states() -> Vec<BonnieState> {
    vec![
        BonnieState::Idle,
        BonnieState::Walking(Point { x: 400, y: 300 }),
        BonnieState::Pooping,
        BonnieState::Chasing,
        BonnieState::Teaching,
        BonnieState::Meowing,
        BonnieState::Bird,
        BonnieState::Scratch,
    ]
}

#[test]
fn other_kinds_skips_current_in_order() {
    let r = other_kinds(StateKind::Chasing);
    assert_eq!(
        r,
        vec![
            StateKind::Idle,
            StateKind::Walking,
            StateKind::Pooping,
            StateKind::Teaching,
            StateKind::Meowing,
            StateKind::Bird,
            StateKind::Scratch,
        ]
    );
    let r = other_kinds(StateKind::Idle);
    assert_eq!(r.len(), 7);
    assert_eq!(r[0], StateKind::Walking);
    assert_eq!(r[6], StateKind::Scratch);
}

#[test]
fn kind_round_trip() {
    for i in 0..8u8 {
        let k = StateKind::from_index(i);
        assert_eq!(k.position(), i);
        assert_eq!(BonnieState::from(k).kind(), k);
    }
    assert_eq!(BonnieState::from(StateKind::Walking), BonnieState::Walking(Point { x: 0, y: 0 }));
}

#[test]
fn random_state_never_repeats_the_kind() {
    let monitor = MonitorSize { width: 1920, height: 1080 };
    let mut rng = StdRng::seed_from_u64(7);
    for s in all_states() {
        for _ in 0..200 {
            let next = random_state(&s, &mut rng, monitor);
            assert_ne!(next.kind(), s.kind());
        }
    }
}

#[test]
fn random_state_reaches_every_other_kind() {
    let monitor = MonitorSize { width: 1920, height: 1080 };
    let mut rng = StdRng::seed_from_u64(11);
    let mut seen = [false; 8];
    for _ in 0..2000 {
        let next = random_state(&BonnieState::Idle, &mut rng, monitor);
        seen[next.kind().position() as usize] = true;
    }
    assert!(!seen[0]);
    assert!(seen[1..].iter().all(|b| *b));
}

#[test]
fn walk_targets_keep_the_margin() {
    let monitor = MonitorSize { width: 1920, height: 1080 };
    let mut rng = StdRng::seed_from_u64(3);
    let mut walks = 0;
    for _ in 0..2000 {
        if let BonnieState::Walking(t) = random_state(&BonnieState::Idle, &mut rng, monitor) {
            walks += 1;
            assert!(150 <= t.x && t.x < 1770);
            assert!(150 <= t.y && t.y < 930);
        }
    }
    assert!(walks > 0);
    for _ in 0..500 {
        let t = random_walk_target(&mut rng, monitor);
        assert!(150 <= t.x && t.x < 1770);
        assert!(150 <= t.y && t.y < 930);
    }
}

#[test]
fn walk_range_values() {
    assert_eq!(walk_range(1920, WALK_MARGIN), (150, 1770));
    assert_eq!(walk_range(1080, 150), (150, 930));
    assert_eq!(walk_range(300, 150), (0, 300));
    assert_eq!(walk_range(301, 150), (150, 151));
    assert_eq!(walk_range(302, 150), (150, 152));
    assert_eq!(walk_range(303, 150), (150, 153));
    assert_eq!(walk_range(100, 150), (0, 100));
    assert_eq!(walk_range(0, 150), (0, 0));
}

#[test]
fn small_monitor_falls_back_to_whole_axis() {
    let (lo, hi) = walk_range(300, 150);
    assert_eq!((lo, hi), (0, 300));
    let monitor = MonitorSize { width: 300, height: 300 };
    let mut rng = StdRng::seed_from_u64(5);
    let mut below_margin = false;
    for _ in 0..500 {
        let t = random_walk_target(&mut rng, monitor);
        assert!(0 <= t.x && t.x < 300);
        assert!(0 <= t.y && t.y < 300);
        if t.x < 150 || t.y < 150 {
            below_margin = true;
        }
    }
    assert!(below_margin);
}

#[test]
fn walkable_monitors() {
    assert!(walkable(MonitorSize { width: 1920, height: 1080 }));
    assert!(!walkable(MonitorSize { width: 0, height: 1080 }));
    assert!(!walkable(MonitorSize { width: 1920, height: 0 }));
    assert!(walkable(MonitorSize { width: 3_000_000_000, height: 1080 }));
}

#[test]
fn huge_monitor_targets_fit_i32() {
    let monitor = MonitorSize { width: u32::MAX, height: u32::MAX };
    let mut rng = StdRng::seed_from_u64(13);
    for _ in 0..200 {
        let t = random_walk_target(&mut rng, monitor);
        assert!(t.x >= 150 && t.y >= 150);
        let next = random_state(&BonnieState::Walking(t), &mut rng, monitor);
        assert_ne!(next.kind(), StateKind::Walking);
    }
}
