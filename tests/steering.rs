use bonnie_buddy::geometry::{isqrt, product_le, wide_mul, MonitorSize, Point};
use bonnie_buddy::movement::{
    calculate_movement_speed, steer, to_whole_pixels, travel, TRAVEL_UNITS_PER_PIXEL,
};
use bonnie_buddy::state::BonnieState;

const Q: u128 = TRAVEL_UNITS_PER_PIXEL;

fn p(x: i32, y: i32) -> Point {
    Point { x, y }
}

fn d2(a: Point, b: Point) -> i64 {
    let dx = b.x as i64 - a.x as i64;
    let dy = b.y as i64 - a.y as i64;
    dx * dx + dy * dy
}

#[test]
fn isqrt_values() {
    assert_eq!(isqrt(0), 0);
    assert_eq!(isqrt(1), 1);
    assert_eq!(isqrt(3), 1);
    assert_eq!(isqrt(4), 2);
    assert_eq!(isqrt(4_852_800), 2202);
    assert_eq!(isqrt(u128::MAX), u64::MAX as u128);
}

#[test]
fn wide_products() {
    assert_eq!(wide_mul(0, u128::MAX), (0, 0));
    assert_eq!(wide_mul(u128::MAX, u128::MAX), (u128::MAX - 1, 1));
    assert_eq!(wide_mul(1 << 64, 1 << 64), (1, 0));
    assert_eq!(wide_mul(3, 5), (0, 15));
    assert!(product_le(u128::MAX, 2, u128::MAX, 2));
    assert!(!product_le(u128::MAX, 3, u128::MAX - 1, 3));
    assert!(product_le(1 << 100, 1 << 100, 1 << 101, 1 << 100));
    assert!(!product_le(7, 6, 5, 8));
}

#[test]
fn speed_per_state() {
    let m = MonitorSize { width: 1920, height: 1080 };
    assert_eq!(calculate_movement_speed(m, &BonnieState::Idle), 66_060);
    assert_eq!(calculate_movement_speed(m, &BonnieState::Walking(p(1, 1))), 66_060);
    assert_eq!(calculate_movement_speed(m, &BonnieState::Chasing), 132_120);
    assert_eq!(calculate_movement_speed(m, &BonnieState::Teaching), 198_180);
    assert_eq!(calculate_movement_speed(m, &BonnieState::Bird), 99_090);
    let big = MonitorSize { width: u32::MAX, height: u32::MAX };
    assert!(calculate_movement_speed(big, &BonnieState::Teaching) > 0);
}

#[test]
fn speed_ratios_are_exact() {
    let m = MonitorSize { width: 2560, height: 1440 };
    let walk = calculate_movement_speed(m, &BonnieState::Walking(p(0, 0)));
    assert_eq!(calculate_movement_speed(m, &BonnieState::Chasing), 2 * walk);
    assert_eq!(calculate_movement_speed(m, &BonnieState::Teaching), 3 * walk);
    assert_eq!(2 * calculate_movement_speed(m, &BonnieState::Bird), 3 * walk);
    let small = MonitorSize { width: 3, height: 4 };
    let large = MonitorSize { width: 300, height: 400 };
    assert_eq!(calculate_movement_speed(small, &BonnieState::Idle), 150);
    assert_eq!(
        calculate_movement_speed(large, &BonnieState::Idle),
        100 * calculate_movement_speed(small, &BonnieState::Idle)
    );
    assert_eq!(calculate_movement_speed(MonitorSize { width: 0, height: 0 }, &BonnieState::Idle), 0);
}

#[test]
fn travel_and_whole_pixels() {
    assert_eq!(travel(66_060, 1_000_000), 66_060_000_000);
    assert_eq!(travel(u64::MAX, u64::MAX), u64::MAX as u128 * u64::MAX as u128);
    assert_eq!(to_whole_pixels(330 * Q), 330);
    assert_eq!(to_whole_pixels(Q / 2), 1);
    assert_eq!(to_whole_pixels(Q / 2 - 1), 1);
    assert_eq!(to_whole_pixels(3 * Q / 2 - 1), 1);
    assert_eq!(to_whole_pixels(3 * Q / 2), 2);
    assert_eq!(to_whole_pixels(1), 1);
    assert_eq!(to_whole_pixels(0), 0);
    assert_eq!(to_whole_pixels(u128::MAX), u128::MAX / Q + 1);
}

#[test]
fn steer_snaps_when_step_reaches_target() {
    assert_eq!(steer(p(500, 500), p(510, 500), 20 * Q), (p(510, 500), true));
    assert_eq!(steer(p(0, 0), p(3, 4), 5 * Q), (p(3, 4), true));
    assert_eq!(steer(p(7, 7), p(7, 7), 0), (p(7, 7), true));
    assert_eq!(steer(p(0, 0), p(i32::MAX, i32::MIN), u128::MAX), (p(i32::MAX, i32::MIN), true));
    // sqrt(5) = 2.236 is within a step of 2.4 pixels, not within one of 2.2
    assert_eq!(steer(p(0, 0), p(2, 1), 12 * Q / 5), (p(2, 1), true));
    assert!(!steer(p(0, 0), p(2, 1), 11 * Q / 5).1);
}

#[test]
fn steer_rounds_against_the_exact_length() {
    assert_eq!(steer(p(0, 0), p(3, 3), 2 * Q), (p(1, 1), false));
    assert_eq!(steer(p(0, 0), p(100, 0), 10 * Q), (p(10, 0), false));
    assert_eq!(steer(p(0, 0), p(-100, 0), 10 * Q), (p(-10, 0), false));
    assert_eq!(steer(p(0, 0), p(3, 4), 2 * Q), (p(1, 2), false));
    assert_eq!(steer(p(10, 10), p(10, -90), 25 * Q), (p(10, -15), false));
    assert_eq!(steer(p(0, 0), p(30, 40), 10 * Q), (p(6, 8), false));
    assert_eq!(steer(p(0, 0), p(100, 0), 10 * Q + Q / 2), (p(11, 0), false));
    assert_eq!(steer(p(0, 0), p(100, 0), 10 * Q + Q / 2 - 1), (p(10, 0), false));
}

#[test]
fn steer_never_overshoots() {
    let targets = [p(0, 0), p(13, -7), p(-250, 40), p(1000, 1000), p(-3, -3)];
    let starts = [p(0, 0), p(1, 1), p(-400, 90), p(999, -999), p(20, 20)];
    for &t in &targets {
        for &c in &starts {
            for travel in [0u128, 1, Q / 3, Q, 2 * Q, 3 * Q + 7, 20 * Q, 100 * Q, 5000 * Q] {
                let (n, arrived) = steer(c, t, travel);
                if arrived {
                    assert_eq!(n, t);
                }
                let (rx0, ry0) = (t.x as i64 - c.x as i64, t.y as i64 - c.y as i64);
                let (rx1, ry1) = (t.x as i64 - n.x as i64, t.y as i64 - n.y as i64);
                assert!(rx1.abs() <= rx0.abs() && rx1 * rx0 >= 0);
                assert!(ry1.abs() <= ry0.abs() && ry1 * ry0 >= 0);
                assert!(d2(c, n) <= d2(c, t));
                assert!(d2(n, t) <= d2(c, t));
                if travel > 0 && c != t {
                    assert!(d2(n, t) < d2(c, t));
                }
            }
        }
    }
}

#[test]
fn steer_short_step_moves_one_pixel() {
    assert_eq!(steer(p(0, 0), p(50, 49), Q / 10), (p(1, 0), false));
    assert_eq!(steer(p(0, 0), p(49, -50), 1), (p(0, -1), false));
    assert_eq!(steer(p(0, 0), p(50, 49), 0), (p(0, 0), false));
}
