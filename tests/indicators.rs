use trading_system::{
    directional_index, directional_move, AverageDirectionalMovementIndex, MaxmimumInRange,
    MinimumInRange, ONE,
};

fn lcg(state: &mut u64) -> i64 {
    *state = state.wrapping_mul(6364136223846793005).wrapping_add(1442695040888963407);
    ((*state >> 33) % 41) as i64 - 20
}

fn oracle(history: &[i64], far: usize, near: usize, want_max: bool) -> i64 {
    let n = history.len();
    let lo = n.saturating_sub(far);
    let hi = n.saturating_sub(near);
    let w = &history[lo..hi];
    if n < far || w.is_empty() {
        0
    } else if want_max {
        *w.iter().max().unwrap()
    } else {
        *w.iter().min().unwrap()
    }
}

#[test]
fn max_in_range_sequence() {
    let mut mir = MaxmimumInRange::new(4, 2);
    let inputs = [1, 2, 3, 4, 2, 3, 1, -1, 10, 5, 4, -7];
    let expected = [0, 0, 0, 2, 3, 4, 4, 3, 3, 1, 10, 10];
    for (x, e) in inputs.iter().zip(expected.iter()) {
        assert_eq!(mir.next(*x), *e);
    }
}

#[test]
fn min_in_range_sequence() {
    let mut mir = MinimumInRange::new(4, 2);
    let inputs = [1, 2, 3, 4, 2, 3, 1, -1, 10, 5, 4, -7];
    let expected = [0, 0, 0, 1, 2, 3, 2, 2, 1, -1, -1, 5];
    for (x, e) in inputs.iter().zip(expected.iter()) {
        assert_eq!(mir.next(*x), *e);
    }
}

#[test]
fn max_in_range_without_gap() {
    let mut mir = MaxmimumInRange::new(3, 0);
    let inputs = [1, 2, 7, 4, -10, 3, 2];
    let expected = [0, 0, 7, 7, 7, 4, 3];
    for (x, e) in inputs.iter().zip(expected.iter()) {
        assert_eq!(mir.next(*x), *e);
    }
}

#[test]
fn extremes_match_brute_force() {
    for far in 1..7usize {
        for near in 0..far {
            let mut seed = (far * 31 + near) as u64;
            let mut mx = MaxmimumInRange::new(far as u64, near as u64);
            let mut mn = MinimumInRange::new(far as u64, near as u64);
            let mut history = Vec::new();
            for _ in 0..60 {
                let x = lcg(&mut seed);
                history.push(x);
                assert_eq!(mx.next(x), oracle(&history, far, near, true));
                assert_eq!(mn.next(x), oracle(&history, far, near, false));
            }
        }
    }
}

#[test]
fn directional_move_takes_the_larger_side() {
    let up = directional_move(12, 10, 9, 8);
    assert_eq!((up.plus, up.minus), (2, 0));
    let up = directional_move(15, 10, 9, 8);
    assert_eq!((up.plus, up.minus), (5, 0));
    let down = directional_move(11, 10, 9, 3);
    assert_eq!((down.plus, down.minus), (0, 6));
    let flat = directional_move(9, 10, 9, 10);
    assert_eq!((flat.plus, flat.minus), (0, 0));
}

#[test]
fn directional_index_values() {
    assert_eq!(directional_index(3, 1), 50_000_000);
    assert_eq!(directional_index(1, 3), 50_000_000);
    assert_eq!(directional_index(5, 0), ONE as u64);
    assert_eq!(directional_index(2, 2), 0);
    assert_eq!(directional_index(0, 0), 0);
    assert_eq!(directional_index(u64::MAX, 0), ONE as u64);
}

#[test]
fn directional_index_stays_within_one() {
    let mut seed = 7u64;
    for _ in 0..500 {
        let a = (lcg(&mut seed) + 20) as u64 * 1_000_003;
        let b = (lcg(&mut seed) + 20) as u64 * 999_983;
        let dx = directional_index(a, b);
        assert!(dx <= ONE as u64);
    }
}

#[test]
fn adx_front_end_reports_window_moves() {
    let mut adx = AverageDirectionalMovementIndex::new(2, 14);
    let closes = [10, 11, 12, 14, 13, 9];
    let mut moves = Vec::new();
    for c in closes {
        let m = adx.next(c);
        moves.push((m.plus, m.minus));
    }
    // current window: last 2 closes; previous window: the 2 before them
    assert_eq!(moves[3], (3, 0));
    assert_eq!(moves[4], (2, 0));
    assert_eq!(moves[5], (0, 3));
}
