use keyboard_gen::board::{heatmap, Finger, Hand};
use keyboard_gen::Keyboard;

#[test]
fn distance_to_self_is_zero() {
    let kb = Keyboard::new_47();
    for a in 0..47 {
        assert_eq!(kb.distance(a, a), 0);
    }
}

#[test]
fn distance_is_weight_times_a_factor() {
    let kb = Keyboard::new_47();
    for a in 0..47 {
        for b in 0..47 {
            if a == b {
                continue;
            }
            let h = heatmap(b);
            let d = kb.distance(a, b);
            assert!(d == 3 * h || d == 4 * h || d == 5 * h || d == 6 * h);
        }
    }
}

#[test]
fn distance_factor_by_hand_and_row() {
    let kb = Keyboard::new_47();
    // 26 and 28: same hand, same row: 0.75 of H[28] = 0.
    assert_eq!(kb.distance(26, 28), 0);
    // 26 to 39: same hand, lower row: 1.0 of H[39] = 1.0, i.e. 16 sixteenths.
    assert_eq!(kb.distance(26, 39), 16);
    // 26 to 15: same hand, upper row: 1.5 of H[15] = 1.125, i.e. 18 sixteenths.
    assert_eq!(kb.distance(26, 15), 18);
    // 23 to 26: other hand: 1.25 of H[26] = 0.3125, i.e. 5 sixteenths.
    assert_eq!(kb.distance(23, 26), 5);
}

#[test]
fn upward_reach_costs_more_than_downward() {
    let kb = Keyboard::new_47();
    // Target 26 (row 2, left): from 37 (row 3, left) is upward, from 13 (row 1, left) downward.
    assert_eq!(kb.distance(37, 26), 6);
    assert_eq!(kb.distance(13, 26), 4);
    assert!(kb.distance(37, 26) > kb.distance(13, 26));
    assert_ne!(kb.distance(37, 26), kb.distance(26, 37));
}

#[test]
fn heatmap_values() {
    assert_eq!(heatmap(0), 12);
    assert_eq!(heatmap(12), 16);
    assert_eq!(heatmap(13), 5);
    assert_eq!(heatmap(26), 1);
    assert_eq!(heatmap(28), 0);
    assert_eq!(heatmap(46), 5);
}

#[test]
fn rows_by_range() {
    let kb = Keyboard::new_47();
    assert_eq!(kb.index_to_row(0), Some(0));
    assert_eq!(kb.index_to_row(12), Some(0));
    assert_eq!(kb.index_to_row(13), Some(1));
    assert_eq!(kb.index_to_row(25), Some(1));
    assert_eq!(kb.index_to_row(26), Some(2));
    assert_eq!(kb.index_to_row(36), Some(2));
    assert_eq!(kb.index_to_row(37), Some(3));
    assert_eq!(kb.index_to_row(46), Some(3));
    assert_eq!(kb.index_to_row(47), None);
}

#[test]
fn hands_by_finger() {
    let kb = Keyboard::new_47();
    let left = [0, 5, 13, 17, 26, 30, 37, 41];
    let right = [6, 12, 18, 25, 31, 36, 42, 46];
    for p in left {
        assert!(kb.which_hand(p) == Some(Hand::Left));
    }
    for p in right {
        assert!(kb.which_hand(p) == Some(Hand::Right));
    }
    assert!(kb.which_hand(47).is_none());
}

#[test]
fn finger_rows() {
    let ring = Finger::LRing(2, 14, 27, 38);
    assert_eq!(ring.is_inside(2), Some(0));
    assert_eq!(ring.is_inside(14), Some(1));
    assert_eq!(ring.is_inside(27), Some(2));
    assert_eq!(ring.is_inside(38), Some(3));
    assert_eq!(ring.is_inside(3), None);
    let pinky = Finger::RPinky([10, 11, 12], [22, 23, 24, 25], [35, 36], 46);
    assert_eq!(pinky.is_inside(12), Some(0));
    assert_eq!(pinky.is_inside(25), Some(1));
    assert_eq!(pinky.is_inside(36), Some(2));
    assert_eq!(pinky.is_inside(46), Some(3));
    assert_eq!(pinky.is_inside(9), None);
}
