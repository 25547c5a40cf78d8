//! The fixed physical board: 47 positions in four rows, eight fingers on two
//! hands, and a per-position effort weight.
//!
//! Effort is kept in fixed point. Heatmap weights are counted in quarters of
//! the board's effort unit, and bigram costs (and so layout scores) in
//! sixteenths. Every weight and every distance factor is a multiple of 1/4,
//! so these integers are exact.
use vstd::prelude::*;

verus! {

/// Number of key positions on the board.
pub const KEY_COUNT: usize = 47;

/// Number of fingers that own positions.
pub const FINGER_COUNT: usize = 8;

/// Cost units per heatmap unit: a weight in quarters times a factor in
/// quarters gives a cost in sixteenths.
pub const QUARTERS: u64 = 4;

#[derive(Clone, Copy, Debug, PartialEq, Eq, Structural)]
pub enum Hand {
    Left,
    Right,
}

/// A finger and the positions it owns, row 0 (top) through row 3 (bottom).
#[derive(Clone, Copy, Debug, PartialEq, Eq, Hash)]
pub enum Finger {
    LPinky([usize; 2], usize, usize, usize),
    LRing(usize, usize, usize, usize),
    LMid(usize, usize, usize, usize),
    LIndex([usize; 2], [usize; 2], [usize; 2], [usize; 2]),
    RIndex([usize; 2], [usize; 2], [usize; 2], [usize; 2]),
    RMid(usize, usize, usize, usize),
    RRing(usize, usize, usize, usize),
    RPinky([usize; 3], [usize; 4], [usize; 2], usize),
}

pub open spec fn is_position(p: int) -> bool {
    0 <= p < KEY_COUNT
}

/// Row of a position: [0,13) is row 0, [13,26) row 1, [26,37) row 2, [37,47) row 3.
pub open spec fn row_of(p: int) -> int {
    if p < 13 {
        0
    } else if p < 26 {
        1
    } else if p < 37 {
        2
    } else {
        3
    }
}

/// Hand that types a position: in each row the left hand owns a prefix.
pub open spec fn hand_of(p: int) -> Hand {
    if p < 6 || (13 <= p < 18) || (26 <= p < 31) || (37 <= p < 42) {
        Hand::Left
    } else {
        Hand::Right
    }
}

/// Heatmap weights in quarters, in position order.
pub open spec fn heat_table() -> Seq<u64> {
    seq![
        12u64, 8, 8, 8, 8, 12, 12, 8, 8, 8, 8, 12, 16,
        5, 6, 3, 3, 8, 10, 3, 3, 4, 4, 12, 14, 16,
        1, 2, 0, 0, 4, 4, 0, 0, 2, 1, 4,
        5, 6, 4, 4, 8, 4, 4, 4, 6, 5,
    ]
}

/// Heatmap weight of a position, in quarters.
pub open spec fn heat(p: int) -> int {
    heat_table()[p] as int
}

/// Distance factor, in quarters, for typing `b` right after `a` (a != b).
pub open spec fn factor(a: int, b: int) -> int {
    if hand_of(a) == hand_of(b) {
        if row_of(b) == row_of(a) {
            3
        } else if row_of(b) < row_of(a) {
            6
        } else {
            4
        }
    } else {
        5
    }
}

/// Effort, in sixteenths, of typing position `b` immediately after `a`.
pub open spec fn distance_of(a: int, b: int) -> int {
    if a == b {
        0
    } else {
        heat(b) * factor(a, b)
    }
}

/// Effort, in sixteenths, of striking `b` with no mapped key before it.
pub open spec fn cold_cost(b: int) -> int {
    heat(b) * QUARTERS
}

/// The finger table of the board, left pinky through right pinky.
pub open spec fn finger_table() -> Seq<Finger> {
    seq![
        Finger::LPinky([0, 1], 13, 26, 37),
        Finger::LRing(2, 14, 27, 38),
        Finger::LMid(3, 15, 28, 39),
        Finger::LIndex([4, 5], [16, 17], [29, 30], [40, 41]),
        Finger::RIndex([6, 7], [18, 19], [31, 32], [42, 43]),
        Finger::RMid(8, 20, 33, 44),
        Finger::RRing(9, 21, 34, 45),
        Finger::RPinky([10, 11, 12], [22, 23, 24, 25], [35, 36], 46),
    ]
}

/// The largest value of any heatmap weight, in quarters.
pub const MAX_HEAT: u64 = 16;

/// The largest cost of one bigram, in sixteenths.
pub const MAX_PAIR_COST: u64 = 96;

impl Finger {
    /// Row in which this finger owns `key`, checking rows top to bottom.
    pub open spec fn row_owning(self, key: int) -> Option<usize> {
        match self {
            Finger::LPinky(zero, one, two, three) => {
                if key == zero[0] || key == zero[1] {
                    Some(0)
                } else if key == one {
                    Some(1)
                } else if key == two {
                    Some(2)
                } else if key == three {
                    Some(3)
                } else {
                    None
                }
            },
            Finger::LRing(zero, one, two, three)
            | Finger::LMid(zero, one, two, three)
            | Finger::RMid(zero, one, two, three)
            | Finger::RRing(zero, one, two, three) => {
                if key == zero {
                    Some(0)
                } else if key == one {
                    Some(1)
                } else if key == two {
                    Some(2)
                } else if key == three {
                    Some(3)
                } else {
                    None
                }
            },
            Finger::LIndex(zero, one, two, three) | Finger::RIndex(zero, one, two, three) => {
                if key == zero[0] || key == zero[1] {
                    Some(0)
                } else if key == one[0] || key == one[1] {
                    Some(1)
                } else if key == two[0] || key == two[1] {
                    Some(2)
                } else if key == three[0] || key == three[1] {
                    Some(3)
                } else {
                    None
                }
            },
            Finger::RPinky(zero, one, two, three) => {
                if key == zero[0] || key == zero[1] || key == zero[2] {
                    Some(0)
                } else if key == one[0] || key == one[1] || key == one[2] || key == one[3] {
                    Some(1)
                } else if key == two[0] || key == two[1] {
                    Some(2)
                } else if key == three {
                    Some(3)
                } else {
                    None
                }
            },
        }
    }

    /// The row in which this finger owns position `key`, if it owns it.
    pub fn is_inside(&self, key: usize) -> (r: Option<usize>)
        ensures
            r == self.row_owning(key as int),
    {
        match self {
            Finger::LPinky(zero, one, two, three) => {
                if key == zero[0] || key == zero[1] {
                    Some(0)
                } else if key == *one {
                    Some(1)
                } else if key == *two {
                    Some(2)
                } else if key == *three {
                    Some(3)
                } else {
                    None
                }
            },
            Finger::LRing(zero, one, two, three)
            | Finger::LMid(zero, one, two, three)
            | Finger::RMid(zero, one, two, three)
            | Finger::RRing(zero, one, two, three) => {
                if key == *zero {
                    Some(0)
                } else if key == *one {
                    Some(1)
                } else if key == *two {
                    Some(2)
                } else if key == *three {
                    Some(3)
                } else {
                    None
                }
            },
            Finger::LIndex(zero, one, two, three) | Finger::RIndex(zero, one, two, three) => {
                if key == zero[0] || key == zero[1] {
                    Some(0)
                } else if key == one[0] || key == one[1] {
                    Some(1)
                } else if key == two[0] || key == two[1] {
                    Some(2)
                } else if key == three[0] || key == three[1] {
                    Some(3)
                } else {
                    None
                }
            },
            Finger::RPinky(zero, one, two, three) => {
                if key == zero[0] || key == zero[1] || key == zero[2] {
                    Some(0)
                } else if key == one[0] || key == one[1] || key == one[2] || key == one[3] {
                    Some(1)
                } else if key == two[0] || key == two[1] {
                    Some(2)
                } else if key == *three {
                    Some(3)
                } else {
                    None
                }
            },
        }
    }
}

/// The board's fingers, left pinky through right pinky.
pub fn fingers() -> (r: [Finger; 8])
    ensures
        r@ == finger_table(),
{
    let r: [Finger; 8] = [
        Finger::LPinky([0, 1], 13, 26, 37),
        Finger::LRing(2, 14, 27, 38),
        Finger::LMid(3, 15, 28, 39),
        Finger::LIndex([4, 5], [16, 17], [29, 30], [40, 41]),
        Finger::RIndex([6, 7], [18, 19], [31, 32], [42, 43]),
        Finger::RMid(8, 20, 33, 44),
        Finger::RRing(9, 21, 34, 45),
        Finger::RPinky([10, 11, 12], [22, 23, 24, 25], [35, 36], 46),
    ];
    assert(r@ =~= finger_table());
    r
}

/// Heatmap weight of a position, in quarters of the effort unit.
pub fn heatmap(position: usize) -> (r: u64)
    requires
        is_position(position as int),
    ensures
        r == heat(position as int),
        r <= MAX_HEAT,
{
    let table: [u64; 47] = [
        12, 8, 8, 8, 8, 12, 12, 8, 8, 8, 8, 12, 16,
        5, 6, 3, 3, 8, 10, 3, 3, 4, 4, 12, 14, 16,
        1, 2, 0, 0, 4, 4, 0, 0, 2, 1, 4,
        5, 6, 4, 4, 8, 4, 4, 4, 6, 5,
    ];
    assert(table@ =~= heat_table());
    table[position]
}

/// Every position is owned by exactly the finger the table gives, in the row
/// that `row_of` gives, and fingers 0..4 are on the left hand.
pub proof fn lemma_finger_owns(p: int)
    requires
        is_position(p),
    ensures
        exists|i: int|
            0 <= i < FINGER_COUNT && (#[trigger] finger_table()[i]).row_owning(p) == Some(
                row_of(p) as usize,
            ) && ((i < 4) <==> hand_of(p) == Hand::Left) && (forall|j: int|
                0 <= j < i ==> (#[trigger] finger_table()[j]).row_owning(p) is None),
{
    let t = finger_table();
    if p < 2 || p == 13 || p == 26 || p == 37 {
        assert(t[0].row_owning(p) == Some(row_of(p) as usize));
    } else if p == 2 || p == 14 || p == 27 || p == 38 {
        assert(t[1].row_owning(p) == Some(row_of(p) as usize));
    } else if p == 3 || p == 15 || p == 28 || p == 39 {
        assert(t[2].row_owning(p) == Some(row_of(p) as usize));
    } else if p == 4 || p == 5 || p == 16 || p == 17 || p == 29 || p == 30 || p == 40 || p == 41 {
        assert(t[3].row_owning(p) == Some(row_of(p) as usize));
    } else if p == 6 || p == 7 || p == 18 || p == 19 || p == 31 || p == 32 || p == 42 || p == 43 {
        assert(t[4].row_owning(p) == Some(row_of(p) as usize));
    } else if p == 8 || p == 20 || p == 33 || p == 44 {
        assert(t[5].row_owning(p) == Some(row_of(p) as usize));
    } else if p == 9 || p == 21 || p == 34 || p == 45 {
        assert(t[6].row_owning(p) == Some(row_of(p) as usize));
    } else {
        assert(t[7].row_owning(p) == Some(row_of(p) as usize));
    }
}

/// No finger owns a position outside the board.
pub proof fn lemma_no_finger_owns_outside(p: int)
    requires
        !is_position(p),
    ensures
        forall|i: int| 0 <= i < FINGER_COUNT ==> (#[trigger] finger_table()[i]).row_owning(p) is None,
{
    let t = finger_table();
    assert(t[0].row_owning(p) is None);
    assert(t[1].row_owning(p) is None);
    assert(t[2].row_owning(p) is None);
    assert(t[3].row_owning(p) is None);
    assert(t[4].row_owning(p) is None);
    assert(t[5].row_owning(p) is None);
    assert(t[6].row_owning(p) is None);
    assert(t[7].row_owning(p) is None);
}

/// Typing a position right after itself costs nothing.
pub proof fn lemma_distance_self(a: int)
    ensures
        distance_of(a, a) == 0,
{
}

/// Between two different positions the distance is the target's heatmap
/// weight times 0.75, 1.0, 1.25 or 1.5 (3, 4, 5 or 6 quarters).
pub proof fn lemma_distance_factors(a: int, b: int)
    requires
        a != b,
    ensures
        distance_of(a, b) == heat(b) * 3 || distance_of(a, b) == heat(b) * 4 || distance_of(a, b)
            == heat(b) * 5 || distance_of(a, b) == heat(b) * 6,
{
}

/// On one hand, reaching a position from a lower row costs more than
/// reaching it from a higher row, wherever the target has a weight.
pub proof fn lemma_upward_costlier(from_below: int, from_above: int, b: int)
    requires
        is_position(b),
        hand_of(from_below) == hand_of(b),
        hand_of(from_above) == hand_of(b),
        row_of(b) < row_of(from_below),
        row_of(from_above) < row_of(b),
        heat(b) > 0,
    ensures
        distance_of(from_below, b) == heat(b) * 6,
        distance_of(from_above, b) == heat(b) * 4,
        distance_of(from_below, b) > distance_of(from_above, b),
{
}

} // verus!
