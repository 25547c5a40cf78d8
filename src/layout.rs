//! Keys and layouts: an assignment of 47 typed keys to the board's positions.
use vstd::prelude::*;

use crate::board::{
    distance_of, finger_table, fingers, hand_of, is_position, lemma_finger_owns,
    lemma_no_finger_owns_outside, row_of, Hand, FINGER_COUNT, KEY_COUNT,
};

use crate::mutation::{has_mobile_letter, is_layout, lemma_canonical, letter_slots_ok, mobile_kinds_ok};

verus! {

/// A key symbol: its kind, and the characters typed without and with shift.
#[derive(Clone, Copy, Debug, PartialEq, Eq, Structural)]
pub enum Key {
    /// An alphabetic key that may move.
    Letter(char, char),
    /// An alphabetic key pinned to the home-row index slots.
    StaticLetter(char, char),
    /// A pinned number/shift pair.
    Number(char, char),
    /// A punctuation key.
    Punctuation(char, char),
}

impl Key {
    pub open spec fn lower(self) -> char {
        match self {
            Key::Letter(l, _) | Key::StaticLetter(l, _) | Key::Number(l, _) | Key::Punctuation(
                l,
                _,
            ) => l,
        }
    }

    pub open spec fn upper(self) -> char {
        match self {
            Key::Letter(_, u) | Key::StaticLetter(_, u) | Key::Number(_, u) | Key::Punctuation(
                _,
                u,
            ) => u,
        }
    }

    /// The key types `c`, with or without shift.
    pub open spec fn types(self, c: char) -> bool {
        self.lower() == c || self.upper() == c
    }

    pub fn match_char(&self, c: char) -> (r: bool)
        ensures
            r == self.types(c),
    {
        match self {
            Key::Letter(k1, k2) | Key::StaticLetter(k1, k2) | Key::Number(k1, k2)
            | Key::Punctuation(k1, k2) => *k1 == c || *k2 == c,
        }
    }

    /// The unshifted character of the key, as a string.
    pub fn key_val(&self) -> (r: String)
        ensures
            r@ == seq![self.lower()],
    {
        match self {
            Key::Letter(x, _) | Key::StaticLetter(x, _) | Key::Number(x, _) | Key::Punctuation(
                x,
                _,
            ) => char_string(*x),
        }
    }
}

/// Relies on `<char as ToString>::to_string`: the string holds that one character.
#[verifier::external_body]
fn char_string(c: char) -> (r: String)
    ensures
        r@ == seq![c],
{
    c.to_string()
}

/// Positions whose key may move.
pub open spec fn mobile(p: int) -> bool {
    p == 15 || p == 16 || p == 19 || p == 20 || p == 21 || p == 22 || p == 23 || p == 24 || p
        == 28 || p == 30 || p == 35 || p == 36 || p == 39 || p == 40 || p == 41 || p == 42 || p
        == 43 || p == 44 || p == 45
}

/// Positions whose key never changes.
pub open spec fn pinned(p: int) -> bool {
    is_position(p) && !mobile(p)
}

/// Mobile positions that must hold a letter.
pub open spec fn letter_only(p: int) -> bool {
    p == 19 || p == 20
}

/// Mobile positions reserved for keys other than letters: a punctuation
/// key is only ever swapped into one of them.
pub open spec fn non_letter_only(p: int) -> bool {
    p == 21 || p == 22 || p == 23 || p == 24 || p == 36 || p == 45
}

/// The mobile positions in increasing order.
pub open spec fn mobile_seq() -> Seq<usize> {
    seq![15usize, 16, 19, 20, 21, 22, 23, 24, 28, 30, 35, 36, 39, 40, 41, 42, 43, 44, 45]
}

/// The positions reserved for keys other than letters, in increasing order.
pub open spec fn non_letter_seq() -> Seq<usize> {
    seq![21usize, 22, 23, 24, 36, 45]
}

/// Number of mobile positions.
pub const MOBILE_COUNT: usize = 19;

/// The canonical starting layout.
pub open spec fn canonical() -> Seq<Key> {
    seq![
        Key::Punctuation('`', '~'),
        Key::Number('1', '!'),
        Key::Number('2', '@'),
        Key::Number('3', '#'),
        Key::Number('4', '$'),
        Key::Number('5', '%'),
        Key::Number('6', '^'),
        Key::Number('7', '&'),
        Key::Number('8', '*'),
        Key::Number('9', '('),
        Key::Number('0', ')'),
        Key::Punctuation(',', '<'),
        Key::Punctuation('.', '>'),
        Key::Punctuation('[', '{'),
        Key::Punctuation(']', '}'),
        Key::Letter('i', 'I'),
        Key::Letter('o', 'O'),
        Key::Punctuation('-', '_'),
        Key::Punctuation('=', '+'),
        Key::Letter('f', 'F'),
        Key::Letter('n', 'N'),
        Key::Letter('w', 'W'),
        Key::Letter('g', 'G'),
        Key::Letter('q', 'Q'),
        Key::Letter('z', 'Z'),
        Key::Punctuation('\\', '|'),
        Key::Letter('a', 'A'),
        Key::Letter('s', 'S'),
        Key::Letter('b', 'B'),
        Key::Letter('e', 'E'),
        Key::Letter('m', 'M'),
        Key::StaticLetter('h', 'H'),
        Key::StaticLetter('j', 'J'),
        Key::StaticLetter('k', 'K'),
        Key::StaticLetter('l', 'L'),
        Key::Letter('x', 'X'),
        Key::Letter('u', 'U'),
        Key::Punctuation(';', ';'),
        Key::Punctuation('\'', '"'),
        Key::Letter('d', 'D'),
        Key::Letter('p', 'P'),
        Key::Letter('v', 'V'),
        Key::Letter('r', 'R'),
        Key::Letter('t', 'T'),
        Key::Letter('c', 'C'),
        Key::Letter('y', 'Y'),
        Key::Punctuation('/', '?'),
    ]
}

/// The mobile positions, in increasing order.
pub fn mobile_slots() -> (r: [usize; 19])
    ensures
        r@ == mobile_seq(),
{
    let r: [usize; 19] = [15, 16, 19, 20, 21, 22, 23, 24, 28, 30, 35, 36, 39, 40, 41, 42, 43, 44, 45];
    assert(r@ =~= mobile_seq());
    r
}

/// The positions reserved for keys other than letters, in increasing order.
pub fn non_letter_slots() -> (r: [usize; 6])
    ensures
        r@ == non_letter_seq(),
{
    let r: [usize; 6] = [21, 22, 23, 24, 36, 45];
    assert(r@ =~= non_letter_seq());
    r
}

/// Each listed mobile position is mobile, and each mobile position is listed.
pub proof fn lemma_mobile_seq()
    ensures
        mobile_seq().len() == MOBILE_COUNT,
        forall|k: int| 0 <= k < MOBILE_COUNT ==> #[trigger] mobile(mobile_seq()[k] as int),
        forall|p: int| #[trigger] mobile(p) ==> mobile_seq().contains(p as usize),
        non_letter_seq().len() == 6,
        forall|k: int|
            0 <= k < 6 ==> mobile(#[trigger] non_letter_seq()[k] as int) && non_letter_only(
                non_letter_seq()[k] as int,
            ),
{
    let m = mobile_seq();
    assert forall|p: int| #[trigger] mobile(p) implies m.contains(p as usize) by {
        if p == 15 { assert(m[0] == p); }
        else if p == 16 { assert(m[1] == p); }
        else if p == 19 { assert(m[2] == p); }
        else if p == 20 { assert(m[3] == p); }
        else if p == 21 { assert(m[4] == p); }
        else if p == 22 { assert(m[5] == p); }
        else if p == 23 { assert(m[6] == p); }
        else if p == 24 { assert(m[7] == p); }
        else if p == 28 { assert(m[8] == p); }
        else if p == 30 { assert(m[9] == p); }
        else if p == 35 { assert(m[10] == p); }
        else if p == 36 { assert(m[11] == p); }
        else if p == 39 { assert(m[12] == p); }
        else if p == 40 { assert(m[13] == p); }
        else if p == 41 { assert(m[14] == p); }
        else if p == 42 { assert(m[15] == p); }
        else if p == 43 { assert(m[16] == p); }
        else if p == 44 { assert(m[17] == p); }
        else { assert(m[18] == p); }
    }
}

/// `s` with the keys at `i` and `j` exchanged.
pub open spec fn swapped(s: Seq<Key>, i: int, j: int) -> Seq<Key> {
    s.update(i, s[j]).update(j, s[i])
}

/// First position at or after `i` whose key types `c`.
pub open spec fn find_from(keys: Seq<Key>, c: char, i: int) -> Option<usize>
    decreases keys.len() - i,
{
    if i < 0 || i >= keys.len() {
        None
    } else if keys[i].types(c) {
        Some(i as usize)
    } else {
        find_from(keys, c, i + 1)
    }
}

/// What `find_from` returns: the first matching position from `i` on, or
/// `None` when no key from `i` on types `c`.
pub proof fn lemma_find_from(keys: Seq<Key>, c: char, i: int)
    requires
        0 <= i,
        keys.len() <= usize::MAX,
    ensures
        match find_from(keys, c, i) {
            Some(p) => i <= p < keys.len() && keys[p as int].types(c) && forall|q: int|
                i <= q < p ==> !(#[trigger] keys[q]).types(c),
            None => forall|q: int| i <= q < keys.len() ==> !(#[trigger] keys[q]).types(c),
        },
    decreases keys.len() - i,
{
    if i < keys.len() && !keys[i].types(c) {
        lemma_find_from(keys, c, i + 1);
    }
}

/// The position of the first key that types `c`.
pub open spec fn position_of(keys: Seq<Key>, c: char) -> Option<usize> {
    find_from(keys, c, 0)
}

/// A layout: the key at each of the board's 47 positions.
#[derive(Clone, Copy, Debug)]
pub struct Keyboard {
    keys: [Key; 47],
}

impl View for Keyboard {
    type V = Seq<Key>;

    closed spec fn view(&self) -> Seq<Key> {
        self.keys@
    }
}

impl PartialEq for Keyboard {
    /// Key identity: the two layouts hold equal keys at every position.
    fn eq(&self, other: &Keyboard) -> (r: bool)
        ensures
            r == (self@ == other@),
    {
        let mut i: usize = 0;
        while i < KEY_COUNT
            invariant
                i <= KEY_COUNT,
                forall|j: int| 0 <= j < i ==> self.keys@[j] == other.keys@[j],
            decreases KEY_COUNT - i,
        {
            if self.keys[i] != other.keys[i] {
                return false;
            }
            i += 1;
        }
        assert(self.keys@ =~= other.keys@);
        true
    }
}

impl vstd::std_specs::cmp::PartialEqSpecImpl for Keyboard {
    open spec fn obeys_eq_spec() -> bool {
        true
    }

    open spec fn eq_spec(&self, other: &Keyboard) -> bool {
        self@ == other@
    }
}

impl Keyboard {
    pub proof fn lemma_len(&self)
        ensures
            self@.len() == KEY_COUNT,
    {
    }

    /// The canonical starting layout.
    pub fn new_47() -> (r: Keyboard)
        ensures
            r@ == canonical(),
            is_layout(r@),
            has_mobile_letter(r@),
            mobile_kinds_ok(r@),
            letter_slots_ok(r@),
    {
        proof {
            lemma_canonical();
        }
        let keys: [Key; 47] = [
            Key::Punctuation('`', '~'),
            Key::Number('1', '!'),
            Key::Number('2', '@'),
            Key::Number('3', '#'),
            Key::Number('4', '$'),
            Key::Number('5', '%'),
            Key::Number('6', '^'),
            Key::Number('7', '&'),
            Key::Number('8', '*'),
            Key::Number('9', '('),
            Key::Number('0', ')'),
            Key::Punctuation(',', '<'),
            Key::Punctuation('.', '>'),
            Key::Punctuation('[', '{'),
            Key::Punctuation(']', '}'),
            Key::Letter('i', 'I'),
            Key::Letter('o', 'O'),
            Key::Punctuation('-', '_'),
            Key::Punctuation('=', '+'),
            Key::Letter('f', 'F'),
            Key::Letter('n', 'N'),
            Key::Letter('w', 'W'),
            Key::Letter('g', 'G'),
            Key::Letter('q', 'Q'),
            Key::Letter('z', 'Z'),
            Key::Punctuation('\\', '|'),
            Key::Letter('a', 'A'),
            Key::Letter('s', 'S'),
            Key::Letter('b', 'B'),
            Key::Letter('e', 'E'),
            Key::Letter('m', 'M'),
            Key::StaticLetter('h', 'H'),
            Key::StaticLetter('j', 'J'),
            Key::StaticLetter('k', 'K'),
            Key::StaticLetter('l', 'L'),
            Key::Letter('x', 'X'),
            Key::Letter('u', 'U'),
            Key::Punctuation(';', ';'),
            Key::Punctuation('\'', '"'),
            Key::Letter('d', 'D'),
            Key::Letter('p', 'P'),
            Key::Letter('v', 'V'),
            Key::Letter('r', 'R'),
            Key::Letter('t', 'T'),
            Key::Letter('c', 'C'),
            Key::Letter('y', 'Y'),
            Key::Punctuation('/', '?'),
        ];
        assert(keys@ =~= canonical());
        Keyboard { keys }
    }

    /// Exchanges the keys at positions `i` and `j`.
    pub fn swap_keys(&mut self, i: usize, j: usize)
        requires
            is_position(i as int),
            is_position(j as int),
        ensures
            final(self)@ == swapped(old(self)@, i as int, j as int),
    {
        let a = self.keys[i];
        let b = self.keys[j];
        self.keys[i] = b;
        self.keys[j] = a;
        assert(self.keys@ =~= swapped(old(self).keys@, i as int, j as int));
    }

    /// The key at a position.
    pub fn key_at(&self, position: usize) -> (r: Key)
        requires
            is_position(position as int),
        ensures
            r == self@[position as int],
    {
        self.keys[position]
    }

    /// The first key that types `c`, if any.
    pub fn get_key(&self, c: char) -> (r: Option<&Key>)
        ensures
            match position_of(self@, c) {
                Some(p) => r == Some(&self@[p as int]),
                None => r is None,
            },
    {
        proof {
            lemma_find_from(self@, c, 0);
        }
        match self.char_to_index(c) {
            Some(i) => Some(&self.keys[i]),
            None => None,
        }
    }

    /// The row of a position, or `None` for a position outside the board.
    pub fn index_to_row(&self, index: usize) -> (r: Option<usize>)
        ensures
            r == if is_position(index as int) {
                Some(row_of(index as int) as usize)
            } else {
                None::<usize>
            },
    {
        if index < 13 {
            Some(0)
        } else if index < 26 {
            Some(1)
        } else if index < 37 {
            Some(2)
        } else if index < 47 {
            Some(3)
        } else {
            None
        }
    }

    /// The hand of the finger that owns a position, or `None` where no
    /// finger owns it.
    pub fn which_hand(&self, index: usize) -> (r: Option<Hand>)
        ensures
            r == if is_position(index as int) {
                Some(hand_of(index as int))
            } else {
                None::<Hand>
            },
    {
        let hands = fingers();
        proof {
            if is_position(index as int) {
                lemma_finger_owns(index as int);
            } else {
                lemma_no_finger_owns_outside(index as int);
            }
        }
        let mut i: usize = 0;
        while i < FINGER_COUNT
            invariant
                i <= FINGER_COUNT,
                hands@ == finger_table(),
                forall|j: int| 0 <= j < i ==> (#[trigger] finger_table()[j]).row_owning(index as int) is None,
                is_position(index as int) ==> exists|f: int|
                    0 <= f < FINGER_COUNT && (#[trigger] finger_table()[f]).row_owning(
                        index as int,
                    ) == Some(row_of(index as int) as usize) && ((f < 4) <==> hand_of(index as int)
                        == Hand::Left) && (forall|j: int|
                        0 <= j < f ==> (#[trigger] finger_table()[j]).row_owning(index as int) is None),
                !is_position(index as int) ==> forall|j: int|
                    0 <= j < FINGER_COUNT ==> (#[trigger] finger_table()[j]).row_owning(index as int) is None,
            decreases FINGER_COUNT - i,
        {
            if hands[i].is_inside(index).is_some() {
                proof {
                    let f = choose|f: int|
                        0 <= f < FINGER_COUNT && (#[trigger] finger_table()[f]).row_owning(
                            index as int,
                        ) == Some(row_of(index as int) as usize) && ((f < 4) <==> hand_of(
                            index as int,
                        ) == Hand::Left) && (forall|j: int|
                            0 <= j < f ==> (#[trigger] finger_table()[j]).row_owning(index as int) is None);
                    assert(f == i) by {
                        if f < i {
                            assert(finger_table()[f].row_owning(index as int) is None);
                        }
                    }
                }
                return if i < 4 { Some(Hand::Left) } else { Some(Hand::Right) };
            }
            i += 1;
        }
        None
    }

    /// Effort, in sixteenths, of typing position `b` right after position `a`.
    pub fn distance(&self, a: usize, b: usize) -> (r: u64)
        requires
            is_position(a as int),
            is_position(b as int),
        ensures
            r == distance_of(a as int, b as int),
    {
        if a == b {
            return 0;
        }
        let a_hand = self.which_hand(a).unwrap();
        let b_hand = self.which_hand(b).unwrap();
        let a_row = self.index_to_row(a).unwrap();
        let b_row = self.index_to_row(b).unwrap();
        let h = crate::board::heatmap(b);
        if a_hand == b_hand {
            if b_row == a_row {
                h * 3
            } else if b_row < a_row {
                h * 6
            } else {
                h * 4
            }
        } else {
            h * 5
        }
    }

    /// The first position whose key types `c`, if any.
    pub fn char_to_index(&self, c: char) -> (r: Option<usize>)
        ensures
            r == position_of(self@, c),
    {
        let mut i: usize = 0;
        while i < KEY_COUNT
            invariant
                i <= KEY_COUNT,
                self@.len() == KEY_COUNT,
                find_from(self@, c, 0) == find_from(self@, c, i as int),
            decreases KEY_COUNT - i,
        {
            if self.keys[i].match_char(c) {
                return Some(i);
            }
            i += 1;
        }
        None
    }
}

} // verus!
