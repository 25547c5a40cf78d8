//! Random layouts and the reproducer: mutation by swaps of mobile keys under
//! the slot-class rules, and the invariants those swaps keep.
use vstd::prelude::*;
use vstd::seq_lib::to_multiset_update;

use rand::Rng;

use crate::board::KEY_COUNT;
use crate::layout::{
    canonical, lemma_mobile_seq, letter_only, mobile, mobile_seq, mobile_slots, non_letter_only,
    non_letter_seq, non_letter_slots, pinned, swapped, Key, Keyboard, MOBILE_COUNT,
};

verus! {

/// Relies on rand's `thread_rng().gen_range(0..n)`: a value in `0..n`. It
/// panics only on an empty range, which `n > 0` rules out.
#[verifier::external_body]
fn random_below(n: usize) -> (r: usize)
    requires
        n > 0,
    ensures
        r < n,
{
    rand::thread_rng().gen_range(0..n)
}

/// The positions of `a` as a vector, in order.
fn positions_vec<const N: usize>(a: &[usize; N]) -> (r: Vec<usize>)
    ensures
        r@ == a@,
{
    let mut r: Vec<usize> = Vec::new();
    let mut k: usize = 0;
    while k < N
        invariant
            k <= N,
            a@.len() == N,
            r@ == a@.take(k as int),
        decreases N - k,
    {
        r.push(a[k]);
        k += 1;
        assert(r@ =~= a@.take(k as int));
    }
    assert(a@.take(N as int) =~= a@);
    r
}

/// The positions among `slots` whose key in `s` is a letter, in the order of `slots`.
pub open spec fn letter_positions(s: Seq<Key>, slots: Seq<usize>) -> Seq<usize>
    decreases slots.len(),
{
    if slots.len() == 0 {
        seq![]
    } else {
        let rest = letter_positions(s, slots.drop_last());
        if s[slots.last() as int] is Letter {
            rest.push(slots.last())
        } else {
            rest
        }
    }
}

/// The positions that may be swapped with mobile position `i` of `s`.
pub open spec fn candidates(s: Seq<Key>, i: int) -> Seq<usize> {
    if letter_only(i) {
        letter_positions(s, mobile_seq())
    } else if s[i] is Punctuation {
        non_letter_seq()
    } else {
        mobile_seq()
    }
}

/// Swapping the keys at `i` and `j` is one step the reproducer may take on `s`.
pub open spec fn legal_move(s: Seq<Key>, i: usize, j: usize) -> bool {
    mobile(i as int) && candidates(s, i as int).contains(j)
}

/// The layout after applying `moves`, first to last, to `s`.
pub open spec fn play(s: Seq<Key>, moves: Seq<(usize, usize)>) -> Seq<Key>
    decreases moves.len(),
{
    if moves.len() == 0 {
        s
    } else {
        let m = moves.last();
        swapped(play(s, moves.drop_last()), m.0 as int, m.1 as int)
    }
}

/// Each of `moves` is legal on the layout it is applied to.
pub open spec fn legal_play(s: Seq<Key>, moves: Seq<(usize, usize)>) -> bool
    decreases moves.len(),
{
    if moves.len() == 0 {
        true
    } else {
        let m = moves.last();
        legal_play(s, moves.drop_last()) && legal_move(play(s, moves.drop_last()), m.0, m.1)
    }
}

/// `s` holds the canonical keys, each once as often as the canonical layout
/// does, with the canonical key at every pinned position.
pub open spec fn is_layout(s: Seq<Key>) -> bool {
    &&& s.len() == KEY_COUNT
    &&& forall|p: int| #[trigger] pinned(p) ==> s[p] == canonical()[p]
    &&& s.to_multiset() == canonical().to_multiset()
}

/// Every mobile position holds a letter or a punctuation key.
pub open spec fn mobile_kinds_ok(s: Seq<Key>) -> bool {
    forall|p: int| #[trigger] mobile(p) ==> (s[p] is Letter || s[p] is Punctuation)
}

/// Every letter-only position holds a letter.
pub open spec fn letter_slots_ok(s: Seq<Key>) -> bool {
    forall|p: int| #[trigger] letter_only(p) ==> s[p] is Letter
}

/// Some mobile position holds a letter.
pub open spec fn has_mobile_letter(s: Seq<Key>) -> bool {
    exists|p: int| #[trigger] mobile(p) && s[p] is Letter
}

/// A position is among `letter_positions(s, slots)` exactly when it is among
/// `slots` and holds a letter.
pub proof fn lemma_letter_positions(s: Seq<Key>, slots: Seq<usize>, j: usize)
    requires
        forall|k: int| 0 <= k < slots.len() ==> 0 <= #[trigger] slots[k] < s.len(),
    ensures
        letter_positions(s, slots).contains(j) <==> (slots.contains(j) && s[j as int] is Letter),
    decreases slots.len(),
{
    if slots.len() > 0 {
        let init = slots.drop_last();
        lemma_letter_positions(s, init, j);
        let rest = letter_positions(s, init);
        if slots.contains(j) && s[j as int] is Letter {
            let k = choose|k: int| 0 <= k < slots.len() && slots[k] == j;
            if k == slots.len() - 1 {
                assert(letter_positions(s, slots)[rest.len() as int] == j);
            } else {
                assert(init[k] == j);
                let q = choose|q: int| 0 <= q < rest.len() && rest[q] == j;
                assert(letter_positions(s, slots)[q] == j);
            }
        }
        if letter_positions(s, slots).contains(j) {
            let q = choose|q: int|
                0 <= q < letter_positions(s, slots).len() && letter_positions(s, slots)[q] == j;
            if q < rest.len() {
                assert(rest[q] == j);
                let k = choose|k: int| 0 <= k < init.len() && init[k] == j;
                assert(slots[k] == j);
            } else {
                assert(slots[slots.len() - 1] == j);
            }
        }
    }
}

/// Every candidate for a swap with mobile position `i` is a mobile
/// position; and there is at least one where `s` has a mobile letter.
pub proof fn lemma_candidates(s: Seq<Key>, i: int)
    requires
        s.len() == KEY_COUNT,
        mobile(i),
    ensures
        forall|j: usize| #[trigger] candidates(s, i).contains(j) ==> mobile(j as int),
        has_mobile_letter(s) ==> candidates(s, i).len() > 0,
        letter_only(i) ==> forall|j: usize| #[trigger] candidates(s, i).contains(j) ==> s[j as int] is Letter,
        (!letter_only(i) && s[i] is Punctuation) ==> forall|j: usize|
            #[trigger] candidates(s, i).contains(j) ==> non_letter_only(j as int),
{
    lemma_mobile_seq();
    let m = mobile_seq();
    assert forall|k: int| 0 <= k < m.len() implies 0 <= #[trigger] m[k] < s.len() by {
        assert(mobile(m[k] as int));
    }
    assert forall|j: usize| #[trigger] candidates(s, i).contains(j) implies mobile(j as int) by {
        if letter_only(i) {
            lemma_letter_positions(s, m, j);
        } else if s[i] is Punctuation {
            let k = choose|k: int| 0 <= k < 6 && non_letter_seq()[k] == j;
            assert(mobile(non_letter_seq()[k] as int));
        } else {
            let k = choose|k: int| 0 <= k < MOBILE_COUNT && m[k] == j;
            assert(mobile(m[k] as int));
        }
    }
    if has_mobile_letter(s) && letter_only(i) {
        let p = choose|p: int| #[trigger] mobile(p) && s[p] is Letter;
        assert(m.contains(p as usize));
        lemma_letter_positions(s, m, p as usize);
    }
    if letter_only(i) {
        assert forall|j: usize| #[trigger] candidates(s, i).contains(j) implies s[j as int] is Letter by {
            lemma_letter_positions(s, m, j);
        }
    }
    if !letter_only(i) && s[i] is Punctuation {
        assert forall|j: usize| #[trigger] candidates(s, i).contains(j) implies non_letter_only(
            j as int,
        ) by {
            let k = choose|k: int| 0 <= k < 6 && non_letter_seq()[k] == j;
            assert(non_letter_only(non_letter_seq()[k] as int));
        }
    }
}

/// A swap of two mobile positions keeps the pinned keys, the multiset of
/// keys, the kinds of keys in mobile positions, and a mobile letter.
pub proof fn lemma_mobile_swap(s: Seq<Key>, i: int, j: int)
    requires
        s.len() == KEY_COUNT,
        mobile(i),
        mobile(j),
    ensures
        swapped(s, i, j).len() == KEY_COUNT,
        forall|p: int| #[trigger] pinned(p) ==> swapped(s, i, j)[p] == s[p],
        swapped(s, i, j).to_multiset() == s.to_multiset(),
        mobile_kinds_ok(s) ==> mobile_kinds_ok(swapped(s, i, j)),
        has_mobile_letter(s) ==> has_mobile_letter(swapped(s, i, j)),
{
    let t = swapped(s, i, j);
    let u = s.update(i, s[j]);
    broadcast use vstd::multiset::group_multiset_axioms, vstd::seq_lib::to_multiset_contains;
    to_multiset_update(s, i, s[j]);
    to_multiset_update(u, j, s[i]);
    assert(u[j] == s[j]);
    assert(s.contains(s[i]));
    assert(u.contains(u[j]));
    assert(t.to_multiset() =~= s.to_multiset());
    if has_mobile_letter(s) {
        let p = choose|p: int| #[trigger] mobile(p) && s[p] is Letter;
        if p == i {
            assert(mobile(j) && t[j] is Letter);
        } else if p == j {
            assert(mobile(i) && t[i] is Letter);
        } else {
            assert(mobile(p) && t[p] is Letter);
        }
    }
}

/// A legal swap keeps every letter-only position holding a letter, where
/// mobile positions hold only letters and punctuation.
pub proof fn lemma_legal_move_letter_slots(s: Seq<Key>, i: usize, j: usize)
    requires
        s.len() == KEY_COUNT,
        legal_move(s, i, j),
        mobile_kinds_ok(s),
        letter_slots_ok(s),
    ensures
        letter_slots_ok(swapped(s, i as int, j as int)),
{
    lemma_candidates(s, i as int);
    let t = swapped(s, i as int, j as int);
    assert forall|p: int| #[trigger] letter_only(p) implies t[p] is Letter by {
        if p == j as int {
            if letter_only(i as int) {
                assert(s[i as int] is Letter);
            } else if s[i as int] is Punctuation {
                assert(non_letter_only(j as int));
            } else {
                assert(s[i as int] is Letter);
            }
        } else if p == i as int {
            assert(s[j as int] is Letter);
        }
    }
}

/// What any sequence of legal swaps keeps.
pub proof fn lemma_play(s: Seq<Key>, moves: Seq<(usize, usize)>)
    requires
        s.len() == KEY_COUNT,
        legal_play(s, moves),
    ensures
        play(s, moves).len() == KEY_COUNT,
        forall|p: int| #[trigger] pinned(p) ==> play(s, moves)[p] == s[p],
        play(s, moves).to_multiset() == s.to_multiset(),
        mobile_kinds_ok(s) ==> mobile_kinds_ok(play(s, moves)),
        mobile_kinds_ok(s) && letter_slots_ok(s) ==> letter_slots_ok(play(s, moves)),
        has_mobile_letter(s) ==> has_mobile_letter(play(s, moves)),
        is_layout(s) ==> is_layout(play(s, moves)),
    decreases moves.len(),
{
    if moves.len() > 0 {
        let init = moves.drop_last();
        let m = moves.last();
        let prev = play(s, init);
        lemma_play(s, init);
        lemma_candidates(prev, m.0 as int);
        lemma_mobile_swap(prev, m.0 as int, m.1 as int);
        if mobile_kinds_ok(s) && letter_slots_ok(s) {
            lemma_legal_move_letter_slots(prev, m.0, m.1);
        }
    }
}

/// The canonical layout is a layout, holds only letters in its mobile
/// positions, and has no key twice.
#[verifier::rlimit(50)]
pub proof fn lemma_canonical()
    ensures
        is_layout(canonical()),
        forall|p: int| #[trigger] mobile(p) ==> canonical()[p] is Letter,
        mobile_kinds_ok(canonical()),
        letter_slots_ok(canonical()),
        has_mobile_letter(canonical()),
        canonical().no_duplicates(),
{
    let c = canonical();
    assert(mobile(15) && c[15] is Letter);
    assert(c.no_duplicates());
}

/// Every layout that the reproducer can reach from the canonical layout has
/// exactly 47 keys and no key twice; holds a letter in each letter-only
/// position; holds the canonical key at every pinned position; and holds
/// each static letter and number key where the canonical layout has it.
pub proof fn lemma_reachable_layout(moves: Seq<(usize, usize)>)
    requires
        legal_play(canonical(), moves),
    ensures
        play(canonical(), moves).len() == KEY_COUNT,
        play(canonical(), moves).no_duplicates(),
        letter_slots_ok(play(canonical(), moves)),
        forall|p: int| #[trigger] pinned(p) ==> play(canonical(), moves)[p] == canonical()[p],
        forall|p: int|
            0 <= p < KEY_COUNT && (#[trigger] play(canonical(), moves)[p] is StaticLetter || play(
                canonical(),
                moves,
            )[p] is Number) ==> canonical()[p] == play(canonical(), moves)[p],
{
    lemma_canonical();
    lemma_play(canonical(), moves);
    lemma_layout_distinct(play(canonical(), moves));
    let s = play(canonical(), moves);
    assert forall|p: int|
        0 <= p < KEY_COUNT && (#[trigger] s[p] is StaticLetter || s[p] is Number) implies canonical()[p]
        == s[p] by {
        if mobile(p) {
            assert(s[p] is Letter || s[p] is Punctuation);
        } else {
            assert(pinned(p));
        }
    }
}

/// Legal swaps followed by legal swaps are legal swaps: any number of
/// reproductions in a row is one sequence of legal moves.
pub proof fn lemma_play_concat(s: Seq<Key>, first: Seq<(usize, usize)>, then: Seq<(usize, usize)>)
    requires
        legal_play(s, first),
        legal_play(play(s, first), then),
    ensures
        legal_play(s, first + then),
        play(s, first + then) == play(play(s, first), then),
    decreases then.len(),
{
    if then.len() == 0 {
        assert(first + then =~= first);
    } else {
        lemma_play_concat(s, first, then.drop_last());
        assert((first + then).drop_last() =~= first + then.drop_last());
        assert((first + then).last() == then.last());
    }
}

/// A layout has no key twice.
pub proof fn lemma_layout_distinct(s: Seq<Key>)
    requires
        is_layout(s),
    ensures
        s.no_duplicates(),
{
    lemma_canonical();
    canonical().lemma_multiset_has_no_duplicates();
    s.lemma_multiset_has_no_duplicates_conv();
}

impl Keyboard {
    /// A random layout: the canonical layout with its mobile keys shuffled
    /// uniformly (Fisher-Yates) among the mobile positions.
    pub fn new_random() -> (r: Keyboard)
        ensures
            is_layout(r@),
            forall|p: int| mobile(p) ==> #[trigger] r@[p] is Letter,
            has_mobile_letter(r@),
    {
        let mut kb = Keyboard::new_47();
        let slots = mobile_slots();
        proof {
            lemma_canonical();
            lemma_mobile_seq();
            kb.lemma_len();
        }
        let mut k: usize = MOBILE_COUNT - 1;
        while k > 0
            invariant
                k < MOBILE_COUNT,
                slots@ == mobile_seq(),
                kb@.len() == KEY_COUNT,
                is_layout(kb@),
                forall|p: int| mobile(p) ==> #[trigger] kb@[p] is Letter,
                forall|q: int| 0 <= q < MOBILE_COUNT ==> #[trigger] mobile(mobile_seq()[q] as int),
            decreases k,
        {
            let j = random_below(k + 1);
            let a = slots[k];
            let b = slots[j];
            assert(mobile(a as int) && mobile(b as int));
            proof {
                lemma_mobile_swap(kb@, a as int, b as int);
            }
            kb.swap_keys(a, b);
            k -= 1;
        }
        assert(mobile(15) && kb@[15] is Letter);
        kb
    }

    /// The positions that mobile position `i` may be swapped with: the
    /// mobile positions holding a letter when `i` is letter-only; else the
    /// non-letter positions when `i` holds punctuation; else every mobile
    /// position.
    pub fn mutation_candidates(&self, i: usize) -> (r: Vec<usize>)
        requires
            mobile(i as int),
        ensures
            r@ == candidates(self@, i as int),
    {
        proof {
            self.lemma_len();
        }
        if i == 19 || i == 20 {
            let slots = mobile_slots();
            let mut r: Vec<usize> = Vec::new();
            let mut k: usize = 0;
            proof {
                lemma_mobile_seq();
            }
            while k < MOBILE_COUNT
                invariant
                    k <= MOBILE_COUNT,
                    slots@ == mobile_seq(),
                    self@.len() == KEY_COUNT,
                    forall|q: int| 0 <= q < MOBILE_COUNT ==> #[trigger] mobile(mobile_seq()[q] as int),
                    r@ == letter_positions(self@, mobile_seq().take(k as int)),
                decreases MOBILE_COUNT - k,
            {
                let p = slots[k];
                assert(mobile(mobile_seq()[k as int] as int));
                assert(mobile_seq().take(k as int + 1).drop_last() =~= mobile_seq().take(k as int));
                if let Key::Letter(_, _) = self.key_at(p) {
                    r.push(p);
                }
                k += 1;
            }
            assert(mobile_seq().take(MOBILE_COUNT as int) =~= mobile_seq());
            r
        } else if let Key::Punctuation(_, _) = self.key_at(i) {
            positions_vec(&non_letter_slots())
        } else {
            positions_vec(&mobile_slots())
        }
    }

    /// A child layout: this layout after `mutations` random swaps. Each swap
    /// picks a mobile position `i` uniformly, then a position uniformly among
    /// `mutation_candidates(i)`, and exchanges their keys.
    pub fn reproduce(&self, mutations: usize) -> (r: Keyboard)
        requires
            has_mobile_letter(self@),
        ensures
            exists|moves: Seq<(usize, usize)>|
                moves.len() == mutations && legal_play(self@, moves) && r@ == play(self@, moves),
            forall|p: int| #[trigger] pinned(p) ==> r@[p] == self@[p],
            r@.to_multiset() == self@.to_multiset(),
            has_mobile_letter(r@),
            is_layout(self@) ==> is_layout(r@),
            mobile_kinds_ok(self@) ==> mobile_kinds_ok(r@),
            mobile_kinds_ok(self@) && letter_slots_ok(self@) ==> letter_slots_ok(r@),
    {
        let mut kb = *self;
        let slots = mobile_slots();
        let ghost mut moves: Seq<(usize, usize)> = seq![];
        proof {
            lemma_mobile_seq();
            self.lemma_len();
        }
        let mut n: usize = 0;
        while n < mutations
            invariant
                n <= mutations,
                slots@ == mobile_seq(),
                self@.len() == KEY_COUNT,
                forall|q: int| 0 <= q < MOBILE_COUNT ==> #[trigger] mobile(mobile_seq()[q] as int),
                moves.len() == n,
                legal_play(self@, moves),
                kb@ == play(self@, moves),
                has_mobile_letter(kb@),
            decreases mutations - n,
        {
            proof {
                lemma_play(self@, moves);
            }
            let i = slots[random_below(MOBILE_COUNT)];
            let cands = kb.mutation_candidates(i);
            proof {
                lemma_candidates(kb@, i as int);
            }
            let j = cands[random_below(cands.len())];
            assert(cands@.contains(j));
            proof {
                lemma_mobile_swap(kb@, i as int, j as int);
            }
            let ghost before = kb@;
            kb.swap_keys(i, j);
            proof {
                let next = moves.push((i, j));
                assert(next.drop_last() =~= moves);
                assert(legal_move(before, i, j));
                moves = next;
            }
            n += 1;
        }
        proof {
            lemma_play(self@, moves);
        }
        kb
    }
}

} // verus!
