//! The cost function: the bigram effort of a layout over a corpus of texts.
use vstd::prelude::*;

use crate::board::{cold_cost, distance_of, factor, heat, heatmap, is_position, KEY_COUNT, MAX_PAIR_COST, QUARTERS};
use crate::layout::{find_from, lemma_find_from, position_of, Key, Keyboard};

verus! {

/// Most characters a corpus may hold, so that every score fits in a `u64`.
pub const MAX_CORPUS_CHARS: u64 = 0x0100_0000_0000_0000;

/// Effort, in sixteenths, of typing character `y` right after `x` on the
/// layout `keys`: the distance between their positions; the heatmap weight
/// of `y`'s position where `x` has none; nothing where `y` has none.
pub open spec fn pair_cost(keys: Seq<Key>, x: char, y: char) -> int {
    match (position_of(keys, x), position_of(keys, y)) {
        (Some(a), Some(b)) => distance_of(a as int, b as int),
        (None, Some(b)) => cold_cost(b as int),
        (_, None) => 0,
    }
}

/// Effort, in sixteenths, of typing `text` on the layout `keys`: the sum of
/// `pair_cost` over its adjacent pairs.
pub open spec fn text_cost(keys: Seq<Key>, text: Seq<char>) -> int
    decreases text.len(),
{
    if text.len() < 2 {
        0
    } else {
        text_cost(keys, text.drop_last()) + pair_cost(keys, text[text.len() - 2], text.last())
    }
}

/// Effort, in sixteenths, of typing every text of `files` on `keys`.
pub open spec fn corpus_cost(keys: Seq<Key>, files: Seq<Seq<char>>) -> int
    decreases files.len(),
{
    if files.len() == 0 {
        0
    } else {
        corpus_cost(keys, files.drop_last()) + text_cost(keys, files.last())
    }
}

/// Number of characters over all texts of `files`.
pub open spec fn total_chars(files: Seq<Seq<char>>) -> int
    decreases files.len(),
{
    if files.len() == 0 {
        0
    } else {
        total_chars(files.drop_last()) + files.last().len()
    }
}

/// The texts a layout is scored on, held in memory.
pub struct Corpus {
    files: Vec<Vec<char>>,
}

impl View for Corpus {
    type V = Seq<Seq<char>>;

    closed spec fn view(&self) -> Seq<Seq<char>> {
        Seq::new(self.files@.len(), |i: int| self.files@[i]@)
    }
}

impl Corpus {
    /// The corpus is small enough that scores fit in a `u64`.
    pub open spec fn wf(&self) -> bool {
        total_chars(self@) <= MAX_CORPUS_CHARS
    }

    /// An empty corpus.
    pub fn new() -> (r: Corpus)
        ensures
            r@ == Seq::<Seq<char>>::empty(),
            r.wf(),
    {
        let r = Corpus { files: Vec::new() };
        assert(r@ =~= Seq::<Seq<char>>::empty());
        r
    }

    /// Number of characters over all texts.
    pub fn char_count(&self) -> (r: u64)
        requires
            self.wf(),
        ensures
            r == total_chars(self@),
    {
        let mut total: u64 = 0;
        let mut i: usize = 0;
        while i < self.files.len()
            invariant
                i <= self.files@.len(),
                self.wf(),
                total == total_chars(self@.take(i as int)),
            decreases self.files@.len() - i,
        {
            proof {
                assert(self@.take(i as int + 1).drop_last() =~= self@.take(i as int));
                lemma_total_chars_prefix(self@, i as int + 1);
            }
            total = total + self.files[i].len() as u64;
            i += 1;
        }
        assert(self@.take(self.files@.len() as int) =~= self@);
        total
    }

    /// Adds a text, unless the corpus would then hold more than
    /// `MAX_CORPUS_CHARS` characters; says whether it was added.
    pub fn add_file(&mut self, text: Vec<char>) -> (added: bool)
        requires
            old(self).wf(),
        ensures
            added == (total_chars(old(self)@) + text@.len() <= MAX_CORPUS_CHARS),
            final(self)@ == if added {
                old(self)@.push(text@)
            } else {
                old(self)@
            },
            final(self).wf(),
    {
        let count = self.char_count();
        if text.len() as u64 > MAX_CORPUS_CHARS - count {
            return false;
        }
        let ghost before = self@;
        self.files.push(text);
        assert(self@ =~= before.push(text@));
        assert(self@.drop_last() =~= before);
        true
    }
}

/// The characters of a prefix never outnumber those of the whole.
proof fn lemma_total_chars_prefix(files: Seq<Seq<char>>, n: int)
    requires
        0 <= n <= files.len(),
    ensures
        total_chars(files.take(n)) <= total_chars(files),
    decreases files.len() - n,
{
    if n < files.len() {
        lemma_total_chars_prefix(files, n + 1);
        assert(files.take(n + 1).drop_last() =~= files.take(n));
    } else {
        assert(files.take(n) =~= files);
    }
}

/// One bigram costs at most `MAX_PAIR_COST`.
pub proof fn lemma_pair_cost_bound(keys: Seq<Key>, x: char, y: char)
    requires
        keys.len() == KEY_COUNT,
    ensures
        0 <= pair_cost(keys, x, y) <= MAX_PAIR_COST,
{
    lemma_find_from(keys, x, 0);
    lemma_find_from(keys, y, 0);
    if let Some(b) = position_of(keys, y) {
        lemma_heat_bound(b as int);
        let h = heat(b as int);
        if let Some(a) = position_of(keys, x) {
            let f = factor(a as int, b as int);
            assert(3 <= f <= 6);
            assert(0 <= h * f <= 96) by (nonlinear_arith)
                requires
                    0 <= h <= 16,
                    3 <= f <= 6,
            ;
        }
    }
}

/// Heatmap weights lie in `0..=16` quarters.
pub proof fn lemma_heat_bound(p: int)
    requires
        is_position(p),
    ensures
        0 <= heat(p) <= 16,
{
    let t = crate::board::heat_table();
    assert(0 <= t[p] <= 16);
}

/// A text costs at most `MAX_PAIR_COST` per character.
pub proof fn lemma_text_cost_bound(keys: Seq<Key>, text: Seq<char>)
    requires
        keys.len() == KEY_COUNT,
    ensures
        0 <= text_cost(keys, text) <= MAX_PAIR_COST * text.len(),
    decreases text.len(),
{
    if text.len() >= 2 {
        lemma_text_cost_bound(keys, text.drop_last());
        lemma_pair_cost_bound(keys, text[text.len() - 2], text.last());
    }
}

/// A corpus costs at most `MAX_PAIR_COST` per character.
pub proof fn lemma_corpus_cost_bound(keys: Seq<Key>, files: Seq<Seq<char>>)
    requires
        keys.len() == KEY_COUNT,
    ensures
        0 <= corpus_cost(keys, files) <= MAX_PAIR_COST * total_chars(files),
    decreases files.len(),
{
    if files.len() > 0 {
        lemma_corpus_cost_bound(keys, files.drop_last());
        lemma_text_cost_bound(keys, files.last());
        lemma_total_chars_nonneg(files.drop_last());
    }
}

proof fn lemma_total_chars_nonneg(files: Seq<Seq<char>>)
    ensures
        total_chars(files) >= 0,
    decreases files.len(),
{
    if files.len() > 0 {
        lemma_total_chars_nonneg(files.drop_last());
    }
}

/// Number of character codes the position table covers (ASCII).
pub const TABLE_CODES: u32 = 128;

impl Keyboard {
    /// For each ASCII code, the first position whose key types that
    /// character, so that scoring looks characters up in constant time.
    pub fn position_table(&self) -> (r: Vec<Option<usize>>)
        ensures
            r@.len() == TABLE_CODES,
            forall|c: char| (c as u32) < TABLE_CODES ==> #[trigger] r@[c as u32 as int] == position_of(self@, c),
    {
        proof {
            self.lemma_len();
        }
        let mut table: Vec<Option<usize>> = Vec::new();
        let mut k: u32 = 0;
        while k < TABLE_CODES
            invariant
                k <= TABLE_CODES,
                table@.len() == k,
                forall|j: int| 0 <= j < k ==> #[trigger] table@[j] is None,
            decreases TABLE_CODES - k,
        {
            table.push(None);
            k += 1;
        }
        let mut p: usize = KEY_COUNT;
        while p > 0
            invariant
                p <= KEY_COUNT,
                self@.len() == KEY_COUNT,
                table@.len() == TABLE_CODES,
                forall|c: char|
                    (c as u32) < TABLE_CODES ==> #[trigger] table@[c as u32 as int] == find_from(self@, c, p as int),
            decreases p,
        {
            p -= 1;
            let key = self.key_at(p);
            let (lower, upper) = match key {
                Key::Letter(l, u) | Key::StaticLetter(l, u) | Key::Number(l, u) | Key::Punctuation(l, u) => (l, u),
            };
            assert(lower == key.lower() && upper == key.upper());
            if (upper as u32) < TABLE_CODES {
                table.set(upper as u32 as usize, Some(p));
            }
            if (lower as u32) < TABLE_CODES {
                table.set(lower as u32 as usize, Some(p));
            }
            assert forall|c: char| (c as u32) < TABLE_CODES implies #[trigger] table@[c as u32 as int]
                == find_from(self@, c, p as int) by {
                if c == lower || c == upper {
                    assert(self@[p as int].types(c));
                } else {
                    assert(c as u32 != lower as u32);
                    assert(c as u32 != upper as u32);
                }
            }
        }
        table
    }

    /// The first position whose key types `c`, through `table` for ASCII.
    fn lookup(&self, table: &Vec<Option<usize>>, c: char) -> (r: Option<usize>)
        requires
            table@.len() == TABLE_CODES,
            forall|d: char| (d as u32) < TABLE_CODES ==> #[trigger] table@[d as u32 as int] == position_of(self@, d),
        ensures
            r == position_of(self@, c),
    {
        if (c as u32) < TABLE_CODES {
            table[c as u32 as usize]
        } else {
            self.char_to_index(c)
        }
    }

    /// Effort, in sixteenths, of typing `text` on this layout.
    pub fn text_score(&self, text: &Vec<char>) -> (r: u64)
        requires
            text@.len() <= MAX_CORPUS_CHARS,
        ensures
            r == text_cost(self@, text@),
    {
        proof {
            self.lemma_len();
        }
        if text.len() < 2 {
            return 0;
        }
        let table = self.position_table();
        let mut score: u64 = 0;
        let mut prev: Option<usize> = self.lookup(&table, text[0]);
        let mut i: usize = 1;
        while i < text.len()
            invariant
                1 <= i <= text@.len(),
                text@.len() <= MAX_CORPUS_CHARS,
                self@.len() == KEY_COUNT,
                prev == position_of(self@, text@[i - 1]),
                score == text_cost(self@, text@.take(i as int)),
                table@.len() == TABLE_CODES,
                forall|d: char| (d as u32) < TABLE_CODES ==> #[trigger] table@[d as u32 as int] == position_of(self@, d),
            decreases text@.len() - i,
        {
            let next = self.lookup(&table, text[i]);
            let cost: u64 = match (prev, next) {
                (Some(a), Some(b)) => {
                    proof {
                        lemma_find_from(self@, text@[i - 1], 0);
                        lemma_find_from(self@, text@[i as int], 0);
                    }
                    self.distance(a, b)
                },
                (None, Some(b)) => {
                    proof {
                        lemma_find_from(self@, text@[i as int], 0);
                    }
                    heatmap(b) * QUARTERS
                },
                (_, None) => 0,
            };
            proof {
                let t = text@.take(i as int + 1);
                assert(t.drop_last() =~= text@.take(i as int));
                assert(t[t.len() - 2] == text@[i - 1]);
                assert(t.last() == text@[i as int]);
                lemma_text_cost_bound(self@, text@.take(i as int + 1));
            }
            score = score + cost;
            prev = next;
            i += 1;
        }
        assert(text@.take(text@.len() as int) =~= text@);
        score
    }

    /// The score of this layout on `corpus`: its effort, in sixteenths, over
    /// every text. Lower is better.
    pub fn score(&self, corpus: &Corpus) -> (r: u64)
        requires
            corpus.wf(),
        ensures
            r == corpus_cost(self@, corpus@),
    {
        proof {
            self.lemma_len();
        }
        let mut total: u64 = 0;
        let mut i: usize = 0;
        while i < corpus.files.len()
            invariant
                i <= corpus.files@.len(),
                corpus.wf(),
                self@.len() == KEY_COUNT,
                total == corpus_cost(self@, corpus@.take(i as int)),
            decreases corpus.files@.len() - i,
        {
            proof {
                let f = corpus@.take(i as int + 1);
                assert(f.drop_last() =~= corpus@.take(i as int));
                lemma_total_chars_prefix(corpus@, i as int + 1);
                lemma_corpus_cost_bound(self@, f);
                lemma_total_chars_nonneg(f.drop_last());
                assert(corpus@[i as int] == corpus.files@[i as int]@);
            }
            let s = self.text_score(&corpus.files[i]);
            total = total + s;
            i += 1;
        }
        assert(corpus@.take(corpus.files@.len() as int) =~= corpus@);
        total
    }
}

} // verus!
