//! The genetic optimizer: a population of layouts evaluated on a corpus,
//! elitist selection, a ladder of mutation strengths, memoised scores, and a
//! stagnation rule that ends the search.
use vstd::prelude::*;
use vstd::seq_lib::to_multiset_update;

use rayon::iter::{IndexedParallelIterator, IntoParallelRefIterator, ParallelIterator};

use crate::board::KEY_COUNT;
use crate::cost::{corpus_cost, lemma_corpus_cost_bound, Corpus};
use crate::layout::{Key, Keyboard};
use crate::mutation::{has_mobile_letter, is_layout};

verus! {

/// Layouts per generation.
pub const POPULATION: usize = 100;

/// Layouts kept from one generation to the next.
pub const ELITE_COUNT: usize = 50;

/// Generations over which an unchanged best score ends the search.
pub const WINDOW: usize = 100;

/// The value the score history starts with; no score reaches it.
pub const SENTINEL: u64 = 0xffff_ffff_ffff_ffff;

/// Scores never decrease along `s`.
pub open spec fn sorted_by_score(s: Seq<(u64, Keyboard)>) -> bool {
    forall|a: int, b: int| 0 <= a < b < s.len() ==> s[a].0 <= s[b].0
}

/// Sorts `v` by ascending score.
pub fn rank_by_score(v: &mut Vec<(u64, Keyboard)>)
    ensures
        final(v)@.len() == old(v)@.len(),
        final(v)@.to_multiset() == old(v)@.to_multiset(),
        sorted_by_score(final(v)@),
{
    let n = v.len();
    let mut i: usize = 1;
    if n == 0 {
        return ;
    }
    while i < n
        invariant
            1 <= i <= n,
            n == v@.len(),
            v@.to_multiset() == old(v)@.to_multiset(),
            forall|a: int, b: int| 0 <= a < b < i ==> v@[a].0 <= v@[b].0,
        decreases n - i,
    {
        let mut j: usize = i;
        while j > 0 && v[j - 1].0 > v[j].0
            invariant
                0 <= j <= i < n,
                n == v@.len(),
                v@.to_multiset() == old(v)@.to_multiset(),
                forall|a: int, b: int|
                    0 <= a < b <= i && a != j && b != j ==> v@[a].0 <= v@[b].0,
                forall|b: int| j < b <= i ==> v@[j as int].0 <= v@[b].0,
            decreases j,
        {
            let x = v[j - 1];
            let y = v[j];
            proof {
                swap_keeps_multiset(v@, j - 1, j as int);
            }
            v.set(j - 1, y);
            v.set(j, x);
            j -= 1;
        }
        proof {
            if j > 0 {
                assert forall|a: int, b: int| 0 <= a < b <= i implies v@[a].0 <= v@[b].0 by {
                    if b == j && a < j - 1 {
                        assert(v@[a].0 <= v@[j - 1].0);
                    }
                }
            }
        }
        i += 1;
    }
}

proof fn swap_keeps_multiset(s: Seq<(u64, Keyboard)>, i: int, j: int)
    requires
        0 <= i < s.len(),
        0 <= j < s.len(),
    ensures
        s.update(i, s[j]).update(j, s[i]).to_multiset() == s.to_multiset(),
{
    broadcast use vstd::multiset::group_multiset_axioms, vstd::seq_lib::to_multiset_contains;
    let u = s.update(i, s[j]);
    to_multiset_update(s, i, s[j]);
    to_multiset_update(u, j, s[i]);
    assert(u[j] == s[j]);
    assert(s.contains(s[i]));
    assert(u.contains(u[j]));
    assert(s.update(i, s[j]).update(j, s[i]).to_multiset() =~= s.to_multiset());
}

/// Two sequences with the same multiset hold the same elements.
proof fn lemma_same_elements(a: Seq<(u64, Keyboard)>, b: Seq<(u64, Keyboard)>, x: (u64, Keyboard))
    requires
        a.to_multiset() == b.to_multiset(),
    ensures
        a.contains(x) <==> b.contains(x),
{
    vstd::seq_lib::to_multiset_contains(a, x);
    vstd::seq_lib::to_multiset_contains(b, x);
}

/// Index into `bests` of the value that slot `k` of the score history holds:
/// the last generation `t` with `t % WINDOW == k`.
pub open spec fn slot_source(n: int, k: int) -> int {
    k + WINDOW * ((n - 1 - k) / WINDOW as int)
}

/// The score history after the best scores `bests` were recorded in turn,
/// the best of generation `t` in slot `t % WINDOW`, over a history that
/// started as `SENTINEL` everywhere.
pub open spec fn history_of(bests: Seq<u64>) -> Seq<u64> {
    Seq::new(
        WINDOW as nat,
        |k: int|
            if k < bests.len() {
                bests[slot_source(bests.len() as int, k)]
            } else {
                SENTINEL
            },
    )
}

/// Every entry of `h` equals its first.
pub open spec fn all_same(h: Seq<u64>) -> bool {
    forall|k: int| 0 <= k < h.len() ==> #[trigger] h[k] == h[0]
}

/// The best score has been the same for the last `WINDOW` generations.
pub open spec fn stagnant(bests: Seq<u64>) -> bool {
    &&& bests.len() >= WINDOW
    &&& forall|t: int| bests.len() - WINDOW <= t < bests.len() ==> #[trigger] bests[t] == bests.last()
}

/// Slot `k` of the history holds a value from the last `WINDOW` generations.
proof fn lemma_slot_source(n: int, k: int)
    requires
        0 <= k < WINDOW,
        k < n,
    ensures
        n - WINDOW <= slot_source(n, k) < n,
        slot_source(n, k) % (WINDOW as int) == k,
        slot_source(n, k) >= 0,
{
    let m = n - 1 - k;
    assert(m >= 0);
    assert(slot_source(n, k) == n - 1 - m % (WINDOW as int));
}

/// Generation `t` among the last `WINDOW` is what slot `t % WINDOW` holds.
proof fn lemma_slot_of_recent(n: int, t: int)
    requires
        0 <= t < n,
        n - WINDOW <= t,
    ensures
        t % (WINDOW as int) < n,
        slot_source(n, t % (WINDOW as int)) == t,
{
    let k = t % (WINDOW as int);
    let a = t / (WINDOW as int);
    assert(t == WINDOW * a + k);
    assert(n - 1 - k == WINDOW * a + (n - 1 - t));
    assert((n - 1 - k) / (WINDOW as int) == a);
}

/// Recording one more best writes it to slot `n % WINDOW` and leaves the
/// other slots as they were.
pub proof fn lemma_history_push(bests: Seq<u64>, b: u64)
    ensures
        history_of(bests.push(b)) == history_of(bests).update(
            bests.len() as int % (WINDOW as int),
            b,
        ),
{
    let n = bests.len() as int;
    let s = n % (WINDOW as int);
    let next = bests.push(b);
    assert forall|k: int| 0 <= k < WINDOW implies #[trigger] history_of(next)[k] == history_of(
        bests,
    ).update(s, b)[k] by {
        if k == s {
            lemma_slot_of_recent(n + 1, n);
        } else if k < n {
            lemma_slot_source(n, k);
            lemma_slot_source(n + 1, k);
            let t = slot_source(n + 1, k);
            assert(t != n);
            lemma_slot_of_recent(n, t);
        } else {
            assert(k > n);
        }
    }
    assert(history_of(next) =~= history_of(bests).update(s, b));
}

/// The score history holds one value in every slot exactly when the best
/// score has been the same for the last `WINDOW` generations (scores stay
/// below the sentinel, and at least one generation has been recorded).
pub proof fn lemma_stagnation(bests: Seq<u64>)
    requires
        bests.len() >= 1,
        forall|t: int| 0 <= t < bests.len() ==> bests[t] < SENTINEL,
    ensures
        all_same(history_of(bests)) <==> stagnant(bests),
{
    let n = bests.len() as int;
    let h = history_of(bests);
    if stagnant(bests) {
        assert forall|k: int| 0 <= k < h.len() implies #[trigger] h[k] == h[0] by {
            lemma_slot_source(n, k);
            lemma_slot_source(n, 0);
        }
    }
    if all_same(h) {
        if n < WINDOW {
            assert(h[n] == SENTINEL);
            assert(h[0] == bests[slot_source(n, 0)]);
            lemma_slot_source(n, 0);
        } else {
            assert forall|t: int| n - WINDOW <= t < n implies #[trigger] bests[t] == bests.last() by {
                lemma_slot_of_recent(n, t);
                lemma_slot_of_recent(n, n - 1);
                assert(h[t % (WINDOW as int)] == bests[t]);
                assert(h[(n - 1) % (WINDOW as int)] == bests[n - 1]);
            }
        }
    }
}

/// The cached score of the first of `elites` from index `i` on whose keys
/// equal `k`, if any.
pub open spec fn cached_from(k: Seq<Key>, elites: Seq<(u64, Keyboard)>, i: int) -> Option<u64>
    decreases elites.len() - i,
{
    if i < 0 || i >= elites.len() {
        None
    } else if elites[i].1@ == k {
        Some(elites[i].0)
    } else {
        cached_from(k, elites, i + 1)
    }
}

/// The score an evaluation records for layout `k`: the cached score of the
/// first elite with the same keys, else its score on the corpus.
pub open spec fn recorded_score(k: Seq<Key>, elites: Seq<(u64, Keyboard)>, corpus: Seq<Seq<char>>) -> int {
    match cached_from(k, elites, 0) {
        Some(s) => s as int,
        None => corpus_cost(k, corpus),
    }
}

/// Every elite's cached score is its score on the corpus.
pub open spec fn scores_fresh(elites: Seq<(u64, Keyboard)>, corpus: Seq<Seq<char>>) -> bool {
    forall|i: int| 0 <= i < elites.len() ==> #[trigger] elites[i].0 == corpus_cost(elites[i].1@, corpus)
}

/// Each layout of `population` with its score on the corpus.
pub open spec fn scored(population: Seq<Keyboard>, corpus: Seq<Seq<char>>) -> Seq<(u64, Keyboard)> {
    Seq::new(
        population.len(),
        |i: int| (corpus_cost(population[i]@, corpus) as u64, population[i]),
    )
}

/// Mutations applied to the child of the elite ranked `i`: 1, 2, 4, 8, 16, 32 by `i % 6`.
pub open spec fn ladder(i: int) -> nat {
    let k = i % 6;
    if k == 0 {
        1
    } else if k == 1 {
        2
    } else if k == 2 {
        4
    } else if k == 3 {
        8
    } else if k == 4 {
        16
    } else {
        32
    }
}

/// Where every elite's cached score is fresh, the score an evaluation
/// records for any layout equals its score on the corpus.
pub proof fn lemma_recorded_is_fresh(k: Seq<Key>, elites: Seq<(u64, Keyboard)>, corpus: Seq<Seq<char>>)
    requires
        scores_fresh(elites, corpus),
    ensures
        recorded_score(k, elites, corpus) == corpus_cost(k, corpus),
{
    lemma_cached_fresh(k, elites, corpus, 0);
}

/// A cached score, where it is fresh, is the score on the corpus.
proof fn lemma_cached_fresh(k: Seq<Key>, elites: Seq<(u64, Keyboard)>, corpus: Seq<Seq<char>>, i: int)
    requires
        0 <= i,
        scores_fresh(elites, corpus),
    ensures
        cached_from(k, elites, i) matches Some(s) ==> s == corpus_cost(k, corpus),
    decreases elites.len() - i,
{
    if i < elites.len() && elites[i].1@ != k {
        lemma_cached_fresh(k, elites, corpus, i + 1);
    }
}

/// A score on a corpus that fits stays below the sentinel.
proof fn lemma_score_below_sentinel(k: Seq<Key>, corpus: &Corpus)
    requires
        corpus.wf(),
        k.len() == KEY_COUNT,
    ensures
        0 <= corpus_cost(k, corpus@) < SENTINEL,
{
    lemma_corpus_cost_bound(k, corpus@);
}

/// Mutations applied to the child of the elite ranked `i`.
pub fn mutation_strength(i: usize) -> (r: usize)
    ensures
        r == ladder(i as int),
{
    let k = i % 6;
    if k == 0 {
        1
    } else if k == 1 {
        2
    } else if k == 2 {
        4
    } else if k == 3 {
        8
    } else if k == 4 {
        16
    } else {
        32
    }
}

/// The score to record for `layout`: the cached score of the first elite
/// with the same keys, so that an unchanged layout is not scored again;
/// else its score on the corpus.
pub fn cached_score(layout: &Keyboard, elites: &Vec<(u64, Keyboard)>, corpus: &Corpus) -> (r: u64)
    requires
        corpus.wf(),
    ensures
        r == recorded_score(layout@, elites@, corpus@),
{
    let mut i: usize = 0;
    while i < elites.len()
        invariant
            i <= elites@.len(),
            cached_from(layout@, elites@, 0) == cached_from(layout@, elites@, i as int),
        decreases elites@.len() - i,
    {
        if elites[i].1 == *layout {
            return elites[i].0;
        }
        i += 1;
    }
    layout.score(corpus)
}

/// Relies on rayon's `par_iter().map(..).collect_into_vec(..)` over a slice:
/// the closure runs once on every layout, and the vector receives the
/// results in the order of the layouts.
#[verifier::external_body]
fn scores_in_parallel(layouts: &Vec<Keyboard>, elites: &Vec<(u64, Keyboard)>, corpus: &Corpus) -> (r: Vec<u64>)
    requires
        corpus.wf(),
    ensures
        r@.len() == layouts@.len(),
        forall|i: int|
            0 <= i < layouts@.len() ==> r@[i] == recorded_score(layouts@[i]@, elites@, corpus@),
{
    let mut r = Vec::new();
    layouts.par_iter().map(|k| cached_score(k, elites, corpus)).collect_into_vec(&mut r);
    r
}

/// One optimizer run: a population, its elites, and the history of best
/// scores that decides when the search stops.
pub struct Group {
    population: Vec<Keyboard>,
    elites: Vec<(u64, Keyboard)>,
    history: Vec<u64>,
    slot: usize,
    bests: Ghost<Seq<u64>>,
    ranking: Ghost<Seq<(u64, Keyboard)>>,
}

impl Group {
    pub closed spec fn population_view(&self) -> Seq<Keyboard> {
        self.population@
    }

    pub closed spec fn elites_view(&self) -> Seq<(u64, Keyboard)> {
        self.elites@
    }

    pub closed spec fn history_view(&self) -> Seq<u64> {
        self.history@
    }

    /// The best score of each generation so far.
    pub closed spec fn bests(&self) -> Seq<u64> {
        self.bests@
    }

    /// The last generation's population, scored and sorted.
    pub closed spec fn ranking(&self) -> Seq<(u64, Keyboard)> {
        self.ranking@
    }

    pub open spec fn best_score(&self) -> u64 {
        self.elites_view()[0].0
    }

    /// The group's invariant on the corpus `corpus`.
    pub closed spec fn wf(&self, corpus: Seq<Seq<char>>) -> bool {
        &&& self.population@.len() == POPULATION
        &&& self.elites@.len() == ELITE_COUNT
        &&& self.history@.len() == WINDOW
        &&& forall|i: int|
            0 <= i < POPULATION ==> is_layout(#[trigger] self.population@[i]@) && has_mobile_letter(
                self.population@[i]@,
            )
        &&& forall|i: int|
            0 <= i < ELITE_COUNT ==> is_layout(#[trigger] self.elites@[i].1@) && has_mobile_letter(
                self.elites@[i].1@,
            )
        &&& scores_fresh(self.elites@, corpus)
        &&& self.history@ == history_of(self.bests@)
        &&& self.slot == (self.bests@.len() as int) % (WINDOW as int)
        &&& forall|t: int| 0 <= t < self.bests@.len() ==> #[trigger] self.bests@[t] < SENTINEL
    }

    /// After a generation: the population starts with the elites, sorted by
    /// score, and the last recorded best is the best elite's score.
    pub open spec fn seeded(&self) -> bool {
        &&& self.elites_view().len() == ELITE_COUNT
        &&& self.population_view().len() == POPULATION
        &&& forall|i: int| 0 <= i < ELITE_COUNT ==> #[trigger] self.population_view()[i] == self.elites_view()[i].1
        &&& sorted_by_score(self.elites_view())
        &&& self.bests().len() >= 1
        &&& self.bests().last() == self.best_score()
    }

    pub proof fn lemma_wf(&self, corpus: Seq<Seq<char>>)
        requires
            self.wf(corpus),
        ensures
            self.population_view().len() == POPULATION,
            self.elites_view().len() == ELITE_COUNT,
            self.history_view().len() == WINDOW,
            scores_fresh(self.elites_view(), corpus),
            self.history_view() == history_of(self.bests()),
            forall|i: int| 0 <= i < ELITE_COUNT ==> is_layout(#[trigger] self.elites_view()[i].1@),
    {
    }

    /// A new group: 100 random layouts, and 50 more random layouts scored
    /// on the corpus as the first elites.
    pub fn new(corpus: &Corpus) -> (r: Group)
        requires
            corpus.wf(),
        ensures
            r.wf(corpus@),
            r.bests().len() == 0,
    {
        let mut population: Vec<Keyboard> = Vec::new();
        let mut i: usize = 0;
        while i < POPULATION
            invariant
                i <= POPULATION,
                population@.len() == i,
                forall|j: int|
                    0 <= j < i ==> is_layout(#[trigger] population@[j]@) && has_mobile_letter(
                        population@[j]@,
                    ),
            decreases POPULATION - i,
        {
            let k = Keyboard::new_random();
            population.push(k);
            i += 1;
        }
        let mut seeds: Vec<Keyboard> = Vec::new();
        let mut i: usize = 0;
        while i < ELITE_COUNT
            invariant
                i <= ELITE_COUNT,
                seeds@.len() == i,
                forall|j: int|
                    0 <= j < i ==> is_layout(#[trigger] seeds@[j]@) && has_mobile_letter(seeds@[j]@),
            decreases ELITE_COUNT - i,
        {
            let k = Keyboard::new_random();
            seeds.push(k);
            i += 1;
        }
        let none: Vec<(u64, Keyboard)> = Vec::new();
        let scores = scores_in_parallel(&seeds, &none, corpus);
        let mut elites: Vec<(u64, Keyboard)> = Vec::new();
        let mut i: usize = 0;
        while i < ELITE_COUNT
            invariant
                i <= ELITE_COUNT,
                seeds@.len() == ELITE_COUNT,
                scores@.len() == ELITE_COUNT,
                none@.len() == 0,
                forall|j: int|
                    0 <= j < ELITE_COUNT ==> scores@[j] == recorded_score(seeds@[j]@, none@, corpus@),
                forall|j: int|
                    0 <= j < ELITE_COUNT ==> is_layout(#[trigger] seeds@[j]@) && has_mobile_letter(seeds@[j]@),
                elites@.len() == i,
                forall|j: int| 0 <= j < i ==> #[trigger] elites@[j] == (scores@[j], seeds@[j]),
            decreases ELITE_COUNT - i,
        {
            elites.push((scores[i], seeds[i]));
            i += 1;
        }
        let mut history: Vec<u64> = Vec::new();
        let mut i: usize = 0;
        while i < WINDOW
            invariant
                i <= WINDOW,
                history@.len() == i,
                forall|j: int| 0 <= j < i ==> #[trigger] history@[j] == SENTINEL,
            decreases WINDOW - i,
        {
            history.push(SENTINEL);
            i += 1;
        }
        let r = Group {
            population,
            elites,
            history,
            slot: 0,
            bests: Ghost(Seq::empty()),
            ranking: Ghost(Seq::empty()),
        };
        assert(r.history@ =~= history_of(r.bests@));
        r
    }

    /// Runs one generation: scores the population (reusing cached elite
    /// scores), ranks it, keeps the 50 best as elites and as the first half
    /// of the next population, breeds the second half from the elites along
    /// the mutation ladder, and records the best score. Returns whether the
    /// search is over: the best score has not changed for `WINDOW`
    /// generations.
    pub fn step(&mut self, corpus: &Corpus) -> (done: bool)
        requires
            old(self).wf(corpus@),
            corpus.wf(),
        ensures
            final(self).wf(corpus@),
            final(self).seeded(),
            final(self).bests() == old(self).bests().push(final(self).best_score()),
            final(self).ranking().to_multiset() == scored(old(self).population_view(), corpus@).to_multiset(),
            sorted_by_score(final(self).ranking()),
            final(self).ranking().len() == POPULATION,
            final(self).elites_view() == final(self).ranking().take(ELITE_COUNT as int),
            forall|i: int|
                0 <= i < ELITE_COUNT ==> #[trigger] final(self).population_view()[i] == final(self).ranking()[i].1,
            old(self).seeded() ==> final(self).best_score() <= old(self).best_score(),
            done == all_same(final(self).history_view()),
            done == stagnant(final(self).bests()),
    {
        broadcast use vstd::seq_lib::to_multiset_contains;
        let ghost pop0 = self.population@;
        let ghost elites0 = self.elites@;
        let ghost evaluated = scored(pop0, corpus@);
        let scores = scores_in_parallel(&self.population, &self.elites, corpus);
        let mut ranked: Vec<(u64, Keyboard)> = Vec::new();
        let mut i: usize = 0;
        while i < POPULATION
            invariant
                i <= POPULATION,
                corpus.wf(),
                pop0 == self.population@,
                pop0.len() == POPULATION,
                scores@.len() == POPULATION,
                scores_fresh(elites0, corpus@),
                forall|j: int|
                    0 <= j < POPULATION ==> scores@[j] == recorded_score(pop0[j]@, elites0, corpus@),
                forall|j: int|
                    0 <= j < POPULATION ==> is_layout(#[trigger] pop0[j]@) && has_mobile_letter(pop0[j]@),
                evaluated == scored(pop0, corpus@),
                ranked@ == evaluated.take(i as int),
            decreases POPULATION - i,
        {
            proof {
                lemma_cached_fresh(pop0[i as int]@, elites0, corpus@, 0);
                lemma_score_below_sentinel(pop0[i as int]@, corpus);
            }
            ranked.push((scores[i], self.population[i]));
            i += 1;
            assert(ranked@ =~= evaluated.take(i as int));
        }
        assert(evaluated.take(POPULATION as int) =~= evaluated);
        rank_by_score(&mut ranked);
        let ghost order = ranked@;
        proof {
            assert forall|q: int| 0 <= q < POPULATION implies #[trigger] evaluated.contains(order[q]) by {
                assert(order.contains(order[q]));
                lemma_same_elements(order, evaluated, order[q]);
            }
        }
        let mut population: Vec<Keyboard> = Vec::new();
        let mut elites: Vec<(u64, Keyboard)> = Vec::new();
        let mut i: usize = 0;
        while i < POPULATION
            invariant
                i <= POPULATION,
                ranked@ == order,
                order.len() == POPULATION,
                population@.len() == i,
                elites@.len() == if i < ELITE_COUNT { i } else { ELITE_COUNT },
                forall|j: int| 0 <= j < i ==> #[trigger] population@[j] == order[j].1,
                forall|j: int| 0 <= j < i && j < ELITE_COUNT ==> #[trigger] elites@[j] == order[j],
            decreases POPULATION - i,
        {
            population.push(ranked[i].1);
            if i < ELITE_COUNT {
                elites.push(ranked[i]);
            }
            i += 1;
        }
        assert(elites@ =~= order.take(ELITE_COUNT as int));
        proof {
            assert forall|q: int| 0 <= q < POPULATION implies is_layout(#[trigger] order[q].1@)
                && has_mobile_letter(order[q].1@) && order[q].0 == corpus_cost(order[q].1@, corpus@) by {
                assert(evaluated.contains(order[q]));
                let j = choose|j: int| 0 <= j < evaluated.len() && evaluated[j] == order[q];
                assert(is_layout(pop0[j]@) && has_mobile_letter(pop0[j]@));
                lemma_score_below_sentinel(pop0[j]@, corpus);
            }
        }
        let mut i: usize = 0;
        while i < ELITE_COUNT
            invariant
                i <= ELITE_COUNT,
                order.len() == POPULATION,
                elites@ == order.take(ELITE_COUNT as int),
                population@.len() == POPULATION,
                forall|j: int| 0 <= j < ELITE_COUNT ==> #[trigger] population@[j] == order[j].1,
                forall|q: int| 0 <= q < POPULATION ==> is_layout(#[trigger] order[q].1@) && has_mobile_letter(order[q].1@),
                forall|j: int|
                    0 <= j < POPULATION ==> is_layout(#[trigger] population@[j]@) && has_mobile_letter(
                        population@[j]@,
                    ),
            decreases ELITE_COUNT - i,
        {
            let parent = elites[i].1;
            assert(parent == order[i as int].1);
            let child = parent.reproduce(mutation_strength(i));
            population.set(ELITE_COUNT + i, child);
            i += 1;
        }
        let best = elites[0].0;
        proof {
            lemma_history_push(self.bests@, best);
            lemma_score_below_sentinel(order[0].1@, corpus);
        }
        self.history.set(self.slot, best);
        self.slot = if self.slot + 1 == WINDOW { 0 } else { self.slot + 1 };
        self.population = population;
        self.elites = elites;
        self.bests = Ghost(self.bests@.push(best));
        self.ranking = Ghost(order);
        proof {
            assert(self.history@ == history_of(self.bests@));
            if old(self).seeded() {
                assert(pop0[0] == elites0[0].1);
                assert(evaluated[0].0 == elites0[0].0);
                assert(evaluated.contains(evaluated[0]));
                lemma_same_elements(order, evaluated, evaluated[0]);
                assert(order.contains(evaluated[0]));
            }
            assert(self.bests@.last() == best);
            lemma_stagnation(self.bests@);
        }
        let first = self.history[0];
        let mut same = true;
        let mut k: usize = 0;
        while k < WINDOW
            invariant
                k <= WINDOW,
                self.history@.len() == WINDOW,
                first == self.history@[0],
                same == forall|j: int| 0 <= j < k ==> #[trigger] self.history@[j] == first,
            decreases WINDOW - k,
        {
            if self.history[k] != first {
                same = false;
            }
            k += 1;
        }
        same
    }

    /// The best elite: its score and its layout.
    pub fn best(&self) -> (r: (u64, Keyboard))
        requires
            self.elites_view().len() > 0,
        ensures
            r == self.elites_view()[0],
    {
        self.elites[0]
    }

    /// The current elites with their cached scores.
    pub fn elites(&self) -> (r: &Vec<(u64, Keyboard)>)
        ensures
            r@ == self.elites_view(),
    {
        &self.elites
    }

    /// The current population.
    pub fn population(&self) -> (r: &Vec<Keyboard>)
        ensures
            r@ == self.population_view(),
    {
        &self.population
    }
}

/// Runs one group until the best score has not changed for `WINDOW`
/// generations, and returns its best layout with that layout's score.
pub fn run_group(corpus: &Corpus) -> (r: (u64, Keyboard))
    requires
        corpus.wf(),
    ensures
        r.0 == corpus_cost(r.1@, corpus@),
        is_layout(r.1@),
{
    let mut group = Group::new(corpus);
    let mut done = group.step(corpus);
    let ghost mut run: int = 1;
    while !done
        invariant
            corpus.wf(),
            group.wf(corpus@),
            group.seeded(),
            1 <= run <= group.bests().len(),
            run <= WINDOW,
            forall|t: int|
                group.bests().len() - run <= t < group.bests().len() ==> #[trigger] group.bests()[t]
                    == group.best_score(),
            done == stagnant(group.bests()),
        decreases group.best_score(), WINDOW - run,
    {
        let ghost previous = group.best_score();
        let ghost bests0 = group.bests();
        proof {
            if run >= WINDOW {
                assert(stagnant(bests0));
            }
        }
        done = group.step(corpus);
        proof {
            if group.best_score() == previous {
                run = run + 1;
            } else {
                run = 1;
            }
        }
    }
    proof {
        group.lemma_wf(corpus@);
    }
    group.best()
}

} // verus!
