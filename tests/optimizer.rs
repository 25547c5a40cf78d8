use keyboard_gen::optimizer::{cached_score, mutation_strength, rank_by_score, ELITE_COUNT, POPULATION};
use keyboard_gen::{run_group, Corpus, Group, Keyboard};

fn small_corpus() -> Corpus {
    let mut c = Corpus::new();
    assert!(c.add_file("the quick brown fox jumps over the lazy dog".chars().collect()));
    assert!(c.add_file("pack my box with five dozen liquor jugs".chars().collect()));
    c
}

#[test]
fn mutation_ladder() {
    let expected = [1, 2, 4, 8, 16, 32];
    for i in 0..60 {
        assert_eq!(mutation_strength(i), expected[i % 6]);
    }
}

#[test]
fn cached_score_reuses_elite_score() {
    let corpus = small_corpus();
    let kb = Keyboard::new_47();
    let other = Keyboard::new_47().reproduce(32);
    // A deliberately wrong cached score shows that no fresh evaluation happened.
    let elites = vec![(7, other), (12345, kb), (99, kb)];
    assert_eq!(cached_score(&kb, &elites, &corpus), 12345);
}

#[test]
fn cached_score_without_match_is_fresh() {
    let corpus = small_corpus();
    let kb = Keyboard::new_47();
    let mut moved = kb;
    moved.swap_keys(15, 16);
    let elites = vec![(12345, moved)];
    assert_eq!(cached_score(&kb, &elites, &corpus), kb.score(&corpus));
    assert_eq!(cached_score(&kb, &Vec::new(), &corpus), kb.score(&corpus));
}

#[test]
fn rank_sorts_by_score() {
    let kb = Keyboard::new_47();
    let mut v = vec![(5, kb), (1, kb), (9, kb), (1, kb), (0, kb)];
    rank_by_score(&mut v);
    let scores: Vec<u64> = v.iter().map(|e| e.0).collect();
    assert_eq!(scores, vec![0, 1, 1, 5, 9]);
    let mut empty: Vec<(u64, Keyboard)> = Vec::new();
    rank_by_score(&mut empty);
    assert!(empty.is_empty());
}

#[test]
fn elites_are_the_lowest_half() {
    let corpus = small_corpus();
    let mut group = Group::new(&corpus);
    for _ in 0..5 {
        let mut fresh: Vec<u64> = group.population().iter().map(|k| k.score(&corpus)).collect();
        group.step(&corpus);
        fresh.sort();
        let elite_scores: Vec<u64> = group.elites().iter().map(|e| e.0).collect();
        assert_eq!(elite_scores.len(), ELITE_COUNT);
        assert_eq!(elite_scores, fresh[..ELITE_COUNT].to_vec());
        assert_eq!(group.population().len(), POPULATION);
        for (i, e) in group.elites().iter().enumerate() {
            assert!(group.population()[i] == e.1);
        }
    }
}

#[test]
fn best_score_never_increases() {
    let corpus = small_corpus();
    let mut group = Group::new(&corpus);
    group.step(&corpus);
    let mut best = group.best().0;
    for _ in 0..40 {
        group.step(&corpus);
        let next = group.best().0;
        assert!(next <= best);
        best = next;
    }
}

#[test]
fn cached_elite_scores_are_fresh() {
    let corpus = small_corpus();
    let mut group = Group::new(&corpus);
    for e in group.elites() {
        assert_eq!(e.0, e.1.score(&corpus));
    }
    for _ in 0..10 {
        group.step(&corpus);
        for e in group.elites() {
            assert_eq!(e.0, e.1.score(&corpus));
        }
    }
}

#[test]
fn search_stops_after_a_stagnant_window() {
    let corpus = small_corpus();
    let mut group = Group::new(&corpus);
    let mut bests: Vec<u64> = Vec::new();
    loop {
        let done = group.step(&corpus);
        bests.push(group.best().0);
        let n = bests.len();
        let stagnant = n >= 100 && bests[n - 100..].iter().all(|&b| b == bests[n - 1]);
        assert_eq!(done, stagnant);
        if done {
            break;
        }
    }
    assert!(bests.len() >= 100);
}

#[test]
fn run_group_returns_a_scored_layout() {
    let corpus = small_corpus();
    let (score, layout) = run_group(&corpus);
    assert_eq!(score, layout.score(&corpus));
    let canon = Keyboard::new_47();
    for p in [0, 1, 10, 13, 25, 31, 34, 46] {
        assert_eq!(layout.key_at(p), canon.key_at(p));
    }
}
