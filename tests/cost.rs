use keyboard_gen::{Corpus, Keyboard};

fn chars(s: &str) -> Vec<char> {
    s.chars().collect()
}

fn corpus_of(texts: &[&str]) -> Corpus {
    let mut c = Corpus::new();
    for t in texts {
        assert!(c.add_file(chars(t)));
    }
    c
}

#[test]
fn empty_corpus_scores_zero() {
    let kb = Keyboard::new_47();
    assert_eq!(kb.score(&Corpus::new()), 0);
    assert_eq!(Keyboard::new_random().score(&Corpus::new()), 0);
}

#[test]
fn single_char_scores_zero() {
    let kb = Keyboard::new_47();
    assert_eq!(kb.score(&corpus_of(&["a"])), 0);
    assert_eq!(kb.score(&corpus_of(&[""])), 0);
}

#[test]
fn two_chars_score_their_distance() {
    let kb = Keyboard::new_47();
    let a = kb.char_to_index('a').unwrap();
    let b = kb.char_to_index('b').unwrap();
    assert_eq!(kb.score(&corpus_of(&["ab"])), kb.distance(a, b));
    assert_eq!(kb.score(&corpus_of(&["ab"])), 0);
    // d sits at 39, a row below a, same hand: 1.0 of H[39] = 1.0.
    assert_eq!(kb.score(&corpus_of(&["ad"])), 16);
}

#[test]
fn unmapped_leading_char_costs_the_cold_weight() {
    let kb = Keyboard::new_47();
    // H[26] = 0.25, i.e. 4 sixteenths.
    assert_eq!(kb.score(&corpus_of(&["\ta"])), 4);
    // An unmapped second character costs nothing.
    assert_eq!(kb.score(&corpus_of(&["a\t"])), 0);
    assert_eq!(kb.score(&corpus_of(&["\t\n"])), 0);
}

#[test]
fn text_score_sums_pairs() {
    let kb = Keyboard::new_47();
    // a->i: upward, 1.5 of H[15] = 18; i->a: downward, 1.0 of H[26] = 4;
    // A->d: 16 (uppercase maps to the same key).
    assert_eq!(kb.text_score(&chars("ai")), 18);
    assert_eq!(kb.text_score(&chars("aia")), 22);
    assert_eq!(kb.text_score(&chars("Ad")), 16);
}

#[test]
fn corpus_score_adds_files() {
    let kb = Keyboard::new_47();
    let c = corpus_of(&["ai", "\ta", "ad"]);
    assert_eq!(c.char_count(), 6);
    assert_eq!(kb.score(&c), 18 + 4 + 16);
}

#[test]
fn score_changes_with_layout() {
    let c = corpus_of(&["ai"]);
    let mut kb = Keyboard::new_47();
    let before = kb.score(&c);
    // Put i at 16 (H = 0.75, row 1, left): upward from a, 1.5 * 0.75 = 18 sixteenths too;
    // at 39 instead (row 3, left) it is downward: 1.0 * 1.0 = 16.
    kb.swap_keys(15, 39);
    assert_eq!(before, 18);
    assert_eq!(kb.score(&c), 16);
}

#[test]
fn position_table_matches_lookup() {
    let kb = Keyboard::new_random();
    let table = kb.position_table();
    assert_eq!(table.len(), 128);
    for code in 0u8..128 {
        let c = code as char;
        assert_eq!(table[code as usize], kb.char_to_index(c));
    }
    let canon = Keyboard::new_47();
    let t = canon.position_table();
    assert_eq!(t['a' as usize], Some(26));
    assert_eq!(t['H' as usize], Some(31));
    assert_eq!(t['\t' as usize], None);
}

#[test]
fn non_ascii_chars_are_unmapped() {
    let kb = Keyboard::new_47();
    assert_eq!(kb.text_score(&chars("éa")), 4);
    assert_eq!(kb.text_score(&chars("aé")), 0);
}
