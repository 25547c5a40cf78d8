use keyboard_gen::layout::mobile_slots;
use keyboard_gen::{Key, Keyboard};

fn canonical_keys() -> Vec<Key> {
    let kb = Keyboard::new_47();
    (0..47).map(|p| kb.key_at(p)).collect()
}

fn is_mobile(p: usize) -> bool {
    mobile_slots().contains(&p)
}

/// The invariants every layout reached from the canonical one keeps.
fn check_reachable(kb: &Keyboard) {
    let canon = canonical_keys();
    let keys: Vec<Key> = (0..47).map(|p| kb.key_at(p)).collect();
    for a in 0..47 {
        for b in (a + 1)..47 {
            assert_ne!(keys[a], keys[b]);
        }
        assert!(canon.contains(&keys[a]));
    }
    for p in [19, 20] {
        assert!(matches!(keys[p], Key::Letter(_, _)));
    }
    for p in 0..47 {
        if !is_mobile(p) {
            assert_eq!(keys[p], canon[p]);
        }
        if matches!(keys[p], Key::StaticLetter(_, _) | Key::Number(_, _)) {
            assert_eq!(keys[p], canon[p]);
        }
    }
}

#[test]
fn canonical_layout_keys() {
    let kb = Keyboard::new_47();
    assert_eq!(kb.key_at(0), Key::Punctuation('`', '~'));
    assert_eq!(kb.key_at(1), Key::Number('1', '!'));
    assert_eq!(kb.key_at(26), Key::Letter('a', 'A'));
    assert_eq!(kb.key_at(28), Key::Letter('b', 'B'));
    assert_eq!(kb.key_at(31), Key::StaticLetter('h', 'H'));
    assert_eq!(kb.key_at(37), Key::Punctuation(';', ';'));
    assert_eq!(kb.key_at(45), Key::Letter('y', 'Y'));
    check_reachable(&kb);
}

#[test]
fn char_lookup() {
    let kb = Keyboard::new_47();
    assert_eq!(kb.char_to_index('a'), Some(26));
    assert_eq!(kb.char_to_index('A'), Some(26));
    assert_eq!(kb.char_to_index('b'), Some(28));
    assert_eq!(kb.char_to_index('?'), Some(46));
    assert_eq!(kb.char_to_index('\t'), None);
    assert_eq!(kb.get_key('H'), Some(&Key::StaticLetter('h', 'H')));
    assert_eq!(kb.get_key('\n'), None);
}

#[test]
fn key_chars() {
    let k = Key::Punctuation('[', '{');
    assert!(k.match_char('['));
    assert!(k.match_char('{'));
    assert!(!k.match_char(']'));
    assert_eq!(k.key_val(), "[");
    assert_eq!(Key::Number('7', '&').key_val(), "7");
}

#[test]
fn layout_equality_is_key_identity() {
    let a = Keyboard::new_47();
    let mut b = Keyboard::new_47();
    assert!(a == b);
    b.swap_keys(15, 16);
    assert!(a != b);
    assert_eq!(b.key_at(15), Key::Letter('o', 'O'));
    assert_eq!(b.key_at(16), Key::Letter('i', 'I'));
    b.swap_keys(15, 16);
    assert!(a == b);
}

#[test]
fn random_layout_keeps_pinned_keys() {
    for _ in 0..200 {
        let kb = Keyboard::new_random();
        check_reachable(&kb);
        for p in mobile_slots() {
            assert!(matches!(kb.key_at(p), Key::Letter(_, _)));
        }
    }
}

#[test]
fn candidates_by_slot_class() {
    let kb = Keyboard::new_47();
    // Every mobile key of the canonical layout is a letter.
    assert_eq!(kb.mutation_candidates(19), mobile_slots().to_vec());
    assert_eq!(kb.mutation_candidates(15), mobile_slots().to_vec());
    let mut with_punctuation = Keyboard::new_47();
    with_punctuation.swap_keys(15, 17);
    assert_eq!(with_punctuation.mutation_candidates(15), vec![21, 22, 23, 24, 36, 45]);
    let letters = with_punctuation.mutation_candidates(20);
    assert_eq!(letters.len(), 18);
    assert!(!letters.contains(&15));
}

#[test]
fn reproduce_keeps_invariants() {
    let canon = Keyboard::new_47();
    for _ in 0..1000 {
        let child = canon.reproduce(1000);
        check_reachable(&child);
    }
}

#[test]
fn reproduce_zero_mutations_is_a_copy() {
    let kb = Keyboard::new_random();
    assert!(kb.reproduce(0) == kb);
}

#[test]
fn repeated_reproduction_keeps_invariants() {
    let mut kb = Keyboard::new_47();
    for n in 0..200 {
        kb = kb.reproduce(n % 7 + 1);
        check_reachable(&kb);
    }
}
