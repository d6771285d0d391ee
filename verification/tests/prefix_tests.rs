use trie_node::chunk;

#[test]
fn chunk_prefix_cases_test() {
    assert_eq!(chunk("Paris", "Par"), true);
    assert_eq!(chunk("Paris", "aris"), false);
    assert_eq!(chunk("Paris", "Paris"), true);
    assert_eq!(chunk("Paris", ""), false);
}

#[test]
fn chunk_longer_than_input_test() {
    assert_eq!(chunk("Par", "Paris"), false);
}

#[test]
fn chunk_single_char_test() {
    assert_eq!(chunk("Paris", "P"), true);
    assert_eq!(chunk("Paris", "a"), false);
}

#[test]
fn chunk_empty_input_test() {
    assert_eq!(chunk("", ""), false);
    assert_eq!(chunk("", "P"), false);
}

#[test]
fn chunk_unicode_test() {
    assert_eq!(chunk("15ème arrondissement", "15è"), true);
    assert_eq!(chunk("15ème arrondissement", "15e"), false);
}
