use trie_node::chunk;
use trie_node::TrieNode;

#[test]
fn trie_contains_test() {
    let mut trie = TrieNode::new();
    trie.add("hey", ["it works"]);

    assert_eq!(trie.contains("hey"), true);
}

#[test]
fn trie_chunk_test() {
    let mut trie = TrieNode::new();
    trie.add("Paris", "Geo struct".to_owned());
    assert_eq!(
        trie.get_where(|input| chunk(input, "Paris")),
        vec![TrieNode {
            value: Some("Geo struct".to_owned()),
            children: Vec::new()
        }]
    );
}

#[test]
fn trie_chunk_vec_test() {
    let mut trie = TrieNode::new();
    let alternatives_paris = vec!["Paris", "Paris 15", "15ème arrondissement"];
    trie.add(&alternatives_paris, "paris geostruct".to_owned());
    let alternatives = vec!["Paradise Nevada"];
    trie.add(&alternatives, "Nevada geostruct".to_owned());
    assert_eq!(
        trie.get_where(|inputs| inputs.iter().any(|input| chunk(&input, "Par"))),
        vec![
            TrieNode {
                value: Some("paris geostruct".to_owned()),
                children: Vec::new()
            },
            TrieNode {
                value: Some("Nevada geostruct".to_owned()),
                children: Vec::new()
            }
        ]
    );
    assert_eq!(
        trie.get_where(|inputs| inputs.iter().any(|input| chunk(&input, "Pari"))),
        vec![TrieNode {
            value: Some("paris geostruct".to_owned()),
            children: Vec::new()
        }]
    );

    assert_eq!(
        trie.get_where(|inputs| inputs.iter().any(|input| chunk(&input, "15"))),
        vec![TrieNode {
            value: Some("paris geostruct".to_owned()),
            children: Vec::new()
        }]
    );
}

#[test]
fn trie_get_test() {
    let mut trie = TrieNode::new();
    trie.add("hey", ["it works"]);
    assert_eq!(
        trie.get("hey"),
        Some(TrieNode {
            value: Some(["it works"]),
            children: Vec::new()
        })
    );
}

#[test]
fn trie_contains_where_test() {
    let mut trie = TrieNode::new();
    trie.add("users/:id", ["whatever"]);
    assert_eq!(trie.contains_where(|x| x.contains(":")), true);
}

#[test]
fn trie_get_where_test() {
    let mut trie = TrieNode::new();
    trie.add("users/:id", ["whatever"]);
    assert_eq!(
        trie.get_where(|x| x.contains(":")),
        vec![TrieNode {
            value: Some(["whatever"]),
            children: Vec::new()
        }]
    );
}

#[test]
fn trie_miss_returns_empty_test() {
    let trie: TrieNode<&str, u64> = TrieNode::new();
    assert_eq!(trie.contains("absent"), false);
    assert_eq!(trie.get("absent"), None);

    let mut trie = TrieNode::new();
    trie.add("present", 1u64);
    assert_eq!(trie.contains("absent"), false);
    assert_eq!(trie.get("absent"), None);
}

#[test]
fn trie_overwrite_test() {
    let mut trie = TrieNode::new();
    let first = trie.add("city", "old town".to_owned());
    assert_eq!(first, None);
    let displaced = trie.add("city", "new town".to_owned());
    assert_eq!(
        displaced,
        Some(TrieNode {
            value: Some("old town".to_owned()),
            children: Vec::new()
        })
    );
    assert_eq!(
        trie.get("city"),
        Some(TrieNode {
            value: Some("new town".to_owned()),
            children: Vec::new()
        })
    );
}

#[test]
fn trie_get_hands_out_a_copy_test() {
    let mut trie = TrieNode::new();
    trie.add("root", 7u64);
    let mut copy = trie.get("root").unwrap();
    copy.add("grafted", 8u64);
    assert_eq!(
        trie.get("root"),
        Some(TrieNode {
            value: Some(7u64),
            children: Vec::new()
        })
    );
    assert_eq!(copy.contains("grafted"), true);
}

#[test]
fn trie_predicate_miss_test() {
    let mut trie = TrieNode::new();
    trie.add("plain", 0u64);
    assert_eq!(trie.contains_where(|x: &str| x.contains(":")), false);
    assert_eq!(trie.get_where(|x: &str| x.contains(":")), vec![]);
}

#[test]
fn trie_key_by_content_test() {
    let mut trie = TrieNode::new();
    trie.add("hey", 1u64);
    let probe = String::from("hey");
    assert_eq!(trie.contains(probe.as_str()), true);
    let other = String::from("hex");
    assert_eq!(trie.contains(other.as_str()), false);
}

#[test]
fn trie_alias_key_by_content_test() {
    let mut trie = TrieNode::new();
    let stored = vec!["Paris", "75"];
    trie.add(&stored, 1u64);
    let same_content = vec!["Paris", "75"];
    assert_eq!(trie.contains(&same_content), true);
    let shorter = vec!["Paris"];
    assert_eq!(trie.contains(&shorter), false);
    let reordered = vec!["75", "Paris"];
    assert_eq!(trie.contains(&reordered), false);
}

#[test]
fn trie_clone_test() {
    let mut trie = TrieNode::new();
    trie.add("hey", "it works".to_owned());
    let copy = trie.clone();
    assert_eq!(copy, trie);
}
