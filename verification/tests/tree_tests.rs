use raster_font::tree::LigatureTree;

#[test]
fn test_ligature_tree() {
    let bindings = vec![
        ("abc", "lig1"),
        ("ab", "lig2"),
        ("bc", "lig3"),
        ("c", "lig4"),
        ("y", "lig5"),
    ];

    let tree = LigatureTree::try_from_bindings(bindings).unwrap();

    assert_eq!(tree.find("abc"), Some(&"lig1"));
    assert_eq!(tree.find("ab"), Some(&"lig2"));
    assert_eq!(tree.find("bc"), Some(&"lig3"));
    assert_eq!(tree.find("c"), Some(&"lig4"));
    assert_eq!(tree.find("d"), None);
    assert_eq!(tree.find("y"), Some(&"lig5"));
    assert_eq!(tree.find("dabcy"), Some(&"lig1"));
    assert_eq!(tree.find("ydabcy"), Some(&"lig5"));

    let valid: Vec<&str> = tree.valid("xabcdy").collect_all().into_iter().cloned().collect();
    assert_eq!(valid, vec!["lig1", "lig5"]);
}

#[test]
fn ligature_tree_pattern_index() {
    let tree = LigatureTree::try_from_bindings(vec![("a", 1u32), ("b", 2u32)]).unwrap();
    assert_eq!(tree.get_by_pattern_index(0), Some(&1));
    assert_eq!(tree.get_by_pattern_index(1), Some(&2));
    assert_eq!(tree.get_by_pattern_index(2), None);
}

#[test]
fn ligature_tree_matches_do_not_overlap() {
    // "->" wins over "-" and ">", and its characters are not matched again.
    let tree = LigatureTree::try_from_bindings(vec![("-", 1u32), (">", 2u32), ("->", 3u32)]).unwrap();
    let found: Vec<u32> = tree.valid("a->>-").collect_all().into_iter().cloned().collect();
    assert_eq!(found, vec![3, 2, 1]);
}

#[test]
fn ligature_tree_utf8_patterns() {
    let tree = LigatureTree::try_from_bindings(vec![("é", 1u32), ("→", 2u32)]).unwrap();
    assert_eq!(tree.find("x→"), Some(&2));
    let found: Vec<u32> = tree.valid("é→é").collect_all().into_iter().cloned().collect();
    assert_eq!(found, vec![1, 2, 1]);
}

#[test]
fn ligature_tree_iterator_steps() {
    let tree = LigatureTree::try_from_bindings(vec![("ab", 7u32)]).unwrap();
    let mut it = tree.valid("abab");
    assert_eq!(it.next(), Some(&7));
    assert_eq!(it.next(), Some(&7));
    assert_eq!(it.next(), None);
    assert_eq!(it.next(), None);
}

#[test]
fn find_is_first_valid_match() {
    let tree = LigatureTree::try_from_bindings(vec![("ab", 1u32), ("b", 2u32), ("bc", 3u32)]).unwrap();
    for input in ["xabc", "bcab", "zzz", "", "b"] {
        let first = tree.valid(input).collect_all().first().copied();
        assert_eq!(tree.find(input), first);
    }
}

#[test]
fn empty_pattern_never_touches_the_end_of_a_match() {
    let tree = LigatureTree::try_from_bindings(vec![("", 0u32), ("a", 1u32)]).unwrap();
    let found: Vec<u32> = tree.valid("a").collect_all().into_iter().cloned().collect();
    assert_eq!(found, vec![1]);
    let found: Vec<u32> = tree.valid("ba").collect_all().into_iter().cloned().collect();
    assert_eq!(found, vec![0, 1]);
}

#[test]
fn valid_repeats_leftmost_longest_search() {
    let tree =
        LigatureTree::try_from_bindings(vec![("a", 1u32), ("ab", 2u32), ("b", 3u32)]).unwrap();
    let found: Vec<u32> = tree.valid("abxbab").collect_all().into_iter().cloned().collect();
    assert_eq!(found, vec![2, 3, 2]);
}
