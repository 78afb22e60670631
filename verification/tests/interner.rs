use ip2asn::interner::StringInterner;

#[test]
fn test_string_interner() {
    let mut interner = StringInterner::new();

    // Intern a new string, should get ID 0
    let id1 = interner.get_or_intern("Apple Inc.");
    assert_eq!(id1, 0);

    // Intern another new string, should get ID 1
    let id2 = interner.get_or_intern("Google LLC");
    assert_eq!(id2, 1);

    // Intern the first string again, should get the same ID 0
    let id3 = interner.get_or_intern("Apple Inc.");
    assert_eq!(id3, 0);

    // Consume the interner and check the resulting vector
    let strings = interner.into_vec();
    assert_eq!(strings.len(), 2);
    assert_eq!(strings[id1 as usize], "Apple Inc.");
    assert_eq!(strings[id2 as usize], "Google LLC");
}

#[test]
fn interner_starts_empty() {
    let interner = StringInterner::new();
    assert_eq!(interner.len(), 0);
    assert!(interner.into_vec().is_empty());
}

#[test]
fn interner_same_string_twice_same_id() {
    let mut interner = StringInterner::new();
    let first = interner.get_or_intern("EXAMPLE-AS");
    let second = interner.get_or_intern("EXAMPLE-AS");
    assert_eq!(first, second);
    assert_eq!(interner.len(), 1);
}

#[test]
fn interner_different_strings_different_ids() {
    let mut interner = StringInterner::new();
    let a = interner.get_or_intern("alpha");
    let b = interner.get_or_intern("beta");
    let c = interner.get_or_intern("gamma");
    assert_eq!((a, b, c), (0, 1, 2));
    assert_eq!(interner.get_or_intern("beta"), 1);
    assert_eq!(interner.len(), 3);
}

#[test]
fn interner_compares_exactly() {
    let mut interner = StringInterner::new();
    let plain = interner.get_or_intern("Org");
    let lower = interner.get_or_intern("org");
    let padded = interner.get_or_intern(" Org");
    let empty = interner.get_or_intern("");
    assert_eq!((plain, lower, padded, empty), (0, 1, 2, 3));
    assert_eq!(interner.into_vec(), vec!["Org", "org", " Org", ""]);
}
