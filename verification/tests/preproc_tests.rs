use alpino_tokenizer::preprocess;

#[test]
fn test_add_enumeration_markers() {
    assert_eq!(
        preprocess("1. boter, 2. kaas en 3. eieren"),
        "1# boter, 2# kaas en 3# eieren"
    );

    assert_eq!(
        preprocess("1. boter, 2. kaas en 3. eieren, 1. foo en 2. bar"),
        "1# boter, 2# kaas en 3# eieren, 1# foo en 2# bar"
    );
}

#[test]
fn preprocess_without_enumeration_is_identity() {
    assert_eq!(preprocess("Dit is een zin."), "Dit is een zin.");
    assert_eq!(preprocess(""), "");
    assert_eq!(preprocess("1. alleen een begin"), "1. alleen een begin");
}

#[test]
fn preprocess_idempotent_on_marked_output() {
    let once = preprocess("1. boter, 2. kaas en 3. eieren");
    let twice = preprocess(&once);
    assert_eq!(once, twice);

    let once = preprocess("1. foo 2. bar 3. baz 4. quux");
    let twice = preprocess(&once);
    assert_eq!(once, twice);
}

#[test]
fn preprocess_long_enumeration() {
    assert_eq!(
        preprocess("1. a, 2. b, 3. c, 4. d en 5. e"),
        "1# a, 2# b, 3# c, 4# d en 5# e"
    );
}
