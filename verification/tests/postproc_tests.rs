use alpino_tokenizer::postprocess;

#[test]
fn fix_dashes() {
    assert_eq!(
        postprocess("huis- tuin- en keuken"),
        "huis- tuin- en keuken"
    );

    assert_eq!(
        postprocess("ik ga -zoals gezegd- naar huis"),
        "ik ga - zoals gezegd - naar huis"
    );
}

#[test]
fn new_article_opening() {
    assert_eq!(
        postprocess("AMSTERDAM - De hoofdstad van Nederland"),
        "AMSTERDAM -\nDe hoofdstad van Nederland"
    );
}

#[test]
fn fix_parens() {
    assert_eq!(
        postprocess("Dat is ( buiten)gewoon snel ."),
        "Dat is (buiten)gewoon snel ."
    );
}

#[test]
fn fix_quotes() {
    assert_eq!(
        postprocess("Hij is in ' top'-vorm ."),
        "Hij is in 'top'-vorm ."
    );

    assert_eq!(
        postprocess("Hij is in ` top`-vorm ."),
        "Hij is in `top`-vorm ."
    );

    assert_eq!(
        postprocess("Hij is in \" top\"-vorm ."),
        "Hij is in \"top\"-vorm ."
    );
}

#[test]
fn remove_enumeration_markers() {
    assert_eq!(
        postprocess("1# boter, 2# kaas en 3# eieren"),
        "1. boter, 2. kaas en 3. eieren"
    );

    assert_eq!(
        postprocess("1# boter, 2# kaas en 3# eieren, 1# foo en 2# bar"),
        "1. boter, 2. kaas en 3. eieren, 1. foo en 2. bar"
    );
}

#[test]
fn postprocess_without_triggers_is_identity() {
    assert_eq!(postprocess("Dit is een zin ."), "Dit is een zin .");
    assert_eq!(postprocess(""), "");
    assert_eq!(
        postprocess("En dit is nog een zin ..."),
        "En dit is nog een zin ..."
    );
}

#[test]
fn fix_dashes_keeps_coordination_on_the_right() {
    assert_eq!(
        postprocess("huis- -tuin- en keuken"),
        "huis- -tuin- en keuken"
    );
}

#[test]
fn paren_fix_wants_letters_only() {
    assert_eq!(postprocess("Dat is ( 1)x ."), "Dat is ( 1)x .");
}

#[test]
fn quote_fix_wants_a_closing_dash() {
    assert_eq!(postprocess("Hij is in ' top' vorm ."), "Hij is in ' top' vorm .");
}

#[test]
fn dateline_after_newline() {
    // The anchor consumes the newline it matches and the replacement does
    // not restore it; only the dateline's own newline remains.
    assert_eq!(
        postprocess("Kop\nDEN HAAG (ANP) - De regering"),
        "KopDEN HAAG (ANP) -\nDe regering"
    );
}
