use alpino_tokenizer::str_to_tokens;
use alpino_tokenizer::AlpinoTokenizer;
use alpino_tokenizer::FiniteStateTokenizer;
use alpino_tokenizer::RawOutcome;
use alpino_tokenizer::Tokenization;
use alpino_tokenizer::Tokenizer;
use alpino_tokenizer::TokenizerError;

fn push_varint(mut n: u64, out: &mut Vec<u8>) {
    loop {
        let b = (n & 0x7f) as u8;
        n >>= 7;
        if n == 0 {
            out.push(b);
            break;
        }
        out.push(b | 0x80);
    }
}

fn record(symbol: u32, last: bool, next: u32, output: &str, final_output: &str) -> Vec<u8> {
    let mut body = Vec::new();
    body.push(0x08);
    push_varint(symbol as u64, &mut body);
    body.push(0x10);
    push_varint(last as u64, &mut body);
    body.push(0x18);
    push_varint(1, &mut body);
    body.push(0x20);
    push_varint(next as u64, &mut body);
    body.push(0x2a);
    push_varint(output.len() as u64, &mut body);
    body.extend_from_slice(output.as_bytes());
    body.push(0x32);
    push_varint(final_output.len() as u64, &mut body);
    body.extend_from_slice(final_output.as_bytes());
    let mut rec = Vec::new();
    push_varint(body.len() as u64, &mut rec);
    rec.extend_from_slice(&body);
    rec
}

// A small tokenizing transducer, by state and first-edge index: the default
// state W (1), one to three pending sentence dots P (15), P2 (17), P3 (19),
// a number state D (20) and a number-then-dot state DP (35). Letters run
// through the unknown edge; `. ` and final dots close a sentence; commas are
// split off; `#` and `.` inside a number are kept.
fn toy_transducer() -> Vec<u8> {
    let w = 1;
    let p = 15;
    let p2 = 17;
    let p3 = 19;
    let d = 20;
    let dp = 35;
    let mut edges: Vec<(u32, bool, u32, String, String)> = Vec::new();
    // index 0: reserved sentinel
    edges.push((0, true, 0, String::new(), String::new()));
    // W: unknown, space, comma, dot, digits
    edges.push((2, false, w, "\u{2}".to_string(), String::new()));
    edges.push((32, false, w, " ".to_string(), String::new()));
    edges.push((44, false, w, " ,".to_string(), String::new()));
    edges.push((46, false, p, String::new(), " .".to_string()));
    for dig in 0..10u32 {
        let ch = char::from_u32(48 + dig).unwrap();
        edges.push((48 + dig, dig == 9, d, ch.to_string(), String::new()));
    }
    // P: a dot was read
    edges.push((32, false, w, " .\n".to_string(), String::new()));
    edges.push((46, true, p2, String::new(), " ..".to_string()));
    // P2: two dots
    edges.push((32, false, w, " ..\n".to_string(), String::new()));
    edges.push((46, true, p3, String::new(), " ...".to_string()));
    // P3: three dots
    edges.push((32, true, w, " ...\n".to_string(), String::new()));
    // D: inside a number
    edges.push((2, false, w, "\u{2}".to_string(), String::new()));
    edges.push((32, false, w, " ".to_string(), String::new()));
    edges.push((35, false, w, "#".to_string(), String::new()));
    edges.push((44, false, w, " ,".to_string(), String::new()));
    edges.push((46, false, dp, String::new(), " .".to_string()));
    for dig in 0..10u32 {
        let ch = char::from_u32(48 + dig).unwrap();
        edges.push((48 + dig, dig == 9, d, ch.to_string(), String::new()));
    }
    // DP: a dot inside a number
    edges.push((32, false, w, " .\n".to_string(), String::new()));
    for dig in 0..10u32 {
        let ch = char::from_u32(48 + dig).unwrap();
        let out = format!(".{}", ch);
        edges.push((48 + dig, dig == 9, d, out, String::new()));
    }
    let mut bytes = Vec::new();
    for (symbol, last, next, output, final_output) in &edges {
        bytes.extend_from_slice(&record(*symbol, *last, *next, output, final_output));
    }
    bytes
}

fn toy() -> AlpinoTokenizer {
    AlpinoTokenizer::from_buf_read(&toy_transducer()).unwrap()
}

#[test]
fn alpino_test_tokenize() {
    let tokenizer = toy();
    assert_eq!(
        tokenizer
            .tokenize("Dit is een zin. En dit is nog een zin...")
            .unwrap(),
        str_to_tokens("Dit is een zin .\nEn dit is nog een zin ...")
    );
}

#[test]
fn tokenizer_test_tokenize() {
    let tokenizer = Tokenizer::from_buf_read(&toy_transducer()).unwrap();
    assert_eq!(
        tokenizer
            .tokenize("Dit is een zin. En dit is nog een zin...")
            .unwrap(),
        str_to_tokens("Dit is een zin .\nEn dit is nog een zin ...")
    );
    assert_eq!(
        tokenizer.tokenize_raw("Dit is een zin."),
        Some("Dit is een zin .".to_string())
    );
}

#[test]
fn raw_output_length_is_bounded() {
    // The longest edge output of the toy transducer is five characters
    // (" ...\n") and the longest final output four (" ...").
    let tokenizer = Tokenizer::from_buf_read(&toy_transducer()).unwrap();
    for text in ["Dit is een zin.", "Groningen heeft 201.635 inwoners.", "a, b. c..."] {
        let raw = tokenizer.tokenize_raw(text).unwrap();
        assert!(raw.chars().count() <= text.chars().count() * 5 + 4);
    }
}

#[test]
fn two_plain_sentences() {
    let tokenizer = toy();
    assert_eq!(
        tokenizer
            .tokenize("Dit is een zin. En dit is nog een zin.")
            .unwrap(),
        vec![
            vec!["Dit", "is", "een", "zin", "."],
            vec!["En", "dit", "is", "nog", "een", "zin", "."],
        ]
    );
}

#[test]
fn ambiguous_digit_group() {
    let tokenizer = toy();
    assert_eq!(
        tokenizer.tokenize("Groningen heeft 201.635 inwoners.").unwrap(),
        vec![vec!["Groningen", "heeft", "201.635", "inwoners", "."]]
    );
}

#[test]
fn enumeration_single_sentence() {
    let tokenizer = toy();
    assert_eq!(
        tokenizer.tokenize("1. boter, 2. kaas en 3. eieren").unwrap(),
        vec![vec!["1.", "boter", ",", "2.", "kaas", "en", "3.", "eieren"]]
    );
}

#[test]
fn dash_parenthetical_is_split() {
    let tokenizer = toy();
    assert_eq!(
        tokenizer.tokenize("ik ga -zoals gezegd- naar huis").unwrap(),
        vec![vec!["ik", "ga", "-", "zoals", "gezegd", "-", "naar", "huis"]]
    );
}

#[test]
fn coordinated_compound_is_preserved() {
    let tokenizer = toy();
    assert_eq!(
        tokenizer.tokenize("huis- tuin- en keuken").unwrap(),
        vec![vec!["huis-", "tuin-", "en", "keuken"]]
    );
}

#[test]
fn newswire_dateline() {
    let tokenizer = toy();
    assert_eq!(
        tokenizer.tokenize("AMSTERDAM - De hoofdstad van Nederland").unwrap(),
        vec![
            vec!["AMSTERDAM", "-"],
            vec!["De", "hoofdstad", "van", "Nederland"],
        ]
    );
}

#[test]
fn empty_input_single_empty_token() {
    let tokenizer = toy();
    assert_eq!(tokenizer.tokenize("").unwrap(), vec![vec![""]]);
}

#[test]
fn rejected_input_yields_none() {
    let tokenizer = toy();
    assert_eq!(tokenizer.tokenize("a# b"), None);
    assert_eq!(tokenizer.try_tokenize("a# b"), Tokenization::NotInInputLanguage);
}

#[test]
fn fresh_state_across_calls() {
    let tokenizer = toy();
    let a = tokenizer.tokenize("Dit is een zin.").unwrap();
    let b = tokenizer.tokenize("Groningen heeft 201.635 inwoners.").unwrap();
    let fresh = toy();
    assert_eq!(fresh.tokenize("Dit is een zin.").unwrap(), a);
    assert_eq!(
        fresh.tokenize("Groningen heeft 201.635 inwoners.").unwrap(),
        b
    );
}

#[test]
fn fst_tokenize_without_pipeline() {
    let fst = FiniteStateTokenizer::from_buf_read(&toy_transducer()).unwrap();
    assert_eq!(
        fst.tokenize("Dit is een zin. Nog een.").unwrap(),
        str_to_tokens("Dit is een zin .\nNog een .")
    );
    assert_eq!(
        fst.tokenize_raw("Dit is een zin.").unwrap(),
        "Dit is een zin ."
    );
}

#[test]
fn unknown_characters_are_queued_until_emitted() {
    // One unknown edge that holds every character back; the final output
    // then drains the queue in first-in first-out order.
    let mut bytes = Vec::new();
    bytes.extend_from_slice(&record(0, true, 0, "", ""));
    bytes.extend_from_slice(&record(2, true, 1, "", "\u{2}\u{2}"));
    let fst = FiniteStateTokenizer::from_buf_read(&bytes).unwrap();
    assert_eq!(fst.tokenize_raw("ab").unwrap(), "ab");
}

#[test]
fn placeholder_underflow_is_malformed() {
    // The unknown edge emits two placeholders per consumed character: the
    // second one underflows the queue.
    let mut bytes = Vec::new();
    bytes.extend_from_slice(&record(0, true, 0, "", ""));
    bytes.extend_from_slice(&record(2, true, 1, "\u{2}\u{2}", ""));
    let fst = FiniteStateTokenizer::from_buf_read(&bytes).unwrap();
    assert_eq!(fst.try_tokenize_raw("a"), RawOutcome::MalformedTransducer);
}

#[test]
fn epsilon_edge_with_unknown_character() {
    // An epsilon edge met with an unknown character emits its output and
    // consumes the character without scanning the edge run.
    let mut bytes = Vec::new();
    bytes.extend_from_slice(&record(0, true, 0, "", ""));
    bytes.extend_from_slice(&record(1, false, 1, "?", ""));
    bytes.extend_from_slice(&record(32, true, 1, " ", ""));
    let fst = FiniteStateTokenizer::from_buf_read(&bytes).unwrap();
    assert_eq!(fst.tokenize_raw("q ").unwrap(), "? ");
}

#[test]
fn truncated_stream_is_a_decode_error() {
    assert!(matches!(
        AlpinoTokenizer::from_buf_read(&[0x80]),
        Err(TokenizerError::ProtobufDecodeError)
    ));
    // A length prefix that runs past the end of the stream.
    assert!(matches!(
        AlpinoTokenizer::from_buf_read(&[0x08]),
        Err(TokenizerError::ProtobufDecodeError)
    ));
    // An unknown tag.
    assert!(matches!(
        AlpinoTokenizer::from_buf_read(&[2, 0x38, 0x01]),
        Err(TokenizerError::ProtobufDecodeError)
    ));
}

#[test]
fn invalid_utf8_is_a_decode_error() {
    // Field 5 with a one-byte payload that is no UTF-8.
    assert!(matches!(
        AlpinoTokenizer::from_buf_read(&[3, 0x2a, 0x01, 0xff]),
        Err(TokenizerError::ProtobufDecodeError)
    ));
}

#[test]
fn structurally_unsound_tables_are_malformed() {
    // Only the sentinel: no initial edge at index 1.
    assert!(matches!(
        AlpinoTokenizer::from_buf_read(&record(0, true, 0, "", "")),
        Err(TokenizerError::MalformedTransducer)
    ));
    // A next pointer out of range.
    let mut bytes = Vec::new();
    bytes.extend_from_slice(&record(0, true, 0, "", ""));
    bytes.extend_from_slice(&record(2, true, 7, "", ""));
    assert!(matches!(
        AlpinoTokenizer::from_buf_read(&bytes),
        Err(TokenizerError::MalformedTransducer)
    ));
    // The last edge does not close its state's run.
    let mut bytes = Vec::new();
    bytes.extend_from_slice(&record(0, true, 0, "", ""));
    bytes.extend_from_slice(&record(2, false, 1, "", ""));
    assert!(matches!(
        AlpinoTokenizer::from_buf_read(&bytes),
        Err(TokenizerError::MalformedTransducer)
    ));
}

#[test]
fn field_defaults_and_last_value_win() {
    // An empty record decodes to all defaults; a repeated field keeps its
    // last value. The table below holds a default sentinel and one closing
    // edge whose symbol was written twice (3, then 2).
    let mut bytes = Vec::new();
    push_varint(0, &mut bytes);
    let mut body = Vec::new();
    body.push(0x08);
    push_varint(3, &mut body);
    body.push(0x08);
    push_varint(2, &mut body);
    body.push(0x10);
    push_varint(1, &mut body);
    push_varint(body.len() as u64, &mut bytes);
    bytes.extend_from_slice(&body);
    let fst = FiniteStateTokenizer::from_buf_read(&bytes).unwrap();
    // Empty input flushes the empty default final output.
    assert_eq!(fst.tokenize_raw(""), Some(String::new()));
    // Any character advances through the default `next` of 0 onto the
    // sentinel, whose symbol 0 matches nothing.
    assert_eq!(fst.tokenize_raw("a"), None);
}
