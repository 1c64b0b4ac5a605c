use fth::driver::parse_defines;
use fth::input::InputMgr;
use fth::input::Stop;
use fth::symbols::EscapeMethod;
use fth::symbols::escape_quotes;
use fth::symbols::word_to_symbol;
use fth::text::dec_i64;
use fth::text::dec_u64;
use fth::words::NumClass;
use fth::words::classify_number;
use fth::words::label_text;

#[test]
fn symbols_spell_out_punctuation() {
    assert_eq!(word_to_symbol("2DUP"), "w_2DUP");
    assert_eq!(word_to_symbol("+!"), "w_plus_store");
    assert_eq!(word_to_symbol("!+"), "w_store_plus");
    assert_eq!(word_to_symbol("R>"), "w_Rto");
    assert_eq!(word_to_symbol("<=X"), "w_from_equals_X");
    assert_eq!(word_to_symbol(""), "w_");
}

#[test]
fn quotes_escaped_by_method() {
    assert_eq!(escape_quotes(EscapeMethod::Backslash, "a\"b"), "a\\\"b");
    assert_eq!(escape_quotes(EscapeMethod::Double, "a\"b"), "a\"\"b");
    assert_eq!(escape_quotes(EscapeMethod::Double, "ab"), "ab");
}

#[test]
fn labels_padded_to_three_digits() {
    assert_eq!(label_text(1), "_L001");
    assert_eq!(label_text(42), "_L042");
    assert_eq!(label_text(999), "_L999");
    assert_eq!(label_text(1234), "_L1234");
}

#[test]
fn decimal_text() {
    assert_eq!(dec_u64(0), "0");
    assert_eq!(dec_u64(18446744073709551615), "18446744073709551615");
    assert_eq!(dec_i64(-5), "-5");
    assert_eq!(dec_i64(i64::MIN), "-9223372036854775808");
}

#[test]
fn defines_split_on_commas() {
    assert_eq!(parse_defines("A,,B,"), vec!["A".to_string(), "B".to_string()]);
    assert!(parse_defines("").is_empty());
}

#[test]
fn numbers_classified() {
    assert_eq!(classify_number("0x1F"), NumClass::Number(31));
    assert_eq!(classify_number("0b101"), NumClass::Number(5));
    assert_eq!(classify_number("-12"), NumClass::Number(-12));
    assert_eq!(classify_number("+3"), NumClass::Number(3));
    assert_eq!(classify_number("0xZZ"), NumClass::Bad);
    assert_eq!(classify_number("0x"), NumClass::Bad);
    assert_eq!(classify_number("DUP"), NumClass::NotNumber);
    assert_eq!(classify_number("-"), NumClass::NotNumber);
    assert_eq!(classify_number("99999999999999999999"), NumClass::NotNumber);
}

#[test]
fn words_read_across_sources() {
    let mut m = InputMgr::new();
    m.push_source(b"x y".to_vec());
    m.push_source(b"z\n".to_vec());
    let mut words = Vec::new();
    loop {
        m.skip_ws();
        match m.word() {
            Some(w) => words.push(w),
            None => break,
        }
    }
    assert_eq!(words, vec!["z", "x", "y"]);
}

#[test]
fn lines_until_marker() {
    let mut m = InputMgr::new();
    m.push_source(b"a\nb\nEND here\nc".to_vec());
    assert_eq!(m.lines_until("END"), vec!["a\n", "b\n"]);
    m.skip_ws();
    assert_eq!(m.word(), Some("c".to_string()));
    assert_eq!(m.word(), None);
}

#[test]
fn lines_until_flushes_pending() {
    let mut m = InputMgr::new();
    m.push_source(b"  q rest\nEND\n".to_vec());
    m.skip_ws();
    assert_eq!(m.lines_until("END"), vec!["q", " rest\n"]);
}

#[test]
fn str_by_stops_at_delimiter() {
    let mut m = InputMgr::new();
    m.push_source(b"abc) d".to_vec());
    assert_eq!(m.str_by(Stop::Char(')')), Some("abc".to_string()));
    assert_eq!(m.next_char(), Some(' '));
    assert_eq!(m.str_by(Stop::Char(')')), Some("d".to_string()));
    assert_eq!(m.str_by(Stop::Char(')')), None);
}

#[test]
fn close_current_reports_source() {
    let mut m = InputMgr::new();
    m.push_source(b"a".to_vec());
    assert!(m.close_current());
    assert!(!m.close_current());
    assert_eq!(m.next_char(), None);
}

#[test]
fn tokens_end_at_source_end() {
    let mut m = InputMgr::new();
    m.push_source(b"CD".to_vec());
    m.push_source(b"AB".to_vec());
    m.skip_ws();
    assert_eq!(m.word(), Some("AB".to_string()));
    m.skip_ws();
    assert_eq!(m.word(), Some("CD".to_string()));
    assert_eq!(m.word(), None);
}

#[test]
fn scan_stops_at_source_end() {
    let mut m = InputMgr::new();
    m.push_source(b"c\" d".to_vec());
    m.push_source(b"ab".to_vec());
    let (text, found) = m.scan(Stop::Char('"'));
    assert_eq!(text, "ab");
    assert!(!found);
    assert_eq!(m.next_char_local(), None);
    assert_eq!(m.next_char(), Some('c'));
}
