use content_engine::error::EngineError;
use content_engine::path::{classify_token, parse_path, Segment};
use content_engine::text::{chars_of, parse_index, split_chars, string_of};

fn field(name: &str) -> Segment {
    Segment::Field(name.to_string())
}

fn key(name: &str) -> Segment {
    Segment::ArrayElementKey(name.to_string())
}

fn segments_of(path: &str) -> Vec<Segment> {
    parse_path(path).unwrap().segments().clone()
}

#[test]
fn positional_path_with_three_segments() {
    assert_eq!(
        segments_of("content.blocks.[2]"),
        vec![field("content"), field("blocks"), Segment::ArrayPositional(2)]
    );
}

#[test]
fn element_key_path_with_two_segments() {
    assert_eq!(segments_of("tags.[sports]"), vec![field("tags"), key("sports")]);
}

#[test]
fn bracket_in_the_middle_is_a_field_name() {
    assert_eq!(
        segments_of("content.blocks.[2].text"),
        vec![field("content"), field("blocks"), field("[2]"), field("text")]
    );
    assert_eq!(segments_of("[0].[1]"), vec![field("[0]"), Segment::ArrayPositional(1)]);
}

#[test]
fn empty_path_is_malformed() {
    assert_eq!(parse_path("").unwrap_err(), EngineError::MalformedPath);
}

#[test]
fn single_plain_segment() {
    assert_eq!(segments_of("title"), vec![field("title")]);
}

#[test]
fn single_bracketed_segment_addresses_an_array() {
    assert_eq!(segments_of("[2]"), vec![Segment::ArrayPositional(2)]);
    assert_eq!(segments_of("[name]"), vec![key("name")]);
}

#[test]
fn empty_pieces_are_kept() {
    assert_eq!(segments_of("a..b"), vec![field("a"), field(""), field("b")]);
    assert_eq!(segments_of("a."), vec![field("a"), field("")]);
    assert_eq!(segments_of("."), vec![field(""), field("")]);
    assert_eq!(segments_of(".a"), vec![field(""), field("a")]);
}

#[test]
fn index_tokens() {
    assert_eq!(segments_of("t.[0]").pop().unwrap(), Segment::ArrayPositional(0));
    assert_eq!(segments_of("t.[007]").pop().unwrap(), Segment::ArrayPositional(7));
    assert_eq!(segments_of("t.[+1]").pop().unwrap(), Segment::ArrayPositional(1));
    assert_eq!(segments_of("t.[12345]").pop().unwrap(), Segment::ArrayPositional(12345));
}

#[test]
fn tokens_that_are_no_index_are_element_keys() {
    assert_eq!(segments_of("t.[]").pop().unwrap(), key(""));
    assert_eq!(segments_of("t.[+]").pop().unwrap(), key("+"));
    assert_eq!(segments_of("t.[-1]").pop().unwrap(), key("-1"));
    assert_eq!(segments_of("t.[1a]").pop().unwrap(), key("1a"));
    assert_eq!(segments_of("t.[ 1]").pop().unwrap(), key(" 1"));
    assert_eq!(segments_of("t.[++1]").pop().unwrap(), key("++1"));
    assert_eq!(segments_of("t.[1.5]").pop().unwrap(), Segment::Field("5]".to_string()));
}

#[test]
fn index_at_the_limit_of_the_machine_word() {
    let max = usize::MAX.to_string();
    assert_eq!(
        segments_of(&format!("t.[{}]", max)).pop().unwrap(),
        Segment::ArrayPositional(usize::MAX)
    );
    let beyond = format!("{}0", max);
    assert_eq!(segments_of(&format!("t.[{}]", beyond)).pop().unwrap(), key(&beyond));
    let one_more = "18446744073709551616";
    if usize::MAX as u128 == u64::MAX as u128 {
        assert_eq!(segments_of(&format!("t.[{}]", one_more)).pop().unwrap(), key(one_more));
    }
}

#[test]
fn half_open_brackets_are_field_names() {
    assert_eq!(segments_of("t.[2").pop().unwrap(), field("[2"));
    assert_eq!(segments_of("t.2]").pop().unwrap(), field("2]"));
    assert_eq!(segments_of("t.[").pop().unwrap(), field("["));
    assert_eq!(segments_of("t.]").pop().unwrap(), field("]"));
    assert_eq!(segments_of("t.x[2]").pop().unwrap(), field("x[2]"));
}

#[test]
fn the_path_keeps_its_source_string() {
    let path = parse_path("tags.[007]").unwrap();
    assert_eq!(path.as_str(), "tags.[007]");
}

#[test]
fn path_with_characters_beyond_ascii() {
    assert_eq!(segments_of("başlık.[é]"), vec![field("başlık"), key("é")]);
}

#[test]
fn split_chars_cuts_at_every_separator() {
    let pieces = split_chars(&chars_of("a,b,,c"), ',');
    let texts: Vec<String> = pieces.iter().map(|p| p.iter().collect()).collect();
    assert_eq!(texts, vec!["a", "b", "", "c"]);
    assert_eq!(split_chars(&chars_of(""), ',').len(), 1);
}

#[test]
fn string_of_copies_a_range() {
    let chars = chars_of("[sports]");
    assert_eq!(string_of(&chars, 1, 7), "sports");
    assert_eq!(string_of(&chars, 3, 3), "");
    assert_eq!(string_of(&chars, 0, 8), "[sports]");
}

#[test]
fn parse_index_reads_decimal_numbers() {
    let chars = chars_of("x42y");
    assert_eq!(parse_index(&chars, 1, 3), Some(42));
    assert_eq!(parse_index(&chars, 0, 3), None);
    assert_eq!(parse_index(&chars, 1, 1), None);
    assert_eq!(parse_index(&chars_of("+"), 0, 1), None);
    assert_eq!(parse_index(&chars_of("+0"), 0, 2), Some(0));
}

#[test]
fn classify_token_reads_the_last_piece() {
    assert_eq!(classify_token(&chars_of("[3]")), Segment::ArrayPositional(3));
    assert_eq!(classify_token(&chars_of("[x]")), key("x"));
    assert_eq!(classify_token(&chars_of("x")), field("x"));
}

#[test]
fn push_decimal_writes_numbers_in_base_ten() {
    for n in [0usize, 7, 10, 42, 100, 1234567890, usize::MAX] {
        let mut s = String::from("n=");
        content_engine::text::push_decimal(&mut s, n);
        assert_eq!(s, format!("n={}", n));
    }
}

#[test]
fn same_text_compares_characters() {
    assert!(content_engine::text::same_text("abc", "abc"));
    assert!(content_engine::text::same_text("", ""));
    assert!(!content_engine::text::same_text("abc", "abd"));
    assert!(!content_engine::text::same_text("abc", "ab"));
}
