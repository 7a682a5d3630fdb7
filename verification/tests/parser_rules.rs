use huozi::parser::failure::ParseError;
use huozi::parser::grammar::FailureKind;
use huozi::parser::{parse, parse_with, Element, Segment, SegmentId};

fn text(start: usize, end: usize, content: &str) -> Element {
    Element::Text { start, end, content: content.to_string(), segment_id: None }
}

fn block(start: usize, end: usize, tag: &str, value: Option<&str>, inner: Vec<Element>) -> Element {
    Element::Block { start, end, inner, tag: tag.to_string(), value: value.map(|v| v.to_string()) }
}

fn failure(source: &str) -> String {
    parse(&Segment::dummy(source)).unwrap_err()
}

#[test]
fn a_doubled_symbol_is_the_symbol() {
    assert_eq!(parse(&Segment::dummy("[[")).unwrap(), vec![text(0, 2, "[")]);
    assert_eq!(parse(&Segment::dummy("[[[[")).unwrap(), vec![text(0, 4, "[[")]);
    assert_eq!(parse(&Segment::dummy("]]")).unwrap(), vec![text(0, 2, "]")]);
    assert_eq!(parse(&Segment::dummy("]][[")).unwrap(), vec![text(0, 4, "][")]);
}

#[test]
fn blocks_nest() {
    assert_eq!(
        parse(&Segment::dummy("[a][b][/b][/a]")).unwrap(),
        vec![block(0, 14, "a", None, vec![block(3, 10, "b", None, vec![])])]
    );
}

#[test]
fn texts_span_what_they_say() {
    let source = "x[[y[a]]]z[[[/a]w";
    let elements = parse(&Segment::dummy(source)).unwrap();
    assert_eq!(
        elements,
        vec![
            text(0, 4, "x[y"),
            block(4, 16, "a", None, vec![text(7, 12, "]z[")]),
            text(16, 17, "w"),
        ]
    );
    assert_eq!(&source[0..4], "x[[y");
    assert_eq!(&source[7..12], "]]z[[");
}

#[test]
fn texts_carry_the_segment() {
    let segment = Segment { id: Some(SegmentId::Lite(7)), content: "a[b]c[/b]".into() };
    let elements = parse(&segment).unwrap();
    assert_eq!(
        elements,
        vec![
            Element::Text {
                start: 0,
                end: 1,
                content: "a".to_string(),
                segment_id: Some(SegmentId::Lite(7)),
            },
            block(
                1,
                9,
                "b",
                None,
                vec![Element::Text {
                    start: 4,
                    end: 5,
                    content: "c".to_string(),
                    segment_id: Some(SegmentId::Lite(7)),
                }]
            ),
        ]
    );
}

#[test]
fn offsets_count_bytes() {
    // 'é' takes 2 bytes, '你' 3 and '😀' 4.
    assert_eq!(
        parse(&Segment::dummy("é[你=😀]😀é[/你]")).unwrap(),
        vec![text(0, 2, "é"), block(2, 24, "你", Some("😀"), vec![text(12, 18, "😀é")])]
    );
}

#[test]
fn a_value_may_be_a_word_or_quoted() {
    assert_eq!(
        parse(&Segment::dummy("[a=b c][/a]")).unwrap_err(),
        "parse error at byte 5: expected the closing symbol of a tag"
    );
    assert_eq!(
        parse(&Segment::dummy("[a=\"b c\"][/a]")).unwrap(),
        vec![block(0, 13, "a", Some("b c"), vec![])]
    );
    assert_eq!(
        parse(&Segment::dummy("[a='b=\"c']x[/a]")).unwrap(),
        vec![block(0, 15, "a", Some("b=\"c"), vec![text(10, 11, "x")])]
    );
    assert_eq!(
        parse(&Segment::dummy("[a = #fff ][/ a ]")).unwrap(),
        vec![block(0, 17, "a", Some("#fff"), vec![])]
    );
}

#[test]
fn the_end_tag_repeats_the_key() {
    assert!(parse(&Segment::dummy("[a]x[/a]")).is_ok());
    assert_eq!(failure("[a]x[/b]"), "parse error at byte 4: end tag does not match the head of its block");
    assert_eq!(failure("[a]x[/]"), "parse error at byte 4: end tag does not match the head of its block");
    assert_eq!(failure("[]x[/a]"), "parse error at byte 3: end tag does not match the head of its block");
    assert_eq!(
        failure("[a][b]x[/a][/b]"),
        "parse error at byte 7: end tag does not match the head of its block"
    );
    // Keys are compared as they stand.
    assert_eq!(failure("[a]x[/A]"), "parse error at byte 4: end tag does not match the head of its block");
}

#[test]
fn a_lone_symbol_is_no_text() {
    assert_eq!(failure("a]b"), "parse error at byte 1: unexpected symbol");
    assert_eq!(failure("x[/a]"), "parse error at byte 1: unexpected symbol");
    assert_eq!(failure("[a][/a]]"), "parse error at byte 7: unexpected symbol");
}

#[test]
fn a_tag_must_be_closed() {
    assert_eq!(failure("["), "parse error at byte 1: expected the closing symbol of a tag");
    assert_eq!(failure("[a"), "parse error at byte 2: expected the closing symbol of a tag");
    assert_eq!(failure("[a b]"), "parse error at byte 3: expected the closing symbol of a tag");
    assert_eq!(failure("[a=]"), "parse error at byte 2: expected the closing symbol of a tag");
    assert_eq!(failure("[=b]"), "parse error at byte 1: expected the closing symbol of a tag");
    assert_eq!(failure("[a][/a"), "parse error at byte 6: expected the closing symbol of a tag");
    assert_eq!(failure("[a][/a b]"), "parse error at byte 7: expected the closing symbol of a tag");
    assert_eq!(failure("长[长"), "parse error at byte 7: expected the closing symbol of a tag");
}

#[test]
fn a_block_must_be_ended() {
    assert_eq!(failure("[a]"), "parse error at byte 3: expected an end tag");
    assert_eq!(failure("[a]x"), "parse error at byte 4: expected an end tag");
    assert_eq!(failure("[a]x]"), "parse error at byte 4: expected an end tag");
    assert_eq!(failure("[a][b][/b]"), "parse error at byte 10: expected an end tag");
}

#[test]
fn a_quoted_value_must_hold_something_and_end() {
    assert_eq!(failure("[a=\"\"][/a]"), "parse error at byte 4: empty quoted value");
    assert_eq!(failure("[a='"), "parse error at byte 4: empty quoted value");
    assert_eq!(failure("[a=\"b][/a]"), "parse error at byte 10: quoted value is not closed");
    assert_eq!(failure("[a='b\"][/a]"), "parse error at byte 11: quoted value is not closed");
}

#[test]
fn offsets_of_failures_are_written_in_decimal() {
    let mut source = "x".repeat(12_345);
    source.push(']');
    assert_eq!(failure(&source), "parse error at byte 12345: unexpected symbol");
    assert_eq!(failure("]"), "parse error at byte 0: unexpected symbol");
    let error = ParseError { offset: 1_000_000_007, kind: FailureKind::EmptyQuote };
    assert_eq!(error.message(), "parse error at byte 1000000007: empty quoted value");
}

#[test]
fn other_symbols_take_the_place_of_the_brackets() {
    let source = Segment::dummy("[x]<a=1>{<<}</a>");
    assert_eq!(
        parse_with(&source, '<', '>').unwrap(),
        vec![text(0, 3, "[x]"), block(3, 16, "a", Some("1"), vec![text(8, 12, "{<}")])]
    );
    assert_eq!(
        parse_with(&Segment::dummy("{a}[x]{/a}"), '{', '}').unwrap(),
        vec![block(0, 10, "a", None, vec![text(3, 6, "[x]")])]
    );
    // The brackets are plain characters then, and may stand in a key.
    assert_eq!(
        parse_with(&Segment::dummy("<[>x</[>"), '<', '>').unwrap(),
        vec![block(0, 8, "[", None, vec![text(3, 4, "x")])]
    );
}

#[test]
fn whitespace_in_tags_is_passed() {
    assert_eq!(
        parse(&Segment::dummy("[\n a\t=\r\n b \n]x[/\ta\n]")).unwrap(),
        vec![block(0, 20, "a", Some("b"), vec![text(13, 14, "x")])]
    );
    // Whitespace in text stays.
    assert_eq!(parse(&Segment::dummy(" \n\t")).unwrap(), vec![text(0, 3, " \n\t")]);
}

#[test]
fn elements_copy_deeply() {
    let elements = parse(&Segment::dummy("a[b=c]d[e]f[/e][/b]")).unwrap();
    let copies: Vec<Element> = elements.iter().map(|e| e.clone()).collect();
    assert_eq!(copies, elements);
    assert_eq!(elements[1].duplicate(), elements[1]);
}

#[test]
fn segments_copy() {
    let segment = Segment { id: Some(SegmentId::Tag("intro".to_string())), content: "text".into() };
    let copy = segment.clone();
    assert_eq!(copy, segment);
    assert_eq!(copy.text(), "text");
    assert_eq!(Segment::dummy("x").id, None);
    assert!(SegmentId::Lite(1).same(&SegmentId::Lite(1)));
    assert!(!SegmentId::Lite(1).same(&SegmentId::Tag("1".to_string())));
    assert!(SegmentId::Tag("a".to_string()).same(&SegmentId::Tag("a".to_string())));
    assert!(!SegmentId::Tag("a".to_string()).same(&SegmentId::Tag("b".to_string())));
}
