use huozi::parser::number::{parse_number, parse_str, parse_str_optional};
use huozi::parser::{
    apply_attribute, parse, parse_color, same_text, to_spans, Color, Segment, ShadowStyle,
    StrokeStyle, StylePrefabs, TextSpan, TextStyle,
};

fn spans_of(source: &str, style: &TextStyle, prefabs: Option<&StylePrefabs>) -> Vec<TextSpan> {
    to_spans(parse(&Segment::dummy(source)).unwrap(), style, prefabs).unwrap()
}

fn channels(color: Color) -> [f32; 4] {
    [
        f32::from_bits(color.r),
        f32::from_bits(color.g),
        f32::from_bits(color.b),
        f32::from_bits(color.a),
    ]
}

fn texts(spans: &[TextSpan]) -> Vec<Vec<&str>> {
    spans.iter().map(|s| s.runs.iter().map(|r| r.text.as_str()).collect()).collect()
}

#[test]
fn numbers_are_read_in_thousandths() {
    assert_eq!(parse_number("48"), Some(48_000));
    assert_eq!(parse_number("2.5"), Some(2_500));
    assert_eq!(parse_number("-3.25"), Some(-3_250));
    assert_eq!(parse_number("+7"), Some(7_000));
    assert_eq!(parse_number("12."), Some(12_000));
    assert_eq!(parse_number(".5"), Some(500));
    assert_eq!(parse_number("0"), Some(0));
    assert_eq!(parse_number("-0"), Some(0));
    assert_eq!(parse_number("007.010"), Some(7_010));
    // Digits behind the third of the fraction are dropped.
    assert_eq!(parse_number("1.2345"), Some(1_234));
    assert_eq!(parse_number("1.9999"), Some(1_999));
    assert_eq!(parse_number("-0.0009"), Some(0));
}

#[test]
fn numbers_end_at_the_range_of_thousandths() {
    assert_eq!(parse_number("2147483.647"), Some(2_147_483_647));
    assert_eq!(parse_number("-2147483.647"), Some(-2_147_483_647));
    assert_eq!(parse_number("2147483.648"), None);
    assert_eq!(parse_number("2147484"), None);
    assert_eq!(parse_number("99999999999999999999999999"), None);
    assert_eq!(parse_number("0000000000000000000000001"), Some(1_000));
}

#[test]
fn what_is_no_number_is_refused() {
    for text in ["", " ", "+", "-", ".", "-.", "1 ", " 1", "1.2.3", "1e3", "0x10", "abc", "1,5", "--1", "٣"] {
        assert_eq!(parse_number(text), None, "{:?}", text);
    }
}

#[test]
fn a_number_that_cannot_be_read_falls_back() {
    assert_eq!(parse_str("12.5", 7), 12_500);
    assert_eq!(parse_str("twelve", 7), 7);
    assert_eq!(parse_str_optional("3", None), Some(3_000));
    assert_eq!(parse_str_optional("three", Some(9)), Some(9));
    assert_eq!(parse_str_optional("three", None), None);
}

#[test]
fn colors_are_read_as_css() {
    let black = TextStyle::default().fill_color;
    assert_eq!(channels(black), [0.0, 0.0, 0.0, 1.0]);
    assert_eq!(channels(parse_color("#f00", black)), [1.0, 0.0, 0.0, 1.0]);
    assert_eq!(channels(parse_color("#00ff0080", black)), [0.0, 1.0, 0.0, 128.0 / 255.0]);
    assert_eq!(channels(parse_color("blue", black)), [0.0, 0.0, 1.0, 1.0]);
    assert_eq!(channels(parse_color("rgb(255, 255, 255)", black)), [1.0, 1.0, 1.0, 1.0]);
    assert_eq!(channels(parse_color("transparent", black)), [0.0, 0.0, 0.0, 0.0]);
    // What names no color leaves the color as it was.
    assert_eq!(parse_color("no color", black), black);
    assert_eq!(parse_color("#12", black), black);
    assert_eq!(parse_color("", black), black);
}

#[test]
fn texts_are_compared_by_their_characters() {
    assert!(same_text("size", "size"));
    assert!(same_text("", ""));
    assert!(!same_text("size", "Size"));
    assert!(!same_text("size", "sizes"));
    assert!(!same_text("s", ""));
    assert!(same_text("行高", "行高"));
}

#[test]
fn defaults() {
    let style = TextStyle::default();
    assert_eq!(style.font_size, 32_000);
    assert_eq!(style.line_height, 1_500);
    assert_eq!(style.indent, 0);
    assert_eq!(style.stroke, None);
    assert_eq!(style.shadow, None);
    let stroke = StrokeStyle::default();
    assert_eq!(channels(stroke.stroke_color), [1.0, 1.0, 1.0, 1.0]);
    assert_eq!(stroke.stroke_width, 3_000);
    let shadow = ShadowStyle::default();
    assert_eq!(channels(shadow.shadow_color), [0.5, 0.5, 0.5, 0.8]);
    assert_eq!((shadow.shadow_offset_x, shadow.shadow_offset_y), (1_000, 1_000));
    assert_eq!((shadow.shadow_blur, shadow.shadow_width), (8_000, 3_000));
}

#[test]
fn each_attribute_sets_its_field() {
    let base = TextStyle::default();
    let set = |tag: &str, value: &str| apply_attribute(tag, value, &base).unwrap();
    assert_eq!(set("size", "48"), TextStyle { font_size: 48_000, ..base });
    assert_eq!(set("lineHeight", "2"), TextStyle { line_height: 2_000, ..base });
    assert_eq!(set("indent", "2.5"), TextStyle { indent: 2_500, ..base });
    let red = parse_color("red", base.fill_color);
    assert_eq!(set("color", "red"), TextStyle { fill_color: red, ..base });
    assert_eq!(set("fillColor", "#ff0000"), TextStyle { fill_color: red, ..base });
    let stroke = StrokeStyle::default();
    assert_eq!(
        set("strokeColor", "red"),
        TextStyle { stroke: Some(StrokeStyle { stroke_color: red, ..stroke }), ..base }
    );
    assert_eq!(
        set("strokeWidth", "1.5"),
        TextStyle { stroke: Some(StrokeStyle { stroke_width: 1_500, ..stroke }), ..base }
    );
    let shadow = ShadowStyle::default();
    assert_eq!(
        set("shadowColor", "red"),
        TextStyle { shadow: Some(ShadowStyle { shadow_color: red, ..shadow }), ..base }
    );
    assert_eq!(
        set("shadowOffsetX", "-2"),
        TextStyle { shadow: Some(ShadowStyle { shadow_offset_x: -2_000, ..shadow }), ..base }
    );
    assert_eq!(
        set("shadowOffsetY", "4"),
        TextStyle { shadow: Some(ShadowStyle { shadow_offset_y: 4_000, ..shadow }), ..base }
    );
    assert_eq!(
        set("shadowBlur", "0.5"),
        TextStyle { shadow: Some(ShadowStyle { shadow_blur: 500, ..shadow }), ..base }
    );
    assert_eq!(
        set("shadowWidth", "6"),
        TextStyle { shadow: Some(ShadowStyle { shadow_width: 6_000, ..shadow }), ..base }
    );
    // A whole stroke or shadow has no written form.
    assert_eq!(set("stroke", "red 3"), base);
    assert_eq!(set("shadow", "1 1 grey"), base);
}

#[test]
fn attributes_keep_what_is_set_already() {
    let base = TextStyle {
        stroke: Some(StrokeStyle { stroke_width: 9_000, ..StrokeStyle::default() }),
        ..TextStyle::default()
    };
    let next = apply_attribute("strokeColor", "#000", &base).unwrap();
    let stroke = next.stroke.unwrap();
    assert_eq!(stroke.stroke_width, 9_000);
    assert_eq!(channels(stroke.stroke_color), [0.0, 0.0, 0.0, 1.0]);
    // A value that cannot be read leaves the field, but sets up the stroke.
    let kept = apply_attribute("strokeWidth", "wide", &TextStyle::default()).unwrap();
    assert_eq!(kept.stroke, Some(StrokeStyle::default()));
    assert_eq!(apply_attribute("size", "big", &base).unwrap(), base);
}

#[test]
fn unknown_attributes_are_none() {
    let base = TextStyle::default();
    for tag in ["", "span", "Size", "font", "colour", "shadowoffsetx", "size "] {
        assert_eq!(apply_attribute(tag, "1", &base), None, "{:?}", tag);
    }
}

#[test]
fn style_inheritance() {
    let spans = spans_of("[size=48][color=red]X[/color][/size]", &TextStyle::default(), None);
    assert_eq!(texts(&spans), vec![vec!["X"]]);
    let style = spans[0].runs[0].style;
    assert_eq!(style.font_size, 48_000);
    assert_eq!(channels(style.fill_color), [1.0, 0.0, 0.0, 1.0]);
    assert_eq!(style.line_height, 1_500);
}

#[test]
fn styles_end_with_their_blocks() {
    let spans = spans_of("a[size=48]b[indent=1]c[/indent]d[/size]e", &TextStyle::default(), None);
    assert_eq!(texts(&spans), vec![vec!["a", "b", "c", "d", "e"]]);
    let sizes: Vec<i32> = spans[0].runs.iter().map(|r| r.style.font_size).collect();
    assert_eq!(sizes, vec![32_000, 48_000, 48_000, 48_000, 32_000]);
    let indents: Vec<i32> = spans[0].runs.iter().map(|r| r.style.indent).collect();
    assert_eq!(indents, vec![0, 0, 1_000, 0, 0]);
}

#[test]
fn span_boundary() {
    let style = TextStyle { font_size: 20_000, ..TextStyle::default() };
    let spans = spans_of("A[span]B[/span]C", &style, None);
    assert_eq!(texts(&spans), vec![vec!["A"], vec!["B"], vec!["C"]]);
    assert!(spans.iter().all(|s| s.runs[0].style == style));
}

#[test]
fn spans_inside_styles_keep_the_style() {
    let spans = spans_of("[size=48]a[span]b[/span]c[/size]d", &TextStyle::default(), None);
    assert_eq!(texts(&spans), vec![vec!["a"], vec!["b"], vec!["c", "d"]]);
    assert_eq!(spans[1].runs[0].style.font_size, 48_000);
    assert_eq!(spans[2].runs[0].style.font_size, 48_000);
    assert_eq!(spans[2].runs[1].style.font_size, 32_000);
}

#[test]
fn empty_spans_are_left_out() {
    assert!(spans_of("", &TextStyle::default(), None).is_empty());
    assert!(spans_of("[span][/span][][/]", &TextStyle::default(), None).is_empty());
    assert_eq!(texts(&spans_of("[span][/span]a", &TextStyle::default(), None)), vec![vec!["a"]]);
}

#[test]
fn prefab_preemption() {
    let mut prefabs = StylePrefabs::new();
    let hero = TextStyle { font_size: 64_000, ..TextStyle::default() };
    prefabs.insert("hero".to_string(), hero);
    let around = TextStyle {
        font_size: 20_000,
        indent: 3_000,
        stroke: Some(StrokeStyle::default()),
        ..TextStyle::default()
    };
    let spans = spans_of("a[hero]X[/hero]b", &around, Some(&prefabs));
    assert_eq!(texts(&spans), vec![vec!["a", "X", "b"]]);
    // The prefab takes the place of the style; nothing of the style around
    // it is kept.
    assert_eq!(spans[0].runs[1].style, hero);
    assert_eq!(spans[0].runs[0].style, around);
    assert_eq!(spans[0].runs[2].style, around);
}

#[test]
fn tags_are_resolved_in_order() {
    let mut prefabs = StylePrefabs::new();
    let loud = TextStyle { font_size: 99_000, ..TextStyle::default() };
    prefabs.insert("span".to_string(), loud);
    prefabs.insert("size".to_string(), loud);
    prefabs.insert("big".to_string(), loud);
    let base = TextStyle::default();
    // `span` marks a span, though a prefab has its name.
    let spans = spans_of("a[span]b[/span]", &base, Some(&prefabs));
    assert_eq!(texts(&spans), vec![vec!["a"], vec!["b"]]);
    assert_eq!(spans[1].runs[0].style, base);
    // A style attribute with a value sets its field.
    let spans = spans_of("[size=10]b[/size]", &base, Some(&prefabs));
    assert_eq!(spans[0].runs[0].style.font_size, 10_000);
    // Without a value, the tag names the prefab.
    let spans = spans_of("a[size]b[/size]", &base, Some(&prefabs));
    assert_eq!(texts(&spans), vec![vec!["a", "b"]]);
    assert_eq!(spans[0].runs[1].style, loud);
    // A prefab is not called with a value, nor an unknown tag at all: both
    // mark a span.
    let spans = spans_of("a[big=1]b[/big]c[huge]d[/huge]", &base, Some(&prefabs));
    assert_eq!(texts(&spans), vec![vec!["a"], vec!["b"], vec!["c"], vec!["d"]]);
    assert!(spans.iter().all(|s| s.runs[0].style == base));
    let spans = spans_of("a[big]b[/big]", &base, None);
    assert_eq!(texts(&spans), vec![vec!["a"], vec!["b"]]);
}

#[test]
fn runs_keep_their_ranges_and_segments() {
    let segment = Segment {
        id: Some(huozi::parser::SegmentId::Tag("line".to_string())),
        content: "ab[size=1]cd[/size]".into(),
    };
    let spans = to_spans(parse(&segment).unwrap(), &TextStyle::default(), None).unwrap();
    let ranges: Vec<(usize, usize)> =
        spans[0].runs.iter().map(|r| (r.source_range.start, r.source_range.end)).collect();
    assert_eq!(ranges, vec![(0, 2), (10, 12)]);
    assert!(spans[0]
        .runs
        .iter()
        .all(|r| r.source_range.segment_id == Some(huozi::parser::SegmentId::Tag("line".to_string()))));
    assert_eq!(spans[0].span_id, Some(huozi::parser::SpanId::Lite(0)));
}

#[test]
fn deep_nesting_is_walked_without_recursion() {
    let depth = 20_000;
    let mut elements = vec![huozi::parser::Element::Text {
        start: 0,
        end: 1,
        content: "x".to_string(),
        segment_id: None,
    }];
    for _ in 0..depth {
        elements = vec![huozi::parser::Element::Block {
            start: 0,
            end: 1,
            inner: elements,
            tag: "size".to_string(),
            value: Some("40".to_string()),
        }];
    }
    let spans = to_spans(elements, &TextStyle::default(), None).unwrap();
    assert_eq!(texts(&spans), vec![vec!["x"]]);
    assert_eq!(spans[0].runs[0].style.font_size, 40_000);
}

#[test]
fn empty_values() {
    let run = huozi::parser::TextRun::default();
    assert_eq!(run.text, "");
    assert_eq!(run.style, TextStyle::default());
    assert_eq!(run.source_range, huozi::parser::SourceRange { segment_id: None, start: 0, end: 0 });
    let span = TextSpan::default();
    assert!(span.runs.is_empty());
    assert_eq!(span.span_id, None);
    let metrics = huozi::font_extractor::GlyphMetrics::default();
    assert_eq!((metrics.width, metrics.height, metrics.h_advance), (0, 0, 0));
    assert_eq!((metrics.x_scale, metrics.y_scale), (None, None));
}
