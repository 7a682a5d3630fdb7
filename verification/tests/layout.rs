use huozi::font_extractor::{FontHMetrics, GlyphExtractorTrait, GlyphMetrics};
use huozi::layout::{ColorSpace, GlyphBox, LayoutDirection, LayoutStyle, SegmentGlyphSpan};
use huozi::parser::{parse, Element, Segment, SegmentId, SourceRange, TextRun, TextSpan, TextStyle};
use huozi::Huozi;

/// A font in which every CJK ideograph advances by 95 texels, a dash by 40
/// and any other character by 50.
struct Plain;

impl GlyphExtractorTrait for Plain {
    fn new(_font_data: Vec<u8>, _font_size: i32) -> Self {
        Plain
    }

    fn set_font_size(&mut self, _font_size: i32) {}

    fn exist(&self, _ch: char) -> bool {
        true
    }

    fn get_glyph_metrics(&self, ch: char) -> GlyphMetrics {
        let h_advance = if ('\u{4e00}'..'\u{a000}').contains(&ch) {
            95_000
        } else if ('\u{2013}'..='\u{2015}').contains(&ch) {
            40_000
        } else {
            50_000
        };
        GlyphMetrics {
            width: 2,
            height: 2,
            h_advance,
            v_advance: 0,
            x_min: 0,
            y_min: 0,
            x_max: 2000,
            y_max: 2000,
            x_scale: None,
            y_scale: None,
        }
    }

    fn font_metrics(&self) -> FontHMetrics {
        FontHMetrics { ascent: 88, descent: -24, line_gap: 0, line_height: 112, content_height: 112 }
    }

    fn get_bitmap_and_metrics(&self, ch: char) -> (Vec<u8>, GlyphMetrics) {
        (vec![255u8; 4], self.get_glyph_metrics(ch))
    }
}

fn atlas() -> Huozi<Plain> {
    Huozi::new(Vec::new())
}

fn boxed(width: i32, height: i32) -> LayoutStyle {
    LayoutStyle {
        direction: LayoutDirection::Horizontal,
        box_width: width * 1000,
        box_height: height * 1000,
        glyph_grid_size: 24_000,
    }
}

fn sized(font_size: i32) -> TextStyle {
    TextStyle { font_size: font_size * 1000, ..TextStyle::default() }
}

fn run_of(text: &str, style: TextStyle, segment: Option<u32>) -> TextRun {
    TextRun {
        text: text.to_string(),
        style,
        source_range: SourceRange {
            segment_id: segment.map(SegmentId::Lite),
            start: 0,
            end: text.len(),
        },
    }
}

fn one_span(runs: Vec<TextRun>) -> Vec<TextSpan> {
    vec![TextSpan { runs, span_id: None }]
}

fn lay(
    text: &str,
    style: TextStyle,
    layout_style: LayoutStyle,
) -> (Vec<GlyphBox>, Vec<SegmentGlyphSpan>, u32, u32) {
    atlas().layout(&layout_style, &one_span(vec![run_of(text, style, Some(0))]), ColorSpace::Linear)
}

#[test]
fn plain_latin() {
    let mut huozi = atlas();
    let segments = vec![Segment::dummy("Hi")];
    let (boxes, _, _, height) = huozi
        .layout_parse(&segments, &boxed(200, 100), &sized(32), ColorSpace::Linear, None)
        .unwrap();
    assert_eq!(boxes.len(), 2);
    assert_eq!((boxes[0].row, boxes[0].col), (0, 0));
    assert_eq!((boxes[1].row, boxes[1].col), (0, 1));
    assert_eq!(boxes[0].glyph.ch, 'H');
    assert_eq!(boxes[1].glyph.ch, 'i');
    // One line of 1.5 times 32 pixels.
    assert_eq!(height, 48);
}

#[test]
fn escaped_tag() {
    let elements = parse(&Segment::dummy("[[b]]x")).unwrap();
    assert_eq!(
        elements,
        vec![Element::Text { start: 0, end: 6, content: "[b]x".to_string(), segment_id: None }]
    );
    let mut huozi = atlas();
    let segments = vec![Segment::dummy("[[b]]x")];
    let (boxes, _, _, _) = huozi
        .layout_parse(&segments, &boxed(1280, 720), &sized(32), ColorSpace::SRGB, None)
        .unwrap();
    assert_eq!(boxes.len(), 4);
    assert!(boxes.iter().all(|b| b.row == 0));
    let text: String = boxes.iter().map(|b| b.glyph.ch).collect();
    assert_eq!(text, "[b]x");
}

#[test]
fn colored_span() {
    let huozi = atlas();
    let segments = vec![Segment::dummy("a[color=#f00]b[/color]c")];
    let spans = huozi.parse_text(&segments, &TextStyle::default(), None).unwrap();
    let runs: Vec<&TextRun> = spans.iter().flat_map(|s| s.runs.iter()).collect();
    assert_eq!(runs.len(), 3);
    assert_eq!(runs[1].text, "b");
    assert_eq!(f32::from_bits(runs[1].style.fill_color.r), 1.0);
    assert_eq!(f32::from_bits(runs[1].style.fill_color.g), 0.0);
    assert_eq!(f32::from_bits(runs[1].style.fill_color.b), 0.0);
    assert_eq!(f32::from_bits(runs[0].style.fill_color.r), 0.0);
    assert_eq!(f32::from_bits(runs[2].style.fill_color.r), 0.0);
}

#[test]
fn wrap() {
    let text: String = std::iter::repeat('\u{4e2d}').take(20).collect();
    let (boxes, _, width, _) = lay(&text, sized(96), boxed(5 * 96, 2000));
    assert_eq!(boxes.len(), 20);
    for (i, b) in boxes.iter().enumerate() {
        assert_eq!(b.row as usize, i / 5);
        assert_eq!(b.col as usize, i % 5);
        assert_eq!(b.x as usize, (i % 5) * 95);
        assert_eq!(b.wrapped, i > 0 && i % 5 == 0);
    }
    // A run that wrapped is as wide as the box.
    assert_eq!(width, 480);
}

#[test]
fn overflow() {
    // Lines of 5 glyphs, 144 texels high; the seventh line would start at
    // the lower edge.
    let text: String = std::iter::repeat('\u{4e2d}').take(200).collect();
    let (boxes, spans, width, height) = lay(&text, sized(96), boxed(5 * 96, 6 * 144));
    assert_eq!(boxes.len(), 30);
    assert_eq!(boxes.last().unwrap().row, 5);
    assert_eq!(spans.len(), 1);
    assert_eq!(spans[0].glyph_range, 0..30);
    // The run that was cut short adds nothing to the totals.
    assert_eq!((width, height), (0, 0));
    assert!(height <= 6 * 144);
}

#[test]
fn overflow_ends_the_layout() {
    let mut huozi = atlas();
    let spans = vec![
        TextSpan { runs: vec![run_of("a\nb\nc", sized(96), Some(0))], span_id: None },
        TextSpan { runs: vec![run_of("d", sized(96), Some(1))], span_id: None },
    ];
    let (boxes, _, _, _) = huozi.layout(&boxed(500, 200), &spans, ColorSpace::Linear);
    let text: String = boxes.iter().map(|b| b.glyph.ch).collect();
    assert_eq!(text, "ab");
    // The glyphs behind the point where the flow stopped were not fetched:
    // 'a', the break, 'b' and the second break were.
    assert_eq!(huozi.image_version(), 3);
}

#[test]
fn segments() {
    let mut huozi = atlas();
    let runs = vec![run_of("foo", sized(32), Some(1)), run_of("bar", sized(32), Some(2))];
    let (boxes, spans, _, _) = huozi.layout(&boxed(1280, 720), &one_span(runs), ColorSpace::Linear);
    assert_eq!(boxes.len(), 6);
    assert_eq!(
        spans,
        vec![
            SegmentGlyphSpan { segment_id: SegmentId::Lite(1), glyph_range: 0..3 },
            SegmentGlyphSpan { segment_id: SegmentId::Lite(2), glyph_range: 3..6 },
        ]
    );
}

#[test]
fn segments_through_the_parser() {
    let mut huozi = atlas();
    let segments = vec![
        Segment { id: Some(SegmentId::Tag("s1".to_string())), content: "foo".into() },
        Segment { id: Some(SegmentId::Tag("s2".to_string())), content: "[size=48]bar[/size]".into() },
    ];
    let (boxes, spans, _, _) = huozi
        .layout_parse(&segments, &boxed(1280, 720), &sized(32), ColorSpace::Linear, None)
        .unwrap();
    assert_eq!(boxes.len(), 6);
    assert_eq!(boxes[3].style.font_size, 48_000);
    assert_eq!(
        spans,
        vec![
            SegmentGlyphSpan { segment_id: SegmentId::Tag("s1".to_string()), glyph_range: 0..3 },
            SegmentGlyphSpan { segment_id: SegmentId::Tag("s2".to_string()), glyph_range: 3..6 },
        ]
    );
}

#[test]
fn runs_of_one_segment_share_a_span() {
    let mut huozi = atlas();
    let runs = vec![
        run_of("ab", sized(32), Some(7)),
        run_of("cd", sized(48), Some(7)),
        run_of("e", sized(32), Some(8)),
        run_of("f", sized(32), Some(7)),
    ];
    let (_, spans, _, _) = huozi.layout(&boxed(1280, 720), &one_span(runs), ColorSpace::Linear);
    let ranges: Vec<(SegmentId, std::ops::Range<usize>)> =
        spans.into_iter().map(|s| (s.segment_id, s.glyph_range)).collect();
    assert_eq!(
        ranges,
        vec![(SegmentId::Lite(7), 0..4), (SegmentId::Lite(8), 4..5), (SegmentId::Lite(7), 5..6)]
    );
}

#[test]
fn runs_without_a_segment_have_no_span() {
    let mut huozi = atlas();
    let runs = vec![run_of("ab", sized(32), Some(1)), run_of("cd", sized(32), None)];
    let (boxes, spans, _, _) = huozi.layout(&boxed(1280, 720), &one_span(runs), ColorSpace::Linear);
    assert_eq!(boxes.len(), 4);
    assert_eq!(spans, vec![SegmentGlyphSpan { segment_id: SegmentId::Lite(1), glyph_range: 0..2 }]);
}

#[test]
fn em_dash_takes_one_em() {
    let (boxes, _, _, _) = lay("\u{2014}", sized(32), boxed(1280, 720));
    assert_eq!(boxes.len(), 1);
    assert_eq!(boxes[0].advance, 96_000);
    assert_eq!(boxes[0].width, 96);
    assert!(boxes[0].fitted);
    // The font's own advance stays with the glyph.
    assert_eq!(boxes[0].glyph.metrics.h_advance, 40_000);
}

#[test]
fn dashes_take_their_share_of_an_em() {
    let (boxes, _, _, _) = lay("a\u{2013}\u{2015}\u{2e3a}\u{2e3b}b", sized(32), boxed(4000, 720));
    let advances: Vec<i32> = boxes.iter().map(|b| b.advance).collect();
    assert_eq!(advances, vec![50_000, 48_000, 96_000, 192_000, 288_000, 50_000]);
    let pens: Vec<i128> = boxes.iter().map(|b| b.pen_x).collect();
    assert_eq!(pens, vec![0, 50_000, 98_000, 194_000, 386_000, 674_000]);
    let fitted: Vec<bool> = boxes.iter().map(|b| b.fitted).collect();
    assert_eq!(fitted, vec![false, true, true, true, true, false]);
}

#[test]
fn line_breaks_return_to_the_indent() {
    let style = TextStyle { indent: 2000, line_height: 2000, ..sized(96) };
    let (boxes, _, width, height) = lay("ab\ncd\re", style, boxed(1000, 1000));
    let places: Vec<(u32, u32, u32, u32)> = boxes.iter().map(|b| (b.row, b.col, b.x, b.y)).collect();
    assert_eq!(
        places,
        vec![(0, 0, 192, 0), (0, 1, 242, 0), (1, 0, 192, 192), (1, 1, 242, 192), (2, 0, 192, 384)]
    );
    assert!(boxes.iter().all(|b| b.height == 192 && b.width == 50));
    // The widest line ends at 292 texels; three lines are 576 texels high.
    assert_eq!((width, height), (292, 576));
}

#[test]
fn the_first_run_sets_the_first_indent() {
    let mut huozi = atlas();
    let first = TextStyle { indent: 1500, ..sized(96) };
    let runs = vec![run_of("a", first, Some(0)), run_of("b", sized(96), Some(0))];
    let (boxes, _, _, _) = huozi.layout(&boxed(1280, 720), &one_span(runs), ColorSpace::Linear);
    assert_eq!(boxes[0].pen_x, 144_000);
    assert_eq!(boxes[1].pen_x, 194_000);
}

#[test]
fn sizes_scale_the_box_not_the_pen() {
    // At 32 pixels one texel of the pen shows as a third of a pixel: a box
    // of 100 pixels holds 300 texels, five glyphs of 50 texels and not six.
    let (boxes, _, width, height) = lay("abcdefg", sized(32), boxed(100, 720));
    let rows: Vec<u32> = boxes.iter().map(|b| b.row).collect();
    assert_eq!(rows, vec![0, 0, 0, 0, 0, 1, 1]);
    assert_eq!(boxes[5].pen_x, 0);
    assert_eq!(boxes[5].y, 144);
    // The run wrapped: it is as wide as the box, and two lines of 48 pixels
    // high.
    assert_eq!((width, height), (100, 96));
}

#[test]
fn totals_add_up_over_runs() {
    let mut huozi = atlas();
    let runs = vec![run_of("abcd", sized(96), Some(0)), run_of("ef", sized(48), Some(0))];
    let (_, _, width, height) = huozi.layout(&boxed(1280, 720), &one_span(runs), ColorSpace::Linear);
    // The first run ends at 200 texels shown at full size, the second at 300
    // texels shown at half size; each adds the height of its line.
    assert_eq!(width, 200);
    assert_eq!(height, 144 + 72);
}

#[test]
fn glyphs_on_a_line_advance() {
    let (boxes, _, _, _) = lay("The quick brown fox\njumps over the lazy dog", sized(40), boxed(300, 720));
    assert!(boxes.len() > 30);
    for pair in boxes.windows(2) {
        if pair[0].row == pair[1].row {
            assert!(pair[1].x >= pair[0].x);
            assert_eq!(pair[1].pen_x, pair[0].pen_x + pair[0].advance as i128);
            assert_eq!(pair[1].col, pair[0].col + 1);
        } else {
            assert_eq!(pair[1].row, pair[0].row + 1);
            assert_eq!(pair[1].col, 0);
        }
    }
}

#[test]
fn glyphs_stay_inside_the_box() {
    let style = sized(40);
    let layout_style = boxed(300, 400);
    let (boxes, _, _, _) = lay("The quick brown fox jumps over the lazy dog", style, layout_style);
    for b in &boxes {
        let right = (b.pen_x + b.advance as i128) * style.font_size as i128;
        assert!(right < 96_000 * layout_style.box_width as i128);
        if b.row > 0 {
            let top = b.pen_y * style.font_size as i128;
            assert!(top < 96_000 * layout_style.box_height as i128);
        }
    }
}

#[test]
fn spans_cover_the_glyphs() {
    let mut huozi = atlas();
    let segments: Vec<Segment> = ["one ", "[size=20]two[/size]", "", "three\nfour"]
        .iter()
        .enumerate()
        .map(|(k, text)| Segment { id: Some(SegmentId::Lite(k as u32)), content: (*text).into() })
        .collect();
    let (boxes, spans, _, _) = huozi
        .layout_parse(&segments, &boxed(200, 720), &sized(32), ColorSpace::Linear, None)
        .unwrap();
    let mut next = 0;
    for span in &spans {
        assert_eq!(span.glyph_range.start, next);
        assert!(span.glyph_range.start <= span.glyph_range.end);
        next = span.glyph_range.end;
    }
    assert_eq!(next, boxes.len());
    let ids: Vec<SegmentId> = spans.iter().map(|s| s.segment_id.clone()).collect();
    assert_eq!(ids, vec![SegmentId::Lite(0), SegmentId::Lite(1), SegmentId::Lite(3)]);
}

#[test]
fn boxes_carry_what_their_quads_are_drawn_from() {
    let mut huozi = atlas();
    let runs = vec![run_of("a", sized(32), Some(0)), run_of("b", sized(64), Some(0))];
    let (boxes, _, _, _) = huozi.layout(&boxed(1280, 720), &one_span(runs), ColorSpace::SRGB);
    assert!(boxes.iter().all(|b| b.color_space == ColorSpace::SRGB));
    assert_eq!(boxes[0].style, sized(32));
    assert_eq!(boxes[1].style, sized(64));
    assert_eq!(boxes[0].glyph, huozi.get_glyph('a'));
    assert_eq!(boxes[1].glyph, huozi.get_glyph('b'));
    assert_eq!((boxes[1].glyph.page, boxes[1].glyph.index), (0, 1));
}

#[test]
fn a_failed_parse_leaves_the_atlas_alone() {
    let mut huozi = atlas();
    huozi.get_glyph('a');
    let segments = vec![Segment::dummy("fine"), Segment::dummy("[b]broken")];
    let result = huozi.layout_parse(&segments, &boxed(1, 1), &sized(32), ColorSpace::Linear, None);
    assert_eq!(result.unwrap_err(), "parse error at byte 9: expected an end tag");
    assert_eq!(huozi.image_version(), 1);
}

#[test]
fn layout_with_other_symbols() {
    let mut huozi = atlas();
    let segments = vec![Segment::dummy("a<size=64>b</size>")];
    let (boxes, _, _, _) = huozi
        .layout_parse_with(&segments, &boxed(1280, 720), &sized(32), ColorSpace::Linear, None, '<', '>')
        .unwrap();
    assert_eq!(boxes.len(), 2);
    assert_eq!(boxes[1].style.font_size, 64_000);
    let spans =
        huozi.parse_text_with(&segments, &TextStyle::default(), None, '<', '>').unwrap();
    assert_eq!(spans.len(), 1);
    assert_eq!(spans[0].runs.len(), 2);
}

#[test]
fn default_layout_style_is_a_screen() {
    let style = LayoutStyle::default();
    assert_eq!(style.direction, LayoutDirection::Horizontal);
    assert_eq!((style.box_width, style.box_height), (1_280_000, 720_000));
    assert_eq!(style.glyph_grid_size, 24_000);
}

/// The flow of one run as the formulas give it in floating point: the cell
/// `(row, col, x, y, width, height)` of each glyph, and the totals.
fn flow_in_floating_point(
    text: &str,
    style: &TextStyle,
    layout_style: &LayoutStyle,
) -> (Vec<(u32, u32, u32, u32, u32, u32)>, u32, u32) {
    let em = 96.0f64;
    let font_size = style.font_size as f64 / 1000.0;
    let line_height = style.line_height as f64 / 1000.0;
    let indent = style.indent as f64 / 1000.0;
    let max_width = layout_style.box_width as f64 / 1000.0;
    let max_height = layout_style.box_height as f64 / 1000.0;
    let font = Plain;
    let mut cells = Vec::new();
    let (mut x, mut y) = (indent * em, 0.0f64);
    let (mut col, mut row) = (0u32, 0u32);
    let mut run_width = 0.0f64;
    for ch in text.chars() {
        if ch == '\n' || ch == '\r' {
            run_width = run_width.max(x);
            x = indent * em;
            y += em * line_height;
            col = 0;
            row += 1;
            if y / em * font_size >= max_height {
                return (cells, 0, 0);
            }
            continue;
        }
        let mut advance = font.get_glyph_metrics(ch).h_advance as f64 / 1000.0;
        if (x + advance) / em * font_size >= max_width {
            run_width = max_width * em / font_size;
            x = 0.0;
            y += em * line_height;
            col = 0;
            row += 1;
            if y / em * font_size >= max_height {
                return (cells, 0, 0);
            }
        }
        advance = match ch {
            '\u{2014}' | '\u{2015}' => em,
            '\u{2e3a}' => em * 2.0,
            '\u{2013}' => em / 2.0,
            '\u{2e3b}' => em * 3.0,
            _ => advance,
        };
        cells.push((
            row,
            col,
            x.round() as u32,
            y.round() as u32,
            advance.round() as u32,
            (em * line_height).round() as u32,
        ));
        x += advance;
        col += 1;
    }
    run_width = run_width.max(x);
    let run_height = y + em * line_height;
    ((cells), (run_width / em * font_size).round() as u32, (run_height / em * font_size).round() as u32)
}

#[test]
fn the_flow_agrees_with_the_formulas_in_floating_point() {
    let texts = [
        "Hello, world!",
        "The quick brown fox\njumps over\r\nthe lazy dog \u{2014} twice \u{2013} or \u{2e3a} more",
        "中文排版中文排版中文排版中文排版中文排版中文排版",
        "a\n\n\nb",
        "",
    ];
    for text in texts {
        for font_size in [12, 32, 40, 96, 150] {
            for (line_height, indent) in [(1500, 0), (1000, 2000), (2250, 500)] {
                for (box_width, box_height) in [(100, 100), (300, 720), (480, 90), (1280, 720)] {
                    let style = TextStyle { line_height, indent, ..sized(font_size) };
                    let layout_style = boxed(box_width, box_height);
                    let (boxes, _, width, height) = lay(text, style, layout_style);
                    let cells: Vec<(u32, u32, u32, u32, u32, u32)> =
                        boxes.iter().map(|b| (b.row, b.col, b.x, b.y, b.width, b.height)).collect();
                    let (wanted, wanted_width, wanted_height) =
                        flow_in_floating_point(text, &style, &layout_style);
                    let case = format!(
                        "{:?} at {} px, lines {} indent {}, box {} by {}",
                        text, font_size, line_height, indent, box_width, box_height
                    );
                    assert_eq!(cells, wanted, "{}", case);
                    assert!((width as i64 - wanted_width as i64).abs() <= 1, "width, {}", case);
                    assert!((height as i64 - wanted_height as i64).abs() <= 1, "height, {}", case);
                }
            }
        }
    }
}
