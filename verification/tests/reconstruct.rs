use nebo_to_rnote::config::{doc_config, PatternKind, GRID_CELL};
use nebo_to_rnote::page::{assemble_page, Drawable, Element, Item, Page};
use nebo_to_rnote::spans::{Span, SpanWalker};
use nebo_to_rnote::stroke::{build_line, build_stroke, PRESSURE_MAX};
use nebo_to_rnote::style::{
    encode_style, get_color_from_hex, is_float_literal, parse_style, PipelineError, Style,
};

fn style(pen_width: &str, color: (u8, u8, u8, u8)) -> Style {
    Style { pen_width: String::from(pen_width), color }
}

#[test]
fn color_hex_decodes_rgba() {
    assert_eq!(get_color_from_hex(String::from("#FF000080")), Ok((255, 0, 0, 128)));
    assert_eq!(get_color_from_hex(String::from("#11223344")), Ok((0x11, 0x22, 0x33, 0x44)));
    assert_eq!(get_color_from_hex(String::from("#ffffffff")), Ok((255, 255, 255, 255)));
}

#[test]
fn color_hex_rejects_malformed() {
    assert_eq!(get_color_from_hex(String::from("#FF00")), Err(()));
    assert_eq!(get_color_from_hex(String::from("FF000080A")), Err(()));
    assert_eq!(get_color_from_hex(String::from("#FF0000ZZ")), Err(()));
    assert_eq!(get_color_from_hex(String::from("")), Err(()));
}

#[test]
fn style_decodes_width_and_color() {
    let st = parse_style("-myscript-pen-width:2;color:#11223344").unwrap();
    assert_eq!(st.pen_width, "2");
    assert_eq!(st.color, (0x11, 0x22, 0x33, 0x44));
}

#[test]
fn style_trims_and_ignores_unknown_keys() {
    let st = parse_style(" -myscript-pen-width : 2.5 ;foo:bar;color:#00FF00FF").unwrap();
    assert_eq!(st.pen_width, "2.5");
    assert_eq!(st.color, (0, 255, 0, 255));
}

#[test]
fn style_segment_without_colon_is_malformed() {
    assert_eq!(parse_style("nocolon"), Err(PipelineError::MalformedStyle));
    assert_eq!(parse_style("color:#11223344;nocolon"), Err(PipelineError::MalformedStyle));
}

#[test]
fn style_bad_width_and_color_fail() {
    assert_eq!(
        parse_style("-myscript-pen-width:abc"),
        Err(PipelineError::InvalidPenWidth)
    );
    assert_eq!(parse_style("color:#FF00"), Err(PipelineError::InvalidColor));
    assert_eq!(parse_style("color:11223344X"), Err(PipelineError::InvalidColor));
}

#[test]
fn style_empty_segments_are_skipped() {
    let st = parse_style("-myscript-pen-width:3;").unwrap();
    assert_eq!(st.pen_width, "3");
}

#[test]
fn style_round_trips_through_canonical_encoding() {
    let input = "-myscript-pen-width:2;color:#11223344";
    let st = parse_style(input).unwrap();
    let enc = encode_style(&st);
    assert_eq!(enc, "-myscript-pen-width:2;color:#11223344");
    let st2 = parse_style(&enc).unwrap();
    assert_eq!(st2.pen_width, st.pen_width);
    assert_eq!(st2.color, st.color);
}

#[test]
fn float_literal_grammar() {
    for ok in ["2", "2.5", ".5", "5.", "-3.5e10", "+1E-9", "inf", "Infinity", "NaN", "0"] {
        assert!(is_float_literal(ok), "{ok}");
    }
    for bad in ["", "e5", "1e", "--2", "1.2.3", "2,5", "abc", "+", "."] {
        assert!(!is_float_literal(bad), "{bad}");
    }
}

#[test]
fn span_walker_resolves_each_index() {
    let spans = vec![
        Span { last_item: 0, style: style("1", (1, 1, 1, 1)) },
        Span { last_item: 1, style: style("2", (2, 2, 2, 2)) },
    ];
    let mut w = SpanWalker::new(spans);
    assert_eq!(w.resolve(0).unwrap().pen_width, "1");
    assert_eq!(w.resolve(1).unwrap().pen_width, "2");
    assert!(w.resolve(2).is_none());
    assert!(w.resolve(3).is_none());
}

#[test]
fn span_walker_cursor_never_regresses() {
    let spans = vec![
        Span { last_item: 2, style: style("1", (0, 0, 0, 0)) },
        Span { last_item: 5, style: style("2", (0, 0, 0, 0)) },
    ];
    let mut w = SpanWalker::new(spans);
    assert_eq!(w.resolve(0).unwrap().pen_width, "1");
    let c0 = w.cursor;
    assert_eq!(w.resolve(4).unwrap().pen_width, "2");
    assert!(w.cursor >= c0);
}

#[test]
fn stroke_preserves_length_scale_input_and_pressure() {
    let x = vec![0f64.to_bits(), 1f64.to_bits(), 2f64.to_bits()];
    let y = vec![3f64.to_bits(), 4f64.to_bits(), 5f64.to_bits()];
    let f = vec![0.5f64.to_bits(), 0.6f64.to_bits(), 0.7f64.to_bits()];
    let st = style("2", (10, 20, 30, 40));
    let d = build_stroke(&x, &y, &f, Some(&st)).unwrap();
    assert_eq!(d.points.len(), 3);
    for i in 0..3 {
        assert_eq!(d.points[i].x, x[i]);
        assert_eq!(d.points[i].y, y[i]);
        assert_eq!(d.points[i].pressure, f[i]);
    }
    assert_eq!(d.width.as_deref(), Some("2"));
    assert_eq!(d.color, Some((10, 20, 30, 255)));
}

#[test]
fn stroke_mismatched_lengths_fail() {
    let x = vec![1, 2, 3];
    let y = vec![1, 2];
    let f = vec![1, 2, 3];
    assert!(matches!(
        build_stroke(&x, &y, &f, None),
        Err(PipelineError::EmptyOrMismatchedArrays)
    ));
    let empty: Vec<u64> = vec![];
    assert!(matches!(
        build_stroke(&empty, &empty, &empty, None),
        Err(PipelineError::EmptyOrMismatchedArrays)
    ));
}

#[test]
fn stroke_without_style_uses_sink_defaults() {
    let x = vec![1u64];
    let d = build_stroke(&x, &x, &x, None).unwrap();
    assert!(d.width.is_none());
    assert!(d.color.is_none());
}

#[test]
fn line_requires_style_and_uses_full_pressure() {
    assert!(matches!(
        build_line(1, 2, 3, 4, None),
        Err(PipelineError::MissingStyleForLine)
    ));
    let st = style("4", (9, 8, 7, 6));
    let d = build_line(1, 2, 3, 4, Some(&st)).unwrap();
    assert_eq!(d.points.len(), 2);
    assert_eq!((d.points[0].x, d.points[0].y), (1, 2));
    assert_eq!((d.points[1].x, d.points[1].y), (3, 4));
    assert_eq!(d.points[0].pressure, PRESSURE_MAX);
    assert_eq!(d.points[1].pressure, PRESSURE_MAX);
    assert_eq!(d.width.as_deref(), Some("4"));
    assert_eq!(d.color, Some((9, 8, 7, 6)));
}

#[test]
fn full_pressure_is_the_encoding_of_one() {
    assert_eq!(PRESSURE_MAX, 1.0f64.to_bits());
}

#[test]
fn page_with_one_stroke_item() {
    let x = vec![0f64.to_bits(), 1f64.to_bits()];
    let y = vec![0f64.to_bits(), 1f64.to_bits()];
    let f = vec![0.5f64.to_bits(), 0.5f64.to_bits()];
    let span_style = parse_style("-myscript-pen-width:2;color:#11223344").unwrap();
    let elements = vec![Element::Group {
        items: vec![Item::Stroke { x: x.clone(), y: y.clone(), f: f.clone() }],
        spans: vec![Span { last_item: 0, style: span_style }],
        style: None,
    }];
    let out = assemble_page(&elements, &vec![]).unwrap();
    assert_eq!(out.len(), 1);
    match &out[0] {
        Drawable::Stroke(d) => {
            assert_eq!(d.points.len(), 2);
            assert_eq!(d.points[0].x, x[0]);
            assert_eq!(d.points[1].y, y[1]);
            assert_eq!(d.points[0].pressure, f[0]);
            assert_eq!(d.width.as_deref(), Some("2"));
            assert_eq!(d.color, Some((0x11, 0x22, 0x33, 255)));
        },
        _ => panic!("expected a stroke drawable"),
    }
}

#[test]
fn page_missing_asset_fails_whole_page() {
    let elements = vec![
        Element::Group {
            items: vec![Item::Line { x1: 0, y1: 0, x2: 1, y2: 1 }],
            spans: vec![],
            style: Some(style("1", (0, 0, 0, 255))),
        },
        Element::Image { url: String::from("missing.png"), x: 0, y: 0, width: 1, height: 1 },
    ];
    let assets = vec![String::from("other.png")];
    assert!(matches!(
        assemble_page(&elements, &assets),
        Err(PipelineError::AssetNotFound)
    ));
}

#[test]
fn page_present_asset_is_placed() {
    let elements = vec![Element::Image {
        url: String::from("img.png"),
        x: 7,
        y: 8,
        width: 9,
        height: 10,
    }];
    let assets = vec![String::from("img.png")];
    let out = assemble_page(&elements, &assets).unwrap();
    assert_eq!(out.len(), 1);
    match &out[0] {
        Drawable::Image(d) => {
            assert_eq!(d.url, "img.png");
            assert_eq!((d.x, d.y, d.width, d.height), (7, 8, 9, 10));
        },
        _ => panic!("expected an image drawable"),
    }
}

#[test]
fn page_preserves_line_then_stroke_order() {
    let st = style("1", (1, 2, 3, 4));
    let elements = vec![Element::Group {
        items: vec![
            Item::Line { x1: 0, y1: 0, x2: 1, y2: 1 },
            Item::Stroke { x: vec![1], y: vec![2], f: vec![3] },
        ],
        spans: vec![Span { last_item: 1, style: style("9", (9, 9, 9, 9)) }],
        style: Some(st),
    }];
    let out = assemble_page(&elements, &vec![]).unwrap();
    assert_eq!(out.len(), 2);
    assert!(matches!(&out[0], Drawable::Line(_)));
    assert!(matches!(&out[1], Drawable::Stroke(_)));
}

#[test]
fn page_skips_glyphs_arcs_and_unknown_elements() {
    let elements = vec![
        Element::Other,
        Element::Group {
            items: vec![Item::Glyph, Item::Arc],
            spans: vec![],
            style: None,
        },
    ];
    let out = assemble_page(&elements, &vec![]).unwrap();
    assert!(out.is_empty());
}

#[test]
fn page_unknown_item_type_is_fatal() {
    let elements = vec![Element::Group {
        items: vec![Item::Other],
        spans: vec![],
        style: None,
    }];
    assert!(matches!(
        assemble_page(&elements, &vec![]),
        Err(PipelineError::UnsupportedItemType)
    ));
}

#[test]
fn page_stroke_past_spans_falls_back_to_defaults() {
    let elements = vec![Element::Group {
        items: vec![
            Item::Stroke { x: vec![1], y: vec![1], f: vec![1] },
            Item::Stroke { x: vec![2], y: vec![2], f: vec![2] },
        ],
        spans: vec![Span { last_item: 0, style: style("5", (5, 5, 5, 5)) }],
        style: None,
    }];
    let out = assemble_page(&elements, &vec![]).unwrap();
    assert_eq!(out.len(), 2);
    match (&out[0], &out[1]) {
        (Drawable::Stroke(a), Drawable::Stroke(b)) => {
            assert_eq!(a.width.as_deref(), Some("5"));
            assert!(b.width.is_none());
            assert!(b.color.is_none());
        },
        _ => panic!("expected two stroke drawables"),
    }
}

#[test]
fn page_assemble_matches_free_function() {
    let page = Page {
        title: String::from("first"),
        config: doc_config("grid"),
        elements: vec![Element::Group {
            items: vec![Item::Line { x1: 1, y1: 2, x2: 3, y2: 4 }],
            spans: vec![],
            style: Some(style("1", (0, 0, 0, 255))),
        }],
    };
    let out = page.assemble(&vec![]).unwrap();
    assert_eq!(out.len(), 1);
    assert!(matches!(&out[0], Drawable::Line(_)));
}

#[test]
fn grid_background_is_recognized() {
    let c = doc_config("grid");
    assert_eq!(c.pattern, PatternKind::Grid);
    assert_eq!(c.pattern_size, (GRID_CELL, GRID_CELL));
    assert_eq!(GRID_CELL, 32f64.to_bits());
    assert_eq!(c.background_color, (255, 255, 255, 255));
    assert!(!c.show_borders);
    assert!(c.infinite_layout);
    let p = doc_config("plain");
    assert_eq!(p.pattern, PatternKind::Plain);
}
