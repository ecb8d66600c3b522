//! The library's laws on concrete values, its edge cases, and what it refuses.
use aviutl_text::{
    control_sequences_readable, Code, CodeType, object_index_to_string_index, parse_control, parse_escape,
    parse_text, AxisValue, ColorType, ColorValue, Decimal, Element, Elements, FontCommand,
    FontDecoration, FontDecorationKind, ParseElementError, ScalarValue, TextDecoration,
    TimeValue,
};
use std::str::FromStr;

fn dec(s: &str) -> Decimal {
    Decimal::parse(s).unwrap()
}

fn joined(es: &[Element]) -> String {
    es.iter().map(|e| e.to_string()).collect::<Vec<_>>().join("")
}

fn all_decorations() -> Vec<TextDecoration> {
    let mut out = Vec::new();
    for bits in 0..8u8 {
        out.push(TextDecoration {
            bold: bits & 1 != 0,
            italic: bits & 2 != 0,
            strikethrough: bits & 4 != 0,
        });
    }
    out
}

// --- the pieces of a text spell the text ---

#[test]
fn pieces_spell_the_text() {
    for input in [
        "ab<w1>cd<#ff0000>e",
        "<x>plain<s32,Arial,BI>more</>",
        "<p100,-20><tr+45><gw2>tail",
        "no sequence at all",
        "<<<w*0.5>>>",
    ] {
        assert_eq!(joined(&parse_control(input)), input);
    }
}

#[test]
fn newline_after_clear_is_the_one_thing_dropped() {
    let es = parse_control("a<c>\nb");
    assert_eq!(joined(&es), "a<c>b");
    let es = parse_control("a<w>\nb");
    assert_eq!(joined(&es), "a<w>\nb");
}

// --- plain text ---

#[test]
fn plain_text_is_one_text_piece() {
    assert_eq!(
        parse_control("hello, world > 3"),
        vec![Element::Text("hello, world > 3".to_string())]
    );
}

#[test]
fn empty_text_has_no_pieces() {
    assert_eq!(parse_control(""), Vec::<Element>::new());
    assert_eq!(parse_text(""), Vec::<Element>::new());
}

// --- one sequence ---

#[test]
fn one_sequence_is_one_piece() {
    for input in ["<#ff0000>", "<s*1.5>", "<p,,3>", "<//note//>", "</>a<!0.5+>b</>"] {
        let es = parse_control(input);
        assert_eq!(es.len(), 1);
        assert_eq!(Element::from_text(input).unwrap(), es[0]);
    }
}

// --- plain text is never split ---

#[test]
fn unrecognised_sequence_stays_in_the_text() {
    assert_eq!(
        parse_control("a<x>b<w1>c"),
        vec![
            Element::Text("a<x>b".to_string()),
            Element::Wait {
                time: TimeValue::Absolute(dec("1"))
            },
            Element::Text("c".to_string()),
        ]
    );
}

#[test]
fn unfinished_sequence_is_text() {
    assert_eq!(parse_control("<w1"), vec![Element::Text("<w1".to_string())]);
    assert_eq!(parse_control("<"), vec![Element::Text("<".to_string())]);
}

// --- decorations read back ---

#[test]
fn text_decoration_reads_back() {
    for d in all_decorations() {
        let e = Element::Font {
            command: FontCommand::RemoveStyle(d.clone()),
        };
        let text = e.to_string();
        assert_eq!(text, format!("<@-{}>", d.to_string()));
        if d.bold || d.italic || d.strikethrough {
            assert_eq!(Element::from_text(&text).unwrap(), e);
        }
    }
}

#[test]
fn font_decoration_reads_back() {
    let kinds = [
        None,
        Some(FontDecorationKind::Standard),
        Some(FontDecorationKind::Shadow),
        Some(FontDecorationKind::ShadowLight),
        Some(FontDecorationKind::Outline),
        Some(FontDecorationKind::OutlineThin),
        Some(FontDecorationKind::OutlineBold),
        Some(FontDecorationKind::OutlineSquare),
    ];
    for kind in kinds {
        for style in all_decorations() {
            let fd = FontDecoration {
                kind: kind.clone(),
                style,
            };
            if fd.to_string().is_empty() {
                continue;
            }
            let e = Element::Font {
                command: FontCommand::Select {
                    name: Some("Arial".to_string()),
                    decoration: Some(fd),
                },
            };
            assert_eq!(Element::from_text(&e.to_string()).unwrap(), e);
        }
    }
}

// --- colours read back ---

#[test]
fn rgb_colour_reads_back() {
    for (r, g, b) in [(0, 0, 0), (255, 255, 255), (1, 0x2a, 0xfe), (0x10, 0x80, 0x0f)] {
        let e = Element::Color {
            code: ColorType::Single(ColorValue::Rgb(r, g, b)),
        };
        let text = e.to_string();
        assert_eq!(text.len(), 9);
        assert_eq!(Element::from_text(&text).unwrap(), e);
    }
}

#[test]
fn colour_elements_read_back() {
    for code in [
        ColorType::Default,
        ColorType::Pair(ColorValue::Rgb(1, 2, 3), ColorValue::Rgb(0xaa, 0xbb, 0xcc)),
    ] {
        let e = Element::Color { code };
        assert_eq!(Element::from_text(&e.to_string()).unwrap(), e);
    }
    let e = Element::Color {
        code: ColorType::Pair(ColorValue::Rgb(0x12, 0x34, 0x56), ColorValue::Rgb(0, 0, 0)),
    };
    assert_eq!(e.to_string(), "<#123456,000000>");
}

// --- numbers ---

#[test]
fn decimal_text_is_canonical_and_reads_back() {
    for (input, text) in [
        ("1.50", "1.5"),
        ("007", "7"),
        ("-0.0", "0"),
        ("+2.000", "2"),
        (".25", "0.25"),
        ("-.5", "-0.5"),
        ("0", "0"),
        ("1.", "1"),
        ("123456789012345678901234567890.5", "123456789012345678901234567890.5"),
    ] {
        let d = dec(input);
        assert_eq!(d.to_text(), text);
        assert_eq!(dec(&d.to_text()), d);
    }
}

#[test]
fn decimal_refuses_what_is_no_literal() {
    for input in ["", ".", "+", "1e3", "1,5", "--1", " 1", "0x10"] {
        assert!(Decimal::parse(input).is_none(), "{input}");
    }
}

#[test]
fn decimal_sign_and_zero() {
    assert!(dec("-0").is_zero());
    assert!(!dec("-0").is_negative());
    assert!(dec("-0.01").is_negative());
    assert!(!dec("0.01").is_zero());
}

#[test]
fn signed_values_are_written_with_their_sign() {
    let e = Element::Position {
        x: Some(AxisValue::Relative(dec("0"))),
        y: Some(AxisValue::Relative(dec("-2.5"))),
        z: Some(AxisValue::Absolute(dec("3"))),
    };
    assert_eq!(e.to_string(), "<p+0,-2.5,3>");
    let e = Element::Size {
        size: ScalarValue::RelativeAdd(dec("4")),
        font: None,
        decoration: None,
        outline_size: None,
    };
    assert_eq!(e.to_string(), "<s+4>");
}

#[test]
fn wait_and_clear_read_back() {
    for e in [
        Element::Wait {
            time: TimeValue::PerChar(dec("0.5")),
        },
        Element::Wait {
            time: TimeValue::Absolute(dec("12")),
        },
        Element::Clear {
            time: TimeValue::Absolute(dec("0")),
        },
        Element::Speed { speed: None },
        Element::Speed {
            speed: Some(dec("3.25")),
        },
    ] {
        assert_eq!(Element::from_text(&e.to_string()).unwrap(), e);
    }
}

// --- escapes ---

#[test]
fn trailing_backslash_is_kept() {
    assert_eq!(parse_escape("abc\\"), "abc\\");
    assert_eq!(parse_escape("\\"), "\\");
}

#[test]
fn escapes_before_sequences() {
    assert_eq!(
        parse_text(r"a\<w1>"),
        vec![Element::Text("a\\".to_string()), Element::Wait {
            time: TimeValue::Absolute(dec("1"))
        }]
    );
    assert_eq!(parse_escape(r"\\n"), "\\n");
}

// --- positions in the text ---

#[test]
fn object_index_counts_bytes_of_multibyte_text() {
    let text = "あ\nい\tう";
    assert_eq!(object_index_to_string_index(text, 0), Some(0));
    assert_eq!(object_index_to_string_index(text, 1), Some(4));
    assert_eq!(object_index_to_string_index(text, 2), Some(8));
    assert_eq!(object_index_to_string_index(text, 3), None);
    assert_eq!(object_index_to_string_index("", 0), None);
    assert_eq!(object_index_to_string_index("\n\n", 0), None);
}

// --- what cannot be read ---

#[test]
fn unreadable_sequences_are_found() {
    for input in ["<c.>", "a<c1.2.3>b", "<p1,2,>"] {
        assert!(!control_sequences_readable(input), "{input}");
        assert!(!Element::readable(input) || input.starts_with('a'), "{input}");
    }
    for input in ["<c1.5>", "<p1,2,3>", "<?x>", "<?>", "<?あ>", "<?あ?>", "plain", "<x>"] {
        assert!(control_sequences_readable(input), "{input}");
        assert!(Element::readable(input), "{input}");
    }
}

#[test]
fn from_str_refuses_unreadable_text() {
    assert_eq!(Element::from_str("<c.>"), Err(ParseElementError));
    assert_eq!(Elements::from_str("x<p1,2,>"), Err(ParseElementError));
    assert_eq!(
        ParseElementError.to_string(),
        "failed to parse Element from string"
    );
}

#[test]
fn from_text_refuses_a_sequence_with_more_after_it() {
    assert_eq!(Element::from_text("<#ff0000>x"), Err(ParseElementError));
    assert_eq!(Element::from_text("x<#ff0000>"), Ok(Element::Text("x<#ff0000>".to_string())));
    assert_eq!(Element::from_text(""), Ok(Element::Text(String::new())));
}

#[test]
fn elements_from_text_unescapes() {
    let es = Elements::from_text(r"A\nB").unwrap();
    assert_eq!(es, Elements(vec![Element::Text("A\nB".to_string())]));
    assert_eq!(es.to_string(), "A\nB");
}

// --- every kind of element reads back from its text ---

fn reads_back(e: Element) {
    let text = e.to_string();
    assert_eq!(parse_control(&text), vec![e.clone()], "{text}");
    assert_eq!(Element::from_text(&text), Ok(e), "{text}");
}

#[test]
fn every_kind_reads_back() {
    let n = dec;
    let cases = vec![
        Element::Text("a<b > c".to_string()),
        Element::Color {
            code: ColorType::Single(ColorValue::Preset("red".to_string())),
        },
        Element::Color {
            code: ColorType::Pair(
                ColorValue::Preset(String::new()),
                ColorValue::Preset("x,y".to_string()),
            ),
        },
        Element::Size {
            size: ScalarValue::RelativeAdd(n("-3.5")),
            font: Some("A>B".to_string()),
            decoration: None,
            outline_size: None,
        },
        Element::Size {
            size: ScalarValue::RelativeMul(n("1.25")),
            font: None,
            decoration: Some(TextDecoration {
                bold: false,
                italic: false,
                strikethrough: false,
            }),
            outline_size: Some(n("2")),
        },
        Element::Size {
            size: ScalarValue::Default,
            font: None,
            decoration: None,
            outline_size: None,
        },
        Element::Font {
            command: FontCommand::Select {
                name: None,
                decoration: Some(FontDecoration {
                    kind: Some(FontDecorationKind::Shadow),
                    style: TextDecoration {
                        bold: false,
                        italic: false,
                        strikethrough: false,
                    },
                }),
            },
        },
        Element::Font {
            command: FontCommand::AddStyle(TextDecoration {
                bold: false,
                italic: false,
                strikethrough: false,
            }),
        },
        Element::Preset {
            name: Some("p 1".to_string()),
        },
        Element::Preset { name: None },
        Element::Speed { speed: Some(n("0")) },
        Element::Wait {
            time: TimeValue::Absolute(n("0")),
        },
        Element::Clear {
            time: TimeValue::PerChar(n("0.125")),
        },
        Element::Position {
            x: None,
            y: None,
            z: None,
        },
        Element::Position {
            x: None,
            y: None,
            z: Some(AxisValue::Relative(n("-1"))),
        },
        Element::Position {
            x: Some(AxisValue::Absolute(n("10"))),
            y: None,
            z: None,
        },
        Element::PositionReset,
        Element::GlyphSpacing { value: None },
        Element::LineSpacing {
            value: Some(n("4")),
        },
        Element::ScaleX {
            value: Some(n("150")),
        },
        Element::ScaleY { value: None },
        Element::Rotate {
            value: Some(AxisValue::Relative(n("0"))),
        },
        Element::Ruby {
            base: "漢字".to_string(),
            ruby: "かんじ".to_string(),
            scale: Some(n("0.5")),
            expand_line_height: true,
        },
        Element::Ruby {
            base: "<!x".to_string(),
            ruby: "</".to_string(),
            scale: None,
            expand_line_height: false,
        },
        Element::BlockEnd,
        Element::Comment {
            text: "ends with a slash /".to_string(),
        },
        Element::Script {
            code: Code {
                kind: CodeType::Value,
                value: "=x".to_string(),
            },
        },
        Element::Script {
            code: Code {
                kind: CodeType::Full,
                value: "y = 1".to_string(),
            },
        },
    ];
    for e in cases {
        reads_back(e);
    }
}

#[test]
fn what_does_not_read_back() {
    // a negative absolute coordinate is written with its sign and reads as relative
    let e = Element::Rotate {
        value: Some(AxisValue::Absolute(dec("-5"))),
    };
    assert_eq!(
        Element::from_text(&e.to_string()),
        Ok(Element::Rotate {
            value: Some(AxisValue::Relative(dec("-5")))
        })
    );
    // an outline width without a decoration reads with an empty decoration
    let e = Element::Size {
        size: ScalarValue::Absolute(dec("72")),
        font: None,
        decoration: None,
        outline_size: Some(dec("4")),
    };
    match Element::from_text(&e.to_string()).unwrap() {
        Element::Size { decoration, .. } => assert_eq!(
            decoration,
            Some(TextDecoration {
                bold: false,
                italic: false,
                strikethrough: false
            })
        ),
        other => panic!("{other:?}"),
    }
    // a preset colour name of six hexadecimal digits reads as a colour
    let e = Element::Color {
        code: ColorType::Single(ColorValue::Preset("abcdef".to_string())),
    };
    assert_eq!(
        Element::from_text(&e.to_string()),
        Ok(Element::Color {
            code: ColorType::Single(ColorValue::Rgb(0xab, 0xcd, 0xef))
        })
    );
}

// --- elements written one after another read back ---

#[test]
fn element_lists_read_back() {
    let es = vec![
        Element::Text("Hi ".to_string()),
        Element::Wait {
            time: TimeValue::Absolute(dec("1")),
        },
        Element::Text("there".to_string()),
        Element::Size {
            size: ScalarValue::Absolute(dec("32")),
            font: Some("Arial".to_string()),
            decoration: Some(TextDecoration {
                bold: true,
                italic: false,
                strikethrough: true,
            }),
            outline_size: None,
        },
        Element::Clear {
            time: TimeValue::Absolute(dec("0")),
        },
        Element::Text("x\n".to_string()),
        Element::Ruby {
            base: "a".to_string(),
            ruby: "b".to_string(),
            scale: None,
            expand_line_height: false,
        },
        Element::BlockEnd,
        Element::Color {
            code: ColorType::Default,
        },
    ];
    let text = Elements(es.clone()).to_string();
    assert_eq!(text, "Hi <w1>there<s32,Arial,BS><c>x\n</>a<!>b</></><#>");
    assert_eq!(parse_control(&text), es);
}

#[test]
fn a_size_that_ends_with_its_font_reaches_into_what_follows() {
    let es = vec![
        Element::Size {
            size: ScalarValue::Absolute(dec("32")),
            font: Some("a".to_string()),
            decoration: None,
            outline_size: None,
        },
        Element::Text(",B>".to_string()),
    ];
    let text = Elements(es).to_string();
    assert_eq!(parse_control(&text).len(), 1);
}

// --- scripts ---

#[test]
fn a_script_runs_to_the_first_question_mark_and_gt() {
    assert_eq!(
        parse_control("<?a>b?>c"),
        vec![
            Element::Script {
                code: Code {
                    kind: CodeType::Full,
                    value: "a>b".to_string(),
                },
            },
            Element::Text("c".to_string()),
        ]
    );
    assert_eq!(
        parse_control("<?=x?>?>"),
        vec![
            Element::Script {
                code: Code {
                    kind: CodeType::Value,
                    value: "x".to_string(),
                },
            },
            Element::Text("?>".to_string()),
        ]
    );
    assert_eq!(
        parse_control("<??>"),
        vec![Element::Script {
            code: Code {
                kind: CodeType::Full,
                value: String::new(),
            },
        }]
    );
}

#[test]
fn a_script_without_its_end_is_text() {
    assert_eq!(parse_control("<?>"), vec![Element::Text("<?>".to_string())]);
    assert_eq!(parse_control("<?あ>"), vec![Element::Text("<?あ>".to_string())]);
    assert_eq!(Element::from_text("<?x>"), Ok(Element::Text("<?x>".to_string())));
}

// --- the readings agree ---

#[test]
fn parse_text_is_parse_control_of_the_unescaped_text() {
    for t in [r"a\nb<w1>", r"\\<#ff0000>x\", r"<?a\nb?>", "", r"\<s1>"] {
        assert_eq!(parse_text(t), parse_control(&parse_escape(t)), "{t}");
    }
}

#[test]
fn reading_one_element_agrees_with_reading_the_text() {
    for s in ["<w1>", "<?x>y?>", "</>a<!>b</>", "<s32,Arial>"] {
        assert_eq!(Element::from_str(s), Ok(parse_control(s)[0].clone()), "{s}");
    }
    for s in ["<w1>x", "<#red>text"] {
        assert_eq!(Element::from_str(s), Err(ParseElementError));
        assert!(!matches!(parse_control(s)[0], Element::Text(_)));
    }
    for s in ["x<w1>", "<x>", ""] {
        assert_eq!(Element::from_str(s), Ok(Element::Text(s.to_string())));
        let p = parse_control(s);
        assert!(p.is_empty() || matches!(p[0], Element::Text(_)));
    }
}
