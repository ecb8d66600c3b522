use aviutl_text::{
    object_index_to_string_index, parse_control, parse_escape, parse_text, AxisValue, Code,
    CodeType, ColorType, ColorValue, Decimal, Element, Elements, FontCommand, FontDecoration,
    FontDecorationKind, ScalarValue, TextDecoration, TimeValue,
};

/// The number that `x` is, in the library's exact representation.
fn num(x: f64) -> Decimal {
    Decimal::parse(&x.to_string()).unwrap()
}
// --- parse_escape ---

#[test]
fn test_escape_newline() {
    assert_eq!(parse_escape(r"\n"), "\n");
}

#[test]
fn test_escape_backslash() {
    assert_eq!(parse_escape(r"\\"), "\\");
}

#[test]
fn test_escape_unknown_kept() {
    assert_eq!(parse_escape(r"\t"), r"\t");
}

#[test]
fn test_escape_mixed() {
    assert_eq!(parse_escape(r"Hello\nWorld\\!"), "Hello\nWorld\\!");
}

// --- parse_control: color ---

#[test]
fn test_color_rgb() {
    let result = parse_control("<#ffffff>");
    assert_eq!(
        result,
        vec![Element::Color {
            code: ColorType::Single(ColorValue::Rgb(255, 255, 255))
        }]
    );
}

#[test]
fn test_color_pair() {
    let result = parse_control("<#000000,ffffff>");
    assert_eq!(
        result,
        vec![Element::Color {
            code: ColorType::Pair(ColorValue::Rgb(0, 0, 0), ColorValue::Rgb(255, 255, 255))
        }]
    );
}

#[test]
fn test_color_default() {
    let result = parse_control("<#>");
    assert_eq!(
        result,
        vec![Element::Color {
            code: ColorType::Default
        }]
    );
}

#[test]
fn test_color_preset() {
    let result = parse_control("<#red>");
    assert_eq!(
        result,
        vec![Element::Color {
            code: ColorType::Single(ColorValue::Preset("red".to_string()))
        }]
    );
}

// --- parse_control: size ---

#[test]
fn test_size_absolute() {
    let result = parse_control("<s32>");
    assert_eq!(
        result,
        vec![Element::Size {
            size: ScalarValue::Absolute(num(32.0)),
            font: None,
            decoration: None,
            outline_size: None,
        }]
    );
}

#[test]
fn test_size_default() {
    let result = parse_control("<s>");
    assert_eq!(
        result,
        vec![Element::Size {
            size: ScalarValue::Default,
            font: None,
            decoration: None,
            outline_size: None,
        }]
    );
}

#[test]
fn test_size_with_font() {
    let result = parse_control("<s72,メイリオ>");
    assert_eq!(
        result,
        vec![Element::Size {
            size: ScalarValue::Absolute(num(72.0)),
            font: Some("メイリオ".to_string()),
            decoration: None,
            outline_size: None,
        }]
    );
}

#[test]
fn test_size_with_font_and_decoration() {
    let result = parse_control("<s72,メイリオ,BI>");
    assert_eq!(
        result,
        vec![Element::Size {
            size: ScalarValue::Absolute(num(72.0)),
            font: Some("メイリオ".to_string()),
            decoration: Some(TextDecoration {
                bold: true,
                italic: true,
                strikethrough: false,
            }),
            outline_size: None,
        }]
    );
}

#[test]
fn test_size_with_outline() {
    let result = parse_control("<s72,メイリオ,BI,4>");
    assert_eq!(
        result,
        vec![Element::Size {
            size: ScalarValue::Absolute(num(72.0)),
            font: Some("メイリオ".to_string()),
            decoration: Some(TextDecoration {
                bold: true,
                italic: true,
                strikethrough: false,
            }),
            outline_size: Some(num(4.0)),
        }]
    );
}

#[test]
fn test_size_with_outline_without_decoration() {
    let result = parse_control("<s72,メイリオ,,4>");
    assert_eq!(
        result,
        vec![Element::Size {
            size: ScalarValue::Absolute(num(72.0)),
            font: Some("メイリオ".to_string()),
            decoration: Some(TextDecoration {
                bold: false,
                italic: false,
                strikethrough: false,
            }),
            outline_size: Some(num(4.0)),
        }]
    );
}

#[test]
fn test_size_decoration_no_font() {
    let result = parse_control("<s32,,S>");
    assert_eq!(
        result,
        vec![Element::Size {
            size: ScalarValue::Absolute(num(32.0)),
            font: None,
            decoration: Some(TextDecoration {
                bold: false,
                italic: false,
                strikethrough: true,
            }),
            outline_size: None,
        }]
    );
}

#[test]
fn test_size_relative_add() {
    let result = parse_control("<s+10>");
    assert_eq!(
        result,
        vec![Element::Size {
            size: ScalarValue::RelativeAdd(num(10.0)),
            font: None,
            decoration: None,
            outline_size: None,
        }]
    );
}

#[test]
fn test_size_relative_mul() {
    let result = parse_control("<s*1.5>");
    assert_eq!(
        result,
        vec![Element::Size {
            size: ScalarValue::RelativeMul(num(1.5)),
            font: None,
            decoration: None,
            outline_size: None,
        }]
    );
}

// --- parse_control: font ---

#[test]
fn test_font() {
    let result = parse_control("<@メイリオ>");
    assert_eq!(
        result,
        vec![Element::Font {
            command: FontCommand::Select {
                name: Some("メイリオ".to_string()),
                decoration: None,
            }
        }]
    );
}

#[test]
fn test_font_with_decoration() {
    let result = parse_control("<@メイリオ,6BI>");
    assert_eq!(
        result,
        vec![Element::Font {
            command: FontCommand::Select {
                name: Some("メイリオ".to_string()),
                decoration: Some(FontDecoration {
                    kind: Some(FontDecorationKind::OutlineSquare),
                    style: TextDecoration {
                        bold: true,
                        italic: true,
                        strikethrough: false,
                    },
                }),
            }
        }]
    );
}

#[test]
fn test_font_add_style() {
    let result = parse_control("<@+B>");
    assert_eq!(
        result,
        vec![Element::Font {
            command: FontCommand::AddStyle(TextDecoration {
                bold: true,
                italic: false,
                strikethrough: false,
            }),
        }]
    );
}

#[test]
fn test_preset() {
    let result = parse_control("<$プリセット名>");
    assert_eq!(
        result,
        vec![Element::Preset {
            name: Some("プリセット名".to_string()),
        }]
    );
}

// --- parse_control: speed ---

#[test]
fn test_speed_value() {
    let result = parse_control("<r10>");
    assert_eq!(result, vec![Element::Speed { speed: Some(num(10.0)) }]);
}

#[test]
fn test_speed_default() {
    let result = parse_control("<r>");
    assert_eq!(result, vec![Element::Speed { speed: None }]);
}

// --- parse_control: wait ---

#[test]
fn test_wait_absolute() {
    let result = parse_control("<w5>");
    assert_eq!(
        result,
        vec![Element::Wait {
            time: TimeValue::Absolute(num(5.0))
        }]
    );
}

#[test]
fn test_wait_default() {
    let result = parse_control("<w>");
    assert_eq!(
        result,
        vec![Element::Wait {
            time: TimeValue::Absolute(num(0.0))
        }]
    );
}

#[test]
fn test_wait_fractional() {
    let result = parse_control("<w0.5>");
    assert_eq!(
        result,
        vec![Element::Wait {
            time: TimeValue::Absolute(num(0.5))
        }]
    );
}

#[test]
fn test_wait_per_char() {
    let result = parse_control("<w*0.2>");
    assert_eq!(
        result,
        vec![Element::Wait {
            time: TimeValue::PerChar(num(0.2))
        }]
    );
}

// --- parse_control: clear ---

#[test]
fn test_clear_default() {
    let result = parse_control("<c>");
    assert_eq!(
        result,
        vec![Element::Clear {
            time: TimeValue::Absolute(num(0.0))
        }]
    );
}

#[test]
fn test_clear_absolute() {
    let result = parse_control("<c5>");
    assert_eq!(
        result,
        vec![Element::Clear {
            time: TimeValue::Absolute(num(5.0))
        }]
    );
}

#[test]
fn test_clear_per_char() {
    let result = parse_control("<c*0.2>");
    assert_eq!(
        result,
        vec![Element::Clear {
            time: TimeValue::PerChar(num(0.2))
        }]
    );
}

#[test]
fn test_clear_ignores_immediate_newline() {
    let result = parse_text("<c>\nnext");
    assert_eq!(
        result,
        vec![
            Element::Clear {
                time: TimeValue::Absolute(num(0.0)),
            },
            Element::Text("next".to_string()),
        ]
    );
}

#[test]
fn test_clear_does_not_ignore_other_text() {
    let result = parse_text("<c> next");
    assert_eq!(
        result,
        vec![
            Element::Clear {
                time: TimeValue::Absolute(num(0.0)),
            },
            Element::Text(" next".to_string()),
        ]
    );
}

// --- parse_control: position ---

#[test]
fn test_position_2d() {
    let result = parse_control("<p20,40>");
    assert_eq!(
        result,
        vec![Element::Position {
            x: Some(AxisValue::Absolute(num(20.0))),
            y: Some(AxisValue::Absolute(num(40.0))),
            z: None,
        }]
    );
}

#[test]
fn test_position_3d() {
    let result = parse_control("<p20,40,80>");
    assert_eq!(
        result,
        vec![Element::Position {
            x: Some(AxisValue::Absolute(num(20.0))),
            y: Some(AxisValue::Absolute(num(40.0))),
            z: Some(AxisValue::Absolute(num(80.0))),
        }]
    );
}

#[test]
fn test_position_relative() {
    let result = parse_control("<p+10,+10>");
    assert_eq!(
        result,
        vec![Element::Position {
            x: Some(AxisValue::Relative(num(10.0))),
            y: Some(AxisValue::Relative(num(10.0))),
            z: None,
        }]
    );
}

#[test]
fn test_position_x_only() {
    let result = parse_control("<p+10>");
    assert_eq!(
        result,
        vec![Element::Position {
            x: Some(AxisValue::Relative(num(10.0))),
            y: None,
            z: None,
        }]
    );
}

#[test]
fn test_position_without_x() {
    let result = parse_control("<p,+10>");
    assert_eq!(
        result,
        vec![Element::Position {
            x: None,
            y: Some(AxisValue::Relative(num(10.0))),
            z: None,
        }]
    );
}

#[test]
fn test_position_reset() {
    let result = parse_control("<p>");
    assert_eq!(result, vec![Element::PositionReset]);
}

#[test]
fn test_glyph_spacing() {
    let result = parse_control("<gw10>");
    assert_eq!(result, vec![Element::GlyphSpacing { value: Some(num(10.0)) }]);
}

#[test]
fn test_line_spacing_default() {
    let result = parse_control("<gh>");
    assert_eq!(result, vec![Element::LineSpacing { value: None }]);
}

#[test]
fn test_rotate_relative() {
    let result = parse_control("<tr+45>");
    assert_eq!(
        result,
        vec![Element::Rotate {
            value: Some(AxisValue::Relative(num(45.0))),
        }]
    );
}

#[test]
fn test_ruby() {
    let result = parse_control("</>制御文字<!0.4+>せいぎょもじ</>");
    assert_eq!(
        result,
        vec![Element::Ruby {
            base: "制御文字".to_string(),
            ruby: "せいぎょもじ".to_string(),
            scale: Some(num(0.4)),
            expand_line_height: true,
        }]
    );
}

#[test]
fn test_comment() {
    let result = parse_control("<// あとで修正する //>");
    assert_eq!(
        result,
        vec![Element::Comment {
            text: " あとで修正する ".to_string(),
        }]
    );
}

#[test]
fn test_block_end() {
    let result = parse_control("</>");
    assert_eq!(result, vec![Element::BlockEnd]);
}

// --- parse_control: script ---

#[test]
fn test_script() {
    let result = parse_control("<?obj.rz=obj.time*360?>");
    assert_eq!(
        result,
        vec![Element::Script {
            code: Code {
                kind: CodeType::Full,
                value: "obj.rz=obj.time*360".to_string(),
            }
        }]
    );
}

#[test]
fn test_script_expression() {
    let result = parse_control(r#"<?=string.format("%02d:%02d",obj.time/60,obj.time%60)?>"#);
    assert_eq!(
        result,
        vec![Element::Script {
            code: Code {
                kind: CodeType::Value,
                value: r#"string.format("%02d:%02d",obj.time/60,obj.time%60)"#.to_string(),
            }
        }]
    );
}

// --- parse_text (escape + control combined) ---

#[test]
fn test_parse_text() {
    let input = r"Hello\nWorld<#FF0000><s1,2,BI><r0.5><w*1.5><p10,-5>Red";
    let expected = vec![
        Element::Text("Hello\nWorld".to_string()),
        Element::Color {
            code: ColorType::Single(ColorValue::Rgb(255, 0, 0)),
        },
        Element::Size {
            size: ScalarValue::Absolute(num(1.0)),
            font: Some("2".to_string()),
            decoration: Some(TextDecoration {
                bold: true,
                italic: true,
                strikethrough: false,
            }),
            outline_size: None,
        },
        Element::Speed { speed: Some(num(0.5)) },
        Element::Wait {
            time: TimeValue::PerChar(num(1.5)),
        },
        Element::Position {
            x: Some(AxisValue::Absolute(num(10.0))),
            y: Some(AxisValue::Relative(num(-5.0))),
            z: None,
        },
        Element::Text("Red".to_string()),
    ];
    let result = parse_text(input);
    assert_eq!(result, expected);
}

#[test]
fn test_parse_text_all_control_sequences() {
    let input = "<#red><s32><@Meiryo><$preset><r10><w0.5><c5><p+1,-2><gw10><tr+45><?obj.rz=1?>";
    let expected = vec![
        Element::Color {
            code: ColorType::Single(ColorValue::Preset("red".to_string())),
        },
        Element::Size {
            size: ScalarValue::Absolute(num(32.0)),
            font: None,
            decoration: None,
            outline_size: None,
        },
        Element::Font {
            command: FontCommand::Select {
                name: Some("Meiryo".to_string()),
                decoration: None,
            },
        },
        Element::Preset {
            name: Some("preset".to_string()),
        },
        Element::Speed { speed: Some(num(10.0)) },
        Element::Wait {
            time: TimeValue::Absolute(num(0.5)),
        },
        Element::Clear {
            time: TimeValue::Absolute(num(5.0)),
        },
        Element::Position {
            x: Some(AxisValue::Relative(num(1.0))),
            y: Some(AxisValue::Relative(num(-2.0))),
            z: None,
        },
        Element::GlyphSpacing { value: Some(num(10.0)) },
        Element::Rotate {
            value: Some(AxisValue::Relative(num(45.0))),
        },
        Element::Script {
            code: Code {
                kind: CodeType::Full,
                value: "obj.rz=1".to_string(),
            },
        },
    ];
    let result = parse_text(input);
    assert_eq!(result, expected);
}

#[test]
fn test_element_to_string_roundtrip() {
    let input = r"Hello\n<#ffffff><@Meiryo>World";
    let parsed = parse_text(input);
    let restored = parsed
        .iter()
        .map(|e| e.to_string())
        .collect::<Vec<_>>()
        .join("");
    assert_eq!(restored, "Hello\n<#ffffff><@Meiryo>World");
}

#[test]
fn test_size_to_string_with_outline_without_decoration() {
    let element = Element::Size {
        size: ScalarValue::Absolute(num(72.0)),
        font: Some("メイリオ".to_string()),
        decoration: Some(TextDecoration {
            bold: false,
            italic: false,
            strikethrough: false,
        }),
        outline_size: Some(num(4.0)),
    };

    assert_eq!(element.to_string(), "<s72,メイリオ,,4>");
}

#[test]
fn test_wait_to_string_default() {
    let element = Element::Wait {
        time: TimeValue::Absolute(num(0.0)),
    };

    assert_eq!(element.to_string(), "<w>");
}

#[test]
fn test_element_from_str_text() {
    let parsed = "Hello".parse::<Element>().unwrap();
    assert_eq!(parsed, Element::Text("Hello".to_string()));
}

#[test]
fn test_element_from_str_control_sequence() {
    let parsed = "<w0.5>".parse::<Element>().unwrap();
    assert_eq!(
        parsed,
        Element::Wait {
            time: TimeValue::Absolute(num(0.5))
        }
    );
}

#[test]
fn test_element_from_str_rejects_mixed_input() {
    let parsed = "<w0.5>text".parse::<Element>();
    assert!(parsed.is_err());
}

#[test]
fn test_elements_from_str() {
    let parsed = "Hi<w1>!".parse::<Elements>().unwrap();
    assert_eq!(
        parsed,
        Elements(vec![
            Element::Text("Hi".to_string()),
            Element::Wait {
                time: TimeValue::Absolute(num(1.0)),
            },
            Element::Text("!".to_string()),
        ])
    );
}

#[test]
fn test_elements_to_string_roundtrip() {
    let input = r"A\nB<@Meiryo>C";
    let parsed = input.parse::<Elements>().unwrap();
    assert_eq!(parsed.to_string(), "A\nB<@Meiryo>C");
}

#[test]
fn test_font_to_string_with_decoration() {
    let element = Element::Font {
        command: FontCommand::Select {
            name: Some("メイリオ".to_string()),
            decoration: Some(FontDecoration {
                kind: Some(FontDecorationKind::OutlineSquare),
                style: TextDecoration {
                    bold: true,
                    italic: true,
                    strikethrough: false,
                },
            }),
        },
    };

    assert_eq!(element.to_string(), "<@メイリオ,6BI>");
}

#[test]
fn test_position_reset_to_string() {
    assert_eq!(Element::PositionReset.to_string(), "<p>");
}

#[test]
fn test_position_without_x_to_string() {
    assert_eq!(
        Element::Position {
            x: None,
            y: Some(AxisValue::Relative(num(10.0))),
            z: None,
        }
        .to_string(),
        "<p,+10>"
    );
}

#[test]
fn test_rotate_default_to_string() {
    assert_eq!(Element::Rotate { value: None }.to_string(), "<tr>");
}

#[test]
fn test_invalid_wait_is_treated_as_text() {
    let parsed = parse_control("<w.>");
    assert_eq!(parsed, vec![Element::Text("<w.>".to_string())]);
}

#[test]
fn test_invalid_position_is_treated_as_text() {
    let parsed = parse_control("<p+,1>");
    assert_eq!(parsed, vec![Element::Text("<p+,1>".to_string())]);
}

#[test]
fn test_object_index_to_string_index() {
    let text = "A\nB\tC";
    assert_eq!(object_index_to_string_index(text, 0), Some(0)); // 'A'
    assert_eq!(object_index_to_string_index(text, 1), Some(2)); // 'B'
    assert_eq!(object_index_to_string_index(text, 2), Some(4)); // 'C'
    assert_eq!(object_index_to_string_index(text, 3), None); // Out of bounds
}
