use rseq_tools::capture_meta::{
    capture_decoder_meta, capture_sidecar_path, report_decoder_registry_from_sidecar,
    CaptureSidecar,
};
use rseq_tools::catalog::RegisterInfo;
use rseq_tools::completion::{
    rseq_gpui_completion_item, rseq_should_offer_completion, Completion, TextEdit,
};
use rseq_tools::decoder::{make_i16_le_decoder, ReportOutputMode, Scale};
use rseq_tools::dump::{register_dump_ranges, RegisterDumpRange};
use rseq_tools::numbers::{parse_nonnegative_usize, parse_serial_baud};
use rseq_tools::ports::{serial_port_menu_label, SerialPortInfo};
use rseq_tools::position::{rseq_lsp_range_to_gpui_range, Position, PositionRange};
use rseq_tools::report::ReportKinds;
use rseq_tools::samples::ReportDecoderRegistry;
use rseq_tools::semantic::{
    rseq_semantic_hits, rseq_semantic_tokens, LanguageFacts, RseqSemanticKind, SemanticToken,
};
use rseq_tools::visual::{
    extract_macro_args, visual_blueprints_from_source, VisualSequenceBlueprint,
    VisualStepBlueprint, VisualStepKind,
};
use rseq_tools::visual_source::visual_source_from_blueprints;
use std::ops::Range;

const FIFO_RAW: u32 = 1;

fn names(list: &[&str]) -> Vec<String> {
    list.iter().map(|name| name.to_string()).collect()
}

fn position(line: u32, character: u32) -> Position {
    Position { line, character }
}

fn range(start: Position, end: Position) -> PositionRange {
    PositionRange { start, end }
}

fn test_register(
    page: &str,
    name: &str,
    addr: u32,
    width: u32,
    access: &str,
    no_dump: bool,
) -> RegisterInfo {
    RegisterInfo {
        page: page.to_string(),
        name: name.to_string(),
        addr,
        access: access.to_string(),
        width,
        desc: String::new(),
        no_dump,
        no_dump_reason: String::new(),
        fields: Vec::new(),
    }
}

fn test_language_facts() -> LanguageFacts {
    LanguageFacts {
        pages: names(&["UI"]),
        registers: vec![("UI".to_string(), "FIFO_DATA".to_string())],
        fields: vec![("UI".to_string(), "FIFO_STATUSH".to_string(), "fifo_wtm".to_string())],
        events: names(&["fifo_watermark"]),
    }
}

fn semantic_labels(source: &str, facts: &LanguageFacts) -> Vec<(String, RseqSemanticKind)> {
    rseq_semantic_hits(source, 0, source.len(), facts)
        .into_iter()
        .map(|hit| (source[hit.start..hit.end].to_string(), hit.kind))
        .collect()
}

fn position_to_offset(source: &str, line: u32, character: u32) -> usize {
    let mut current_line = 0u32;
    let mut line_start = 0usize;
    for (idx, ch) in source.char_indices() {
        if current_line == line {
            break;
        }
        if ch == '\n' {
            current_line += 1;
            line_start = idx + ch.len_utf8();
        }
    }
    if current_line != line {
        return source.len();
    }
    let line_end =
        source[line_start..].find('\n').map(|rel| line_start + rel).unwrap_or(source.len());
    line_start
        + source[line_start..line_end]
            .chars()
            .take(character as usize)
            .map(char::len_utf8)
            .sum::<usize>()
}

fn token_byte_ranges(source: &str, tokens: &[SemanticToken]) -> Vec<Range<usize>> {
    let mut line = 0u32;
    let mut character = 0u32;
    let mut ranges = Vec::new();
    for token in tokens {
        if token.delta_line > 0 {
            line += token.delta_line;
            character = token.delta_start;
        } else {
            character += token.delta_start;
        }
        let start = position_to_offset(source, line, character);
        let end = position_to_offset(source, line, character + token.length);
        ranges.push(start..end);
    }
    ranges
}

#[test]
fn rseq_gpui_completion_items_insert_plain_labels_not_snippets() {
    let item = rseq_gpui_completion_item(
        "",
        Completion {
            label: "write!".to_string(),
            text_edit: Some(TextEdit::Edit {
                range: range(position(0, 0), position(0, 5)),
                new_text: "write!(${1:REG}, ${2:[0x00]}, ${3:50});".to_string(),
            }),
            insert_text: None,
            plain: false,
        },
    );

    assert!(item.plain);
    let Some(TextEdit::Edit { new_text, .. }) = item.text_edit else {
        panic!("expected edit");
    };
    assert_eq!(new_text, "write!");
}

#[test]
fn rseq_lsp_ranges_convert_utf16_columns_to_gpui_character_columns() {
    let source = "// 🎉 comment\nwrite!(UI.FIFO_DATA, 1);\n";
    let shown = rseq_lsp_range_to_gpui_range(source, range(position(0, 3), position(0, 5)));

    assert_eq!(shown.start, position(0, 3));
    assert_eq!(shown.end, position(0, 4));
}

#[test]
fn rseq_completion_item_converts_edit_range_for_gpui_component() {
    let source = "// 🎉 comment\nwri";
    let item = rseq_gpui_completion_item(
        source,
        Completion {
            label: "write!".to_string(),
            text_edit: Some(TextEdit::Edit {
                range: range(position(1, 0), position(1, 3)),
                new_text: "write!(${1:REG})".to_string(),
            }),
            insert_text: None,
            plain: false,
        },
    );

    let Some(TextEdit::Edit { range: edited, new_text }) = item.text_edit else {
        panic!("expected edit");
    };
    assert_eq!(edited, range(position(1, 0), position(1, 3)));
    assert_eq!(new_text, "write!");
}

#[test]
fn completion_items_with_two_ranges_convert_both() {
    let source = "// 🎉 comment\nwri";
    let item = rseq_gpui_completion_item(
        source,
        Completion {
            label: "write!".to_string(),
            text_edit: Some(TextEdit::InsertAndReplace {
                insert: range(position(0, 3), position(0, 5)),
                replace: range(position(1, 0), position(1, 3)),
                new_text: "write!(${1:REG})".to_string(),
            }),
            insert_text: Some("old".to_string()),
            plain: false,
        },
    );

    assert_eq!(
        item.text_edit,
        Some(TextEdit::InsertAndReplace {
            insert: range(position(0, 3), position(0, 4)),
            replace: range(position(1, 0), position(1, 3)),
            new_text: "write!".to_string(),
        })
    );
}

#[test]
fn rseq_completion_offer_state_avoids_finished_statements() {
    assert!(rseq_should_offer_completion("wri", 3));
    assert!(rseq_should_offer_completion("read!(", 6));
    assert!(!rseq_should_offer_completion("read!(UI.FIFO_DATA, 1);", 23));
    assert!(!rseq_should_offer_completion("let data = ", 11));
    assert!(!rseq_should_offer_completion("\n    ", 5));
}

#[test]
fn rseq_semantic_highlight_marks_dsl_and_chip_symbols() {
    let facts = test_language_facts();
    let source = r#"
            // irq handler
            irq!(int1) {
                on(fifo_watermark) {
                    let data = read!(UI.FIFO_DATA, 0x0e);
                    report!(FIFO_RAW, data);
                }
            }
        "#;
    let labels = semantic_labels(source, &facts);

    assert!(labels.contains(&("// irq handler".to_string(), RseqSemanticKind::Comment)));
    assert!(labels.contains(&("irq!".to_string(), RseqSemanticKind::Function)));
    assert!(labels.contains(&("on".to_string(), RseqSemanticKind::Keyword)));
    assert!(labels.contains(&("fifo_watermark".to_string(), RseqSemanticKind::Label)));
    assert!(labels.contains(&("read!".to_string(), RseqSemanticKind::Function)));
    assert!(labels.contains(&("UI.FIFO_DATA".to_string(), RseqSemanticKind::Property)));
    assert!(labels.contains(&("0x0e".to_string(), RseqSemanticKind::Number)));
    assert!(labels.contains(&("FIFO_RAW".to_string(), RseqSemanticKind::Constant)));
    assert!(labels.contains(&("data".to_string(), RseqSemanticKind::Variable)));
}

#[test]
fn rseq_semantic_highlight_ignores_commands_inside_strings_and_comments() {
    let facts = test_language_facts();
    let source =
        "print!(\"read!(UI.FIFO_DATA)\"); // write!(UI.FIFO_DATA)\nread!(UI.FIFO_DATA, 1);";
    let labels = semantic_labels(source, &facts);
    let read_functions = labels
        .iter()
        .filter(|(label, kind)| label == "read!" && *kind == RseqSemanticKind::Function)
        .count();
    let register_refs = labels
        .iter()
        .filter(|(label, kind)| label == "UI.FIFO_DATA" && *kind == RseqSemanticKind::Property)
        .count();

    assert!(labels.contains(&("\"read!(UI.FIFO_DATA)\"".to_string(), RseqSemanticKind::Text)));
    assert!(labels.contains(&("// write!(UI.FIFO_DATA)".to_string(), RseqSemanticKind::Comment)));
    assert_eq!(read_functions, 1);
    assert_eq!(register_refs, 1);
}

#[test]
fn rseq_semantic_tokens_use_gpui_character_columns_for_non_ascii_text() {
    let facts = test_language_facts();
    let source = "// 中断处理 🎉 ±4096 dps\nwrite!(UI.FIFO_DATA, 1);\n";
    let tokens = rseq_semantic_tokens(source, 0, source.len(), &facts);

    assert_eq!(tokens[0].delta_line, 0);
    assert_eq!(tokens[0].delta_start, 0);
    assert_eq!(tokens[0].length, "// 中断处理 🎉 ±4096 dps".chars().count() as u32);

    let write = tokens
        .iter()
        .find(|token| {
            token.delta_line == 1 && token.token_type == RseqSemanticKind::Function.token_type()
        })
        .expect("write! should be highlighted on the second line");
    assert_eq!(write.delta_start, 0);
    assert_eq!(write.length, "write!".chars().count() as u32);
}

#[test]
fn rseq_semantic_token_ranges_are_utf8_boundaries_for_qmi_style_comments() {
    let facts = test_language_facts();
    let source = r#"
chip!("qmi8660.yaml");
write!(UI.ACTL1, { afs_ui: 2 }, 50);  // Accel: ODR 100 Hz, full-scale ±16 g.

irq!(int1) {
    // FIFO 水位线：先读取 FIFO 长度，再读取 FIFO_DATA，把 FIFO 水位线条件撤销。
    on(fifo_watermark) {
        // 按当前 FIFO 长度精确读取 FIFO_DATA，撤销 watermark 条件，并上报原始 FIFO。
        let data = read!(UI.FIFO_DATA, 14);
        report!(FIFO_RAW, 14, data);
    }
}
"#;
    let tokens = rseq_semantic_tokens(source, 0, source.len(), &facts);
    let ranges = token_byte_ranges(source, &tokens);

    assert!(!ranges.is_empty());
    for range in ranges {
        assert!(
            source.is_char_boundary(range.start),
            "semantic token starts inside utf-8 codepoint: {range:?}"
        );
        assert!(
            source.is_char_boundary(range.end),
            "semantic token ends inside utf-8 codepoint: {range:?}"
        );
    }
}

#[test]
fn visual_parser_collects_read_write_steps_from_rseq() {
    let source = r#"
            chip!("qmi8660.yaml");
            // rseq-gpui:sequence Init
            write!(UI.ACTL1, { afs_ui: 2, ast: 0 }, 50);
            let whoami = read!(UI.WHOAMI, 1, 100);
        "#;

    let sequences = visual_blueprints_from_source(source);
    assert_eq!(sequences.len(), 1);
    assert_eq!(sequences[0].name, "Init");
    assert_eq!(sequences[0].steps.len(), 2);
    assert_eq!(sequences[0].steps[0].kind, VisualStepKind::Write);
    assert_eq!(sequences[0].steps[0].address, "UI.ACTL1");
    assert_eq!(sequences[0].steps[0].data, "{ afs_ui: 2, ast: 0 }");
    assert_eq!(sequences[0].steps[1].kind, VisualStepKind::Read);
    assert_eq!(sequences[0].steps[1].read_len, "1");
}

#[test]
fn visual_source_generation_writes_numeric_register_steps() {
    let sequences = vec![VisualSequenceBlueprint {
        name: "Smoke".to_string(),
        steps: vec![
            VisualStepBlueprint {
                kind: VisualStepKind::Write,
                address: "0x10".to_string(),
                read_len: "1".to_string(),
                data: "0xaa 0x55".to_string(),
                delay_us: "10".to_string(),
            },
            VisualStepBlueprint {
                kind: VisualStepKind::Read,
                address: "0x20".to_string(),
                read_len: "2".to_string(),
                data: String::new(),
                delay_us: "0".to_string(),
            },
        ],
    }];

    let source = visual_source_from_blueprints(&sequences, &[]).unwrap();
    assert!(source.contains("write!(0x10, [0xaa, 0x55], 10);"));
    assert!(source.contains("read!(0x20, 2);"));
}

#[test]
fn register_dump_ranges_batch_contiguous_readable_bytes() {
    let registers = vec![
        test_register("UI", "WHOAMI", 0x00, 1, "ro", false),
        test_register("UI", "CTRL", 0x01, 2, "rw", false),
        test_register("UI", "SECRET", 0x03, 1, "ro", true),
        test_register("UI", "FIFO_DATA", 0x04, 1, "ro", false),
        test_register("UI", "CMD", 0x08, 1, "wo", false),
        test_register("UI", "STATUS", 0x09, 1, "ro", false),
    ];

    let (ranges, skipped) = register_dump_ranges(&registers, 64);
    assert_eq!(
        ranges,
        vec![
            RegisterDumpRange { start: 0x00, len: 3 },
            RegisterDumpRange { start: 0x04, len: 1 },
            RegisterDumpRange { start: 0x09, len: 1 },
        ]
    );
    assert_eq!(skipped.len(), 2);
}

#[test]
fn register_dump_ranges_split_at_batch_limit() {
    let registers = vec![test_register("UI", "BLOCK", 0x20, 10, "ro", false)];
    let (ranges, skipped) = register_dump_ranges(&registers, 4);
    assert!(skipped.is_empty());
    assert_eq!(
        ranges,
        vec![
            RegisterDumpRange { start: 0x20, len: 4 },
            RegisterDumpRange { start: 0x24, len: 4 },
            RegisterDumpRange { start: 0x28, len: 2 },
        ]
    );
}

#[test]
fn parse_serial_baud_rejects_empty_zero_and_text() {
    assert_eq!(parse_serial_baud("115200").unwrap(), 115_200);
    assert!(parse_serial_baud("").is_err());
    assert!(parse_serial_baud("0").is_err());
    assert!(parse_serial_baud("fast").is_err());
}

#[test]
fn parse_nonnegative_usize_treats_empty_as_zero() {
    assert_eq!(parse_nonnegative_usize("", "skip samples").unwrap(), 0);
    assert_eq!(parse_nonnegative_usize("12", "skip samples").unwrap(), 12);
    assert!(parse_nonnegative_usize("-1", "skip samples").is_err());
    assert!(parse_nonnegative_usize("abc", "skip samples").is_err());
}

#[test]
fn serial_port_menu_label_includes_detail_when_present() {
    let plain = SerialPortInfo {
        port_name: "/dev/cu.usbmodem1".to_string(),
        label: "cu.usbmodem1".to_string(),
        detail: String::new(),
    };
    assert_eq!(serial_port_menu_label(&plain), "cu.usbmodem1");

    let detailed = SerialPortInfo {
        port_name: "/dev/cu.usbmodem2".to_string(),
        label: "cu.usbmodem2 - STLINK".to_string(),
        detail: "USB 0483:374b STMicroelectronics".to_string(),
    };
    assert_eq!(
        serial_port_menu_label(&detailed),
        "cu.usbmodem2 - STLINK (USB 0483:374b STMicroelectronics)"
    );
}

#[test]
fn capture_sidecar_path_keeps_bin_extension_visible() {
    assert_eq!(capture_sidecar_path("/tmp/fifo.bin"), "/tmp/fifo.bin.json");
}

#[test]
fn capture_decoder_meta_round_trips_i16_le_decoder() {
    let mut registry = ReportDecoderRegistry::default();
    registry.insert(
        FIFO_RAW,
        make_i16_le_decoder(
            "i16_le",
            names(&["gx", "gy", "gz", "ax", "ay", "az", "temp"]),
            names(&["gx", "gy", "gz"]),
            names(&["ax", "ay", "az"]),
            Some("temp".to_string()),
            Scale::Whole(16),
            Scale::Whole(4096),
            Scale::Whole(256),
            Scale::Whole(0),
            ReportOutputMode::PhysicalF32,
        )
        .unwrap(),
    );
    let kinds = ReportKinds {
        fifo_raw: FIFO_RAW,
        names: vec![(FIFO_RAW, "FIFO_RAW".to_string())],
        values: vec![("FIFO_RAW".to_string(), FIFO_RAW)],
    };
    let sidecar = CaptureSidecar {
        version: 1,
        format: "rseq-report-capture-bin-v1".to_string(),
        rseq_files: names(&["examples/qmi8660_fifo.rseq"]),
        chip_files: names(&["qmi8660.yaml"]),
        skip_samples: 3,
        report_decoders: capture_decoder_meta(&registry, &kinds),
    };

    let restored = report_decoder_registry_from_sidecar(&sidecar).unwrap();
    assert_eq!(restored, registry);
    assert_eq!(sidecar.report_decoders[0].kind_label, "FIFO_RAW");
    assert_eq!(sidecar.report_decoders[0].output, "physical_f32");
}

#[test]
fn macro_arg_split_keeps_nested_field_maps() {
    let args = extract_macro_args(
        "write!(UI.INT1_CTL0, { i1en_f_full:1, i1en_f_wtm: 1, i1en_f_ovf:1 }, 5);",
        "write!",
    )
    .unwrap();
    assert_eq!(
        args,
        vec![
            "UI.INT1_CTL0".to_string(),
            "{ i1en_f_full:1, i1en_f_wtm: 1, i1en_f_ovf:1 }".to_string(),
            "5".to_string(),
        ]
    );
}
