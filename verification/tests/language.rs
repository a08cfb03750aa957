use rseq_tools::blocks::{sequence_editor_stats, visual_safety_errors, VisualEditor};
use rseq_tools::catalog::{Register, RegisterCatalog};
use rseq_tools::completion::{
    is_completion_trigger, rseq_completion_prefix_before, rseq_previous_non_whitespace_char,
};
use rseq_tools::decoder::{
    make_i16_le_decoder, I16LeReportDecoder, ReportDecoder, ReportOutputMode, Scale,
};
use rseq_tools::decoder_options::{build_report_decoder, ReportOptionValue};
use rseq_tools::diagnostic::{
    compile_diagnostic, diagnostic_text, emit_diagnostic, parse_diagnostics,
};
use rseq_tools::listing::{format_expr, format_print, format_value, list_stmt};
use rseq_tools::editor_source::RseqSource;
use rseq_tools::metadata::{
    compile_fault_text, load_host_metadata_from_sources, parse_fault_text,
    report_parse_fault_text, resolve_host_chip_path, Candidate, ChipRead, PageRegister,
    SourceFault, SourceRead,
};
use rseq_tools::numbers::{
    parse_fire_spec, parse_hex_string, parse_path_list, parse_u32_arg, path_list_value,
};
use rseq_tools::order::{is_text_le, sort_texts};
use rseq_tools::position::{
    byte_span_to_char_span, rseq_byte_offset_to_gpui_position, rseq_lsp_position_to_byte_offset,
    rseq_utf16_column_to_byte,
};
use rseq_tools::program::{
    collect_chip_paths, report_decoders_from_sources, report_kind_from_value,
    resolve_program_chip_paths, Expr, IrqArm, ParsedSource, Stmt, Value,
};
use rseq_tools::samples::decode_i16_le_fifo_samples;
use rseq_tools::semantic::{
    legend, rseq_semantic_hits, rseq_semantic_tokens, LanguageFacts, RseqSemanticKind,
    RseqSemanticSymbols,
};
use rseq_tools::sources::{
    load_file_sources, load_manifest_sources, manifest_base, manifest_error, ManifestFault,
    ManifestRead, SequenceRead, TextRead,
};
use rseq_tools::split::{split_on, split_words};
use rseq_tools::text::{dec_text, trim_text};
use rseq_tools::visual::{
    extract_macro_args, split_macro_args, visual_blueprints_from_source,
    visual_sequences_from_source, VisualSequenceBlueprint, VisualStepBlueprint, VisualStepKind,
};
use rseq_tools::visual_source::{
    escape_rseq_string, format_visual_write_data, parse_visual_delay, parse_visual_number_u32,
    validate_visual_address, visual_sequence_errors, visual_source_from_blueprints,
    visual_step_source,
};

fn names(list: &[&str]) -> Vec<String> {
    list.iter().map(|name| name.to_string()).collect()
}

fn chars(s: &str) -> Vec<char> {
    s.chars().collect()
}

fn read_step(address: &str, len: &str, delay: &str) -> VisualStepBlueprint {
    VisualStepBlueprint {
        kind: VisualStepKind::Read,
        address: address.to_string(),
        read_len: len.to_string(),
        data: String::new(),
        delay_us: delay.to_string(),
    }
}

fn write_step(address: &str, data: &str, delay: &str) -> VisualStepBlueprint {
    VisualStepBlueprint {
        kind: VisualStepKind::Write,
        address: address.to_string(),
        read_len: "1".to_string(),
        data: data.to_string(),
        delay_us: delay.to_string(),
    }
}

fn sequence(name: &str, steps: Vec<VisualStepBlueprint>) -> VisualSequenceBlueprint {
    VisualSequenceBlueprint { name: name.to_string(), steps }
}

fn register(name: &str, addr: u32, access: &str) -> Register {
    Register {
        name: name.to_string(),
        addr,
        access: access.to_string(),
        width: 1,
        desc: String::new(),
        no_dump: false,
        no_dump_reason: String::new(),
        fields: Vec::new(),
    }
}

// ---- texts

#[test]
fn words_and_pieces() {
    let words: Vec<String> =
        split_words(&chars("  a\tbc \n d ")).iter().map(|word| word.iter().collect()).collect();
    assert_eq!(words, names(&["a", "bc", "d"]));
    let pieces: Vec<String> =
        split_on(&chars("a,b;;c"), &[',', ';']).iter().map(|piece| piece.iter().collect()).collect();
    assert_eq!(pieces, names(&["a", "b", "", "c"]));
    assert_eq!(trim_text(" \u{3000}x y\t"), "x y");
    assert_eq!(dec_text(1234567890), "1234567890");
}

#[test]
fn texts_are_put_in_order() {
    assert!(is_text_le("a", "ab"));
    assert!(is_text_le("B", "a"));
    assert!(!is_text_le("b", "a"));
    assert_eq!(sort_texts(names(&["b", "a", "", "ab", "a"])), names(&["", "a", "a", "ab", "b"]));
    assert_eq!(
        sort_texts(names(&["c", "b", "a"])),
        sort_texts(names(&["b", "a", "c"]))
    );
}

#[test]
fn numbers_are_refused_with_reasons() {
    assert_eq!(parse_u32_arg(&chars(" 0x1F ")), Ok(31));
    assert_eq!(parse_u32_arg(&chars("+7")), Ok(7));
    assert_eq!(
        parse_u32_arg(&chars("")),
        Err("cannot parse integer from empty string".to_string())
    );
    assert_eq!(parse_u32_arg(&chars("1z")), Err("invalid digit found in string".to_string()));
    assert_eq!(
        parse_u32_arg(&chars("4294967296")),
        Err("number too large to fit in target type".to_string())
    );
    assert_eq!(parse_fire_spec("int1=0x10"), Ok(("int1".to_string(), 16)));
    assert_eq!(
        parse_fire_spec("int1"),
        Err("invalid --fire 'int1', expected <pin>=<status>".to_string())
    );
    assert_eq!(
        parse_fire_spec("=1"),
        Err("invalid --fire '=1', pin is empty".to_string())
    );
    assert_eq!(
        parse_fire_spec("int1=x"),
        Err("invalid --fire status in 'int1=x': invalid digit found in string".to_string())
    );
    assert_eq!(parse_hex_string("01 ff"), Ok(vec![1, 255]));
    assert_eq!(
        parse_hex_string("01 100"),
        Err("Failed to parse hex byte '100': number too large to fit in target type".to_string())
    );
    let paths = parse_path_list(" a.rseq; b.rseq\n\nc.rseq ");
    assert_eq!(parse_path_list(&path_list_value(&paths)), paths);
}

// ---- places in a text

#[test]
fn places_are_found_again() {
    let source = "ab\nc🎉d\nxyz";
    assert_eq!(rseq_byte_offset_to_gpui_position(source, 3), (1, 0));
    assert_eq!(rseq_byte_offset_to_gpui_position(source, 8), (1, 2));
    assert_eq!(rseq_lsp_position_to_byte_offset(source, 1, 3), 8);
    assert_eq!(rseq_lsp_position_to_byte_offset(source, 2, 1), 11);
    assert_eq!(rseq_lsp_position_to_byte_offset(source, 9, 0), source.len());
    assert_eq!(rseq_utf16_column_to_byte("c🎉d", 3), 5);
    let plain = "one\ntwo\nthree";
    for offset in 0..plain.len() {
        let (line, column) = rseq_byte_offset_to_gpui_position(plain, offset);
        assert_eq!(rseq_lsp_position_to_byte_offset(plain, line, column), offset);
    }
    assert_eq!(byte_span_to_char_span(source, 4, 4), (4, 5));
    assert_eq!(byte_span_to_char_span(source, 4, 8), (4, 5));
}

// ---- completion and highlighting

#[test]
fn completion_looks_at_what_stands_before() {
    assert_eq!(rseq_completion_prefix_before("let UI.FI", 9), "UI.FI");
    assert_eq!(rseq_completion_prefix_before("read!( ", 7), "");
    assert_eq!(rseq_previous_non_whitespace_char("read!( \n ", 9), Some('('));
    assert_eq!(rseq_previous_non_whitespace_char("  ", 2), None);
    assert!(is_completion_trigger("a"));
    assert!(is_completion_trigger("."));
    assert!(is_completion_trigger(""));
    assert!(!is_completion_trigger("="));
}

#[test]
fn parts_of_a_text_stand_apart_and_tokens_place_them() {
    let facts =
        LanguageFacts { pages: vec![], registers: vec![], fields: vec![], events: vec![] };
    let source = "let a = 0x10; // é\nread!(a, 1);";
    let hits = rseq_semantic_hits(source, 0, source.len(), &facts);
    let mut end = 0;
    for hit in &hits {
        assert!(end <= hit.start && hit.start < hit.end && hit.end <= source.len());
        end = hit.end;
    }
    let tokens = rseq_semantic_tokens(source, 0, source.len(), &facts);
    assert_eq!(tokens.len(), hits.len());
    let (mut line, mut column) = (0, 0);
    for (token, hit) in tokens.iter().zip(&hits) {
        if token.delta_line > 0 {
            line += token.delta_line;
            column = token.delta_start;
        } else {
            column += token.delta_start;
        }
        assert_eq!(rseq_byte_offset_to_gpui_position(source, hit.start), (line, column));
        assert_eq!(token.token_type, hit.kind.token_type());
        assert_eq!(token.length as usize, source[hit.start..hit.end].chars().count());
    }
    assert_eq!(legend().len(), 12);
    let symbols = RseqSemanticSymbols::from_facts(&facts);
    assert_eq!(symbols.classify_ident("let"), RseqSemanticKind::Keyword);
    assert_eq!(symbols.classify_ident("nothing"), RseqSemanticKind::Variable);
}

// ---- steps and sequences

#[test]
fn arguments_are_split_outside_brackets() {
    assert_eq!(split_macro_args("a, [1, 2], { b: (3, 4) }"), names(&["a", "[1, 2]", "{ b: (3, 4) }"]));
    assert_eq!(extract_macro_args("let a = read!(UI.X, 1);", "read!"), Some(names(&["UI.X", "1"])));
    assert_eq!(extract_macro_args("nothing here", "read!"), None);
}

#[test]
fn a_step_is_read_back_from_its_line() {
    for step in [
        read_step("UI.WHOAMI", "1", "100"),
        write_step("0x10", "[0xaa, 0x55]", "10"),
        write_step("UI.CTRL", "{ a: 1, b: 2 }", "0"),
    ] {
        let line = visual_step_source(&step).unwrap();
        let found = visual_blueprints_from_source(&line);
        assert_eq!(found[0].steps.len(), 1);
        assert_eq!(found[0].steps[0].kind, step.kind);
        assert_eq!(found[0].steps[0].address, step.address);
        assert_eq!(found[0].steps[0].delay_us, step.delay_us);
        if step.kind == VisualStepKind::Write {
            assert_eq!(found[0].steps[0].data, step.data);
        } else {
            assert_eq!(found[0].steps[0].read_len, step.read_len);
        }
    }
}

#[test]
fn generated_text_is_read_back_as_its_sequences() {
    let sequences = vec![
        sequence("Init", vec![write_step("0x10", "[0xaa, 0x55]", "10"), read_step("0x20", "2", "0")]),
        sequence("Stop", vec![read_step("UI.WHOAMI", "1", "0")]),
    ];
    let source = visual_source_from_blueprints(&sequences, &names(&["chips/qmi.yaml"])).unwrap();
    assert!(source.contains("chip!(\"chips/qmi.yaml\");"));
    let found = visual_sequences_from_source(&source);
    assert_eq!(found.len(), 2);
    for (found, given) in found.iter().zip(&sequences) {
        assert_eq!(found.name, given.name);
        assert_eq!(found.steps.len(), given.steps.len());
        for (a, b) in found.steps.iter().zip(&given.steps) {
            assert_eq!((a.kind, &a.address, &a.delay_us), (b.kind, &b.address, &b.delay_us));
        }
    }
}

#[test]
fn unsound_sequences_are_refused_with_reasons() {
    assert_eq!(visual_sequence_errors(&[]), names(&["add at least one visual sequence"]));
    assert_eq!(
        visual_sequence_errors(&[sequence("Empty", vec![])]),
        names(&["Empty: add at least one read or write step"])
    );
    let bad = sequence(
        "Bad",
        vec![read_step("", "1", "soon"), write_step("a;b", "", "0")],
    );
    assert_eq!(
        visual_sequence_errors(&[bad]),
        names(&[
            "Bad step 1: address is required",
            "Bad step 1: delay invalid decimal value `soon`",
            "Bad step 2: address contains an invalid separator",
            "Bad step 2: data write data is required",
        ])
    );
    assert_eq!(
        visual_sequence_errors(&[sequence(" ", vec![read_step("0x1", "1", "0")])]),
        names(&["sequence name is required"])
    );
    assert!(visual_source_from_blueprints(&[], &[]).is_err());
    assert_eq!(validate_visual_address(" UI.X "), Ok("UI.X".to_string()));
    assert_eq!(parse_visual_number_u32("0b101"), Ok(5));
    assert_eq!(parse_visual_number_u32("0xfz"), Err("invalid hex value `0xfz`".to_string()));
    assert_eq!(parse_visual_number_u32(""), Err("value is required".to_string()));
    assert_eq!(parse_visual_delay(""), Ok(None));
    assert_eq!(parse_visual_delay("0"), Ok(None));
    assert_eq!(parse_visual_delay("7"), Ok(Some(7)));
    assert_eq!(format_visual_write_data("aa"), Ok("0xaa".to_string()));
    assert_eq!(format_visual_write_data("aa 55"), Ok("[0xaa, 0x55]".to_string()));
    assert_eq!(escape_rseq_string("a\\b\"c"), "a\\\\b\\\"c");
}

fn editor(list: &[&str]) -> VisualEditor {
    VisualEditor {
        sequences: list.iter().map(|name| sequence(name, vec![])).collect(),
        active: 0,
        dirty: false,
        status: String::new(),
    }
}

fn sequence_names(e: &VisualEditor) -> Vec<String> {
    e.sequences.iter().map(|sequence| sequence.name.clone()).collect()
}

#[test]
fn moving_a_sequence_keeps_the_same_one_shown() {
    let mut e = editor(&["A", "B", "C"]);
    e.set_active_visual_sequence(1);
    e.drop_visual_sequence_at_index(0, 2);
    assert_eq!(e.sequences[e.active].name, "B");
    let mut sorted = sequence_names(&e);
    sorted.sort();
    assert_eq!(sorted, names(&["A", "B", "C"]));
    assert_eq!(e.status, "visual sequence reordered");
    assert!(e.dirty);
}

#[test]
fn a_sequence_is_shown_whatever_is_done() {
    let mut e = editor(&["A", "B"]);
    e.set_active_visual_sequence(7);
    assert!(e.active < e.sequences.len());
    e.add_visual_sequence();
    assert_eq!(e.sequences[e.active].name, "Sequence 3");
    e.delete_active_visual_sequence();
    e.delete_active_visual_sequence();
    e.delete_active_visual_sequence();
    assert!(e.active < e.sequences.len());
    e.add_visual_step(VisualStepKind::Write);
    e.add_visual_step(VisualStepKind::Read);
    e.duplicate_visual_step(0);
    assert_eq!(e.sequences[e.active].steps.len(), 3);
    assert_eq!(e.sequences[e.active].steps[1].kind, VisualStepKind::Write);
    let active = e.active;
    e.drop_visual_step_at_index(active, 2, 0);
    assert_eq!(e.sequences[e.active].steps[0].kind, VisualStepKind::Read);
    e.delete_visual_step(9);
    e.delete_visual_step(0);
    assert_eq!(e.sequences[e.active].steps.len(), 2);
    assert!(e.has_steps());
}

#[test]
fn sources_of_blocks_respect_the_catalog() {
    let mut catalog = RegisterCatalog::default();
    catalog.mark_register("UI", &register("WHOAMI", 0x00, "RO"));
    catalog.mark_register("UI", &register("CMD", 0x01, "WO"));
    let sequences =
        vec![sequence("S", vec![write_step("UI.WHOAMI", "1", "0"), read_step("0x01", "1", "0")])];
    assert_eq!(
        visual_safety_errors(&catalog, &sequences),
        names(&[
            "S step 1: UI.WHOAMI is not writable according to chip metadata",
            "S step 2: 0x01 is not readable according to chip metadata",
        ])
    );
    let mut e = editor(&[]);
    e.sequences = sequences;
    assert!(e.visual_source_all(&catalog, &[]).is_err());
    assert!(e.visual_source_for_active(&RegisterCatalog::default(), &[]).is_ok());
    assert_eq!(e.visual_sequence_stats(), "1 sequences, 2 steps, active S");
    assert_eq!(
        editor(&[]).visual_source_for_active(&catalog, &[]),
        Err(names(&["no active visual sequence"]))
    );
    assert_eq!(sequence_editor_stats("a\nbé"), "2 lines, 5 bytes");
}

// ---- decoders

fn make(
    fields: &[&str],
    gyro: &[&str],
    accel: &[&str],
    temp: Option<&str>,
    per_c: Scale,
    offset: Scale,
) -> Result<ReportDecoder, String> {
    make_i16_le_decoder(
        "i16_le",
        names(fields),
        names(gyro),
        names(accel),
        temp.map(|temp| temp.to_string()),
        Scale::Whole(16),
        Scale::Whole(4096),
        per_c,
        offset,
        ReportOutputMode::RawI16,
    )
}

#[test]
fn unusable_decoders_are_refused_with_reasons() {
    let whole = Scale::Whole(1);
    let error = |r: Result<ReportDecoder, String>| r.unwrap_err();
    assert_eq!(
        error(make(&[], &[], &[], None, whole, whole)),
        "i16_le report decoder requires non-empty fields"
    );
    assert_eq!(
        error(make(&["a", "a"], &[], &[], None, whole, whole)),
        "duplicate report field 'a'"
    );
    assert_eq!(
        error(make(&["a"], &["g"], &[], None, whole, whole)),
        "scaled report field 'g' is not present in fields"
    );
    assert_eq!(
        error(make(&["a"], &[], &["x"], None, whole, whole)),
        "scaled report field 'x' is not present in fields"
    );
    assert_eq!(
        error(make(&["a"], &[], &[], Some("t"), whole, whole)),
        "temp field 't' is not present in fields"
    );
    assert_eq!(
        error(make(&["t"], &[], &[], Some("t"), Scale::Whole(0), whole)),
        "temp_lsb_per_c must be greater than zero"
    );
    assert_eq!(
        error(make(&["t"], &[], &[], Some("t"), Scale::Double(f64::NAN.to_bits()), whole)),
        "temp_lsb_per_c must be greater than zero"
    );
    assert_eq!(
        error(make(&["t"], &[], &[], Some("t"), whole, Scale::Double(f64::INFINITY.to_bits()))),
        "temp_offset_c must be finite"
    );
    assert!(make(&["t"], &[], &[], Some("t"), Scale::Double(0.5f64.to_bits()), whole).is_ok());
}

#[test]
fn scales_of_doubles() {
    assert!(Scale::Double(1.5f64.to_bits()).is_positive());
    assert!(!Scale::Double((-1.5f64).to_bits()).is_positive());
    assert!(!Scale::Double(0f64.to_bits()).is_positive());
    assert!(!Scale::Double(f64::INFINITY.to_bits()).is_finite());
    assert!(Scale::Whole(-3).is_finite());
}

#[test]
fn declared_decoders_are_usable_or_refused() {
    let fields = ("fields".to_string(), ReportOptionValue::IdentArray(names(&["a"])));
    assert!(build_report_decoder("i16_le", &[fields.clone()]).is_ok());
    assert_eq!(
        build_report_decoder("i16_le", &[]),
        Err("i16_le report decoder requires fields: [...]".to_string())
    );
    assert_eq!(
        build_report_decoder("other", &[]),
        Err("unknown report decoder 'other', expected i16_le or qmi8660_fifo6".to_string())
    );
    assert_eq!(
        build_report_decoder("i16_le", &[("fields".to_string(), ReportOptionValue::Number(1))]),
        Err("i16_le option 'fields' must be an identifier array".to_string())
    );
    assert_eq!(
        build_report_decoder(
            "i16_le",
            &[fields.clone(), ("accel_fs_g".to_string(), ReportOptionValue::Ident("x".to_string()))]
        ),
        Err("i16_le option 'accel_fs_g' must be a number".to_string())
    );
    assert_eq!(
        build_report_decoder(
            "i16_le",
            &[fields.clone(), ("temp_field".to_string(), ReportOptionValue::Number(1))]
        ),
        Err("i16_le option 'temp_field' must be an identifier".to_string())
    );
    assert_eq!(
        build_report_decoder(
            "i16_le",
            &[fields, ("output".to_string(), ReportOptionValue::Ident("f16".to_string()))]
        ),
        Err("i16_le option 'output' must be physical_f32 or raw_i16, got 'f16'".to_string())
    );
    assert_eq!(
        build_report_decoder(
            "qmi8660_fifo6",
            &[("fields".to_string(), ReportOptionValue::IdentArray(vec![]))]
        ),
        Err("unknown qmi8660_fifo6 option 'fields', expected accel_fs_g, gyro_fs_dps, or output"
            .to_string())
    );
}

#[test]
fn fifo6_stands_for_spelled_out_fields() {
    let option = |name: &str, value: ReportOptionValue| (name.to_string(), value);
    let given = [
        vec![],
        vec![option("accel_fs_g", ReportOptionValue::Number(8))],
        vec![
            option("output", ReportOptionValue::Ident("raw_i16".to_string())),
            option("gyro_fs_dps", ReportOptionValue::Number(512)),
        ],
    ];
    for options in given {
        let mut spelled = options.clone();
        for (name, fields) in [
            ("fields", vec!["gx", "gy", "gz", "ax", "ay", "az"]),
            ("gyro_fields", vec!["gx", "gy", "gz"]),
            ("accel_fields", vec!["ax", "ay", "az"]),
        ] {
            spelled.push(option(name, ReportOptionValue::IdentArray(names(&fields))));
        }
        let Ok(ReportDecoder::I16Le(mut short)) = build_report_decoder("qmi8660_fifo6", &options)
        else {
            panic!("expected a decoder");
        };
        let Ok(ReportDecoder::I16Le(long)) = build_report_decoder("i16_le", &spelled) else {
            panic!("expected a decoder");
        };
        assert_eq!(short.label, "qmi8660_fifo6");
        assert_eq!(short.temp_field, None);
        short.label = "i16_le".to_string();
        assert_eq!(short, long);
    }
}

#[test]
fn samples_account_for_every_byte() {
    let ReportDecoder::I16Le(decoder) =
        make(&["a", "b"], &[], &[], None, Scale::Whole(1), Scale::Whole(0)).unwrap();
    let data: Vec<u8> = (0..11).collect();
    let decoded = decode_i16_le_fifo_samples(&data, &decoder);
    assert_eq!(decoded.samples.len() * decoder.sample_bytes() + decoded.trailing_bytes, 11);
    assert_eq!(decoded.samples[0].value_by_name(&decoder, "b"), Some(0x0302));
    assert_eq!(decoded.samples[0].value_by_name(&decoder, "c"), None);
    for value in [0i16, -1, i16::MIN, i16::MAX] {
        let pair: Vec<u8> =
            value.to_le_bytes().into_iter().chain(0i16.to_le_bytes()).collect();
        let decoded = decode_i16_le_fifo_samples(&pair, &decoder);
        assert_eq!(decoded.samples[0].values[0].value, value);
    }
    let empty = I16LeReportDecoder { fields: vec![], ..decoder };
    let none = decode_i16_le_fifo_samples(&data, &empty);
    assert!(none.samples.is_empty());
}

// ---- programs

#[test]
fn chip_paths_are_collected_and_resolved_in_order() {
    let mut stmts = vec![
        Stmt::Chip { path: "a.yaml".to_string() },
        Stmt::Repeat { count: 2, body: vec![Stmt::Chip { path: "b.yaml".to_string() }] },
        Stmt::Irq {
            pin: "int1".to_string(),
            arms: vec![IrqArm {
                event: "e".to_string(),
                body: vec![Stmt::Chip { path: "a.yaml".to_string() }],
            }],
        },
    ];
    let mut before = Vec::new();
    collect_chip_paths(&stmts, &mut before);
    resolve_program_chip_paths(&mut stmts, &[("a.yaml".to_string(), "/chips/a.yaml".to_string())]);
    let mut after = Vec::new();
    collect_chip_paths(&stmts, &mut after);
    assert_eq!(after.len(), before.len());
    for (before, after) in before.iter().zip(&after) {
        if before == "a.yaml" {
            assert_eq!(after, "/chips/a.yaml");
        } else {
            assert_eq!(after, before);
        }
    }
}

#[test]
fn report_kinds_are_numbers_or_names() {
    let values = [("FIFO_RAW".to_string(), 1u32)];
    assert_eq!(report_kind_from_value(&values, &Value::Number(9)), Ok(9));
    assert_eq!(report_kind_from_value(&values, &Value::Ident("FIFO_RAW".to_string())), Ok(1));
    assert_eq!(
        report_kind_from_value(&values, &Value::Ident("OTHER".to_string())),
        Err("unknown report kind 'OTHER'".to_string())
    );
    assert_eq!(
        report_kind_from_value(&values, &Value::Array(vec![])),
        Err("report_format! kind must be a number or built-in report kind name".to_string())
    );
    let source = ParsedSource {
        name: "x.rseq".to_string(),
        source: String::new(),
        base_dir: None,
        stmts: vec![Stmt::ReportFormat {
            kind: Value::Ident("OTHER".to_string()),
            decoder: "i16_le".to_string(),
            options: vec![],
            shown: vec![],
        }],
    };
    assert_eq!(
        report_decoders_from_sources(&values, &[source]),
        Err("x.rseq: unknown report kind 'OTHER'".to_string())
    );
}

#[test]
fn statements_are_listed() {
    assert_eq!(
        format_value(&Value::Array(vec![Value::Number(1), Value::Ident("X".to_string())])),
        "[0x1, X]"
    );
    assert_eq!(
        format_value(&Value::FieldMap(vec![("a".to_string(), 2), ("b".to_string(), 255)])),
        "{a: 0x2, b: 0xff}"
    );
    let read = Expr::Read {
        addr: Value::Number(0x10),
        len: Value::Number(2),
        delay_us: Some(5),
    };
    assert_eq!(format_expr(&read), "read!(0x10, 2, 5)");
    assert_eq!(
        format_expr(&Expr::Binary {
            op: "+".to_string(),
            lhs: Box::new(Expr::Ident("n".to_string())),
            rhs: Box::new(Expr::Unary {
                op: "!".to_string(),
                expr: Box::new(Expr::Number(3)),
            }),
        }),
        "(n + !0x3)"
    );
    assert_eq!(format_print("\"hi\"", &names(&["a", "b"])), "    Action: Print \"hi\" vars(a, b)");
    let lines = list_stmt(&Stmt::Print { msg: "a \"b\"\n".to_string(), vars: vec![] });
    assert_eq!(lines[0], "    Action: Print \"a \\\"b\\\"\\n\"");
}

// ---- metadata

#[test]
fn faults_are_told() {
    let fault = SourceFault { message: "bad".to_string(), start: 3, end: 5 };
    assert_eq!(parse_fault_text("a.rseq", &fault), "could not parse a.rseq: bad at bytes 3..5");
    assert_eq!(
        report_parse_fault_text("a.rseq", &fault),
        "could not parse report metadata in a.rseq: bad at bytes 3..5"
    );
    assert_eq!(
        compile_fault_text(None, &fault, Some("try again")),
        "could not compile <unknown source>: bad at bytes 3..5 (try again)"
    );
}

#[test]
fn chip_descriptions_are_looked_for_above_the_source() {
    let there = |path: &str, exists: bool| Candidate { path: path.to_string(), exists };
    let missing = there("dir/c.yaml", false);
    assert_eq!(resolve_host_chip_path(&there("dir/c.yaml", true), "c.yaml", false, &[]), "dir/c.yaml");
    assert_eq!(resolve_host_chip_path(&missing, "/c.yaml", true, &[]), "/c.yaml");
    assert_eq!(
        resolve_host_chip_path(&missing, "c.yaml", false, &[there("a", false), there("b", true)]),
        "b"
    );
    assert_eq!(resolve_host_chip_path(&missing, "c.yaml", false, &[]), "dir/c.yaml");
}

#[test]
fn metadata_faults_name_their_source() {
    let fault = SourceFault { message: "bad".to_string(), start: 0, end: 1 };
    let source = SourceRead { name: "a.rseq".to_string(), stmts: Err(fault), chips: vec![] };
    assert_eq!(
        load_host_metadata_from_sources(&[], &[source], &[]).unwrap_err(),
        "could not parse a.rseq: bad at bytes 0..1"
    );
    let chip = ChipRead { path: "c.yaml".to_string(), registers: Err("no file".to_string()) };
    assert!(load_host_metadata_from_sources(&[], &[], &[chip]).unwrap_err().ends_with("no file"));
    let good = ChipRead {
        path: "c.yaml".to_string(),
        registers: Ok(vec![PageRegister {
            page: "UI".to_string(),
            register: register("WHOAMI", 0, "RO"),
        }]),
    };
    let metadata = load_host_metadata_from_sources(&[], &[], &[good]).unwrap();
    assert_eq!(metadata.register_catalog.registers().len(), 1);
    assert!(metadata.report_decoders.is_empty());
}

// ---- sources

#[test]
fn every_file_is_loaded_in_order() {
    let file = |path: &str, text: Result<&str, &str>| TextRead {
        path: path.to_string(),
        parent: Some(format!("in {path}")),
        text: text.map(|text| text.to_string()).map_err(|error| error.to_string()),
    };
    let loaded = load_file_sources(&[file("a", Ok("1;")), file("b", Ok("2;"))], true);
    assert_eq!(
        loaded.sources,
        vec![
            RseqSource::new("a".to_string(), "1;".to_string(), Some("in a".to_string())),
            RseqSource::new("b".to_string(), "2;".to_string(), Some("in b".to_string())),
        ]
    );
    assert_eq!(loaded.lines[0], "Original rseq content from a:\n1;");
    assert_eq!(loaded.error, None);
    let failed = load_file_sources(&[file("a", Err("gone")), file("b", Ok("2;"))], true);
    assert_eq!(failed.error.as_deref(), Some("Failed to read rseq file a: gone"));
    let default = load_file_sources(&[], true);
    assert_eq!(default.sources[0].source, "write!(0x10, 0xaa, 100);");
    assert_eq!(default.sources[0].base_dir, None);
    assert!(load_file_sources(&[], false).sources.is_empty());
}

#[test]
fn manifests_load_their_chip_and_sequences() {
    let mut manifest = ManifestRead {
        path: "m.toml".to_string(),
        parent: Some("dir".to_string()),
        chip: Some("c\"x.yaml".to_string()),
        sequences: vec![SequenceRead {
            id: "init".to_string(),
            name: Some("Init".to_string()),
            path: "init.rseq".to_string(),
            parent: Some("dir/seq".to_string()),
            text: Ok("delay!(1);".to_string()),
        }],
    };
    let loaded = load_manifest_sources(&manifest);
    assert_eq!(loaded.sources[0].name, "m.toml#chip");
    assert_eq!(loaded.sources[0].source, "chip!(\"c\\\"x.yaml\");\n");
    assert_eq!(
        loaded.lines[1],
        "Original rseq content from init.rseq [init (Init)]:\ndelay!(1);"
    );
    assert_eq!(loaded.sources[0].base_dir.as_deref(), Some("dir"));
    assert_eq!(loaded.sources[1].base_dir.as_deref(), Some("dir/seq"));
    manifest.parent = None;
    assert_eq!(load_manifest_sources(&manifest).sources[0].base_dir.as_deref(), Some("."));
    assert_eq!(manifest_base(Some("dir")), "dir");
}

#[test]
fn manifests_that_give_nothing_are_told_of() {
    let why = || "why".to_string();
    assert_eq!(
        manifest_error("m.toml", &ManifestFault::Unreadable(why())),
        "Failed to read manifest m.toml: why"
    );
    assert_eq!(
        manifest_error("m.toml", &ManifestFault::Unparsed(why())),
        "Failed to parse manifest m.toml: why"
    );
    assert_eq!(
        manifest_error("m.toml", &ManifestFault::Selection(why())),
        "Invalid manifest selection: why"
    );
}

// ---- drawn faults

fn unstyled(text: &str) -> String {
    let mut plain = String::new();
    let mut rest = text.chars();
    while let Some(c) = rest.next() {
        if c == '\u{1b}' {
            for c in rest.by_ref() {
                if c == 'm' {
                    break;
                }
            }
        } else {
            plain.push(c);
        }
    }
    plain
}

#[test]
fn faults_are_drawn_below_their_line() {
    let source = "delay!(1);\n备 wirte!(0x10);\n";
    let start = source.find("wirte!").unwrap();
    let text = emit_diagnostic(
        "a.rseq",
        source,
        start,
        start + 6,
        "could not parse",
        "unknown macro",
        Some("did you mean write!"),
    );
    let expected = "\
Error: could not parse
   ╭─[ a.rseq:2:3 ]
   │
 2 │ 备 wirte!(0x10);
   │    ───┬──  
   │       ╰──── unknown macro
   │ 
   │ Help: did you mean write!
───╯
";
    assert_eq!(unstyled(&text), expected);
}

#[test]
fn each_parse_fault_is_drawn() {
    let faults = [
        SourceFault { message: "one".to_string(), start: 0, end: 1 },
        SourceFault { message: "two".to_string(), start: 2, end: 3 },
    ];
    let texts = parse_diagnostics("a.rseq", "a b", &faults);
    assert_eq!(texts.len(), 2);
    assert!(unstyled(&texts[0]).starts_with("Error: could not parse rseq source\n"));
    assert!(unstyled(&texts[0]).contains("a.rseq:1:1"));
    assert!(unstyled(&texts[1]).contains("two"));
    assert!(unstyled(&texts[1])
        .contains("Help: check the macro syntax and punctuation near this location"));
    let compile = compile_diagnostic("a.rseq", "a b", &faults[1], None);
    assert!(unstyled(&compile).starts_with("Error: could not compile rseq source\n"));
    assert!(unstyled(&compile).contains("a.rseq:1:3"));
    assert!(!unstyled(&compile).contains("Help"));
}

#[test]
fn undrawn_faults_are_told_in_lines() {
    assert_eq!(
        diagnostic_text(Err("no room".to_string()), "title", "label", Some("help me")),
        "title: label\nhelp: help me\nfailed to render diagnostic: no room\n"
    );
    assert_eq!(diagnostic_text(Ok("drawn".to_string()), "title", "label", None), "drawn");
}
