use rseq_tools::bus::Bus;
use rseq_tools::capture::{capture_magic, capture_record_bytes, parse_capture, ReportCaptureRecord};
use rseq_tools::csv::{csv_header, field_scale, format_report_rows, ScaleKind};
use rseq_tools::decoder::{
    I16LeReportDecoder, ReportDecoder, ReportOutputMode, Scale, DEFAULT_ACCEL_FULL_SCALE_G,
    DEFAULT_GYRO_FULL_SCALE_DPS, DEFAULT_TEMP_LSB_PER_C, DEFAULT_TEMP_OFFSET_C,
};
use rseq_tools::decoder_options::ReportOptionValue;
use rseq_tools::mock::{BusOp, MockBus};
use rseq_tools::position::byte_span_to_char_span;
use rseq_tools::program::{report_decoders_from_sources, ParsedSource, Stmt, Value};
use rseq_tools::report::{ReportArg, ReportKinds};
use rseq_tools::samples::{
    decode_i16_le_fifo_samples, I16LeFieldValue, I16LeFifoDecode, I16LeFifoSample,
};
use rseq_tools::watch::ReportObserveInfo;
use rseq_tools::watch_text::{format_fifo_raw_health, format_i16_le_fifo_decode, ScaledTexts};
use rseq_tools::wire::{ReportMeta, REPORT_FLAG_TIMESTAMP_VALID};

const FIFO_RAW: u32 = 1;

fn kinds() -> ReportKinds {
    ReportKinds {
        fifo_raw: FIFO_RAW,
        names: vec![(FIFO_RAW, "FIFO_RAW".to_string())],
        values: vec![("FIFO_RAW".to_string(), FIFO_RAW)],
    }
}

fn names(list: &[&str]) -> Vec<String> {
    list.iter().map(|name| name.to_string()).collect()
}

fn test_decoder(fields: &[&str], gyro: &[&str], accel: &[&str]) -> I16LeReportDecoder {
    test_decoder_with_output(fields, gyro, accel, ReportOutputMode::PhysicalF32)
}

fn test_decoder_with_output(
    fields: &[&str],
    gyro: &[&str],
    accel: &[&str],
    output: ReportOutputMode,
) -> I16LeReportDecoder {
    I16LeReportDecoder {
        label: "i16_le".to_string(),
        fields: names(fields),
        gyro_fields: names(gyro),
        accel_fields: names(accel),
        temp_field: None,
        accel_fs_g: Scale::Whole(DEFAULT_ACCEL_FULL_SCALE_G),
        gyro_fs_dps: Scale::Whole(DEFAULT_GYRO_FULL_SCALE_DPS),
        temp_lsb_per_c: Scale::Whole(DEFAULT_TEMP_LSB_PER_C),
        temp_offset_c: Scale::Whole(DEFAULT_TEMP_OFFSET_C),
        output,
    }
}

fn number(scale: Scale) -> f64 {
    match scale {
        Scale::Whole(n) => n as f64,
        Scale::Double(bits) => f64::from_bits(bits),
    }
}

fn physical(decoder: &I16LeReportDecoder, field: &str, raw: i16) -> f64 {
    match field_scale(field, decoder) {
        ScaleKind::Gyro => (raw as f64 * number(decoder.gyro_fs_dps) / 32768.0).to_radians(),
        ScaleKind::Accel => raw as f64 * number(decoder.accel_fs_g) * 9.80665 / 32768.0,
        ScaleKind::Temp => {
            raw as f64 / number(decoder.temp_lsb_per_c) + number(decoder.temp_offset_c)
        }
        ScaleKind::Count => raw as f64,
    }
}

fn physical_texts(decoded: &I16LeFifoDecode, decoder: &I16LeReportDecoder) -> Vec<ScaledTexts> {
    let texts = |sample: &I16LeFifoSample, fields: &[String]| {
        fields
            .iter()
            .map(|field| match sample.value_by_name(decoder, field) {
                Some(raw) => format!("{:.3}", physical(decoder, field, raw)),
                None => String::new(),
            })
            .collect()
    };
    decoded
        .samples
        .iter()
        .map(|sample| ScaledTexts {
            gyro: texts(sample, &decoder.gyro_fields),
            accel: texts(sample, &decoder.accel_fields),
            temp: String::new(),
        })
        .collect()
}

fn shown(base: u64, decoded: &I16LeFifoDecode, decoder: &I16LeReportDecoder) -> String {
    format_i16_le_fifo_decode(base, decoded, decoder, &physical_texts(decoded, decoder))
}

#[test]
fn mock_bus_lists_writes_and_delays() {
    let mut bus = MockBus::new();
    bus.write(0x40, &[0x01, 0x02, 0x03]).unwrap();
    bus.delay_us(500).unwrap();
    bus.write(0x100, &[0xaa]).unwrap();

    let ops = bus.ops();
    assert_eq!(ops.len(), 3);
    assert!(matches!(
        &ops[0],
        BusOp::Write { addr: 0x40, data } if data == &[0x01, 0x02, 0x03]
    ));
    assert!(matches!(&ops[1], BusOp::Delay { us: 500 }));
    assert!(matches!(&ops[2], BusOp::Write { addr: 0x100, data } if data == &[0xaa]));
}

#[test]
fn mock_bus_reads_the_last_byte_written() {
    let mut bus = MockBus::new();
    bus.write(0x10, &[1, 2, 3]).unwrap();
    bus.write(0x11, &[9]).unwrap();
    bus.delay_us(5).unwrap();
    let mut data = [0xff; 5];
    bus.read(0x0f, &mut data).unwrap();
    assert_eq!(data, [0, 1, 9, 3, 0]);
    assert_eq!(bus.memory().len(), 3);
    assert_eq!(bus.ops().len(), 4);
    assert!(matches!(&bus.ops()[3], BusOp::Read { addr: 0x0f, data } if data == &[0, 1, 9, 3, 0]));
}

#[test]
fn mock_bus_keeps_a_changed_byte() {
    let mut bus = MockBus::new();
    bus.write(0x0b, &[0x2a]).unwrap();
    let mut byte = [0u8];
    bus.read(0x0b, &mut byte).unwrap();
    bus.write(0x0b, &[byte[0] | 0x01]).unwrap();

    assert_eq!(*bus.memory().get(&0x0b).unwrap(), 0x2b);
    let ops = bus.ops();
    assert!(matches!(&ops[1], BusOp::Read { addr: 0x0b, .. }));
    assert!(matches!(&ops[2], BusOp::Write { addr: 0x0b, data } if data == &[0x2b]));
}

#[test]
fn test_byte_span_to_char_span_handles_non_ascii_prefix() {
    let src = "备注\nupdate!(UI.WHOAMI.value, 0x08);";
    let byte_start = src.find("update!").unwrap();
    let byte_end = src.len();
    let (start, end) = byte_span_to_char_span(src, byte_start, byte_end);
    let snippet: String = src.chars().skip(start).take(end - start).collect();

    assert_eq!(snippet, "update!(UI.WHOAMI.value, 0x08);");
}

#[test]
fn test_decode_i16_le_fifo_samples_physical_units() {
    let decoder = test_decoder(
        &["gx", "gy", "gz", "ax", "ay", "az"],
        &["gx", "gy", "gz"],
        &["ax", "ay", "az"],
    );
    let bytes = [
        0x01, 0x00, // gx = 1
        0xff, 0xff, // gy = -1
        0x34, 0x12, // gz = 0x1234
        0x00, 0x80, // ax = -32768
        0xff, 0x7f, // ay = 32767
        0x00, 0x00, // az = 0
    ];
    let decoded = decode_i16_le_fifo_samples(&bytes, &decoder);

    assert_eq!(decoded.trailing_bytes, 0);
    assert_eq!(
        decoded.samples,
        vec![I16LeFifoSample {
            values: vec![
                I16LeFieldValue { field_index: 0, value: 1 },
                I16LeFieldValue { field_index: 1, value: -1 },
                I16LeFieldValue { field_index: 2, value: 0x1234 },
                I16LeFieldValue { field_index: 3, value: -32768 },
                I16LeFieldValue { field_index: 4, value: 32767 },
                I16LeFieldValue { field_index: 5, value: 0 },
            ],
        }]
    );
    assert_eq!(
        shown(10, &decoded, &decoder),
        "decoded(i16_le physical_f32 gyro_rad_s acc_m_s2): [10] gyro=(gx=0.002,gy=-0.002,gz=10.167) acc=(ax=-156.906,ay=156.902,az=0.000)"
    );
}

#[test]
fn test_i16_le_decoder_raw_i16_output_formats_raw_counts() {
    let decoder = test_decoder_with_output(
        &["gx", "gy", "gz", "ax", "ay", "az"],
        &["gx", "gy", "gz"],
        &["ax", "ay", "az"],
        ReportOutputMode::RawI16,
    );
    let bytes = [
        0x01, 0x00, // gx = 1
        0xff, 0xff, // gy = -1
        0x34, 0x12, // gz = 0x1234
        0x00, 0x80, // ax = -32768
        0xff, 0x7f, // ay = 32767
        0x00, 0x00, // az = 0
    ];
    let decoded = decode_i16_le_fifo_samples(&bytes, &decoder);

    assert_eq!(
        shown(0, &decoded, &decoder),
        "decoded(i16_le raw_i16): [0] raw=(gx=1,gy=-1,gz=4660,ax=-32768,ay=32767,az=0)"
    );
}

#[test]
fn test_i16_le_decoder_uses_declared_field_order() {
    let decoder = test_decoder(
        &["ax", "ay", "az", "gx", "gy", "gz"],
        &["gx", "gy", "gz"],
        &["ax", "ay", "az"],
    );
    let bytes = [
        0x00, 0x08, // ax = 2048
        0x00, 0x00, // ay = 0
        0x00, 0x00, // az = 0
        0x01, 0x00, // gx = 1
        0x02, 0x00, // gy = 2
        0x03, 0x00, // gz = 3
    ];
    let decoded = decode_i16_le_fifo_samples(&bytes, &decoder);

    assert_eq!(
        shown(0, &decoded, &decoder),
        "decoded(i16_le physical_f32 gyro_rad_s acc_m_s2): [0] gyro=(gx=0.002,gy=0.004,gz=0.007) acc=(ax=9.807,ay=0.000,az=0.000)"
    );
}

fn source_with_format(decoder: &str, options: Vec<(String, ReportOptionValue)>) -> ParsedSource {
    ParsedSource {
        name: "test.rseq".to_string(),
        source: String::new(),
        base_dir: None,
        stmts: vec![Stmt::ReportFormat {
            kind: Value::Ident("FIFO_RAW".to_string()),
            decoder: decoder.to_string(),
            options,
            shown: Vec::new(),
        }],
    }
}

fn option(name: &str, value: ReportOptionValue) -> (String, ReportOptionValue) {
    (name.to_string(), value)
}

#[test]
fn test_report_decoder_registry_comes_from_explicit_report_format_stmt() {
    let parsed = source_with_format(
        "i16_le",
        vec![
            option(
                "fields",
                ReportOptionValue::IdentArray(names(&["gx", "gy", "gz", "ax", "ay", "az"])),
            ),
            option("gyro_fields", ReportOptionValue::IdentArray(names(&["gx", "gy", "gz"]))),
            option("accel_fields", ReportOptionValue::IdentArray(names(&["ax", "ay", "az"]))),
            option("accel_fs_g", ReportOptionValue::Number(16)),
            option("gyro_fs_dps", ReportOptionValue::Number(4096)),
            option("output", ReportOptionValue::Ident("physical_f32".to_string())),
        ],
    );

    let decoders = report_decoders_from_sources(&kinds().values, &[parsed]).unwrap();

    assert_eq!(
        decoders.get(FIFO_RAW),
        Some(&ReportDecoder::I16Le(test_decoder(
            &["gx", "gy", "gz", "ax", "ay", "az"],
            &["gx", "gy", "gz"],
            &["ax", "ay", "az"],
        )))
    );
}

#[test]
fn test_legacy_qmi8660_report_decoder_still_maps_to_i16_le() {
    let parsed = source_with_format(
        "qmi8660_fifo6",
        vec![
            option("accel_fs_g", ReportOptionValue::Number(16)),
            option("gyro_fs_dps", ReportOptionValue::Number(4096)),
        ],
    );

    let decoders = report_decoders_from_sources(&kinds().values, &[parsed]).unwrap();

    let mut expected = test_decoder(
        &["gx", "gy", "gz", "ax", "ay", "az"],
        &["gx", "gy", "gz"],
        &["ax", "ay", "az"],
    );
    expected.label = "qmi8660_fifo6".to_string();
    assert_eq!(decoders.get(FIFO_RAW), Some(&ReportDecoder::I16Le(expected)));
}

#[test]
fn test_fifo_raw_health_reports_mismatch_and_partial_bytes() {
    let decoder = test_decoder(
        &["gx", "gy", "gz", "ax", "ay", "az"],
        &["gx", "gy", "gz"],
        &["ax", "ay", "az"],
    );
    let decoded = decode_i16_le_fifo_samples(&[0; 13], &decoder);

    assert_eq!(decoded.samples.len(), 1);
    assert_eq!(decoded.trailing_bytes, 1);
    assert_eq!(
        format_fifo_raw_health(Some(12), 13, &decoded),
        " len_mismatch=status:12,data:13 partial_bytes=1"
    );
}

#[test]
fn test_binary_capture_round_trip() {
    let info = ReportObserveInfo {
        seq: 1,
        meta: Some(ReportMeta {
            flags: REPORT_FLAG_TIMESTAMP_VALID,
            frame_id: 7,
            timestamp_us: 1234,
        }),
        frame_gap: None,
        frame_reset: None,
        dt_us: None,
        timestamp_rewind: None,
    };
    let args = vec![ReportArg::U32(2), ReportArg::Bytes(vec![0xaa, 0xbb])];

    let mut file = capture_magic();
    file.extend(
        capture_record_bytes(&ReportCaptureRecord {
            meta: info.meta,
            kind: FIFO_RAW,
            args: args.clone(),
        })
        .unwrap(),
    );

    let reports = parse_capture(&file).unwrap();

    assert_eq!(
        reports,
        vec![ReportCaptureRecord {
            meta: info.meta,
            kind: FIFO_RAW,
            args: vec![ReportArg::U32(2), ReportArg::Bytes(vec![0xaa, 0xbb])],
        }]
    );
}

#[test]
fn test_csv_capture_writes_long_field_rows() {
    let inner =
        test_decoder_with_output(&["gx", "ax"], &["gx"], &["ax"], ReportOutputMode::PhysicalF32);
    let info = ReportObserveInfo {
        seq: 3,
        meta: Some(ReportMeta {
            flags: REPORT_FLAG_TIMESTAMP_VALID,
            frame_id: 9,
            timestamp_us: 10_000,
        }),
        frame_gap: None,
        frame_reset: None,
        dt_us: Some(1000),
        timestamp_rewind: None,
    };
    let args = vec![ReportArg::U32(4), ReportArg::Bytes(vec![0x01, 0x00, 0x00, 0x08])];
    let values = vec![vec![
        format!("{}", physical(&inner, "gx", 1)),
        format!("{}", physical(&inner, "ax", 2048)),
    ]];
    let decoder = ReportDecoder::I16Le(inner);

    let mut csv = csv_header().to_string();
    csv.push('\n');
    for row in format_report_rows(&kinds(), &info, FIFO_RAW, &args, Some(&decoder), &values) {
        csv.push_str(&row);
        csv.push('\n');
    }

    assert!(csv.starts_with("seq,kind,frame_id,timestamp_us,dt_us"));
    assert!(csv.contains("FIFO_RAW"));
    assert!(csv.contains(",gx,1,"));
    assert!(csv.contains(",rad/s,"));
    assert!(csv.contains(",ax,2048,"));
    assert!(csv.contains(",m/s^2,"));
}
