use rseq_tools::bus::Bus;
use rseq_tools::capture::{capture_magic, capture_record_bytes, parse_capture, ReportCaptureRecord};
use rseq_tools::catalog::{AccessKind, FieldInfo, Register};
use rseq_tools::decoder::{
    make_i16_le_decoder, I16LeReportDecoder, ReportDecoder, ReportOutputMode, Scale,
    DEFAULT_TEMP_LSB_PER_C, DEFAULT_TEMP_OFFSET_C,
};
use rseq_tools::decoder_options::ReportOptionValue;
use rseq_tools::frame::{FrameDecoder, FrameType, HOST_FRAME_BUF};
use rseq_tools::health::ReportHealthTracker;
use rseq_tools::input::parse_register_write_bytes;
use rseq_tools::metadata::{
    load_host_metadata_from_sources, ChipRead, HostMetadata, PageRegister, SourceRead,
};
use rseq_tools::mock::MockBus;
use rseq_tools::processor::{ReportProcessor, SessionEvent};
use rseq_tools::program::{Expr, Stmt, Value};
use rseq_tools::report::{BusOp, ReportArg, ReportKinds};
use rseq_tools::samples::{decode_i16_le_fifo_samples, MotionSample, ReportDecoderRegistry};
use rseq_tools::tracing_bus::{ReportCounter, TracingBus};
use rseq_tools::transport::{ByteQueue, Transport};
use rseq_tools::wire::{
    decode_trace, ReportArgRef, ReportMeta, TraceRef, REPORT_FLAG_TIMESTAMP_VALID,
};

const FIFO_RAW: u32 = 1;

fn kinds() -> ReportKinds {
    ReportKinds {
        fifo_raw: FIFO_RAW,
        names: vec![(FIFO_RAW, "FIFO_RAW".to_string())],
        values: vec![("FIFO_RAW".to_string(), FIFO_RAW)],
    }
}

fn names(list: &[&str]) -> Vec<String> {
    list.iter().map(|name| name.to_string()).collect()
}

fn register(addr: u32, name: &str, access: &str) -> PageRegister {
    PageRegister {
        page: "UI".to_string(),
        register: Register {
            name: name.to_string(),
            addr,
            access: access.to_string(),
            width: 1,
            desc: String::new(),
            no_dump: false,
            no_dump_reason: String::new(),
            fields: Vec::new(),
        },
    }
}

fn chip() -> ChipRead {
    let mut status = register(0x55, "FIFO_STATUSH", "RO");
    status.register.fields.push(FieldInfo {
        name: "fifo_hi".to_string(),
        bit_hi: 3,
        bit_lo: 0,
        desc: String::new(),
        event: None,
    });
    let mut data = register(0x57, "FIFO_DATA", "RO");
    data.register.no_dump = true;
    data.register.no_dump_reason = "read drains fifo".to_string();
    ChipRead {
        path: "qmi8660.yaml".to_string(),
        registers: Ok(vec![
            register(0x00, "WHOAMI", "RO"),
            register(0x0b, "COMM_CTL", "RW"),
            register(0x54, "FIFO_STATUSL", "RO"),
            status,
            data,
        ]),
    }
}

fn script(name: &str) -> SourceRead {
    SourceRead {
        name: name.to_string(),
        stmts: Ok(vec![
            Stmt::Chip { path: "qmi8660.yaml".to_string() },
            Stmt::ReportFormat {
                kind: Value::Ident("FIFO_RAW".to_string()),
                decoder: "i16_le".to_string(),
                options: vec![
                    (
                        "fields".to_string(),
                        ReportOptionValue::IdentArray(names(&["gx", "gy", "gz", "ax", "ay", "az"])),
                    ),
                    (
                        "gyro_fields".to_string(),
                        ReportOptionValue::IdentArray(names(&["gx", "gy", "gz"])),
                    ),
                    (
                        "accel_fields".to_string(),
                        ReportOptionValue::IdentArray(names(&["ax", "ay", "az"])),
                    ),
                    ("accel_fs_g".to_string(), ReportOptionValue::Number(16)),
                    ("gyro_fs_dps".to_string(), ReportOptionValue::Number(4096)),
                    (
                        "output".to_string(),
                        ReportOptionValue::Ident("physical_f32".to_string()),
                    ),
                ],
                shown: Vec::new(),
            },
            Stmt::Let {
                name: "whoami".to_string(),
                expr: Expr::Read {
                    addr: Value::Ident("UI.WHOAMI".to_string()),
                    len: Value::Number(1),
                    delay_us: None,
                },
            },
        ]),
        chips: vec![chip()],
    }
}

fn load(sources: &[SourceRead], chips: &[ChipRead]) -> HostMetadata {
    load_host_metadata_from_sources(&kinds().values, sources, chips).unwrap()
}

fn decoder_with_temp(temp: Option<&str>, per_c: Scale, offset: Scale) -> I16LeReportDecoder {
    let mut fields = names(&["gx", "gy", "gz", "ax", "ay", "az"]);
    if let Some(temp) = temp {
        fields.push(temp.to_string());
    }
    let ReportDecoder::I16Le(decoder) = make_i16_le_decoder(
        "i16_le",
        fields,
        names(&["gx", "gy", "gz"]),
        names(&["ax", "ay", "az"]),
        temp.map(|temp| temp.to_string()),
        Scale::Whole(16),
        Scale::Whole(4096),
        per_c,
        offset,
        ReportOutputMode::PhysicalF32,
    )
    .unwrap();
    decoder
}

fn test_decoder() -> I16LeReportDecoder {
    decoder_with_temp(
        None,
        Scale::Whole(DEFAULT_TEMP_LSB_PER_C),
        Scale::Whole(DEFAULT_TEMP_OFFSET_C),
    )
}

fn number(scale: Scale) -> f64 {
    match scale {
        Scale::Whole(n) => n as f64,
        Scale::Double(bits) => f64::from_bits(bits),
    }
}

fn acc_m_s2(sample: &MotionSample, axis: usize, decoder: &I16LeReportDecoder) -> f64 {
    sample.acc[axis] as f64 * number(decoder.accel_fs_g) * 9.80665 / 32768.0
}

fn gyro_rad_s(sample: &MotionSample, axis: usize, decoder: &I16LeReportDecoder) -> f64 {
    (sample.gyro[axis] as f64 * number(decoder.gyro_fs_dps) / 32768.0).to_radians()
}

fn le_bytes(values: &[i16]) -> Vec<u8> {
    values.iter().flat_map(|value| value.to_le_bytes()).collect()
}

#[test]
fn loads_metadata_from_rseq_and_chip_yaml() {
    let metadata = load(&[script("qmi8660_fifo.rseq")], &[]);

    assert!(metadata.register_catalog.is_no_dump(0x57));
    assert!(!metadata.register_catalog.is_no_dump(0x54));
    assert!(metadata.report_decoders.get(FIFO_RAW).is_some());
}

#[test]
fn in_memory_sources_collect_metadata() {
    let metadata = load(&[script("editor.rseq")], &[]);
    assert!(metadata.register_catalog.is_no_dump(0x57));
    assert!(metadata.report_decoders.get(FIFO_RAW).is_some());
}

#[test]
fn selected_register_targets_use_yaml_access_and_width() {
    let metadata = load(&[], &[chip()]);

    let read = metadata.register_catalog.selected_read_target(0x54).unwrap();
    assert_eq!(read.addr, 0x54);
    assert_eq!(read.len, 1);
    assert!(metadata.register_catalog.selected_read_target(0x57).is_err());

    let write = metadata.register_catalog.selected_write_target(0x0b).unwrap();
    assert_eq!(write.addr, 0x0b);
    assert_eq!(write.width, Some(1));
    assert!(metadata.register_catalog.selected_write_target(0x00).is_err());
}

#[test]
fn binary_report_capture_round_trips_records() {
    let records = vec![ReportCaptureRecord {
        meta: Some(ReportMeta {
            flags: REPORT_FLAG_TIMESTAMP_VALID,
            frame_id: 42,
            timestamp_us: 123_456,
        }),
        kind: FIFO_RAW,
        args: vec![ReportArg::U32(4), ReportArg::Bytes(vec![0x11, 0x22, 0x33, 0x44])],
    }];

    let mut file = capture_magic();
    for record in &records {
        file.extend(capture_record_bytes(record).unwrap());
    }
    assert_eq!(parse_capture(&file).unwrap(), records);
}

#[test]
fn decodes_i16_le_fifo_physical_units() {
    let decoder = test_decoder();
    let raw = le_bytes(&[1, -1, 0x1234, 2048, 0, -2048]);
    let decoded = decode_i16_le_fifo_samples(&raw, &decoder);
    assert_eq!(decoded.samples.len(), 1);
    assert_eq!(decoded.trailing_bytes, 0);
    let sample = decoded.samples[0].to_motion(&decoder, None).unwrap();
    assert!((acc_m_s2(&sample, 0, &decoder) - 9.80665).abs() < 0.001);
    assert!(gyro_rad_s(&sample, 2, &decoder) > 10.0);
    assert_eq!(sample.temp, None);
    assert_eq!(sample.acc, [2048, 0, -2048]);
    assert_eq!(sample.gyro, [1, -1, 0x1234]);
}

#[test]
fn decodes_optional_temperature_field_to_celsius() {
    let decoder = decoder_with_temp(Some("temp"), Scale::Whole(256), Scale::Whole(0));
    let raw = le_bytes(&[1, -1, 0x1234, 2048, 0, -2048, 6400]);
    let decoded = decode_i16_le_fifo_samples(&raw, &decoder);
    let sample = decoded.samples[0].to_motion(&decoder, None).unwrap();
    assert_eq!(sample.temp, Some(6400));
    let temp_c = sample.temp.map(|temp| {
        temp as f64 / number(decoder.temp_lsb_per_c) + number(decoder.temp_offset_c)
    });
    assert_eq!(temp_c, Some(25.0));
}

#[test]
fn report_health_tracks_drops_and_out_of_order_frames() {
    let mut tracker = ReportHealthTracker::default();
    let flags = REPORT_FLAG_TIMESTAMP_VALID;
    tracker.observe(Some(ReportMeta { flags, frame_id: 10, timestamp_us: 100 }));
    let health = tracker.observe(Some(ReportMeta { flags, frame_id: 13, timestamp_us: 250 }));
    assert_eq!(health.dropped_frames, 2);
    assert_eq!(health.last_dt_us, Some(150));
    let health = tracker.observe(Some(ReportMeta { flags, frame_id: 12, timestamp_us: 300 }));
    assert_eq!(health.out_of_order_frames, 1);
}

#[test]
fn parses_register_write_hex_bytes() {
    assert_eq!(parse_register_write_bytes("12 0x34,56").unwrap(), vec![0x12, 0x34, 0x56]);
    assert_eq!(parse_register_write_bytes("0x1234").unwrap(), vec![0x12, 0x34]);
    assert_eq!(parse_register_write_bytes("abc").unwrap(), vec![0x0a, 0xbc]);
}

#[test]
fn register_write_bytes_are_refused_with_reasons() {
    assert_eq!(parse_register_write_bytes("  "), Err("enter at least one byte".to_string()));
    assert_eq!(parse_register_write_bytes("xyz"), Err("invalid hex byte 'xyz'".to_string()));
    assert_eq!(
        parse_register_write_bytes("12 3456"),
        Err("token '3456' expands to more than one byte".to_string())
    );
    assert_eq!(parse_register_write_bytes("[1, 2; 0xF_F]"), Ok(vec![0x01, 0x02, 0xff]));
}

#[test]
fn report_processor_converts_fifo_report_trace_to_events() {
    let decoder = test_decoder();
    let mut registry = ReportDecoderRegistry::default();
    registry.insert(FIFO_RAW, ReportDecoder::I16Le(decoder.clone()));
    let mut processor = ReportProcessor::new(registry, kinds());
    let raw = le_bytes(&[0, 0, 0, 0, 0, 2048]);
    let meta = ReportMeta {
        flags: REPORT_FLAG_TIMESTAMP_VALID,
        frame_id: 77,
        timestamp_us: 123_456,
    };

    let events = processor.handle_bus_op(BusOp::Report {
        meta: Some(meta),
        kind: FIFO_RAW,
        args: vec![ReportArg::U32(raw.len() as u32), ReportArg::Bytes(raw)],
    });

    assert!(events.iter().any(|event| matches!(
        event,
        SessionEvent::Sample(sample)
            if sample.timestamp_us == Some(123_456) && acc_m_s2(sample, 2, &decoder) > 9.0
    )));
    assert!(events.iter().any(|event| matches!(
        event,
        SessionEvent::Report(summary)
            if summary.sample_count == 1
                && summary.fifo_len == Some(12)
                && summary.line.contains("frame_id=77")
    )));
    assert!(events.iter().any(|event| matches!(
        event,
        SessionEvent::Health(health)
            if health.total_reports == 1 && health.last_frame_id == Some(77)
    )));
}

fn traced(trace: TraceRef<'_>) -> BusOp {
    match trace {
        TraceRef::Read { addr, data } => BusOp::Read { addr, data: data.to_vec() },
        TraceRef::Write { addr, data } => BusOp::Write { addr, data: data.to_vec() },
        TraceRef::Delay { us } => BusOp::Delay { us },
        TraceRef::Log { msg } => BusOp::Log { msg: String::from_utf8_lossy(msg).into_owned() },
        TraceRef::Irq { pin } => BusOp::Irq { pin },
        TraceRef::BusSelect { kind, arg } => BusOp::BusSelect { bus: format!("{kind:?}"), arg },
        TraceRef::Report { meta, kind, args } => BusOp::Report {
            meta,
            kind,
            args: args
                .as_slice()
                .iter()
                .map(|arg| match arg {
                    ReportArgRef::U32(n) => ReportArg::U32(*n),
                    ReportArgRef::Bytes(b) => ReportArg::Bytes(b.to_vec()),
                })
                .collect(),
        },
    }
}

#[test]
fn traced_calls_flow_into_session_events() {
    // What the device does for a write with a delay and a report of 7 and 7 + 1.
    let mut device = TracingBus::new(MockBus::new(), ByteQueue::new(), ReportCounter::new());
    device.write(0x20, &[0xaa, 0x55]).unwrap();
    device.delay_us(10).unwrap();
    device.report(0x10, &[ReportArgRef::U32(7), ReportArgRef::U32(8)]).unwrap();
    let (_, mut link) = device.into_inner();

    let mut frames = FrameDecoder::<{ HOST_FRAME_BUF }>::new();
    let mut processor = ReportProcessor::new(ReportDecoderRegistry::default(), kinds());
    let mut events = Vec::new();
    let mut buf = [0u8; 16];
    loop {
        let n = link.read(&mut buf).unwrap();
        if n == 0 {
            break;
        }
        for (ty, payload) in frames.feed(&buf[..n]) {
            assert_eq!(ty, FrameType::Trace);
            events.extend(processor.handle_bus_op(traced(decode_trace(&payload).unwrap())));
        }
    }

    assert!(events.iter().any(|event| matches!(
        event,
        SessionEvent::Register { addr: 0x20, access: AccessKind::Write, data }
            if data == &vec![0xaa, 0x55]
    )));
    assert!(events.iter().any(|event| matches!(
        event,
        SessionEvent::Log(line) if line == "delay 10us"
    )));
    assert!(events.iter().any(|event| matches!(
        event,
        SessionEvent::Report(summary)
            if summary.kind == 0x10 && summary.line.contains("u32=0x00000007")
    )));
}
