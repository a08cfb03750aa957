use rseq_tools::bounded::{push_bounded, push_history_capped, push_vec_capped, MAX_HISTORY_BARS};
use rseq_tools::bus::{Bus, BusKind};
use rseq_tools::capture::{
    capture_magic, capture_record_bytes, decode_capture_record, encode_capture_record,
    parse_capture, take_bytes, take_u32, take_u64, take_u8, CaptureError, ReportCaptureRecord,
};
use rseq_tools::catalog::RegisterCatalog;
use rseq_tools::connection::LinkOptions;
use rseq_tools::crc32::crc32;
use rseq_tools::csv::csv_escape;
use rseq_tools::frame::{encode_into, FrameDecoder, FrameType, HOST_FRAME_BUF, OVERHEAD};
use rseq_tools::health::ReportHealthTracker;
use rseq_tools::history::{AxisOhlc, History};
use rseq_tools::le::{push_u32, push_u64, put_u16, read_u16, read_u32, read_u64};
use rseq_tools::mock::MockBus;
use rseq_tools::modes::{LinkMode, MotionSeries};
use rseq_tools::panel::RegisterPanel;
use rseq_tools::processor::{ReportProcessor, SessionEvent};
use rseq_tools::report::{
    format_report_args, format_report_meta, hex_preview, report_kind_label, BusOp, ReportArg,
    ReportKinds,
};
use rseq_tools::samples::{MotionSample, ReportDecoderRegistry};
use rseq_tools::session::{CompiledProgram, DemoDevice, SessionCommand};
use rseq_tools::watch::ReportObserveState;
use rseq_tools::watch_lines::{maybe_summary, observe_report};
use rseq_tools::watch_text::{format_report_watch_meta, format_watch_args};
use rseq_tools::wire::{
    decode_trace, encode_trace_delay, encode_trace_irq, encode_trace_rw, TraceRef, TRACE_OP_READ,
};
use rseq_tools::wire::{
    encode_load_segments_into, load_segments, ControlStatus, ExecStatus, ReportMeta, LOAD_VERSION,
    REPORT_FLAG_TIMESTAMP_VALID, SEG_KIND_IRQ_INT1, SEG_KIND_MAIN,
};
use rseq_tools::workbench::{Workbench, MAX_SAMPLES};
use std::collections::VecDeque;

fn kinds() -> ReportKinds {
    ReportKinds {
        fifo_raw: 1,
        names: vec![(1, "FIFO_RAW".to_string())],
        values: vec![("FIFO_RAW".to_string(), 1)],
    }
}

fn numbered(frame_id: u32) -> Option<ReportMeta> {
    Some(ReportMeta { flags: 0, frame_id, timestamp_us: 0 })
}

fn timed(frame_id: u32, timestamp_us: u64) -> Option<ReportMeta> {
    Some(ReportMeta { flags: REPORT_FLAG_TIMESTAMP_VALID, frame_id, timestamp_us })
}

fn frame(ty: FrameType, payload: &[u8]) -> Vec<u8> {
    let mut out = vec![0u8; payload.len() + OVERHEAD];
    encode_into(ty, payload, &mut out);
    out
}

#[test]
fn a_bounded_queue_keeps_the_newest() {
    let mut queue = VecDeque::new();
    for n in 0..5 {
        push_bounded(&mut queue, n, 3);
        assert!(queue.len() <= 3);
        assert_eq!(queue.back(), Some(&n));
    }
    assert_eq!(queue, VecDeque::from(vec![2, 3, 4]));
    let mut none: VecDeque<u8> = VecDeque::new();
    push_bounded(&mut none, 1, 0);
    assert!(none.is_empty());
    let mut list = Vec::new();
    for n in 0..5 {
        push_vec_capped(&mut list, n, 3);
    }
    assert_eq!(list, vec![2, 3, 4]);
    let mut bars = VecDeque::new();
    for n in 0..MAX_HISTORY_BARS + 2 {
        push_history_capped(&mut bars, n);
    }
    assert_eq!(bars.len(), MAX_HISTORY_BARS);
    assert_eq!(bars.front(), Some(&2));
}

#[test]
fn codes_name_what_has_them() {
    for n in 0..=255u8 {
        if let Some(ty) = FrameType::from_u8(n) {
            assert_eq!(ty.to_u8(), n);
        }
        if let Some(status) = ControlStatus::from_u8(n) {
            assert_eq!(status.to_u8(), n);
        }
        if let Some(status) = ExecStatus::from_u8(n) {
            assert_eq!(status.to_u8(), n);
        }
        if let Some(kind) = BusKind::from_u8(n) {
            assert_eq!(kind.to_u8(), n);
        }
    }
    assert_eq!(FrameType::from_u8(FrameType::Trace.to_u8()), Some(FrameType::Trace));
}

#[test]
fn one_changed_byte_changes_the_checksum() {
    let data = [1u8, 2, 3, 4];
    for at in 0..data.len() {
        let mut changed = data;
        changed[at] ^= 0x40;
        assert_ne!(crc32(&changed), crc32(&data));
    }
}

#[test]
fn a_stream_of_frames_decodes_to_them_in_any_chunks() {
    let mut stream = vec![0x00, 0x55, 0x12];
    stream.extend(frame(FrameType::Ping, &[]));
    stream.extend(frame(FrameType::Load, &[1, 2, 3]));
    for cut in 0..stream.len() {
        let mut decoder = FrameDecoder::<{ HOST_FRAME_BUF }>::new();
        let mut frames = decoder.feed(&stream[..cut]);
        frames.extend(decoder.feed(&stream[cut..]));
        assert_eq!(
            frames,
            vec![(FrameType::Ping, vec![]), (FrameType::Load, vec![1, 2, 3])]
        );
    }
}

#[test]
fn a_frame_with_a_changed_payload_is_dropped() {
    let mut bytes = frame(FrameType::Load, &[1, 2, 3]);
    bytes[6] ^= 0x01;
    let mut decoder = FrameDecoder::<{ HOST_FRAME_BUF }>::new();
    assert_eq!(decoder.feed(&bytes), vec![]);
    assert_eq!(decoder.feed(&frame(FrameType::Ping, &[])), vec![(FrameType::Ping, vec![])]);
}

#[test]
fn numbers_read_back_from_their_bytes() {
    let mut out = [0u8; 4];
    put_u16(&mut out, 1, 0xbeef);
    assert_eq!(out, [0, 0xef, 0xbe, 0]);
    assert_eq!(read_u16(&out, 1), 0xbeef);
    let mut bytes = Vec::new();
    push_u32(&mut bytes, 0x0102_0304);
    push_u64(&mut bytes, 0x1122_3344_5566_7788);
    assert_eq!(read_u32(&bytes, 0), 0x0102_0304);
    assert_eq!(read_u64(&bytes, 4), 0x1122_3344_5566_7788);
}

#[test]
fn load_segments_give_back_what_was_packed() {
    let mut out = [0u8; 32];
    let n = encode_load_segments_into(
        &mut out,
        &[(SEG_KIND_MAIN, &[1, 2]), (SEG_KIND_IRQ_INT1, &[3])],
    );
    let (version, mut segments) = load_segments(&out[..n]).unwrap();
    assert_eq!(version, LOAD_VERSION);
    assert_eq!(segments.next(), Some((SEG_KIND_MAIN, [1, 2].as_slice())));
    assert_eq!(segments.next(), Some((SEG_KIND_IRQ_INT1, [3].as_slice())));
    assert_eq!(segments.next(), None);
}

#[test]
fn the_mock_bus_remembers_what_was_written() {
    let mut bus = MockBus::new();
    bus.write(0x10, &[1, 2, 3]).unwrap();
    let mut read = [0xffu8; 5];
    bus.read(0x0f, &mut read).unwrap();
    assert_eq!(read, [0, 1, 2, 3, 0]);
    bus.write(0x11, &[9]).unwrap();
    bus.read(0x0f, &mut read).unwrap();
    assert_eq!(read, [0, 1, 9, 3, 0]);
}

#[test]
fn a_gapless_stream_is_healthy() {
    let mut tracker = ReportHealthTracker::default();
    for id in 5..15 {
        tracker.observe(numbered(id));
    }
    let health = tracker.health();
    assert_eq!(health.total_reports, 10);
    assert_eq!(
        (health.dropped_frames, health.duplicate_frames, health.out_of_order_frames),
        (0, 0, 0)
    );
}

#[test]
fn losses_account_for_gaps() {
    let mut tracker = ReportHealthTracker::default();
    for id in [3, 4, 9, 20] {
        tracker.observe(numbered(id));
    }
    let health = tracker.health();
    assert_eq!(health.total_reports + health.dropped_frames, 20 - 3 + 1);
    assert_eq!(tracker.observe(numbered(20)).duplicate_frames, 1);
}

#[test]
fn capture_records_read_back() {
    let record = ReportCaptureRecord {
        meta: None,
        kind: 0x1234,
        args: vec![ReportArg::U32(7), ReportArg::Bytes(vec![1, 2, 3])],
    };
    let payload = encode_capture_record(&record).unwrap();
    assert_eq!(decode_capture_record(&payload), Ok(record));
}

#[test]
fn cut_capture_records_are_refused() {
    for meta in [None, Some(ReportMeta { flags: 1, frame_id: 2, timestamp_us: 3 })] {
        let record = ReportCaptureRecord {
            meta,
            kind: 0x1234,
            args: vec![ReportArg::Bytes(vec![1, 2, 3]), ReportArg::U32(7)],
        };
        let payload = encode_capture_record(&record).unwrap();
        for k in 0..payload.len() {
            assert_eq!(
                decode_capture_record(&payload[..k]),
                Err("truncated capture record".to_string())
            );
        }
    }
}

#[test]
fn captures_are_refused_with_reasons() {
    assert_eq!(parse_capture(&[1, 2]), Err(CaptureError::ShortHeader));
    let mut other = capture_magic();
    other[0] ^= 0xff;
    assert_eq!(parse_capture(&other), Err(CaptureError::NotCapture));
    let record = ReportCaptureRecord { meta: None, kind: 1, args: vec![ReportArg::U32(7)] };
    let mut file = capture_magic();
    file.extend(capture_record_bytes(&record).unwrap());
    file.pop();
    assert_eq!(parse_capture(&file), Err(CaptureError::ShortRecord));
    let mut bad = encode_capture_record(&record).unwrap();
    let at = bad.len() - 5;
    bad[at] = 0x77;
    assert_eq!(
        decode_capture_record(&bad),
        Err("invalid capture arg tag 0x77".to_string())
    );
    bad.truncate(3);
    assert_eq!(decode_capture_record(&bad), Err("truncated capture record".to_string()));
    let mut framed = capture_magic();
    push_u32(&mut framed, 3);
    framed.extend([1, 2, 3]);
    assert!(matches!(parse_capture(&framed), Err(CaptureError::BadRecord(_))));
    let many = ReportCaptureRecord { meta: None, kind: 1, args: vec![ReportArg::U32(0); 256] };
    assert_eq!(
        encode_capture_record(&many),
        Err("capture report has 256 args, max is 255".to_string())
    );
}

#[test]
fn bytes_are_taken_in_order() {
    let payload = [1, 2, 0, 0, 0, 3, 0, 0, 0, 0, 0, 0, 0];
    let mut pos = 0;
    assert_eq!(take_u8(&payload, &mut pos), Ok(1));
    assert_eq!(take_u32(&payload, &mut pos), Ok(2));
    assert_eq!(take_u64(&payload, &mut pos), Ok(3));
    assert_eq!(pos, 13);
    assert_eq!(take_u8(&payload, &mut pos), Err("truncated capture record".to_string()));
    assert_eq!(pos, 13);
    pos = 20;
    assert_eq!(take_u8(&payload, &mut pos), Err("truncated capture record".to_string()));
    assert_eq!(take_bytes(&payload, &mut pos, 0), Err("truncated capture record".to_string()));
    assert_eq!(pos, 20);
    pos = usize::MAX;
    assert_eq!(take_u8(&payload, &mut pos), Err("capture record length overflow".to_string()));
    assert_eq!(pos, usize::MAX);
}

#[test]
fn cells_are_quoted_where_needed() {
    assert_eq!(csv_escape("plain"), "plain");
    assert_eq!(csv_escape("a,b"), "\"a,b\"");
    assert_eq!(csv_escape("say \"hi\""), "\"say \"\"hi\"\"\"");
    assert_eq!(csv_escape("two\nlines"), "\"two\nlines\"");
}

#[test]
fn ranges_follow_their_values() {
    let mut axis = AxisOhlc::new(3);
    axis.push(-7);
    axis.push(9);
    axis.push(4);
    assert_eq!(axis, AxisOhlc { open: 3, high: 9, low: -7, close: 4 });
}

#[test]
fn the_history_keeps_bars_of_a_second() {
    let mut history = History::new();
    history.push_history_sample([1, 2, 3], [4, 5, 6], Some(0), 0);
    history.push_history_sample([3, 1, 2], [4, 5, 6], Some(999_999), 10);
    assert_eq!(history.history_bar_count(), 1);
    history.push_history_sample([7, 7, 7], [8, 8, 8], Some(1_000_000), 20);
    assert_eq!(history.history_bar_count(), 2);
    assert_eq!(
        history.history_bar_samples(MotionSeries::Acc, 0),
        Some(vec![[1, 2, 3], [3, 1, 2]])
    );
    assert_eq!(history.history_bar_samples(MotionSeries::Gyro, 1), Some(vec![[8, 8, 8]]));
    assert_eq!(history.history_bar_samples(MotionSeries::Gyro, 2), None);
    let data = history.history_data(MotionSeries::Acc);
    assert_eq!(data[0][0], AxisOhlc { open: 1, high: 3, low: 1, close: 3 });
    assert_eq!(data[1][2], AxisOhlc::new(7));
    for second in 2..200u64 {
        history.push_history_sample([0; 3], [0; 3], Some(second * 1_000_000), 0);
        assert!(history.bars.len() <= MAX_HISTORY_BARS);
    }
}

fn sample(n: i16) -> SessionEvent {
    SessionEvent::Sample(MotionSample {
        timestamp_us: None,
        acc: [n; 3],
        gyro: [0; 3],
        temp: Some(n),
    })
}

#[test]
fn as_many_samples_are_skipped_as_asked_for() {
    let mut bench = Workbench::new(RegisterPanel::new(RegisterCatalog::default()));
    bench.apply_sample_skip_setting("2");
    assert_eq!(
        bench.logs.back().map(String::as_str),
        Some("sample skip set to 2; next 2 sample(s) will be hidden")
    );
    for n in 0..5 {
        bench.apply_event(&sample(n), 0);
    }
    assert_eq!(bench.samples.len(), 3);
    assert_eq!(bench.samples[0].acc[0], 2);
    assert_eq!(bench.sample_skip_remaining, 0);
    assert_eq!(bench.latest_temperature(), Some(4));
    bench.apply_sample_skip_setting("many");
    assert_eq!(bench.sample_skip_count, 2);
}

#[test]
fn no_more_is_kept_than_may_be() {
    let mut bench = Workbench::new(RegisterPanel::new(RegisterCatalog::default()));
    for n in 0..700 {
        bench.apply_event(&sample(n), 0);
        bench.apply_event(&SessionEvent::Log(format!("line {n}")), 0);
    }
    assert_eq!(bench.samples.len(), MAX_SAMPLES);
    assert_eq!(bench.samples.back().unwrap().acc[0], 699);
    assert_eq!(bench.logs.len(), 512);
    assert_eq!(bench.logs.back().map(String::as_str), Some("line 699"));
}

#[test]
fn events_change_what_is_shown() {
    let mut bench = Workbench::new(RegisterPanel::new(RegisterCatalog::default()));
    let program = CompiledProgram { main: vec![1], irq_bytecodes: Vec::new() };
    let mut options = LinkOptions {
        demo: false,
        serial: Some("/dev/ttyUSB0".to_string()),
        baud: 115_200,
        watch: false,
    };
    let config = bench.start_session(
        true,
        LinkMode::Serial,
        &options,
        Some(program.clone()),
        ReportDecoderRegistry::default(),
    );
    assert_eq!(config.serial.as_deref(), Some("/dev/ttyUSB0"));
    assert!(config.watch && !config.demo);
    assert_eq!(config.startup_program, None);
    assert_eq!(bench.session_mode, "watch");
    assert_eq!(bench.connection_label, "/dev/ttyUSB0 @ 115200");
    let config = bench.start_session(
        false,
        LinkMode::Demo,
        &options,
        Some(program.clone()),
        ReportDecoderRegistry::default(),
    );
    assert!(config.demo);
    assert_eq!(config.serial, None);
    assert_eq!(config.startup_program, Some(program));
    assert_eq!(bench.session_mode, "load/run");
    assert_eq!(bench.connection_label, "demo");
    options.serial = None;
    bench.start_session(
        true,
        LinkMode::Serial,
        &options,
        None,
        ReportDecoderRegistry::default(),
    );
    assert_eq!(bench.connection_label, "<none> @ 115200");
    assert_eq!(bench.logs.back().map(String::as_str), Some("starting watch session"));
    bench.apply_event(&SessionEvent::Connected { label: "port".to_string() }, 0);
    assert!(bench.connected);
    assert_eq!(bench.connection_label, "port");
    bench.apply_event(&SessionEvent::Error("lost".to_string()), 0);
    assert_eq!(bench.logs.back().map(String::as_str), Some("error: lost"));
    bench.apply_event(&SessionEvent::ExecStatus("Ok".to_string()), 0);
    assert_eq!(bench.logs.back().map(String::as_str), Some("exec status: Ok"));
    bench.apply_event(&SessionEvent::Disconnected, 0);
    assert!(!bench.connected);
    assert_eq!(bench.logs.back().map(String::as_str), Some("session disconnected"));
    bench.stop_session();
    assert_eq!(bench.session_mode, "idle");
}

#[test]
fn replayed_records_become_samples() {
    let mut bench = Workbench::new(RegisterPanel::new(RegisterCatalog::default()));
    bench.start_replay("fifo.bin");
    assert_eq!(bench.connection_label, "replay fifo.bin");
    let mut processor = ReportProcessor::new(ReportDecoderRegistry::default(), kinds());
    let record = ReportCaptureRecord { meta: numbered(1), kind: 7, args: vec![ReportArg::U32(5)] };
    bench.replay_record(&mut processor, &record, 0);
    assert_eq!(bench.capture_records.len(), 1);
    assert_eq!(bench.reports.len(), 1);
    assert_eq!(bench.health.total_reports, 1);
    bench.finish_replay(1, "fifo.bin");
    assert_eq!(
        bench.logs.back().map(String::as_str),
        Some("replayed 1 report(s) from fifo.bin")
    );
}

#[test]
fn the_demo_device_gives_back_what_was_written() {
    let mut device = DemoDevice::new();
    let (events, done) = device.handle(&SessionCommand::WriteRegister {
        addr: 0x20,
        data: vec![0xaa, 0x55],
        label: "UI.CTRL".to_string(),
    });
    assert!(!done);
    assert_eq!(
        events.last(),
        Some(&SessionEvent::Log("demo write UI.CTRL @ 0x20: [aa 55]".to_string()))
    );
    let (events, _) = device.handle(&SessionCommand::ReadRegister {
        addr: 0x20,
        len: 2,
        label: "UI.CTRL".to_string(),
    });
    assert_eq!(
        events.last(),
        Some(&SessionEvent::Log("demo dump UI.CTRL @ 0x20: [aa 55]".to_string()))
    );
    assert!(device.handle(&SessionCommand::Shutdown).1);
}

#[test]
fn a_numbered_stream_shows_no_gap() {
    let mut state = ReportObserveState::new();
    for id in [u32::MAX - 1, u32::MAX, 0, 1] {
        let info = state.next(numbered(id));
        assert_eq!(info.frame_gap, None);
        assert_eq!(info.frame_reset, None);
    }
    assert_eq!(state.next(numbered(5)).frame_gap, Some(3));
    assert_eq!(state.next(numbered(2)).frame_reset, Some((5, 2)));
    let counts = state.counted_so_far();
    assert_eq!((counts.seq, counts.frame_gap_total, counts.frame_reset_count), (6, 3, 1));
}

#[test]
fn times_of_reports_are_compared() {
    let mut state = ReportObserveState::new();
    state.next(timed(1, 100));
    assert_eq!(state.next(timed(2, 150)).dt_us, Some(50));
    let info = state.next(timed(3, 120));
    assert_eq!(info.timestamp_rewind, Some((150, 120)));
    assert_eq!(format_report_watch_meta(&info), " frame_id=3 ts_us=120 ts_rewind=150->120");
}

#[test]
fn observed_reports_are_told() {
    let mut state = ReportObserveState::new();
    let (info, lines) = observe_report(
        &mut state,
        &kinds(),
        numbered(4),
        1,
        &[ReportArg::U32(2), ReportArg::Bytes(vec![0xaa, 0xbb])],
        None,
        &[],
    );
    assert_eq!(info.seq, 1);
    assert_eq!(lines, vec!["FIFO_RAW #1 frame_id=4: fifo_len=2 data_len=2 data=[aa bb]".to_string()]);
    let (_, lines) =
        observe_report(&mut state, &kinds(), None, 9, &[ReportArg::U32(0xffff_ffff)], None, &[]);
    assert_eq!(lines, vec!["kind=0x9 #2: u32=0xffffffff (-1)".to_string()]);
    assert_eq!(maybe_summary(&state, &kinds(), 0), None);
    assert_eq!(maybe_summary(&state, &kinds(), 3), None);
    let summary = maybe_summary(&state, &kinds(), 2).unwrap();
    assert!(summary.starts_with("report health: total=2 kinds=["));
    assert!(summary.contains("FIFO_RAW=1"));
    assert!(summary.contains("kind=0x9=1"));
    assert!(summary.contains(" fifo_bytes=2 "));
}

#[test]
fn report_texts() {
    assert_eq!(report_kind_label(&kinds(), 1), "FIFO_RAW");
    assert_eq!(report_kind_label(&kinds(), 0x2a), "kind=0x2a");
    assert_eq!(format_report_meta(timed(3, 9)), " frame_id=3 ts_us=9");
    assert_eq!(format_report_meta(numbered(3)), " frame_id=3");
    assert_eq!(format_report_meta(None), "");
    assert_eq!(hex_preview(&[1, 2, 3], 2), "01 02 ... +1B");
    assert_eq!(
        format_report_args(&[ReportArg::U32(16), ReportArg::Bytes(vec![7])]),
        "u32=0x00000010, bytes[1]=[07]"
    );
    assert_eq!(format_watch_args(&[ReportArg::U32(5)]), "u32=0x00000005 (5)");
}

#[test]
fn bus_operations_become_events() {
    let mut processor = ReportProcessor::new(ReportDecoderRegistry::default(), kinds());
    assert_eq!(
        processor.handle_bus_op(BusOp::Log { msg: "hello".to_string() }),
        vec![SessionEvent::Log("hello".to_string())]
    );
    assert_eq!(
        processor.handle_bus_op(BusOp::Irq { pin: 3 }),
        vec![SessionEvent::Log("irq pin 3".to_string())]
    );
    assert_eq!(
        processor.handle_bus_op(BusOp::BusSelect { bus: "i2c".to_string(), arg: 0x6a }),
        vec![SessionEvent::Log("bus select i2c arg=0x6a".to_string())]
    );
}

#[test]
fn a_load_payload_with_missing_segments_is_refused() {
    let mut out = [0u8; 32];
    let n = encode_load_segments_into(
        &mut out,
        &[(SEG_KIND_MAIN, &[1, 2, 3]), (SEG_KIND_IRQ_INT1, &[9])],
    );
    assert!(load_segments(&out[..n]).is_some());
    for cut in 0..n {
        assert!(load_segments(&out[..cut]).is_none());
    }
    // Bytes behind the last segment are left alone.
    assert!(load_segments(&out[..n + 1]).is_some());
    let (_, mut none) = load_segments(&[LOAD_VERSION, 0]).unwrap();
    assert!(none.next().is_none());
}

#[test]
fn a_decoder_takes_frames_up_to_its_size() {
    let mut decoder = FrameDecoder::<16>::new();
    for (len, taken) in [(7usize, true), (8, false)] {
        let payload = vec![1u8; len];
        let mut out = vec![0u8; len + OVERHEAD];
        let n = encode_into(FrameType::Trace, &payload, &mut out);
        assert_eq!(n, len + OVERHEAD);
        assert_eq!(decoder.feed(&out).len(), taken as usize);
    }
}

#[test]
fn trace_records_reach_the_other_end_in_order() {
    let mut stream = Vec::new();
    let mut out = [0u8; 64];
    let n = encode_trace_rw(&mut out, TRACE_OP_READ, 0x10, &[1, 2]);
    stream.extend_from_slice(&out[..n]);
    let n = encode_trace_delay(&mut out, 7);
    stream.extend_from_slice(&out[..n]);
    let n = encode_trace_irq(&mut out, 3);
    stream.extend_from_slice(&out[..n]);
    for size in 1..stream.len() {
        let mut decoder = FrameDecoder::<{ HOST_FRAME_BUF }>::new();
        let mut frames = Vec::new();
        for chunk in stream.chunks(size) {
            frames.extend(decoder.feed(chunk));
        }
        let traces: Vec<_> = frames.iter().map(|(_, payload)| decode_trace(payload)).collect();
        assert_eq!(
            traces,
            vec![
                Some(TraceRef::Read { addr: 0x10, data: &[1, 2] }),
                Some(TraceRef::Delay { us: 7 }),
                Some(TraceRef::Irq { pin: 3 }),
            ]
        );
    }
}
