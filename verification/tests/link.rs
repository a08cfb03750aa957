use rseq_tools::bus::{Bus, BusError, BusKind, ReportArg};
use rseq_tools::crc32::crc32;
use rseq_tools::error::LinkError;
use rseq_tools::frame::{encode_into, FrameDecoder, FrameType, HOST_FRAME_BUF, OVERHEAD};
use rseq_tools::tracing_bus::{
    next_report_meta, LinkTx, NoClock, ReportClock, ReportCounter, ReportOnlyBus, TracingBus,
};
use rseq_tools::transport::{End, Pipe};
use rseq_tools::wire::{
    decode_control_request, decode_control_result, decode_trace,
    encode_control_bus_read_into, encode_control_bus_read_result_into,
    encode_control_bus_write_into, encode_control_bus_write_result_into, encode_load_main_into,
    encode_trace_bus_select, encode_trace_delay, encode_trace_irq, encode_trace_log,
    encode_trace_report, encode_trace_report_v2, encode_trace_rw, load_segments,
    ControlRequestRef, ControlResultRef, ControlStatus, ExecStatus, ReportArgRef, ReportMeta,
    TraceRef, LOAD_VERSION, MAX_TRACE_PAYLOAD, REPORT_FLAG_TIMESTAMP_VALID, SEG_KIND_MAIN,
    TRACE_OP_BUS_SELECT, TRACE_OP_DELAY, TRACE_OP_READ, TRACE_OP_REPORT, TRACE_OP_REPORT_V2,
    TRACE_OP_WRITE,
};
use std::sync::{Arc, Mutex};

#[test]
fn known_vector() {
    assert_eq!(crc32(b"123456789"), 0xCBF43926);
}

#[test]
fn empty_input() {
    assert_eq!(crc32(&[]), 0x00000000);
}

#[test]
fn incremental_equivalence() {
    let full = crc32(b"register-sequence");
    let mut acc = 0xFFFF_FFFFu32;
    for &b in b"register-sequence" {
        acc ^= b as u32;
        for _ in 0..8 {
            let mask = (0u32).wrapping_sub(acc & 1);
            acc = (acc >> 1) ^ (0xEDB88320 & mask);
        }
    }
    assert_eq!(!acc, full);
}

fn encode(ty: FrameType, payload: &[u8]) -> Vec<u8> {
    let mut buf = vec![0u8; payload.len() + OVERHEAD];
    let n = encode_into(ty, payload, &mut buf);
    buf.truncate(n);
    buf
}

#[test]
fn round_trip_single_frame() {
    let frame = encode(FrameType::Exec, &[]);
    let mut dec = FrameDecoder::<{ HOST_FRAME_BUF }>::new();
    let got = dec.feed(&frame).pop();
    assert_eq!(got, Some((FrameType::Exec, Vec::new())));
}

#[test]
fn round_trip_with_payload() {
    let payload = [0x01, 0x02, 0x03, 0xaa, 0x55];
    let frame = encode(FrameType::Load, &payload);
    let mut dec = FrameDecoder::<{ HOST_FRAME_BUF }>::new();
    let got = dec.feed(&frame).pop();
    assert_eq!(got, Some((FrameType::Load, payload.to_vec())));
}

#[test]
fn resync_after_garbage() {
    let payload = [0x10, 0x20];
    let frame = encode(FrameType::Ping, &payload);
    let mut stream = vec![0xff, 0x00, 0x55];
    stream.extend_from_slice(&frame);
    let mut dec = FrameDecoder::<{ HOST_FRAME_BUF }>::new();
    let got = dec.feed(&stream).pop();
    assert_eq!(got, Some((FrameType::Ping, payload.to_vec())));
}

#[test]
fn crc_mismatch_is_dropped() {
    let payload = [0x01, 0x02];
    let mut frame = encode(FrameType::Exec, &payload);
    let last = frame.len() - 1;
    frame[last] ^= 0xFF;
    let mut dec = FrameDecoder::<{ HOST_FRAME_BUF }>::new();
    let got = dec.feed(&frame).len();
    assert_eq!(got, 0, "corrupt frame must be dropped");
}

#[test]
fn chunked_feed_decodes() {
    let payload = [0xaa, 0xbb, 0xcc, 0xdd];
    let frame = encode(FrameType::Trace, &payload);
    let mut dec = FrameDecoder::<{ HOST_FRAME_BUF }>::new();
    let mut got = None;
    for &b in &frame {
        if let Some(f) = dec.feed(std::slice::from_ref(&b)).pop() {
            got = Some(f);
        }
    }
    assert_eq!(got, Some((FrameType::Trace, payload.to_vec())));
}

#[test]
fn multiple_frames_in_one_chunk() {
    let f1 = encode(FrameType::Ping, &[]);
    let f2 = encode(FrameType::Exec, &[0x01]);
    let mut stream = f1;
    stream.extend_from_slice(&f2);
    let mut dec = FrameDecoder::<{ HOST_FRAME_BUF }>::new();
    let got = dec.feed(&stream);
    assert_eq!(got.len(), 2);
    assert_eq!(got[0], (FrameType::Ping, Vec::new()));
    assert_eq!(got[1], (FrameType::Exec, vec![0x01]));
}

struct ZeroBus;

impl Bus for ZeroBus {
    fn set_bus_kind(&mut self, _kind: BusKind, _arg: u32) -> Result<(), BusError> {
        Ok(())
    }

    fn read(&mut self, _addr: u32, data: &mut [u8]) -> Result<(), BusError> {
        data.fill(0);
        Ok(())
    }

    fn write(&mut self, _addr: u32, _data: &[u8]) -> Result<(), BusError> {
        Ok(())
    }

    fn delay_us(&mut self, _us: u32) -> Result<(), BusError> {
        Ok(())
    }

    fn log(&mut self, _msg: &str) -> Result<(), BusError> {
        Ok(())
    }

    fn wait_irq(&mut self, _pin: u8, _timeout_ms: u32) -> Result<(), BusError> {
        Ok(())
    }

    fn report(&mut self, _kind: u32, _args: &[ReportArg<'_>]) -> Result<(), BusError> {
        Ok(())
    }
}

struct CaptureTx(Arc<Mutex<Vec<u8>>>);

impl LinkTx for CaptureTx {
    fn write(&mut self, data: &[u8]) -> Result<(), LinkError> {
        self.0.lock().unwrap().extend_from_slice(data);
        Ok(())
    }
}

struct FixedClock(u64);

impl ReportClock for FixedClock {
    fn now_us(&self) -> Option<u64> {
        Some(self.0)
    }
}

#[derive(Debug, PartialEq, Eq)]
enum OwnedTrace {
    Read { addr: u32, data: Vec<u8> },
    Write { addr: u32, data: Vec<u8> },
    BusSelect { kind: BusKind, arg: u32 },
    Delay { us: u32 },
    Log { msg: Vec<u8> },
    Irq { pin: u8 },
    Report { meta: Option<ReportMeta>, kind: u32, args: Vec<OwnedReportArg> },
}

#[derive(Debug, PartialEq, Eq)]
enum OwnedReportArg {
    U32(u32),
    Bytes(Vec<u8>),
}

fn decoded_traces(bytes: &[u8]) -> Vec<OwnedTrace> {
    let mut dec = FrameDecoder::<{ HOST_FRAME_BUF }>::new();
    let mut out: Vec<OwnedTrace> = Vec::new();
    for (_ty, p) in dec.feed(bytes) {
        if let Some(r) = decode_trace(&p) {
            out.push(match r {
                TraceRef::Read { addr, data } => OwnedTrace::Read { addr, data: data.to_vec() },
                TraceRef::Write { addr, data } => OwnedTrace::Write { addr, data: data.to_vec() },
                TraceRef::Delay { us } => OwnedTrace::Delay { us },
                TraceRef::Log { msg } => OwnedTrace::Log { msg: msg.to_vec() },
                TraceRef::Irq { pin } => OwnedTrace::Irq { pin },
                TraceRef::BusSelect { kind, arg } => OwnedTrace::BusSelect { kind, arg },
                TraceRef::Report { meta, kind, args } => OwnedTrace::Report {
                    meta,
                    kind,
                    args: args
                        .as_slice()
                        .iter()
                        .map(|arg| match arg {
                            ReportArgRef::U32(v) => OwnedReportArg::U32(*v),
                            ReportArgRef::Bytes(bytes) => OwnedReportArg::Bytes(bytes.to_vec()),
                        })
                        .collect(),
                },
            });
        }
    }
    out
}

#[test]
fn emits_read_write_delay_traces() {
    let cap = Arc::new(Mutex::new(Vec::new()));
    let mut bus = TracingBus::new(ZeroBus, CaptureTx(cap.clone()), ReportCounter::new());
    let mut buf = [0u8; 3];
    bus.read(0x10, &mut buf).unwrap();
    bus.write(0x20, &[0xaa, 0xbb]).unwrap();
    bus.delay_us(123).unwrap();

    let captured = cap.lock().unwrap().clone();
    let traces = decoded_traces(&captured);
    assert_eq!(traces.len(), 3);
    assert_eq!(traces[0], OwnedTrace::Read { addr: 0x10, data: vec![0, 0, 0] });
    assert_eq!(traces[1], OwnedTrace::Write { addr: 0x20, data: vec![0xaa, 0xbb] });
    assert_eq!(traces[2], OwnedTrace::Delay { us: 123 });
}

struct FailTx;

impl LinkTx for FailTx {
    fn write(&mut self, _data: &[u8]) -> Result<(), LinkError> {
        Err(LinkError::Io)
    }
}

#[test]
fn tx_failure_does_not_break_bus_op() {
    let mut bus = TracingBus::new(ZeroBus, FailTx, ReportCounter::new());
    assert!(bus.write(0x30, &[0x01]).is_ok());
    assert!(bus.delay_us(1).is_ok());
}

#[test]
fn op_constants_match_wire_decode() {
    assert_eq!(TRACE_OP_READ, 0x01);
    assert_eq!(TRACE_OP_WRITE, 0x02);
    assert_eq!(TRACE_OP_DELAY, 0x03);
    let _ = MAX_TRACE_PAYLOAD;
}

#[test]
fn tracing_bus_set_bus_emits_bus_trace() {
    let cap = Arc::new(Mutex::new(Vec::new()));
    let mut bus = TracingBus::new(ZeroBus, CaptureTx(cap.clone()), ReportCounter::new());
    bus.set_bus_kind(BusKind::I2c, 0x6a).unwrap();

    let captured = cap.lock().unwrap().clone();
    let traces = decoded_traces(&captured);
    assert_eq!(traces, vec![OwnedTrace::BusSelect { kind: BusKind::I2c, arg: 0x6a }]);
}

#[test]
fn tracing_bus_wait_emits_irq_trace() {
    let cap = Arc::new(Mutex::new(Vec::new()));
    let mut bus = TracingBus::new(ZeroBus, CaptureTx(cap.clone()), ReportCounter::new());
    bus.wait_irq(0, 1000).unwrap();

    let captured = cap.lock().unwrap().clone();
    let traces = decoded_traces(&captured);
    assert_eq!(traces, vec![OwnedTrace::Irq { pin: 0 }]);
}

#[test]
fn tracing_bus_report_emits_report_trace() {
    let cap = Arc::new(Mutex::new(Vec::new()));
    let mut bus = TracingBus::new(ZeroBus, CaptureTx(cap.clone()), ReportCounter::new());
    bus.report(0x10, &[ReportArg::U32(42), ReportArg::Bytes(&[0xde, 0xad])]).unwrap();

    let captured = cap.lock().unwrap().clone();
    let traces = decoded_traces(&captured);
    assert_eq!(traces.len(), 1);
    let OwnedTrace::Report { meta, kind, args } = &traces[0] else {
        panic!("expected report trace");
    };
    let meta = meta.expect("report v2 meta");
    assert_eq!(meta.flags, 0);
    assert_eq!(meta.timestamp_us, 0);
    assert_eq!(*kind, 0x10);
    assert_eq!(args, &vec![OwnedReportArg::U32(42), OwnedReportArg::Bytes(vec![0xde, 0xad])]);
}

#[test]
fn report_only_bus_suppresses_non_report_traces() {
    let cap = Arc::new(Mutex::new(Vec::new()));
    let mut bus =
        ReportOnlyBus::new_with_clock(
            ZeroBus,
            CaptureTx(cap.clone()),
            FixedClock(123_456),
            ReportCounter::new(),
        );

    bus.read(0x10, &mut [0u8; 2]).unwrap();
    bus.write(0x11, &[1, 2]).unwrap();
    bus.delay_us(42).unwrap();
    bus.log("hidden").unwrap();
    bus.report(0x22, &[ReportArg::U32(7)]).unwrap();

    let captured = cap.lock().unwrap().clone();
    let traces = decoded_traces(&captured);
    assert_eq!(traces.len(), 1);
    let OwnedTrace::Report { meta, kind, args } = &traces[0] else {
        panic!("expected report trace");
    };
    let meta = meta.expect("report v2 meta");
    assert_eq!(meta.timestamp_us, 123_456);
    assert_eq!(*kind, 0x22);
    assert_eq!(args, &vec![OwnedReportArg::U32(7)]);
}

#[test]
fn report_op_constant_matches_wire_decode() {
    assert_eq!(TRACE_OP_REPORT, 0x06);
    assert_eq!(TRACE_OP_REPORT_V2, 0x07);
    assert_eq!(TRACE_OP_BUS_SELECT, 0x08);
}

fn one_frame(bytes: &[u8]) -> (FrameType, Vec<u8>) {
    let mut dec = FrameDecoder::<{ HOST_FRAME_BUF }>::new();
    dec.feed(bytes).pop().expect("frame decoded")
}

#[test]
fn trace_rw_round_trip() {
    let data = [0x11, 0x22, 0x33];
    let mut buf = vec![0u8; MAX_TRACE_PAYLOAD + 32];
    let n = encode_trace_rw(&mut buf, TRACE_OP_WRITE, 0x1234, &data);
    let (ty, p) = one_frame(&buf[..n]);
    assert_eq!(ty, FrameType::Trace);
    let rec = decode_trace(&p).expect("trace decoded");
    assert_eq!(rec, TraceRef::Write { addr: 0x1234, data: &data });
}

#[test]
fn trace_delay_round_trip() {
    let mut buf = vec![0u8; 32];
    let n = encode_trace_delay(&mut buf, 50000);
    let (_, p) = one_frame(&buf[..n]);
    assert_eq!(decode_trace(&p), Some(TraceRef::Delay { us: 50000 }));
}

#[test]
fn trace_log_round_trip() {
    let mut buf = vec![0u8; 64];
    let n = encode_trace_log(&mut buf, "hi log");
    let (ty, p) = one_frame(&buf[..n]);
    assert_eq!(ty, FrameType::Trace);
    assert_eq!(decode_trace(&p), Some(TraceRef::Log { msg: &b"hi log"[..] }));
}

#[test]
fn trace_irq_round_trip() {
    let mut buf = vec![0u8; 32];
    let n = encode_trace_irq(&mut buf, 2);
    let (ty, p) = one_frame(&buf[..n]);
    assert_eq!(ty, FrameType::Trace);
    assert_eq!(decode_trace(&p), Some(TraceRef::Irq { pin: 2 }));
}

#[test]
fn trace_bus_select_round_trip() {
    let mut buf = vec![0u8; 32];
    let n = encode_trace_bus_select(&mut buf, BusKind::I2c, 0x6a);
    let (ty, p) = one_frame(&buf[..n]);
    assert_eq!(ty, FrameType::Trace);
    assert_eq!(decode_trace(&p), Some(TraceRef::BusSelect { kind: BusKind::I2c, arg: 0x6a }));
}

#[test]
fn control_bus_read_round_trip() {
    let mut req = vec![0u8; 16];
    let n = encode_control_bus_read_into(&mut req, 7, 0x2e, 3);
    assert_eq!(
        decode_control_request(&req[..n]),
        Some(ControlRequestRef::BusRead { request_id: 7, addr: 0x2e, len: 3 })
    );

    let data = [0x11, 0x22, 0x33];
    let mut res = vec![0u8; 32];
    let n = encode_control_bus_read_result_into(&mut res, 7, ControlStatus::Success, 0x2e, &data);
    assert_eq!(
        decode_control_result(&res[..n]),
        Some(ControlResultRef::BusRead {
            request_id: 7,
            status: ControlStatus::Success,
            addr: 0x2e,
            data: &data
        })
    );
}

#[test]
fn control_bus_write_round_trip() {
    let data = [0xaa, 0x55];
    let mut req = vec![0u8; 32];
    let n = encode_control_bus_write_into(&mut req, 9, 0x20, &data);
    assert_eq!(
        decode_control_request(&req[..n]),
        Some(ControlRequestRef::BusWrite { request_id: 9, addr: 0x20, data: &data })
    );

    let mut res = vec![0u8; 16];
    let n = encode_control_bus_write_result_into(&mut res, 9, ControlStatus::Success, 0x20, 2);
    assert_eq!(
        decode_control_result(&res[..n]),
        Some(ControlResultRef::BusWrite {
            request_id: 9,
            status: ControlStatus::Success,
            addr: 0x20,
            len: 2
        })
    );
}

#[test]
fn trace_report_v1_round_trip_without_meta() {
    let mut buf = vec![0u8; MAX_TRACE_PAYLOAD + 32];
    let n = encode_trace_report(
        &mut buf,
        0x10,
        &[ReportArgRef::U32(42), ReportArgRef::Bytes(&[0xde, 0xad])],
    );
    let (ty, p) = one_frame(&buf[..n]);
    assert_eq!(ty, FrameType::Trace);
    let rec = decode_trace(&p).expect("trace decoded");
    let TraceRef::Report { meta, kind, args } = rec else {
        panic!("expected report trace");
    };
    assert_eq!(meta, None);
    assert_eq!(kind, 0x10);
    assert_eq!(args.as_slice(), &[ReportArgRef::U32(42), ReportArgRef::Bytes(&[0xde, 0xad])]);
}

#[test]
fn trace_report_v2_round_trip_with_meta() {
    let meta = ReportMeta {
        flags: REPORT_FLAG_TIMESTAMP_VALID,
        frame_id: 7,
        timestamp_us: 123_456,
    };
    let mut buf = vec![0u8; MAX_TRACE_PAYLOAD + 32];
    let n = encode_trace_report_v2(
        &mut buf,
        meta,
        0x10,
        &[ReportArgRef::U32(42), ReportArgRef::Bytes(&[0xde, 0xad])],
    );
    let (ty, p) = one_frame(&buf[..n]);
    assert_eq!(ty, FrameType::Trace);
    let rec = decode_trace(&p).expect("trace decoded");
    let TraceRef::Report { meta: got_meta, kind, args } = rec else {
        panic!("expected report trace");
    };
    assert_eq!(got_meta, Some(meta));
    assert_eq!(kind, 0x10);
    assert_eq!(args.as_slice(), &[ReportArgRef::U32(42), ReportArgRef::Bytes(&[0xde, 0xad])]);
}

#[test]
fn load_segments_iterates() {
    let prog = [0x01, 0x02, 0x03];
    let mut buf = vec![0u8; 64];
    let n = encode_load_main_into(&mut buf, &prog);
    let (ver, mut segs) = load_segments(&buf[..n]).unwrap();
    assert_eq!(ver, LOAD_VERSION);
    let mut collected = Vec::new();
    while let Some((k, b)) = segs.next() {
        collected.push((k, b.to_vec()));
    }
    assert_eq!(collected, vec![(SEG_KIND_MAIN, prog.to_vec())]);
}

#[test]
fn exec_status_round_trip() {
    for s in [
        ExecStatus::Success,
        ExecStatus::InvalidOpcode,
        ExecStatus::ProgramTooShort,
        ExecStatus::InvalidLength,
        ExecStatus::DivideByZero,
        ExecStatus::BusError,
    ] {
        assert_eq!(ExecStatus::from_u8(s.to_u8()), Some(s));
    }
}

#[test]
fn numbers_run_on_across_buses() {
    let mut numbers = ReportCounter::new();
    assert_eq!(next_report_meta(&NoClock, &mut numbers).frame_id, 1);
    let cap = Arc::new(Mutex::new(Vec::new()));
    let mut first = TracingBus::new(ZeroBus, CaptureTx(cap.clone()), &mut numbers);
    first.report(1, &[]).unwrap();
    first.write(2, &[3]).unwrap();
    first.report(1, &[]).unwrap();
    let mut second = ReportOnlyBus::new(ZeroBus, CaptureTx(cap.clone()), &mut numbers);
    second.write(2, &[3]).unwrap();
    second.report(1, &[]).unwrap();

    let captured = cap.lock().unwrap().clone();
    let ids: Vec<u32> = decoded_traces(&captured)
        .into_iter()
        .filter_map(|trace| match trace {
            OwnedTrace::Report { meta, .. } => meta.map(|meta| meta.frame_id),
            _ => None,
        })
        .collect();
    assert_eq!(ids, vec![2, 3, 4]);
    let meta = next_report_meta(&FixedClock(9), &mut numbers);
    assert_eq!((meta.frame_id, meta.flags, meta.timestamp_us), (5, REPORT_FLAG_TIMESTAMP_VALID, 9));
}

#[test]
fn largest_report_is_sent_with_the_default_buffer() {
    let cap = Arc::new(Mutex::new(Vec::new()));
    let mut bus = TracingBus::new(ZeroBus, CaptureTx(cap.clone()), ReportCounter::new());
    let bytes = vec![0x5a; 4096];
    let mut args = vec![ReportArg::U32(1); 7];
    args.push(ReportArg::Bytes(&bytes));
    bus.report(3, &args).unwrap();
    let captured = cap.lock().unwrap().clone();
    assert_eq!(captured.len(), 4162);
    let mut dec = FrameDecoder::<8192>::new();
    let frames = dec.feed(&captured);
    assert_eq!(frames.len(), 1);
    let Some(TraceRef::Report { kind, args, .. }) = decode_trace(&frames[0].1) else {
        panic!("expected report trace");
    };
    assert_eq!(kind, 3);
    assert_eq!(args.as_slice().len(), 8);
    assert_eq!(args.as_slice()[7], ReportArgRef::Bytes(&bytes));
}

struct DeafBus;

impl Bus for DeafBus {
    fn set_bus_kind(&mut self, _kind: BusKind, _arg: u32) -> Result<(), BusError> {
        Err(BusError::Timeout)
    }

    fn read(&mut self, _addr: u32, _data: &mut [u8]) -> Result<(), BusError> {
        Err(BusError::Timeout)
    }

    fn write(&mut self, _addr: u32, _data: &[u8]) -> Result<(), BusError> {
        Err(BusError::Timeout)
    }

    fn delay_us(&mut self, _us: u32) -> Result<(), BusError> {
        Err(BusError::Timeout)
    }

    fn log(&mut self, _msg: &str) -> Result<(), BusError> {
        Err(BusError::Timeout)
    }

    fn wait_irq(&mut self, _pin: u8, _timeout_ms: u32) -> Result<(), BusError> {
        Err(BusError::Timeout)
    }

    fn report(&mut self, _kind: u32, _args: &[ReportArg<'_>]) -> Result<(), BusError> {
        Err(BusError::Timeout)
    }
}

#[test]
fn errors_of_the_observed_bus_are_returned_and_send_nothing() {
    let cap = Arc::new(Mutex::new(Vec::new()));
    let mut numbers = ReportCounter::new();
    let mut bus = TracingBus::new(DeafBus, CaptureTx(cap.clone()), &mut numbers);
    assert_eq!(bus.write(1, &[2]), Err(BusError::Timeout));
    assert_eq!(bus.report(1, &[]), Err(BusError::Timeout));
    let mut quiet = ReportOnlyBus::new(DeafBus, CaptureTx(cap.clone()), &mut numbers);
    assert_eq!(quiet.read(1, &mut [0u8; 1]), Err(BusError::Timeout));
    assert_eq!(quiet.report(1, &[]), Err(BusError::Timeout));
    assert!(cap.lock().unwrap().is_empty());
    assert_eq!(next_report_meta(&NoClock, &mut numbers).frame_id, 1);
}

#[test]
fn report_with_too_many_arguments_is_refused() {
    let cap = Arc::new(Mutex::new(Vec::new()));
    let mut bus = TracingBus::new(ZeroBus, CaptureTx(cap.clone()), ReportCounter::new());
    let args = vec![ReportArg::U32(1); 9];
    assert_eq!(bus.report(1, &args), Err(BusError::AccessSizeMismatch));
    assert!(cap.lock().unwrap().is_empty());
}

#[test]
fn pipes_give_what_the_other_end_wrote() {
    let mut pipe = Pipe::pair();
    pipe.write(End::A, &[1, 2, 3]);
    pipe.write(End::B, &[9]);
    pipe.write(End::A, &[4]);
    let mut buf = [0xff; 3];
    assert_eq!(pipe.read(End::B, &mut buf), 3);
    assert_eq!(buf, [1, 2, 3]);
    assert_eq!(pipe.read(End::B, &mut buf), 1);
    assert_eq!(buf, [4, 2, 3]);
    assert_eq!(pipe.read(End::B, &mut buf), 0);
    assert_eq!(pipe.read(End::A, &mut buf), 1);
    assert_eq!(buf, [9, 2, 3]);
}
