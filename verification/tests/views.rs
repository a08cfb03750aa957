use rseq_tools::blocks::VisualEditor;
use rseq_tools::bus::{BusError, VmError};
use rseq_tools::catalog::{AccessKind, Register, RegisterCatalog};
use rseq_tools::editor_source::{save_directory, SequenceFile};
use rseq_tools::frame::FrameType;
use rseq_tools::modes::LinkMode;
use rseq_tools::panel::RegisterPanel;
use rseq_tools::position::rseq_line_character;
use rseq_tools::processor::SessionEvent;
use rseq_tools::samples::MotionSample;
use rseq_tools::shown::{temperature_view, visual_sequence_list, visual_validation, TemperatureView};
use rseq_tools::visual::{VisualSequenceBlueprint, VisualStepBlueprint, VisualStepKind};
use rseq_tools::wire::{ControlStatus, ExecStatus};
use rseq_tools::workbench::{takes_another, Workbench, EVENT_BATCH};

fn register(name: &str, addr: u32, width: u32, access: &str) -> Register {
    Register {
        name: name.to_string(),
        addr,
        access: access.to_string(),
        width,
        desc: String::new(),
        no_dump: false,
        no_dump_reason: String::new(),
        fields: Vec::new(),
    }
}

fn catalog() -> RegisterCatalog {
    let mut catalog = RegisterCatalog::default();
    catalog.mark_register("UI", &register("WHOAMI", 0x00, 1, "RO"));
    catalog.mark_register("UI", &register("CTRL", 0x20, 2, "RW"));
    catalog
}

fn step(address: &str) -> VisualStepBlueprint {
    VisualStepBlueprint {
        kind: VisualStepKind::Read,
        address: address.to_string(),
        read_len: "1".to_string(),
        data: String::new(),
        delay_us: String::new(),
    }
}

fn editor(sequences: Vec<VisualSequenceBlueprint>) -> VisualEditor {
    VisualEditor { sequences, active: 0, dirty: false, status: String::new() }
}

#[test]
fn the_direction_of_a_frame_is_in_its_code() {
    for ty in [FrameType::Load, FrameType::Exec, FrameType::Reset, FrameType::Ping] {
        assert!(ty.is_host_to_mcu());
        assert_eq!(ty.to_u8() & 0x80, 0);
    }
    for ty in [FrameType::Ack, FrameType::Trace, FrameType::Result, FrameType::Pong] {
        assert!(!ty.is_host_to_mcu());
        assert_eq!(ty.to_u8() & 0x80, 0x80);
    }
}

#[test]
fn errors_have_codes_of_their_own() {
    assert_eq!(ControlStatus::from_bus_error(BusError::Timeout), ControlStatus::Timeout);
    assert_eq!(
        ControlStatus::from_bus_error(BusError::InvalidAddress),
        ControlStatus::InvalidAddress
    );
    assert_eq!(
        ControlStatus::from_bus_error(BusError::AccessSizeMismatch),
        ControlStatus::AccessSizeMismatch
    );
    assert_eq!(
        ControlStatus::from_bus_error(BusError::HardwareFailure),
        ControlStatus::HardwareFailure
    );
    assert_eq!(ExecStatus::from_vm_error(VmError::InvalidOpcode), ExecStatus::InvalidOpcode);
    assert_eq!(ExecStatus::from_vm_error(VmError::ProgramTooShort), ExecStatus::ProgramTooShort);
    assert_eq!(ExecStatus::from_vm_error(VmError::InvalidLength), ExecStatus::InvalidLength);
    assert_eq!(ExecStatus::from_vm_error(VmError::DivideByZero), ExecStatus::DivideByZero);
    assert_eq!(
        ExecStatus::from_vm_error(VmError::BusError(BusError::Timeout)),
        ExecStatus::BusError
    );
}

#[test]
fn links_are_told_of() {
    assert_eq!(LinkMode::Demo.tooltip(), "Run the built-in simulated report stream.");
    assert_eq!(LinkMode::Ble.tooltip(), "Reserved for a future BLE transport.");
}

#[test]
fn the_grid_reaches_the_last_known_address() {
    let mut panel = RegisterPanel::new(RegisterCatalog::default());
    assert_eq!(panel.register_grid_max_addr(), 0x0f);
    panel.record(0x30, AccessKind::Read, vec![1, 2]);
    assert_eq!(panel.register_grid_max_addr(), 0x31);
    let panel = RegisterPanel::new(catalog());
    assert_eq!(panel.register_grid_max_addr(), 0x21);
    let found = panel.register_infos_for_addr(0x21);
    assert_eq!(found.len(), 1);
    assert_eq!(found[0].name, "CTRL");
}

#[test]
fn places_are_lines_and_columns() {
    assert_eq!(rseq_line_character("ab\ncd", 4), (1, 1));
    assert_eq!(rseq_line_character("\u{e9}x", 2), (0, 1));
    assert_eq!(rseq_line_character("ab", 9), (0, 2));
}

#[test]
fn sequences_are_listed() {
    let e = editor(vec![
        VisualSequenceBlueprint { name: " Init ".to_string(), steps: vec![step("0x10")] },
        VisualSequenceBlueprint { name: "Stop".to_string(), steps: vec![] },
    ]);
    let list = visual_sequence_list(&e, false, true);
    assert_eq!(list.rows.len(), 2);
    assert_eq!(list.rows[0].name, "Init");
    assert_eq!(list.rows[0].steps, "1");
    assert!(list.rows[0].selected);
    assert!(!list.rows[1].selected);
    assert!(list.deletable);
    assert!(!list.runnable);
    assert!(visual_sequence_list(&e, true, true).runnable);
    assert!(visual_sequence_list(&e, false, false).runnable);
    assert!(!visual_sequence_list(&editor(vec![]), true, true).deletable);
}

#[test]
fn what_is_wrong_with_blocks_is_told() {
    let good = editor(vec![VisualSequenceBlueprint {
        name: "Init".to_string(),
        steps: vec![step("0x10")],
    }]);
    assert_eq!(
        visual_validation(&good, &catalog()),
        vec!["Valid blocks; ready to generate rseq.".to_string()]
    );
    let bad = editor(vec![VisualSequenceBlueprint {
        name: "Init".to_string(),
        steps: vec![step(""), step(""), step(""), step(""), step("")],
    }]);
    let told = visual_validation(&bad, &catalog());
    assert_eq!(told[0], "5 issue(s)");
    assert_eq!(told.len(), 5);
}

#[test]
fn the_temperature_is_shown_where_it_is_known() {
    assert_eq!(temperature_view(false, true), TemperatureView::Absent);
    assert_eq!(temperature_view(true, false), TemperatureView::Collapsed);
    assert_eq!(temperature_view(true, true), TemperatureView::Shown);
}

#[test]
fn events_are_taken_in_order() {
    let mut bench = Workbench::new(RegisterPanel::new(catalog()));
    let sample =
        MotionSample { timestamp_us: Some(1), acc: [1, 2, 3], gyro: [4, 5, 6], temp: None };
    let events = vec![
        SessionEvent::Connected { label: "demo".to_string() },
        SessionEvent::Register { addr: 0x20, access: AccessKind::Read, data: vec![7, 8] },
        SessionEvent::Sample(sample),
        SessionEvent::Log("a".to_string()),
        SessionEvent::Error("b".to_string()),
    ];
    bench.drain_session_events(&events, &[0, 0, 0, 0, 0]);
    assert!(bench.connected);
    assert_eq!(bench.connection_label, "demo");
    assert_eq!(bench.panel.register_bytes(0x20, 2), vec![7, 8]);
    assert_eq!(bench.samples.len(), 1);
    assert_eq!(bench.logs.iter().cloned().collect::<Vec<_>>(), vec!["a", "error: b"]);

    bench.clear_motion_samples();
    assert!(bench.samples.is_empty());
    assert_eq!(bench.logs.back().map(|s| s.as_str()), Some("motion chart cleared"));
    assert!(takes_another(EVENT_BATCH));
    assert!(!takes_another(EVENT_BATCH + 1));
}

#[test]
fn a_file_to_save_to_is_chosen_where_the_sequence_is() {
    let file = SequenceFile { path: "/w/a.rseq", parent: Some("/w") };
    assert_eq!(save_directory(Some(file), Some("/c")), "/w");
    assert_eq!(save_directory(None, Some("/c")), "/c");
    assert_eq!(save_directory(None, None), ".");
}
