use rseq_tools::bits::{bits_of, extract_field, field_value, le_u128};
use rseq_tools::catalog::{
    addr_label, page_addr_label, reg_label, register_is_writable, AccessKind, FieldInfo, Register,
    RegisterCatalog, RegisterInfo,
};
use rseq_tools::dump::{register_dump_addresses, register_dump_ranges, register_is_readable};
use rseq_tools::modes::RegisterViewMode;
use rseq_tools::panel::{RegisterPanel, RegisterValue};
use rseq_tools::regview::{
    field_bit_label, field_tip, field_value_text, format_addr, grid_rows, register_cell,
    register_detail_lines, register_display_width, register_tip, register_value_text, CellText,
    CellTone,
};
use rseq_tools::session::SessionCommand;
use rseq_tools::shown::{register_map, register_map_row, register_toolbar};

fn field(name: &str, bit_hi: u8, bit_lo: u8) -> FieldInfo {
    FieldInfo { name: name.to_string(), bit_hi, bit_lo, desc: String::new(), event: None }
}

fn register(name: &str, addr: u32, width: u32, access: &str) -> Register {
    Register {
        name: name.to_string(),
        addr,
        access: access.to_string(),
        width,
        desc: String::new(),
        no_dump: false,
        no_dump_reason: String::new(),
        fields: Vec::new(),
    }
}

fn hidden(name: &str, addr: u32) -> Register {
    Register { no_dump: true, ..register(name, addr, 1, "RO") }
}

fn catalog() -> RegisterCatalog {
    let mut catalog = RegisterCatalog::default();
    catalog.mark_register("UI", &register("WHOAMI", 0x00, 1, "RO"));
    catalog.mark_register("UI", &register("CTRL", 0x02, 2, "RW"));
    catalog.mark_register("AUX", &register("CTRL2", 0x02, 1, "RW"));
    catalog.mark_register("UI", &hidden("FIFO", 0x10));
    catalog
}

fn info(catalog: &RegisterCatalog, name: &str) -> RegisterInfo {
    catalog.registers().iter().find(|reg| reg.name == name).unwrap().copy()
}

#[test]
fn field_values_have_no_more_bits_than_the_field() {
    assert_eq!(le_u128(&[0x34, 0x12]), 0x1234);
    assert_eq!(bits_of(0x1234, 11, 4), 0x23);
    assert_eq!(extract_field(&[0xf5], 3, 0), Some(5));
    assert_eq!(extract_field(&[0xf5], 8, 0), None);
    assert_eq!(field_value(&[0x34, 0x12], 15, 12), Some(1));
    assert_eq!(field_value(&[0xff], 1, 0), Some(3));
}

#[test]
fn marking_bytes_marks_no_others() {
    let mut catalog = RegisterCatalog::default();
    catalog.mark_dumpability(0x20, 2, false);
    assert!(!catalog.is_no_dump(0x1f));
    assert!(catalog.is_no_dump(0x20));
    assert!(catalog.is_no_dump(0x21));
    assert!(!catalog.is_no_dump(0x22));
    catalog.mark_dumpability(0x21, 0, true);
    assert!(catalog.is_no_dump(0x20));
    assert!(!catalog.is_no_dump(0x21));
}

#[test]
fn pages_are_listed_once_in_order() {
    assert_eq!(catalog().pages(), vec!["UI".to_string(), "AUX".to_string()]);
}

#[test]
fn a_register_is_entered_once() {
    let mut catalog = catalog();
    let before = catalog.registers().len();
    catalog.mark_register("UI", &register("WHOAMI", 0x00, 1, "RO"));
    assert_eq!(catalog.registers().len(), before);
    assert_eq!(catalog.max_addr(), Some(0x10));
}

#[test]
fn read_targets_cover_the_address_and_prefer_its_start() {
    let mut catalog = catalog();
    let inside = catalog.selected_read_target(0x03).unwrap();
    assert_eq!((inside.addr, inside.len), (0x02, 2));
    assert_eq!(inside.label, "UI.CTRL");
    catalog.mark_register("UI", &register("INNER", 0x03, 1, "RO"));
    let start = catalog.selected_read_target(0x03).unwrap();
    assert_eq!((start.addr, start.len), (0x03, 1));
    assert_eq!(start.label, "UI.INNER");
    let unknown = catalog.selected_read_target(0x40).unwrap();
    assert_eq!((unknown.addr, unknown.len), (0x40, 1));
    assert_eq!(unknown.label, "0x40");
    assert_eq!(
        catalog.selected_read_target(0x10),
        Err("0x10 is marked no_dump; read skipped".to_string())
    );
    catalog.mark_register("UI", &register("WIDE", 0x100, 65, "RW"));
    assert_eq!(
        catalog.selected_read_target(0x100),
        Err("UI.WIDE width 65 exceeds control read limit 64".to_string())
    );
    catalog.mark_register("UI", &register("HUGE", 0x1000, 70_000, "RW"));
    assert_eq!(
        catalog.selected_read_target(0x1000),
        Err("UI.HUGE width 70000 exceeds u16::MAX".to_string())
    );
}

#[test]
fn write_targets_cover_the_address_and_can_be_written() {
    let mut catalog = catalog();
    let inside = catalog.selected_write_target(0x03).unwrap();
    assert_eq!((inside.addr, inside.width), (0x02, Some(2)));
    assert_eq!(
        catalog.selected_write_target(0x00),
        Err("0x00 is read-only; write skipped".to_string())
    );
    let unknown = catalog.selected_write_target(0x40).unwrap();
    assert_eq!((unknown.addr, unknown.width), (0x40, Some(1)));
    catalog.mark_register("UI", &register("WIDE", 0x100, 65, "RW"));
    assert_eq!(
        catalog.selected_write_target(0x100),
        Err("UI.WIDE width 65 exceeds control write limit 64".to_string())
    );
    assert_eq!(
        catalog.selected_write_target_for_page("AUX", 0x02).unwrap().label,
        "AUX.CTRL2"
    );
}

#[test]
fn labels_and_access_words() {
    assert_eq!(addr_label(0x7), "0x07");
    assert_eq!(page_addr_label("UI", 0x7), "UI.0x07");
    assert_eq!(reg_label(&info(&catalog(), "CTRL")), "UI.CTRL");
    assert!(register_is_writable("RW"));
    assert!(!register_is_writable("ro"));
    assert!(register_is_readable("RO"));
    assert!(!register_is_readable("WO"));
}

#[test]
fn fields_are_decoded_from_bytes() {
    let mut catalog = RegisterCatalog::default();
    let mut status = register("STATUS", 0x05, 1, "RO");
    status.fields.push(field("hi", 7, 4));
    status.fields.push(field("beyond", 12, 8));
    catalog.mark_register("UI", &status);
    let decoded = catalog.decoded_fields(0x05, &[0xa5]);
    assert_eq!(decoded.len(), 2);
    assert_eq!(decoded[0].register, "UI.STATUS");
    assert_eq!(decoded[0].value, Some(0xa));
    assert_eq!(decoded[1].value, None);
}

#[test]
fn dump_ranges_hold_each_address_once() {
    let catalog = catalog();
    let mut regs: Vec<RegisterInfo> = catalog.registers().iter().map(|reg| reg.copy()).collect();
    regs.push(info(&catalog, "CTRL"));
    assert_eq!(register_dump_addresses(&info(&catalog, "CTRL")), vec![0x02, 0x03]);
    let (ranges, skipped) = register_dump_ranges(&regs, 64);
    let spans: Vec<(u32, u16)> = ranges.iter().map(|range| (range.start, range.len)).collect();
    assert_eq!(spans, vec![(0x00, 1), (0x02, 2)]);
    assert_eq!(skipped.len(), 1);
}

#[test]
fn recorded_bytes_are_known_and_others_stay() {
    let mut panel = RegisterPanel::new(catalog());
    panel.record(0x02, AccessKind::Read, vec![0x11, 0x22]);
    assert_eq!(
        panel.value(0x02),
        Some(&RegisterValue { access: AccessKind::Read, data: vec![0x11] })
    );
    assert_eq!(
        panel.value(0x03),
        Some(&RegisterValue { access: AccessKind::Read, data: vec![0x22] })
    );
    assert_eq!(panel.register_bytes(0x02, 2), vec![0x11, 0x22]);
    assert_eq!(panel.known(), 2);
    panel.record(0x00, AccessKind::Write, vec![0x99]);
    assert_eq!(panel.register_bytes(0x02, 2), vec![0x11, 0x22]);
    assert_eq!(panel.value(0x00).unwrap().access, AccessKind::Write);
}

#[test]
fn hidden_bytes_are_known_once_recorded() {
    let mut panel = RegisterPanel::new(catalog());
    panel.record(0x10, AccessKind::Read, vec![0x01, 0x02]);
    assert_eq!(panel.value(0x10).unwrap().data, vec![0x01, 0x02]);
    assert_eq!(panel.value(0x11).unwrap().data, vec![0x02]);
}

#[test]
fn the_shown_page_follows_the_catalog() {
    let mut panel = RegisterPanel::new(catalog());
    assert_eq!(panel.page.as_deref(), Some("UI"));
    panel.set_active_register_page("AUX".to_string());
    assert_eq!(panel.active_register_page_registers().len(), 1);
    assert_eq!(panel.active_register_page_registers()[0].name, "CTRL2");
    let toolbar = register_toolbar(&panel, RegisterViewMode::Dump, true);
    assert_eq!(toolbar.pages.len(), 2);
    assert!(toolbar.pages[1].selected);
    assert_eq!(toolbar.no_pages, None);
    assert_eq!(toolbar.hint, "hover for decoded fields; double click a cell to edit");
    assert!(toolbar.enabled);
    panel.set_catalog(RegisterCatalog::default());
    assert_eq!(panel.page, None);
    let toolbar = register_toolbar(&panel, RegisterViewMode::RegisterMap, false);
    assert_eq!(toolbar.no_pages, Some("no register metadata"));
    assert_eq!(toolbar.hint, "rows are YAML registers; active bit fields are highlighted");
    assert!(!toolbar.enabled);
    assert_eq!(register_map(&panel), Err("no register metadata loaded"));
}

#[test]
fn selected_registers_are_read_and_written() {
    let mut panel = RegisterPanel::new(catalog());
    panel.selected = 0x02;
    assert_eq!(
        panel.request_selected_register_dump(),
        Ok(SessionCommand::ReadRegister { addr: 0x02, len: 2, label: "UI.CTRL".to_string() })
    );
    assert_eq!(
        panel.write_register_value(0x02, "12 34"),
        Ok(SessionCommand::WriteRegister {
            addr: 0x02,
            data: vec![0x12, 0x34],
            label: "UI.CTRL".to_string(),
        })
    );
    assert_eq!(
        panel.write_register_value(0x02, "12"),
        Err("expected 2 byte(s), got 1".to_string())
    );
    panel.selected = 0x10;
    assert!(panel.request_selected_register_dump().is_err());
}

#[test]
fn an_inline_write_starts_with_what_is_known() {
    let mut panel = RegisterPanel::new(catalog());
    panel.record(0x02, AccessKind::Read, vec![0xab, 0xcd]);
    let shown = panel.begin_inline_register_write(0x02).unwrap();
    assert_eq!(shown, "ab cd");
    assert_eq!(panel.inline_write, Some(0x02));
    assert_eq!(
        panel.write_register_value(0x02, &shown),
        Ok(SessionCommand::WriteRegister {
            addr: 0x02,
            data: vec![0xab, 0xcd],
            label: "UI.CTRL".to_string(),
        })
    );
    assert_eq!(panel.commit_inline_register_write(), Some(0x02));
    assert_eq!(panel.inline_write, None);
    assert!(panel.begin_inline_register_write(0x00).is_err());
}

#[test]
fn a_page_is_dumped_in_ranges() {
    let panel = RegisterPanel::new(catalog());
    let dump = panel.request_active_register_page_dump();
    assert_eq!(
        dump.commands,
        vec![
            SessionCommand::ReadRegister { addr: 0x00, len: 1, label: "UI.0x00+1".to_string() },
            SessionCommand::ReadRegister { addr: 0x02, len: 2, label: "UI.0x02+2".to_string() },
        ]
    );
    assert_eq!(
        dump.lines[0],
        "dumping active page UI: 2 range(s), 3 byte(s), skipped 1 register(s)"
    );
    let none = RegisterPanel::new(RegisterCatalog::default());
    assert_eq!(
        none.request_active_register_page_dump().lines,
        vec!["no readable registers in active page".to_string()]
    );
}

#[test]
fn listed_registers_are_in_order() {
    let mut catalog = RegisterCatalog::default();
    catalog.mark_register("UI", &register("B", 0x02, 1, "RO"));
    catalog.mark_register("UI", &register("A", 0x02, 1, "RO"));
    catalog.mark_register("UI", &register("C", 0x01, 1, "RO"));
    catalog.mark_register("AUX", &register("Z", 0x09, 1, "RO"));
    let mut panel = RegisterPanel::new(catalog);
    panel.page = None;
    let names: Vec<String> = panel.listed_registers().iter().map(|reg| reg.name.clone()).collect();
    assert_eq!(names, vec!["Z", "C", "A", "B"]);
}

#[test]
fn register_values_are_shown_with_the_last_byte_first() {
    assert_eq!(register_value_text(&[0x34, 0x12], 2, false), "0x1234");
    assert_eq!(register_value_text(&[0x34], 2, false), "0x34 ...");
    assert_eq!(register_value_text(&[], 2, false), "--");
    assert_eq!(register_value_text(&[0x34], 1, true), "??");
    assert_eq!(format_addr(0x0b), "0x0b");
    assert_eq!(grid_rows(0x1f), 2);
    let regs: Vec<RegisterInfo> =
        catalog().registers().iter().map(|reg| reg.copy()).collect();
    assert_eq!(register_display_width(&regs[1..2], 0x02), 2);
}

#[test]
fn field_texts() {
    let wide = field("mode", 6, 4);
    assert_eq!(field_bit_label(&wide), "6:4");
    assert_eq!(field_value_text(&wide, &[0x50]), "0x5");
    assert_eq!(field_value_text(&wide, &[]), "--");
    let tip = field_tip(&wide, &[0x50]);
    assert_eq!(tip.value, "value 0x5 (decimal 5) · width 3b · bits 6:4");
    assert_eq!(tip.event, None);
    let bit = field("ready", 3, 3);
    assert_eq!(field_bit_label(&bit), "3");
    assert_eq!(field_value_text(&bit, &[0x08]), "1");
}

#[test]
fn cells_and_tips_tell_what_is_known() {
    let catalog = catalog();
    let regs = vec![info(&catalog, "WHOAMI")];
    let cell = register_cell(&regs, &[0x7c], false, false, true);
    assert_eq!(cell.label, "7c");
    assert_eq!(cell.tone, CellTone::HasValue);
    assert_eq!(cell.text, CellText::HasValue);
    let unread = register_cell(&regs, &[], true, false, false);
    assert_eq!(unread.label, "--");
    assert_eq!(unread.tone, CellTone::Selected);
    let nothing = register_cell(&[], &[], false, false, false);
    assert_eq!(nothing.label, "··");
    let tip = register_tip(0x00, &regs, &[0x05], false);
    assert_eq!(tip.title, "UI.WHOAMI");
    assert_eq!(tip.subtitle, "0x00 · RO · 1B");
    assert_eq!(tip.value, "value 0x05 (0b00000101)");
    let hidden_tip = register_tip(0x10, &[info(&catalog, "FIFO")], &[], true);
    assert_eq!(hidden_tip.value, "value ?? (marked no_dump)");
    assert_eq!(hidden_tip.parts[0].no_dump.as_deref(), Some("no_dump"));
}

#[test]
fn detail_lines_tell_the_last_access() {
    let regs = vec![info(&catalog(), "WHOAMI")];
    let bytes = [0x7c];
    let lines =
        register_detail_lines(0x00, &regs, Some((AccessKind::Read, bytes.as_slice())), false);
    assert_eq!(lines[0], "addr 0x00 value 7c last=read");
    assert_eq!(lines[1], "UI.WHOAMI access=RO width=1 ");
    assert_eq!(
        register_detail_lines(0x80, &[], None, false),
        vec!["addr 0x80 value -- last=-".to_string(), "no register metadata".to_string()]
    );
}

#[test]
fn map_rows_show_values() {
    let mut panel = RegisterPanel::new(catalog());
    panel.record(0x02, AccessKind::Read, vec![0x34, 0x12]);
    let reg = info(&panel.catalog, "CTRL");
    let row = register_map_row(&panel, &reg);
    assert_eq!(row.value, "0x1234");
    assert_eq!(row.width, "2B");
    assert_eq!(row.addr, "0x02");
    assert!(!row.muted);
    let unread = info(&panel.catalog, "WHOAMI");
    assert!(register_map_row(&panel, &unread).muted);
    let rows = register_map(&panel).unwrap();
    assert_eq!(rows.len(), panel.active_register_page_registers().len());
    assert!(rows.windows(2).all(|pair| pair[0].addr <= pair[1].addr));
    assert!(rows.contains(&row));
    assert!(!row.edited);
    panel.begin_inline_register_write(0x02).unwrap();
    assert!(register_map_row(&panel, &reg).edited);
    assert!(!register_map_row(&panel, &unread).edited);
    assert!(panel.is_edited(0x02) && !panel.is_edited(0x00));
    panel.commit_inline_register_write();
    assert!(!register_map_row(&panel, &reg).edited);
}
