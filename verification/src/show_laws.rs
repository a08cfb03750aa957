//! What is shown and told: registers, reports, counts and operations.

use vstd::prelude::*;

use crate::bits;
use crate::catalog::{AccessKind, FieldView, RegView};
use crate::cli;
use crate::cli::{CliFlags, CliMode, ControlStep};
use crate::decoder::{DecoderView, ReportOutputMode};
use crate::layout_laws;
use crate::listing;
use crate::order;
use crate::processor;
use crate::program::{Expr, ParsedSource, Stmt, Value};
use crate::regview;
use crate::regview::CellTone;
use crate::report;
use crate::report::{BusOp, ReportKinds};
use crate::samples;
use crate::samples::I16LeFieldValue;
use crate::shown;
use crate::text;
use crate::text_laws;
use crate::watch;
use crate::watch::{ObserveCounts, ReportObserveInfo};
use crate::watch_lines;
use crate::watch_text;
use crate::wire::{ArgView, ReportMeta};

verus! {

// ---- registers

proof fn lemma_stands_for_two(s: Seq<char>, two: Seq<char>)
    requires
        two.len() == 2,
    ensures
        text_laws::stands_for(s + two, 16) == 256 * text_laws::stands_for(s, 16)
            + text_laws::stands_for(two, 16),
{
    let all = s + two;
    assert(all.drop_last() =~= s.push(two[0]));
    assert(s.push(two[0]).drop_last() =~= s);
    assert(two.drop_last() =~= seq![two[0]]);
    assert(seq![two[0]].drop_last() =~= Seq::<char>::empty());
    reveal_with_fuel(text_laws::stands_for, 3);
}

proof fn lemma_number_digits(bytes: Seq<u8>)
    ensures
        ({
            let s = report::hex_join(bytes.reverse(), ""@);
            &&& s.len() == 2 * bytes.len()
            &&& text_laws::stands_for(s, 16) == layout_laws::number(bytes)
        }),
    decreases bytes.len(),
{
    reveal_strlit("");
    let back = bytes.reverse();
    if bytes.len() > 0 {
        let rest = bytes.skip(1);
        lemma_number_digits(rest);
        assert(back.drop_last() =~= rest.reverse());
        assert(back.last() == bytes[0]);
        let one = report::hex_join(seq![bytes[0]], ""@);
        text_laws::law_bytes_text(rest.reverse(), seq![bytes[0]], bytes[0], ""@);
        let front = report::hex_join(rest.reverse(), ""@);
        lemma_stands_for_two(front, one);
        if rest.len() > 0 {
            assert(back =~= rest.reverse() + seq![bytes[0]]);
            assert(front + ""@ + one =~= front + one);
        } else {
            assert(back =~= seq![bytes[0]]);
            assert(front + one =~= one);
        }
    } else {
        assert(back.len() == 0);
    }
}

/// The value of a register is shown as one number, the first byte being the least significant one,
/// with two digits for each byte.
pub proof fn law_shown_number(bytes: Seq<u8>)
    ensures
        ({
            let s = regview::number_text(bytes);
            &&& s.len() == 2 + 2 * bytes.len()
            &&& s.take(2) == "0x"@
            &&& text_laws::stands_for(s.skip(2), 16) == layout_laws::number(bytes)
        }),
{
    reveal_strlit("0x");
    lemma_number_digits(bytes);
    let s = regview::number_text(bytes);
    assert(s.take(2) =~= "0x"@);
    assert(s.skip(2) =~= report::hex_join(bytes.reverse(), ""@));
}

/// When a value is shown: not of a register that is not dumped, not before it was read, and with a
/// note where bytes are missing.
pub proof fn law_shown_value(bytes: Seq<u8>, expected: nat)
    ensures
        regview::value_text(bytes, expected, true) == "??"@,
        bytes.len() == 0 ==> regview::value_text(bytes, expected, false) == "--"@,
        0 < bytes.len() < expected ==> regview::value_text(bytes, expected, false)
            == regview::number_text(bytes) + " ..."@,
        0 < bytes.len() && bytes.len() >= expected ==> regview::value_text(bytes, expected, false)
            == regview::number_text(bytes),
{
}

/// The width that is shown at an address is that of the first register that begins there, else of
/// the first register, and one byte where there is none.
pub proof fn law_shown_width(regs: Seq<RegView>, addr: u32, k: int)
    ensures
        ({
            let width = |r: RegView|
                if r.width == 0 {
                    1nat
                } else {
                    r.width as nat
                };
            &&& 0 <= k < regs.len() && regs[k].addr == addr && (forall|j: int|
                0 <= j < k ==> (#[trigger] regs[j]).addr != addr) ==> regview::display_width(
                regs,
                addr,
            ) == width(regs[k])
            &&& regs.len() > 0 && (forall|j: int|
                0 <= j < regs.len() ==> (#[trigger] regs[j]).addr != addr)
                ==> regview::display_width(regs, addr) == width(regs[0])
            &&& regs.len() == 0 ==> regview::display_width(regs, addr) == 1
        }),
{
    lemma_first_at(regs, addr, k);
}

proof fn lemma_first_at(regs: Seq<RegView>, addr: u32, k: int)
    ensures
        0 <= k < regs.len() && regs[k].addr == addr && (forall|j: int|
            0 <= j < k ==> (#[trigger] regs[j]).addr != addr) ==> regview::first_at(regs, addr)
            == Some(regs[k]),
        (forall|j: int| 0 <= j < regs.len() ==> (#[trigger] regs[j]).addr != addr)
            ==> regview::first_at(regs, addr) is None,
    decreases regs.len(),
{
    if regs.len() > 0 {
        let rest = regs.skip(1);
        assert(forall|j: int| 0 <= j < rest.len() ==> rest[j] == regs[j + 1]);
        lemma_first_at(rest, addr, k - 1);
    }
}

/// A field is active where it is known and not zero; a register where one of its fields is, and an
/// address where one of its registers is.
pub proof fn law_active(regs: Seq<RegView>, bytes: Seq<u8>)
    ensures
        regview::any_active(regs, bytes) <==> exists|i: int, j: int|
            0 <= i < regs.len() && 0 <= j < regs[i].fields.len() && (bits::field_bits(
                bytes,
                #[trigger] regs[i].fields[j].bit_hi,
                regs[i].fields[j].bit_lo,
            ) matches Some(v) && v > 0),
{
    if regview::any_active(regs, bytes) {
        let i = choose|i: int| 0 <= i < regs.len() && regview::reg_active(#[trigger] regs[i], bytes);
        let j = choose|j: int|
            0 <= j < regs[i].fields.len() && regview::field_active(
                #[trigger] regs[i].fields[j],
                bytes,
            );
        let f = regs[i].fields[j];
        assert(bits::field_bits(bytes, f.bit_hi, f.bit_lo)->Some_0 > 0);
    }
    if exists|i: int, j: int|
        0 <= i < regs.len() && 0 <= j < regs[i].fields.len() && (bits::field_bits(
            bytes,
            #[trigger] regs[i].fields[j].bit_hi,
            regs[i].fields[j].bit_lo,
        ) matches Some(v) && v > 0) {
        let (i, j) = choose|i: int, j: int|
            0 <= i < regs.len() && 0 <= j < regs[i].fields.len() && (bits::field_bits(
                bytes,
                #[trigger] regs[i].fields[j].bit_hi,
                regs[i].fields[j].bit_lo,
            ) matches Some(v) && v > 0);
        assert(regview::field_active(regs[i].fields[j], bytes));
        assert(regview::reg_active(regs[i], bytes));
    }
}

/// A field of one bit is shown as that bit, a wider one in hexadecimal with as many digits as its
/// bits take, and one that is not known as unknown.
pub proof fn law_shown_field(f: FieldView, bytes: Seq<u8>)
    ensures
        ({
            let v = bits::field_bits(bytes, f.bit_hi, f.bit_lo);
            let s = regview::field_text(f, bytes);
            let width = (if f.bit_hi >= f.bit_lo {
                f.bit_hi - f.bit_lo
            } else {
                f.bit_lo - f.bit_hi
            }) + 1;
            &&& v is None ==> s == "--"@
            &&& v is Some && width == 1 ==> s == text::dec(v->Some_0 as nat)
            &&& v is Some && width > 1 ==> s == "0x"@ + text::hex(
                v->Some_0 as nat,
                ((width + 3) / 4) as nat,
            )
            &&& f.bit_hi == f.bit_lo ==> regview::bits_text(f) == text::dec(f.bit_lo as nat)
            &&& f.bit_hi != f.bit_lo ==> regview::bits_text(f) == text::dec(f.bit_hi as nat) + ":"@
                + text::dec(f.bit_lo as nat)
        }),
{
}

/// How a cell of the dump is marked: what was selected before all else, then what is not dumped,
/// what is active, what has a value, and what is not known.
pub proof fn law_cell_tone(no_dump: bool, active: bool, value: bool, known: bool)
    ensures
        regview::cell_tone(true, no_dump, active, value, known) == CellTone::Selected,
        no_dump ==> regview::cell_tone(false, no_dump, active, value, known) == CellTone::NoDump,
        !no_dump && active ==> regview::cell_tone(false, no_dump, active, value, known)
            == CellTone::Active,
        !no_dump && !active && value ==> regview::cell_tone(false, no_dump, active, value, known)
            == CellTone::HasValue,
        !no_dump && !active && !value && !known ==> regview::cell_tone(
            false,
            no_dump,
            active,
            value,
            known,
        ) == CellTone::Unknown,
        !no_dump && !active && !value && known ==> regview::cell_tone(
            false,
            no_dump,
            active,
            value,
            known,
        ) == CellTone::Plain,
{
}

/// What a cell of the dump says: its first byte where that is known.
pub proof fn law_cell_label(bytes: Seq<u8>, known: bool)
    ensures
        regview::cell_label(bytes, true, known) == "??"@,
        bytes.len() > 0 ==> regview::cell_label(bytes, false, known) == text::hex(
            bytes[0] as nat,
            2,
        ),
        bytes.len() == 0 && known ==> regview::cell_label(bytes, false, known) == "--"@,
        bytes.len() == 0 && !known ==> regview::cell_label(bytes, false, known) == "··"@,
{
}

/// The details of an address: its value and the last access, then each register there with its
/// fields, in their order.
pub proof fn law_details(
    addr: u32,
    regs: Seq<RegView>,
    r: RegView,
    access: AccessKind,
    data: Seq<u8>,
)
    ensures
        regview::detail_registers(Seq::empty()).len() == 0,
        regview::detail_registers(regs.push(r)) == regview::detail_registers(regs)
            + regview::detail_register(r),
        regview::detail_lines(addr, Seq::empty(), None, false) == seq![
            "addr 0x"@ + text::hex(addr as nat, 2) + " value -- last=-"@,
            "no register metadata"@,
        ],
        regs.len() > 0 ==> regview::detail_lines(addr, regs, Some((access, data)), false).skip(1)
            == regview::detail_registers(regs),
        regview::detail_lines(addr, regs, Some((AccessKind::Read, data)), false)[0] == "addr "@ + (
        "0x"@ + text::hex(addr as nat, 2)) + " value "@ + report::hex_text(data) + " last="@
            + "read"@,
        regview::detail_lines(addr, regs, Some((AccessKind::Write, data)), false)[0] == "addr "@ + (
        "0x"@ + text::hex(addr as nat, 2)) + " value "@ + report::hex_text(data) + " last="@
            + "write"@,
{
    assert(regs.push(r).drop_last() =~= regs);
    let lines = regview::detail_lines(addr, regs, Some((access, data)), false);
    if regs.len() > 0 {
        assert(lines.skip(1) =~= regview::detail_registers(regs));
    }
    reveal_strlit("addr ");
    reveal_strlit("0x");
    reveal_strlit("addr 0x");
    reveal_strlit(" value ");
    reveal_strlit("--");
    reveal_strlit(" last=");
    reveal_strlit("-");
    reveal_strlit(" value -- last=-");
    let hex = text::hex(addr as nat, 2);
    assert("addr "@ + ("0x"@ + hex) + " value "@ + "--"@ + " last="@ + "-"@ =~= "addr 0x"@ + hex
        + " value -- last=-"@);
}

// ---- watched reports

/// A name with a number, or nothing where there is none.
pub open spec fn named(name: Seq<char>, n: Option<nat>) -> Seq<char> {
    match n {
        Some(n) => name + text::dec(n),
        None => Seq::empty(),
    }
}

/// What is told of a report as it is watched, each quantity behind its name: the number and the time
/// that it tells, the time since the report before, and what is missing or goes back.
pub proof fn law_watched_meta(info: ReportObserveInfo, m: ReportMeta)
    requires
        info.meta == Some(m),
        info.timestamp_rewind is None,
        info.frame_reset is None,
    ensures
        ({
            let s = watch_text::watch_meta(info);
            let dt = match info.dt_us {
                Some(n) => Some(n as nat),
                None => None,
            };
            let gap = match info.frame_gap {
                Some(n) => Some(n as nat),
                None => None,
            };
            &&& m.flags % 2 == 1 ==> s == named(" frame_id="@, Some(m.frame_id as nat)) + named(
                " ts_us="@,
                Some(m.timestamp_us as nat),
            ) + named(" dt_us="@, dt) + named(" frame_gap="@, gap)
            &&& m.flags % 2 == 0 ==> s == named(" frame_id="@, Some(m.frame_id as nat)) + named(
                " frame_gap="@,
                gap,
            )
        }),
{
    let none = Seq::<char>::empty();
    let s = watch_text::watch_meta(info);
    let a = named(" frame_id="@, Some(m.frame_id as nat));
    let d = named(
        " frame_gap="@,
        match info.frame_gap {
            Some(n) => Some(n as nat),
            None => None,
        },
    );
    if m.flags % 2 == 1 {
        let b = named(" ts_us="@, Some(m.timestamp_us as nat));
        let c = named(
            " dt_us="@,
            match info.dt_us {
                Some(n) => Some(n as nat),
                None => None,
            },
        );
        assert(s =~= a + b + c + d);
    } else {
        assert(s =~= a + d);
    }
}

/// What is told where a number or a time goes back: from what to what.
pub proof fn law_watched_steps_back(info: ReportObserveInfo)
    requires
        info.meta is None,
        info.frame_gap is None,
    ensures
        ({
            let s = watch_text::watch_meta(info);
            let reset = match info.frame_reset {
                Some((a, b)) => " frame_id_reset="@ + text::dec(a as nat) + "->"@ + text::dec(
                    b as nat,
                ),
                None => Seq::empty(),
            };
            let rewind = match info.timestamp_rewind {
                Some((a, b)) => " ts_rewind="@ + text::dec(a as nat) + "->"@ + text::dec(b as nat),
                None => Seq::empty(),
            };
            s == reset + rewind
        }),
{
    let reset = match info.frame_reset {
        Some((a, b)) => " frame_id_reset="@ + text::dec(a as nat) + "->"@ + text::dec(b as nat),
        None => Seq::empty(),
    };
    let rewind = match info.timestamp_rewind {
        Some((a, b)) => " ts_rewind="@ + text::dec(a as nat) + "->"@ + text::dec(b as nat),
        None => Seq::empty(),
    };
    assert(watch_text::watch_meta(info) =~= reset + rewind);
}

/// The summary tells each count behind its name, and the kinds in the order of their texts.
pub proof fn law_summary(c: ObserveCounts, kinds: Seq<Seq<char>>)
    ensures
        ({
            let n = |x: u64| text::dec(x as nat);
            watch_lines::summary_text(c, kinds) == "report health: total="@ + n(c.seq)
                + " kinds=["@ + text::joined(order::ordered(kinds), ", "@) + "] dropped="@ + n(
                c.frame_gap_total,
            ) + " frame_resets="@ + n(c.frame_reset_count) + " ts_rewinds="@ + n(
                c.timestamp_rewind_count,
            ) + " fifo_bytes="@ + n(c.fifo_data_bytes) + " fifo_samples="@ + n(c.fifo_sample_count)
                + " fifo_len_mismatch="@ + n(c.fifo_len_mismatch_count) + " fifo_partial_reports="@
                + n(c.fifo_partial_count) + " fifo_partial_bytes="@ + n(c.fifo_partial_bytes)
        }),
{
}

/// A summary is due with every so many reports, and never where none was asked for.
pub proof fn law_summary_due(k: nat, every: u64)
    requires
        every > 0,
        every * k <= u64::MAX,
    ensures
        watch_lines::summary_due((every * k) as u64, every) <==> k > 0,
        forall|r: int|
            0 < r < every && every * k + r <= u64::MAX ==> !#[trigger] watch_lines::summary_due(
                (every * k + r) as u64,
                every,
            ),
        forall|seq: u64| !#[trigger] watch_lines::summary_due(seq, 0),
{
    let e = every as int;
    assert(e * k % e == 0) by (nonlinear_arith)
        requires
            e > 0,
    ;
    assert(e * k == 0 <==> k == 0) by (nonlinear_arith)
        requires
            e > 0,
            k >= 0,
    ;
    assert forall|r: int| 0 < r < every && every * k + r <= u64::MAX implies !#[trigger] watch_lines::summary_due(
        (every * k + r) as u64,
        every,
    ) by {
        assert((e * k + r) % e == r) by (nonlinear_arith)
            requires
                0 < r < e,
        ;
    }
}

/// What a data report adds to the counts: the samples move the index of the next one.
pub proof fn law_sample_index(
    c: ObserveCounts,
    args: Seq<ArgView>,
    bytes: Seq<u8>,
    d: DecoderView,
)
    requires
        report::first_bytes(args) == Some(bytes),
        d.fields.len() > 0,
        c.next_fifo_sample_index + bytes.len() <= u64::MAX,
    ensures
        watch_lines::fifo_counts(c, args, Some(d)).next_fifo_sample_index
            == c.next_fifo_sample_index + bytes.len() / (2 * d.fields.len()),
        watch_lines::fifo_counts(c, args, None).next_fifo_sample_index == c.next_fifo_sample_index,
        watch_lines::fifo_counts(c, args, None) == watch::counts_with_data(
            c,
            report::first_u32(args),
            bytes.len(),
            None,
        ),
        watch_lines::size_of(args, Some(d)) == Some(
            (bytes.len() / (2 * d.fields.len()), bytes.len() % (2 * d.fields.len())),
        ),
{
    let n = d.fields.len();
    samples::law_samples_account_for_bytes(bytes, n);
    let count = samples::samples_from(bytes, 0, n).len() as int;
    let left = samples::left_over(bytes.len(), n) as int;
    assert(left == bytes.len() as int % (2 * n as int));
    assert(count == bytes.len() as int / (2 * n as int) && count <= bytes.len()) by (nonlinear_arith)
        requires
            count * (2 * n) + left == bytes.len(),
            left == bytes.len() as int % (2 * n as int),
            n > 0,
            count >= 0,
    ;
}

/// A number is told with its signed value, bytes up to sixteen of them.
pub proof fn law_watched_argument(v: u32, b: Seq<u8>)
    ensures
        v < 0x8000_0000 ==> watch_text::signed32(v) == v,
        v >= 0x8000_0000 ==> watch_text::signed32(v) == v - 0x1_0000_0000,
        watch_text::watch_arg(ArgView::U32(v)) == "u32=0x"@ + text::hex(v as nat, 8) + " ("@
            + text::dec_int(watch_text::signed32(v)) + ")"@,
        b.len() <= 16 ==> watch_text::watch_arg(ArgView::Bytes(b)) == "bytes["@ + text::dec(b.len())
            + "]=["@ + report::hex_text(b) + "]"@,
        b.len() > 16 ==> watch_text::watch_arg(ArgView::Bytes(b)) == "bytes["@ + text::dec(b.len())
            + "]=["@ + report::hex_text(b.take(16)) + " ...]"@,
{
}

/// The names that are scaled: turn rates, accelerations and the temperature, and no other.
pub proof fn law_scaled_names(d: DecoderView, name: Seq<char>)
    ensures
        watch_text::scaled_names(d).contains(name) <==> d.gyro_fields.contains(name)
            || d.accel_fields.contains(name) || d.temp_field == Some(name),
{
    let temp = match d.temp_field {
        Some(t) => seq![t],
        None => Seq::empty(),
    };
    lemma_with_new(d.gyro_fields, d.accel_fields, name);
    lemma_with_new(watch_text::with_new(d.gyro_fields, d.accel_fields), temp, name);
    if d.temp_field is Some {
        assert(temp[0] == d.temp_field->Some_0);
    }
}

proof fn lemma_with_new(list: Seq<Seq<char>>, names: Seq<Seq<char>>, name: Seq<char>)
    ensures
        watch_text::with_new(list, names).contains(name) <==> list.contains(name)
            || names.contains(name),
    decreases names.len(),
{
    if names.len() > 0 {
        let less = names.drop_last();
        lemma_with_new(list, less, name);
        lemma_with_new(list, less, names.last());
        let before = watch_text::with_new(list, less);
        let after = watch_text::with_new(list, names);
        assert(names.contains(name) <==> less.contains(name) || name == names.last()) by {
            if less.contains(name) {
                let i = choose|i: int| 0 <= i < less.len() && less[i] == name;
                assert(names[i] == name);
            }
            if names.contains(name) && name != names.last() {
                let i = choose|i: int| 0 <= i < names.len() && names[i] == name;
                assert(less[i] == name);
            }
            assert(names[names.len() - 1] == names.last());
        }
        if !before.contains(names.last()) {
            if before.contains(name) {
                let i = choose|i: int| 0 <= i < before.len() && before[i] == name;
                assert(after[i] == name);
            }
            assert(after[before.len() as int] == names.last());
            if after.contains(name) && name != names.last() {
                let i = choose|i: int| 0 <= i < after.len() && after[i] == name;
                assert(before[i] == name);
            }
        }
    }
}

/// Values that are not scaled are told as they are, in their order.
pub proof fn law_raw_values(
    values: Seq<I16LeFieldValue>,
    v: I16LeFieldValue,
    fields: Seq<Seq<char>>,
    excluded: Seq<Seq<char>>,
)
    ensures
        watch_text::raw_parts(Seq::empty(), fields, excluded).len() == 0,
        ({
            let name = fields[v.field_index as int];
            let before = watch_text::raw_parts(values, fields, excluded);
            let after = watch_text::raw_parts(values.push(v), fields, excluded);
            &&& excluded.contains(name) ==> after == before
            &&& !excluded.contains(name) ==> after == before.push(
                name + "="@ + text::dec_int(v.value as int),
            )
        }),
{
    assert(values.push(v).drop_last() =~= values);
}

/// Of the samples of a report the first ones are told, up to eight, each with its index, and how
/// many follow.
pub proof fn law_told_samples(
    base: nat,
    all: Seq<Seq<I16LeFieldValue>>,
    d: DecoderView,
    shown: Seq<watch_text::ScaledTexts>,
)
    ensures
        all.len() == 0 ==> watch_text::samples_text(base, all, d, shown).len() == 0,
        0 < all.len() <= 8 ==> watch_text::samples_text(base, all, d, shown)
            == watch_text::samples_head(d) + text::joined(
            Seq::new(
                all.len(),
                |i: int| watch_text::sample_text((base + i) as nat, all[i], d, shown[i]),
            ),
            "; "@,
        ),
        all.len() > 8 ==> watch_text::samples_text(base, all, d, shown) == watch_text::samples_head(
            d,
        ) + text::joined(
            Seq::new(
                8,
                |i: int| watch_text::sample_text((base + i) as nat, all[i], d, shown[i]),
            ),
            "; "@,
        ) + ("; ... +"@ + text::dec((all.len() - 8) as nat) + " samples"@),
{
    let none = Seq::<char>::empty();
    let texts = Seq::new(
        watch_text::shown_count(all.len()),
        |i: int| watch_text::sample_text((base + i) as nat, all[i], d, shown[i]),
    );
    let s = watch_text::samples_head(d) + text::joined(texts, "; "@);
    assert(s + none =~= s);
}

/// A sample is told raw or scaled: turn rates, accelerations and the temperature by what they come
/// to, and what is left as it is.
pub proof fn law_told_sample(
    index: nat,
    values: Seq<I16LeFieldValue>,
    d: DecoderView,
    shown: watch_text::ScaledTexts,
)
    ensures
        d.output == ReportOutputMode::RawI16 ==> watch_text::sample_text(index, values, d, shown)
            == "["@ + text::dec(index) + "]"@ + (" raw=("@ + text::joined(
            watch_text::raw_parts(values, d.fields, Seq::empty()),
            ","@,
        ) + ")"@),
        d.output == ReportOutputMode::PhysicalF32 && d.gyro_fields.len() > 0 && d.accel_fields.len()
            > 0 && d.temp_field is None && watch_text::raw_parts(
            values,
            d.fields,
            watch_text::scaled_names(d),
        ).len() == 0 ==> watch_text::sample_text(index, values, d, shown) == "["@ + text::dec(index)
            + "]"@ + (" gyro=("@ + watch_text::scaled_texts(
            values,
            d.fields,
            d.gyro_fields,
            text::texts(shown.gyro@),
        ) + ")"@) + (" acc=("@ + watch_text::scaled_texts(
            values,
            d.fields,
            d.accel_fields,
            text::texts(shown.accel@),
        ) + ")"@),
{
    let none = Seq::<char>::empty();
    if d.output == ReportOutputMode::PhysicalF32 && d.temp_field is None {
        let s = "["@ + text::dec(index) + "]"@ + (" gyro=("@ + watch_text::scaled_texts(
            values,
            d.fields,
            d.gyro_fields,
            text::texts(shown.gyro@),
        ) + ")"@) + (" acc=("@ + watch_text::scaled_texts(
            values,
            d.fields,
            d.accel_fields,
            text::texts(shown.accel@),
        ) + ")"@);
        assert(s + none + none =~= s);
    }
}

/// A scaled value is told by its name with what it comes to, or as missing where the sample has no
/// value of that name.
pub proof fn law_told_value(
    values: Seq<I16LeFieldValue>,
    fields: Seq<Seq<char>>,
    name: Seq<char>,
    shown: Seq<char>,
)
    ensures
        samples::named_value(values, fields, name) is Some ==> watch_text::scaled_text(
            values,
            fields,
            name,
            shown,
        ) == name + "="@ + shown,
        samples::named_value(values, fields, name) is None ==> watch_text::scaled_text(
            values,
            fields,
            name,
            shown,
        ) == name + "="@ + "missing"@,
{
}

// ---- the command line

/// What is done: a replay before all else, then control, then watching, each of which but the first
/// needs a device; then taking apart; and else compiling.
pub proof fn law_cli_mode(f: CliFlags)
    ensures
        ({
            let m = cli::mode_of(f);
            let control = f.stop || f.reset_mcu || f.ping;
            &&& f.replay ==> m == Ok::<CliMode, (Seq<char>, int)>(CliMode::Replay)
            &&& !f.replay && control ==> (m is Ok <==> f.has_endpoint) && (m is Ok ==> m->Ok_0
                == CliMode::Control) && (m is Err ==> m->Err_0.1 == 2)
            &&& !f.replay && !control && f.watch ==> (m is Ok <==> f.has_endpoint) && (m is Ok
                ==> m->Ok_0 == CliMode::Watch) && (m is Err ==> m->Err_0.1 == 2)
            &&& !f.replay && !control && !f.watch && f.decompile ==> (m is Ok <==> !f.has_manifest
                && !f.has_run && (f.has_hex || f.files == 1)) && (m is Ok ==> m->Ok_0
                == CliMode::Decompile) && (m is Err ==> m->Err_0.1 == 1)
            &&& !f.replay && !control && !f.watch && !f.decompile ==> m == Ok::<
                CliMode,
                (Seq<char>, int),
            >(CliMode::Compile)
        }),
{
}

/// What is sent to a device: what was asked for and nothing else, a ping first and a reset last.
pub proof fn law_control_steps(stop: bool, reset: bool, ping: bool)
    ensures
        ({
            let none = Seq::<ControlStep>::empty();
            cli::control_steps(stop, reset, ping) == (if ping {
                seq![ControlStep::Ping]
            } else {
                none
            }) + (if stop {
                seq![ControlStep::Stop]
            } else {
                none
            }) + (if reset {
                seq![ControlStep::Reset]
            } else {
                none
            })
        }),
{
    let none = Seq::<ControlStep>::empty();
    let a = if ping {
        seq![ControlStep::Ping]
    } else {
        none
    };
    let b = if stop {
        seq![ControlStep::Stop]
    } else {
        none
    };
    let c = if reset {
        seq![ControlStep::Reset]
    } else {
        none
    };
    assert(cli::control_steps(stop, reset, ping) =~= a + b + c);
}

/// Statements are listed in their order and numbered through, over all sources.
pub proof fn law_listed_statements(
    sources: Seq<ParsedSource>,
    s: ParsedSource,
    stmts: Seq<Stmt>,
    stmt: Stmt,
    step: nat,
)
    ensures
        cli::stmt_count(Seq::empty()) == 0,
        cli::stmt_count(sources.push(s)) == cli::stmt_count(sources) + s.stmts@.len(),
        cli::steps_lines(step, Seq::empty()).len() == 0,
        cli::steps_lines(step, stmts.push(stmt)) == cli::steps_lines(step, stmts)
            + cli::step_lines(step + stmts.len(), stmt),
        cli::step_lines(step, stmt)[0] == "  Step "@ + text::dec(step) + ":"@,
        cli::sources_lines(sources.push(s), false) == cli::sources_lines(sources, false)
            + cli::steps_lines(cli::stmt_count(sources) + 1, s.stmts@),
        cli::sources_lines(sources.push(s), true) == cli::sources_lines(sources, true) + seq![
            "  Source: "@ + s.name@,
        ] + cli::steps_lines(cli::stmt_count(sources) + 1, s.stmts@),
{
    assert(sources.push(s).drop_last() =~= sources);
    assert(stmts.push(stmt).drop_last() =~= stmts);
    assert((step + stmts.push(stmt).len() - 1) as nat == step + stmts.len());
    let none = Seq::<Seq<char>>::empty();
    assert(cli::sources_lines(sources, false) + none =~= cli::sources_lines(sources, false));
}

/// The operations of the bus are listed one to a line, numbered from one in their order.
pub proof fn law_listed_operations(kinds: ReportKinds, ops: Seq<BusOp>, i: int)
    requires
        0 <= i < ops.len(),
    ensures
        cli::op_lines(kinds, Seq::empty()) == seq!["No bus operations recorded"@],
        cli::op_lines(kinds, ops).len() == ops.len() + 1,
        cli::op_lines(kinds, ops)[i + 1] == "  Step "@ + text::dec((i + 1) as nat) + ": "@
            + cli::op_text(kinds, ops[i]),
{
}

/// How reads and writes of the bus are told: which bytes, and where.
pub proof fn law_told_accesses(kinds: ReportKinds, addr: u32, data: Vec<u8>)
    ensures
        cli::op_text(kinds, BusOp::Write { addr, data }) == "Write ["@ + cli::listed_bytes(data@)
            + "] → 0x"@ + text::hex(addr as nat, 8),
        cli::op_text(kinds, BusOp::Read { addr, data }) == "Read "@ + text::dec(data@.len())
            + " bytes from 0x"@ + text::hex(addr as nat, 8) + " → ["@ + cli::listed_bytes(data@)
            + "]"@,
{
}

/// The handler of a pin is the first vector of that pin.
pub proof fn law_vector_of_a_pin(vectors: Seq<cli::IrqVector>, pin: Seq<char>, k: int)
    ensures
        0 <= k < vectors.len() && vectors[k].pin@ == pin && (forall|j: int|
            0 <= j < k ==> (#[trigger] vectors[j]).pin@ != pin) ==> cli::vector_of(vectors, pin)
            == Some(vectors[k]),
        (forall|j: int| 0 <= j < vectors.len() ==> (#[trigger] vectors[j]).pin@ != pin)
            ==> cli::vector_of(vectors, pin) is None,
    decreases vectors.len(),
{
    if vectors.len() > 0 {
        let rest = vectors.skip(1);
        assert(forall|j: int| 0 <= j < rest.len() ==> rest[j] == vectors[j + 1]);
        law_vector_of_a_pin(rest, pin, k - 1);
    }
}

/// What is told of the blocks: how many things are wrong, and the first four of them.
pub proof fn law_validation(wrong: Seq<Seq<char>>)
    ensures
        wrong.len() == 0 ==> shown::validation(wrong) == seq![
            "Valid blocks; ready to generate rseq."@,
        ],
        wrong.len() > 0 ==> shown::validation(wrong)[0] == text::dec(wrong.len()) + " issue(s)"@,
        0 < wrong.len() <= 4 ==> shown::validation(wrong).skip(1) == wrong,
        wrong.len() > 4 ==> shown::validation(wrong).skip(1) == wrong.take(4),
{
    if 0 < wrong.len() <= 4 {
        assert(shown::validation(wrong).skip(1) =~= wrong);
    } else if wrong.len() > 4 {
        assert(shown::validation(wrong).skip(1) =~= wrong.take(4));
    }
}

// ---- listings

/// A delay is listed where a statement has one, with what it follows; a condition lists its other
/// branch where there is one; any other statement is listed by its action alone.
pub proof fn law_listed_details(s: Stmt)
    ensures
        ({
            let lines = listing::stmt_lines(s);
            let after = |d: u32, what: Seq<char>|
                "    Delay: "@ + text::dec(d as nat) + " μs after "@ + what;
            let delayed = |d: Option<u32>, what: Seq<char>|
                if d is Some {
                    lines.len() == 2 && lines[1] == after(d->Some_0, what)
                } else {
                    lines.len() == 1
                };
            &&& lines[0] == listing::action_text(s)
            &&& s matches Stmt::Write { delay_us, .. } ==> delayed(delay_us, "write"@)
            &&& s matches Stmt::Update { delay_us, .. } ==> delayed(delay_us, "update"@)
            &&& s matches Stmt::Read { delay_us, .. } ==> delayed(delay_us, "read"@)
            &&& s matches Stmt::Let { expr: Expr::Read { delay_us, .. }, .. } ==> delayed(
                delay_us,
                "read"@,
            )
            &&& s matches Stmt::If { else_, .. } ==> (else_@.len() == 0 ==> lines.len() == 1) && (
            else_@.len() > 0 ==> lines.len() == 2 && lines[1] == "      Else: "@ + text::dec(
                else_@.len(),
            ) + " stmt(s)"@)
            &&& s is Chip || s is Bus || s is BusProbe || s is Irq || s is Wait || s is Repeat
                || s is Print || s is Report || s is ReportFormat ==> lines.len() == 1
        }),
{
}

/// How values are listed: numbers in hexadecimal, names as they are, and lists item by item.
pub proof fn law_listed_values(n: u32, name: String, values: Vec<Value>, all: Seq<Value>, v: Value)
    ensures
        listing::value_text(Value::Number(n)) == "0x"@ + text::hex(n as nat, 1),
        listing::value_text(Value::Ident(name)) == name@,
        listing::value_text(Value::Array(values)) == "["@ + text::joined(
            listing::value_texts(values@),
            ", "@,
        ) + "]"@,
        listing::value_texts(Seq::empty()).len() == 0,
        listing::value_texts(all.push(v)) == listing::value_texts(all).push(listing::value_text(v)),
        listing::simple_text(Value::Number(n)) == "0x"@ + text::hex(n as nat, 1),
        listing::simple_text(Value::Ident(name)) == name@,
{
    assert(all.push(v).drop_last() =~= all);
}

/// How expressions are listed: operands in their order round the operator, in brackets, and an
/// operator of one operand before it.
pub proof fn law_listed_expressions(op: String, a: Expr, b: Expr, n: u32, name: String)
    ensures
        listing::expr_text(Expr::Number(n)) == "0x"@ + text::hex(n as nat, 1),
        listing::expr_text(Expr::Ident(name)) == name@,
        listing::expr_text(Expr::Binary { op, lhs: Box::new(a), rhs: Box::new(b) }) == "("@
            + listing::expr_text(a) + " "@ + op@ + " "@ + listing::expr_text(b) + ")"@,
        listing::expr_text(Expr::Unary { op, expr: Box::new(a) }) == op@ + listing::expr_text(a),
{
    reveal_with_fuel(listing::expr_text, 2);
}

/// What is told of the data of a report where it does not fit: another length than it tells, and
/// bytes that are left over.
pub proof fn law_told_misfits(told: u32, len: nat, left: nat)
    ensures
        watch_text::data_health(None, len, 0).len() == 0,
        told as nat == len ==> watch_text::data_health(Some(told), len, 0).len() == 0,
        told as nat != len ==> watch_text::data_health(Some(told), len, 0)
            == " len_mismatch=status:"@ + text::dec(told as nat) + ",data:"@ + text::dec(len),
        left > 0 ==> watch_text::data_health(None, len, left) == " partial_bytes="@ + text::dec(
            left,
        ),
{
    let none = Seq::<char>::empty();
    let a = " len_mismatch=status:"@ + text::dec(told as nat) + ",data:"@ + text::dec(len);
    assert(a + none =~= a);
    let b = " partial_bytes="@ + text::dec(left);
    assert(none + b =~= b);
}

/// What is told of a decoded report: the decoder, what it puts out, the lengths, how many samples,
/// and the bytes that are left over where there are any.
pub proof fn law_told_decoding(d: DecoderView, told: u32, bytes: Seq<u8>)
    requires
        d.fields.len() > 0,
    ensures
        ({
            let size = 2 * d.fields.len();
            let head = " decoder="@ + d.label + " output="@ + d.output.name() + " fifo_len="@
                + text::dec(told as nat) + " data_len="@ + text::dec(bytes.len()) + " samples="@
                + text::dec(bytes.len() / size);
            let s = processor::decoded_text(d, Some(told), bytes);
            &&& bytes.len() % size == 0 ==> s == head
            &&& bytes.len() % size != 0 ==> s == head + " partial_bytes="@ + text::dec(
                bytes.len() % size,
            )
        }),
{
    let n = d.fields.len();
    samples::law_samples_account_for_bytes(bytes, n);
    let count = samples::samples_from(bytes, 0, n).len() as int;
    let left = samples::left_over(bytes.len(), n) as int;
    assert(left == bytes.len() as int % (2 * n as int));
    assert(count == bytes.len() as int / (2 * n as int)) by (nonlinear_arith)
        requires
            count * (2 * n) + left == bytes.len(),
            left == bytes.len() as int % (2 * n as int),
            n > 0,
    ;
}

/// What is told of a data report as it is watched: one line, and where samples were decoded a second
/// one with them, counted on from the samples before.
pub proof fn law_watched_data(
    c: ObserveCounts,
    info: ReportObserveInfo,
    args: Seq<ArgView>,
    bytes: Seq<u8>,
    d: DecoderView,
    shown: Seq<watch_text::ScaledTexts>,
)
    requires
        report::first_bytes(args) == Some(bytes),
    ensures
        ({
            let plain = watch_lines::fifo_lines(c, info, args, None, shown);
            let decoded = watch_lines::fifo_lines(c, info, args, Some(d), shown);
            let more = watch_text::samples_text(
                c.next_fifo_sample_index as nat,
                samples::samples_from(bytes, 0, d.fields.len()),
                d,
                shown,
            );
            &&& plain == seq![
                watch_lines::fifo_line(info, report::first_u32(args), bytes, None),
            ]
            &&& more.len() == 0 ==> decoded.len() == 1
            &&& more.len() > 0 ==> decoded.len() == 2 && decoded[1] == "  "@ + more
        }),
{
}

/// A data report without bytes is told as such, in one line.
pub proof fn law_watched_without_data(
    c: ObserveCounts,
    info: ReportObserveInfo,
    args: Seq<ArgView>,
    d: Option<DecoderView>,
    shown: Seq<watch_text::ScaledTexts>,
)
    requires
        report::first_bytes(args) is None,
    ensures
        watch_lines::fifo_lines(c, info, args, d, shown) == seq![
            "FIFO_RAW"@ + " #"@ + text::dec(info.seq as nat) + watch_text::watch_meta(info)
                + ": missing raw bytes arg ("@ + watch_lines::number_args(args) + ")"@,
        ],
        watch_lines::fifo_counts(c, args, d) == c,
{
}

/// What is told of any other report as it is watched: its name, its number, its metadata, and its
/// arguments where there are any.
pub proof fn law_watched_line(
    names: Seq<(u32, String)>,
    info: ReportObserveInfo,
    kind: u32,
    args: Seq<ArgView>,
)
    ensures
        ({
            let head = report::kind_label(names, kind) + " #"@ + text::dec(info.seq as nat)
                + watch_text::watch_meta(info);
            let told = watch_text::watch_args(args);
            &&& told.len() == 0 ==> watch_lines::named_line(names, info, kind, args) == head
            &&& told.len() > 0 ==> watch_lines::named_line(names, info, kind, args) == head + ": "@
                + told
        }),
{
}

/// The line of a field tells its bits, its value, whether it is active, and what it is about.
pub proof fn law_field_line(f: FieldView, r: RegView, bytes: Seq<u8>, i: int)
    ensures
        ({
            let l = regview::field_line(f, bytes);
            &&& l.bits == regview::bits_text(f)
            &&& l.value == regview::field_text(f, bytes)
            &&& l.active <==> (bits::field_bits(bytes, f.bit_hi, f.bit_lo) matches Some(v) && v > 0)
            &&& f.desc.len() == 0 ==> l.about == f.name
            &&& f.desc.len() > 0 ==> l.about == f.name + " - "@ + f.desc
        }),
        regview::register_part(r, bytes).fields.len() == r.fields.len(),
        0 <= i < r.fields.len() ==> regview::register_part(r, bytes).fields[i]
            == regview::field_line(r.fields[i], bytes),
        !r.no_dump ==> regview::register_part(r, bytes).no_dump is None,
        r.no_dump && r.no_dump_reason.len() > 0 ==> regview::register_part(r, bytes).no_dump == Some(
            "no_dump: "@ + r.no_dump_reason,
        ),
        r.no_dump && r.no_dump_reason.len() == 0 ==> regview::register_part(r, bytes).no_dump
            == Some("no_dump"@),
        regview::register_part(r, bytes).desc == if r.desc.len() > 0 {
            Some(r.desc)
        } else {
            None
        },
{
}

/// How an interrupt handler is listed: what it reads and where, each event with its mask and its
/// statements, and its size where it is known.
pub proof fn law_listed_handler(v: cli::IrqVector, arms: Seq<cli::VectorArm>, a: cli::VectorArm)
    ensures
        cli::arms_lines(Seq::empty()).len() == 0,
        cli::arms_lines(arms.push(a)) == cli::arms_lines(arms) + seq![
            "    on("@ + a.event@ + ") when status & 0x"@ + text::hex(a.mask as nat, 1) + ":"@,
            "        inline body: "@ + text::dec(a.statements as nat) + " statement(s)"@,
        ],
        v.bytecode is None ==> cli::vector_lines(v).skip(1) == cli::arms_lines(v.arms@),
        v.bytecode matches Some(n) ==> cli::vector_lines(v).skip(1) == cli::arms_lines(v.arms@).push(
            "    Segment bytecode: "@ + text::dec(n as nat) + " bytes"@,
        ),
{
    assert(arms.push(a).drop_last() =~= arms);
    match v.bytecode {
        None => {
            assert(cli::vector_lines(v).skip(1) =~= cli::arms_lines(v.arms@));
        },
        Some(n) => {
            assert(cli::vector_lines(v).skip(1) =~= cli::arms_lines(v.arms@).push(
                "    Segment bytecode: "@ + text::dec(n as nat) + " bytes"@,
            ));
        },
    }
}

} // verus!
