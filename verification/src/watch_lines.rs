//! The lines that are put out while reports are watched.
use crate::decoder::ReportDecoder;
use crate::decoder::DecoderView;
use crate::order;
use crate::order::sort_texts;
use crate::report;
use crate::report::{
    first_report_bytes, first_report_u32, hex_bytes, report_kind_label, ReportArg, ReportKinds,
};
use crate::samples;
use crate::samples::decode_i16_le_fifo_samples;
use crate::text;
use crate::text::{chars_of, join, push_dec};
use crate::watch;
use crate::watch::{ObserveCounts, ReportObserveInfo, ReportObserveState};
use crate::watch_text;
use crate::watch_text::{
    format_fifo_raw_health, format_i16_le_fifo_decode, format_report_watch_meta, format_watch_args,
    ScaledTexts,
};
use crate::wire::{ArgView, ReportMeta};
use vstd::prelude::*;

verus! {

// ---- reports with samples

/// How the line of a report starts.
pub open spec fn line_head(label: Seq<char>, info: ReportObserveInfo) -> Seq<char> {
    label + " #"@ + text::dec(info.seq as nat) + watch_text::watch_meta(info)
}

fn format_head(label: &str, info: &ReportObserveInfo) -> (s: String)
    ensures
        s@ == line_head(label@, *info),
{
    let mut s: String = label.to_owned();
    s.push_str(" #");
    push_dec(&mut s, info.seq as u128);
    s.push_str(format_report_watch_meta(info).as_str());
    s
}

/// The line of a report with data. Where the data were decoded, `decoded` is the number of
/// samples and what is wrong with the data.
pub open spec fn fifo_line(
    info: ReportObserveInfo,
    fifo_len: Option<u32>,
    data: Seq<u8>,
    decoded: Option<(nat, Seq<char>)>,
) -> Seq<char> {
    line_head("FIFO_RAW"@, info) + ": "@ + (match fifo_len {
        Some(n) => "fifo_len="@ + text::dec(n as nat) + " "@,
        None => Seq::empty(),
    }) + "data_len="@ + text::dec(data.len()) + (match decoded {
        Some((n, health)) => " samples="@ + text::dec(n) + health,
        None => Seq::empty(),
    }) + " data=["@ + report::hex_text(data) + "]"@
}

fn format_fifo_line(
    info: &ReportObserveInfo,
    fifo_len: Option<u32>,
    data: &[u8],
    decoded: Option<(usize, String)>,
) -> (s: String)
    ensures
        s@ == fifo_line(
            *info,
            fifo_len,
            data@,
            match decoded {
                Some((n, h)) => Some((n as nat, h@)),
                None => None,
            },
        ),
{
    let mut s: String = format_head("FIFO_RAW", info);
    s.push_str(": ");
    let ghost a = s@;
    match fifo_len {
        Some(n) => {
            s.push_str("fifo_len=");
            push_dec(&mut s, n as u128);
            s.push_str(" ");
            assert(s@ =~= a + ("fifo_len="@ + text::dec(n as nat) + " "@));
        },
        None => {
            assert(s@ =~= a + Seq::<char>::empty());
        },
    }
    s.push_str("data_len=");
    push_dec(&mut s, data.len() as u128);
    let ghost b = s@;
    match decoded {
        Some((n, health)) => {
            s.push_str(" samples=");
            push_dec(&mut s, n as u128);
            s.push_str(health.as_str());
            assert(s@ =~= b + (" samples="@ + text::dec(n as nat) + health@));
        },
        None => {
            assert(s@ =~= b + Seq::<char>::empty());
        },
    }
    s.push_str(" data=[");
    s.push_str(hex_bytes(data).as_str());
    s.push_str("]");
    s
}

/// Arguments none of which is raw bytes, by their variants.
pub open spec fn number_args(args: Seq<ArgView>) -> Seq<char> {
    "["@ + text::joined(
        args.map_values(
            |a: ArgView|
                match a {
                    ArgView::U32(v) => "U32("@ + text::dec(v as nat) + ")"@,
                    ArgView::Bytes(_) => Seq::empty(),
                },
        ),
        ", "@,
    ) + "]"@
}

fn format_number_args(args: &[ReportArg]) -> (s: String)
    ensures
        s@ == number_args(report::arg_views(args@)),
{
    let mut parts: Vec<String> = Vec::new();
    let mut i: usize = 0;
    while i < args.len()
        invariant
            i <= args.len(),
            parts@.len() == i,
            forall|k: int|
                0 <= k < i ==> (#[trigger] parts@[k])@ == (match args@[k].view() {
                    ArgView::U32(v) => "U32("@ + text::dec(v as nat) + ")"@,
                    ArgView::Bytes(_) => Seq::empty(),
                }),
        decreases args.len() - i,
    {
        match &args[i] {
            ReportArg::U32(v) => {
                let mut s: String = "U32(".to_owned();
                push_dec(&mut s, *v as u128);
                s.push_str(")");
                parts.push(s);
            },
            ReportArg::Bytes(_) => {
                parts.push(String::new());
            },
        }
        i += 1;
    }
    assert(text::texts(parts@) =~= report::arg_views(args@).map_values(
        |a: ArgView|
            match a {
                ArgView::U32(v) => "U32("@ + text::dec(v as nat) + ")"@,
                ArgView::Bytes(_) => Seq::empty(),
            },
    ));
    let mut s: String = "[".to_owned();
    s.push_str(join(&parts, ", ").as_str());
    s.push_str("]");
    s
}

/// The samples in the data of a report.
pub open spec fn samples_in(data: Seq<u8>, d: DecoderView) -> Seq<Seq<samples::I16LeFieldValue>> {
    samples::samples_from(data, 0, d.fields.len())
}

/// How many samples and left-over bytes the data of a report has, if it can be decoded.
pub open spec fn size_of(args: Seq<ArgView>, decoder: Option<DecoderView>) -> Option<(nat, nat)> {
    match (report::first_bytes(args), decoder) {
        (Some(b), Some(d)) => Some(
            (samples_in(b, d).len(), samples::left_over(b.len(), d.fields.len())),
        ),
        _ => None,
    }
}

/// The counts after a report with samples.
pub open spec fn fifo_counts(
    c: ObserveCounts,
    args: Seq<ArgView>,
    decoder: Option<DecoderView>,
) -> ObserveCounts {
    match report::first_bytes(args) {
        None => c,
        Some(b) => {
            let size = size_of(args, decoder);
            let noted = watch::counts_with_data(c, report::first_u32(args), b.len(), size);
            match size {
                Some(s) => ObserveCounts {
                    next_fifo_sample_index: watch::saturated(
                        noted.next_fifo_sample_index as int,
                        s.0 as int,
                    ),
                    ..noted
                },
                None => noted,
            }
        },
    }
}

/// The lines of a report with samples, the counts being `c` before its data.
pub open spec fn fifo_lines(
    c: ObserveCounts,
    info: ReportObserveInfo,
    args: Seq<ArgView>,
    decoder: Option<DecoderView>,
    shown: Seq<ScaledTexts>,
) -> Seq<Seq<char>> {
    let fifo_len = report::first_u32(args);
    match report::first_bytes(args) {
        None => seq![
            line_head("FIFO_RAW"@, info) + ": missing raw bytes arg ("@ + number_args(args) + ")"@,
        ],
        Some(b) => match decoder {
            None => seq![fifo_line(info, fifo_len, b, None)],
            Some(d) => {
                let all = samples_in(b, d);
                let line = fifo_line(
                    info,
                    fifo_len,
                    b,
                    Some(
                        (
                            all.len(),
                            watch_text::data_health(
                                fifo_len,
                                b.len(),
                                samples::left_over(b.len(), d.fields.len()),
                            ),
                        ),
                    ),
                );
                let more = watch_text::samples_text(
                    c.next_fifo_sample_index as nat,
                    all,
                    d,
                    shown,
                );
                if more.len() > 0 {
                    seq![line, "  "@ + more]
                } else {
                    seq![line]
                }
            },
        },
    }
}

/// Whether there are texts for the samples that are shown.
pub open spec fn shown_ok(
    c: ObserveCounts,
    args: Seq<ArgView>,
    decoder: Option<DecoderView>,
    shown: Seq<ScaledTexts>,
) -> bool {
    size_of(args, decoder) matches Some(s) ==> {
        &&& shown.len() >= watch_text::shown_count(s.0)
        &&& c.next_fifo_sample_index + watch_text::shown_count(s.0) <= u64::MAX + 1
        &&& forall|i: int|
            0 <= i < watch_text::shown_count(s.0) ==> watch_text::covers(
                #[trigger] shown[i],
                decoder->Some_0,
            )
    }
}

/// What a decoder stands for, if there is one.
pub open spec fn decoder_view(d: Option<&ReportDecoder>) -> Option<DecoderView> {
    match d {
        Some(d) => Some(d.view()),
        None => None,
    }
}

fn single(s: String) -> (v: Vec<String>)
    ensures
        text::texts(v@) == seq![s@],
{
    let mut v: Vec<String> = Vec::new();
    v.push(s);
    assert(text::texts(v@) =~= seq![s@]);
    v
}

/// Whether the counts can go up for a report with samples.
pub open spec fn fifo_room(
    c: ObserveCounts,
    args: Seq<ArgView>,
    decoder: Option<DecoderView>,
) -> bool {
    report::first_bytes(args) matches Some(bytes) ==> watch::data_room(
        c,
        report::first_u32(args),
        bytes.len(),
        size_of(args, decoder),
    )
}

/// Notes a report with samples, and gives its lines.
pub fn observe_fifo(
    state: &mut ReportObserveState,
    info: &ReportObserveInfo,
    args: &[ReportArg],
    decoder: Option<&ReportDecoder>,
    shown: &[ScaledTexts],
) -> (lines: Vec<String>)
    requires
        fifo_room(old(state).counts(), report::arg_views(args@), decoder_view(decoder)),
        shown_ok(old(state).counts(), report::arg_views(args@), decoder_view(decoder), shown@),
    ensures
        text::texts(lines@) == fifo_lines(
            old(state).counts(),
            *info,
            report::arg_views(args@),
            decoder_view(decoder),
            shown@,
        ),
        final(state).counts() == fifo_counts(
            old(state).counts(),
            report::arg_views(args@),
            decoder_view(decoder),
        ),
        final(state).kinds() == old(state).kinds(),
{
    let fifo_len: Option<u32> = first_report_u32(args);
    match first_report_bytes(args) {
        None => {
            let mut s: String = format_head("FIFO_RAW", info);
            s.push_str(": missing raw bytes arg (");
            s.push_str(format_number_args(args).as_str());
            s.push_str(")");
            single(s)
        },
        Some(bytes) => match decoder {
            None => {
                state.note_fifo_health(fifo_len, bytes.len(), None);
                single(format_fifo_line(info, fifo_len, bytes, None))
            },
            Some(ReportDecoder::I16Le(d)) => {
                let decoded = decode_i16_le_fifo_samples(bytes, d);
                let ghost all = samples::sample_views(decoded.samples@);
                assert(all.len() == decoded.samples@.len());
                state.note_fifo_health(fifo_len, bytes.len(), Some(&decoded));
                let base: u64 = state.reserve_fifo_samples(decoded.samples.len());
                let more = format_i16_le_fifo_decode(base, &decoded, d, shown);
                let health = format_fifo_raw_health(fifo_len, bytes.len(), &decoded);
                let line = format_fifo_line(
                    info,
                    fifo_len,
                    bytes,
                    Some((decoded.samples.len(), health)),
                );
                let mut lines = single(line);
                if chars_of(more.as_str()).len() > 0 {
                    let mut s: String = "  ".to_owned();
                    s.push_str(more.as_str());
                    let ghost first = text::texts(lines@);
                    lines.push(s);
                    assert(text::texts(lines@) =~= first.push(s@));
                    assert(first.push(s@) =~= seq![line@, s@]);
                }
                lines
            },
        },
    }
}

// ---- other reports

/// The line of a report without samples.
pub open spec fn named_line(
    names: Seq<(u32, String)>,
    info: ReportObserveInfo,
    kind: u32,
    args: Seq<ArgView>,
) -> Seq<char> {
    let head = line_head(report::kind_label(names, kind), info);
    let vals = watch_text::watch_args(args);
    if vals.len() == 0 {
        head
    } else {
        head + ": "@ + vals
    }
}

/// The line of a report without samples.
pub fn format_named_report(
    kinds: &ReportKinds,
    info: &ReportObserveInfo,
    kind: u32,
    args: &[ReportArg],
) -> (s: String)
    ensures
        s@ == named_line(kinds.names@, *info, kind, report::arg_views(args@)),
{
    let label = report_kind_label(kinds, kind);
    let mut s: String = format_head(label.as_str(), info);
    let vals = format_watch_args(args);
    if chars_of(vals.as_str()).len() > 0 {
        s.push_str(": ");
        s.push_str(vals.as_str());
    }
    s
}

// ---- any report

/// Whether a kind can be counted once more.
pub open spec fn kind_room(kinds: Map<u32, u64>, kind: u32) -> bool {
    kinds.dom().contains(kind) ==> kinds[kind] < u64::MAX
}

/// Notes a report, and gives what was found out and its lines.
pub fn observe_report(
    state: &mut ReportObserveState,
    kinds: &ReportKinds,
    meta: Option<ReportMeta>,
    kind: u32,
    args: &[ReportArg],
    decoder: Option<&ReportDecoder>,
    shown: &[ScaledTexts],
) -> (r: (ReportObserveInfo, Vec<String>))
    requires
        watch::counts_room(old(state).counts(), meta),
        kind_room(old(state).kinds(), kind),
        kind == kinds.fifo_raw ==> {
            &&& fifo_room(old(state).counts(), report::arg_views(args@), decoder_view(decoder))
            &&& shown_ok(
                old(state).counts(),
                report::arg_views(args@),
                decoder_view(decoder),
                shown@,
            )
        },
    ensures
        r.0 == watch::info_of(old(state).counts(), meta),
        final(state).kinds() == watch::noted(old(state).kinds(), kind),
        ({
            let c = watch::counts_after(old(state).counts(), meta);
            let view = report::arg_views(args@);
            if kind == kinds.fifo_raw {
                &&& final(state).counts() == fifo_counts(c, view, decoder_view(decoder))
                &&& text::texts(r.1@) == fifo_lines(c, r.0, view, decoder_view(decoder), shown@)
            } else {
                &&& final(state).counts() == c
                &&& text::texts(r.1@) == seq![named_line(kinds.names@, r.0, kind, view)]
            }
        }),
{
    let info = state.next(meta);
    state.note_report_kind(kind);
    if kind == kinds.fifo_raw {
        let lines = observe_fifo(state, &info, args, decoder, shown);
        (info, lines)
    } else {
        (info, single(format_named_report(kinds, &info, kind, args)))
    }
}

// ---- the summary

/// A kind of report with its count.
pub open spec fn kind_count(names: Seq<(u32, String)>, kinds: Map<u32, u64>, kind: u32) -> Seq<
    char,
> {
    report::kind_label(names, kind) + "="@ + text::dec(kinds[kind] as nat)
}

/// The kinds with their counts, in the given order of kinds.
pub open spec fn kind_counts(
    names: Seq<(u32, String)>,
    kinds: Map<u32, u64>,
    listed: Seq<u32>,
) -> Seq<Seq<char>> {
    listed.map_values(|k: u32| kind_count(names, kinds, k))
}

/// Whether a list names each of the kinds once.
pub open spec fn lists_kinds(listed: Seq<u32>, kinds: Map<u32, u64>) -> bool {
    listed.no_duplicates() && listed.to_set() == kinds.dom()
}

/// The summary of what was counted.
pub open spec fn summary_text(c: ObserveCounts, kinds: Seq<Seq<char>>) -> Seq<char> {
    "report health: total="@ + text::dec(c.seq as nat) + " kinds=["@ + text::joined(
        order::ordered(kinds),
        ", "@,
    ) + "] dropped="@ + text::dec(c.frame_gap_total as nat) + " frame_resets="@ + text::dec(
        c.frame_reset_count as nat,
    ) + " ts_rewinds="@ + text::dec(c.timestamp_rewind_count as nat) + " fifo_bytes="@ + text::dec(
        c.fifo_data_bytes as nat,
    ) + " fifo_samples="@ + text::dec(c.fifo_sample_count as nat) + " fifo_len_mismatch="@
        + text::dec(c.fifo_len_mismatch_count as nat) + " fifo_partial_reports="@ + text::dec(
        c.fifo_partial_count as nat,
    ) + " fifo_partial_bytes="@ + text::dec(c.fifo_partial_bytes as nat)
}

/// Whether a summary is due: after every so many reports.
pub open spec fn summary_due(seq: u64, every: u64) -> bool {
    every != 0 && seq != 0 && seq % every == 0
}

/// The summary of what was counted, where one is due. The order in which the kinds were
/// counted does not show.
pub fn maybe_summary(state: &ReportObserveState, kinds: &ReportKinds, every: u64) -> (s: Option<
    String,
>)
    ensures
        s is Some == summary_due(state.counts().seq, every),
        s is Some ==> exists|listed: Seq<u32>| #[trigger] lists_kinds(listed, state.kinds()),
        s matches Some(s) ==> forall|listed: Seq<u32>| #[trigger]
            lists_kinds(listed, state.kinds()) ==> s@ == summary_text(
                state.counts(),
                kind_counts(kinds.names@, state.kinds(), listed),
            ),
{
    let c = state.counted_so_far();
    if every == 0 || c.seq == 0 || c.seq % every != 0 {
        return None;
    }
    let list = state.kind_list();
    let mut parts: Vec<String> = Vec::new();
    let mut i: usize = 0;
    while i < list.len()
        invariant
            i <= list.len(),
            watch::lists_counts(list@, state.kinds()),
            parts@.len() == i,
            forall|k: int|
                0 <= k < i ==> (#[trigger] parts@[k])@ == kind_count(
                    kinds.names@,
                    state.kinds(),
                    list@[k].0,
                ),
        decreases list.len() - i,
    {
        let mut s: String = report_kind_label(kinds, list[i].0);
        s.push_str("=");
        push_dec(&mut s, list[i].1 as u128);
        parts.push(s);
        i += 1;
    }
    let ghost order_seen = list@.map_values(|p: (u32, u64)| p.0);
    let ghost seen = text::texts(parts@);
    proof {
        assert(seen =~= kind_counts(kinds.names@, state.kinds(), order_seen));
        lemma_listed(state.kinds(), order_seen, list@);
        assert forall|listed: Seq<u32>| #[trigger]
            lists_kinds(listed, state.kinds()) implies order::ordered(
            kind_counts(kinds.names@, state.kinds(), listed),
        ) == order::ordered(seen) by {
            lemma_map_of_same(
                listed,
                order_seen,
                |k: u32| kind_count(kinds.names@, state.kinds(), k),
            );
            order::law_ordered_of_permutation(
                kind_counts(kinds.names@, state.kinds(), listed),
                seen,
            );
        }
    }
    let sorted = sort_texts(parts);
    let mut s: String = "report health: total=".to_owned();
    push_dec(&mut s, c.seq as u128);
    s.push_str(" kinds=[");
    s.push_str(join(&sorted, ", ").as_str());
    s.push_str("] dropped=");
    push_dec(&mut s, c.frame_gap_total as u128);
    s.push_str(" frame_resets=");
    push_dec(&mut s, c.frame_reset_count as u128);
    s.push_str(" ts_rewinds=");
    push_dec(&mut s, c.timestamp_rewind_count as u128);
    s.push_str(" fifo_bytes=");
    push_dec(&mut s, c.fifo_data_bytes as u128);
    s.push_str(" fifo_samples=");
    push_dec(&mut s, c.fifo_sample_count as u128);
    s.push_str(" fifo_len_mismatch=");
    push_dec(&mut s, c.fifo_len_mismatch_count as u128);
    s.push_str(" fifo_partial_reports=");
    push_dec(&mut s, c.fifo_partial_count as u128);
    s.push_str(" fifo_partial_bytes=");
    push_dec(&mut s, c.fifo_partial_bytes as u128);
    Some(s)
}

proof fn lemma_listed(kinds: Map<u32, u64>, b: Seq<u32>, list: Seq<(u32, u64)>)
    requires
        watch::lists_counts(list, kinds),
        b == list.map_values(|p: (u32, u64)| p.0),
    ensures
        lists_kinds(b, kinds),
{
    assert(b.no_duplicates()) by {
        assert forall|i: int, j: int| 0 <= i < b.len() && 0 <= j < b.len() && i != j implies b[i]
            != b[j] by {
            if i < j {
                assert(list[i].0 != list[j].0);
            } else {
                assert(list[j].0 != list[i].0);
            }
        }
    }
    assert(b.to_set() =~= kinds.dom()) by {
        assert forall|k: u32| b.to_set().contains(k) <==> kinds.dom().contains(k) by {
            if b.to_set().contains(k) {
                let i = choose|i: int| 0 <= i < b.len() && b[i] == k;
                assert(kinds.dom().contains(list[i].0));
            }
            if kinds.dom().contains(k) {
                let i = choose|i: int| 0 <= i < list.len() && (#[trigger] list[i]).0 == k;
                assert(b[i] == k);
            }
        }
    }
}

proof fn lemma_map_of_same(a: Seq<u32>, b: Seq<u32>, f: spec_fn(u32) -> Seq<char>)
    requires
        a.no_duplicates(),
        b.no_duplicates(),
        a.to_set() == b.to_set(),
    ensures
        a.map_values(f).to_multiset() == b.map_values(f).to_multiset(),
    decreases a.len(),
{
    broadcast use vstd::seq_lib::group_to_multiset_ensures;
    if a.len() == 0 {
        assert(b.len() == 0) by {
            if b.len() > 0 {
                assert(b.contains(b[0]));
                assert(b.to_set().contains(b[0]));
                assert(a.contains(b[0]));
            }
        }
        assert(a.map_values(f) =~= b.map_values(f));
    } else {
        let k = a.last();
        assert(a.contains(a[a.len() - 1]));
        assert(a.to_set().contains(k));
        assert(b.contains(k));
        let i = choose|i: int| 0 <= i < b.len() && b[i] == k;
        let x = a.drop_last();
        let y = b.remove(i);
        assert(x.no_duplicates());
        assert(y.no_duplicates()) by {
            assert forall|p: int, q: int| 0 <= p < y.len() && 0 <= q < y.len() && p != q implies
                y[p] != y[q] by {
                let pp = if p < i {
                    p
                } else {
                    p + 1
                };
                let qq = if q < i {
                    q
                } else {
                    q + 1
                };
                assert(y[p] == b[pp] && y[q] == b[qq]);
            }
        }
        assert(x.to_set() =~= y.to_set()) by {
            assert forall|v: u32| x.to_set().contains(v) <==> y.to_set().contains(v) by {
                if x.to_set().contains(v) {
                    let p = choose|p: int| 0 <= p < x.len() && x[p] == v;
                    assert(a[p] == v);
                    assert(a.to_set().contains(v));
                    assert(b.to_set().contains(v));
                    let q = choose|q: int| 0 <= q < b.len() && b[q] == v;
                    assert(v != k);
                    if q < i {
                        assert(y[q] == v);
                    } else {
                        assert(y[q - 1] == v);
                    }
                }
                if y.to_set().contains(v) {
                    let q = choose|q: int| 0 <= q < y.len() && y[q] == v;
                    let qq = if q < i {
                        q
                    } else {
                        q + 1
                    };
                    assert(b[qq] == v);
                    assert(v != k);
                    assert(b.to_set().contains(v));
                    assert(a.to_set().contains(v));
                    let p = choose|p: int| 0 <= p < a.len() && a[p] == v;
                    assert(x[p] == v);
                }
            }
        }
        lemma_map_of_same(x, y, f);
        assert(a.map_values(f) =~= x.map_values(f).push(f(k)));
        assert(y.map_values(f) =~= b.map_values(f).remove(i));
        let bm = b.map_values(f);
        assert(bm =~= bm.remove(i).insert(i, bm[i]));
        vstd::seq_lib::to_multiset_insert(bm.remove(i), i, bm[i]);
        assert(bm[i] == f(k));
        assert(a.map_values(f).to_multiset() =~= x.map_values(f).to_multiset().insert(f(k)));
    }
}

} // verus!
