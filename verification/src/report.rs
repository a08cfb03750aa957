//! Reports of a device as the host keeps and shows them.
use crate::text;
use crate::text::{push_dec, push_hex};
use crate::wire;
use crate::wire::{ArgView, ReportMeta};
use vstd::prelude::*;
use vstd::slice::slice_subrange;

verus! {

/// An argument of a report.
#[derive(Debug, Clone, PartialEq, Eq)]
pub enum ReportArg {
    U32(u32),
    Bytes(Vec<u8>),
}

impl ReportArg {
    pub open spec fn view(self) -> ArgView {
        match self {
            Self::U32(v) => ArgView::U32(v),
            Self::Bytes(b) => ArgView::Bytes(b@),
        }
    }

    /// A copy of the argument.
    pub fn copy(&self) -> (c: Self)
        ensures
            c.view() == self.view(),
    {
        match self {
            Self::U32(v) => Self::U32(*v),
            Self::Bytes(b) => {
                let c = crate::le::copy_range(b, 0, b.len());
                assert(c@ =~= b@);
                Self::Bytes(c)
            },
        }
    }
}

/// What a list of arguments stands for.
pub open spec fn arg_views(args: Seq<ReportArg>) -> Seq<ArgView> {
    args.map_values(|a: ReportArg| a.view())
}

/// A copy of a list of arguments.
pub fn copy_args(args: &[ReportArg]) -> (c: Vec<ReportArg>)
    ensures
        arg_views(c@) == arg_views(args@),
{
    let mut c: Vec<ReportArg> = Vec::new();
    let mut i: usize = 0;
    while i < args.len()
        invariant
            i <= args.len(),
            arg_views(c@) == arg_views(args@.take(i as int)),
        decreases args.len() - i,
    {
        let ghost before = c@;
        let a = args[i].copy();
        c.push(a);
        i += 1;
        assert(arg_views(c@) =~= arg_views(before).push(a.view()));
        assert(arg_views(args@.take(i as int)) =~= arg_views(args@.take(i - 1)).push(
            args@[i - 1].view(),
        ));
    }
    assert(args@.take(args@.len() as int) =~= args@);
    c
}

/// An operation that a device reported.
#[allow(inconsistent_fields)]
#[derive(Debug, Clone, PartialEq, Eq)]
pub enum BusOp {
    Read { addr: u32, data: Vec<u8> },
    Write { addr: u32, data: Vec<u8> },
    Delay { us: u32 },
    Log { msg: String },
    Irq { pin: u8 },
    BusSelect { bus: String, arg: u32 },
    Report { meta: Option<ReportMeta>, kind: u32, args: Vec<ReportArg> },
}

/// The kind that carries sensor samples, the names under which kinds are shown, and
/// the names by which sources give kinds.
#[derive(Debug, Clone, PartialEq, Eq)]
pub struct ReportKinds {
    pub fifo_raw: u32,
    pub names: Vec<(u32, String)>,
    pub values: Vec<(String, u32)>,
}

/// The name of a kind: the first in the table.
pub open spec fn kind_name(names: Seq<(u32, String)>, kind: u32) -> Option<Seq<char>>
    decreases names.len(),
{
    if names.len() == 0 {
        None
    } else {
        match kind_name(names.drop_last(), kind) {
            Some(n) => Some(n),
            None => if names.last().0 == kind {
                Some(names.last().1@)
            } else {
                None
            },
        }
    }
}

/// How a kind of report is shown: by name, or by number where it has none.
pub open spec fn kind_label(names: Seq<(u32, String)>, kind: u32) -> Seq<char> {
    match kind_name(names, kind) {
        Some(n) => n,
        None => "kind=0x"@ + text::hex(kind as nat, 1),
    }
}

/// How a kind of report is shown.
pub fn report_kind_label(kinds: &ReportKinds, kind: u32) -> (s: String)
    ensures
        s@ == kind_label(kinds.names@, kind),
{
    let names = &kinds.names;
    let mut i: usize = 0;
    while i < names.len()
        invariant
            i <= names.len(),
            names == &kinds.names,
            kind_name(names@.take(i as int), kind) is None,
        decreases names.len() - i,
    {
        assert(names@.take(i + 1).drop_last() =~= names@.take(i as int));
        if names[i].0 == kind {
            proof {
                lemma_kind_name_stays(names@, i + 1, kind);
            }
            return names[i].1.clone();
        }
        i += 1;
    }
    assert(names@.take(names@.len() as int) =~= names@);
    let mut s: String = "kind=0x".to_owned();
    push_hex(&mut s, kind as u128, 1);
    s
}

proof fn lemma_kind_name_stays(names: Seq<(u32, String)>, i: int, kind: u32)
    requires
        0 <= i <= names.len(),
        kind_name(names.take(i), kind) is Some,
    ensures
        kind_name(names, kind) == kind_name(names.take(i), kind),
    decreases names.len() - i,
{
    if i < names.len() {
        assert(names.take(i + 1).drop_last() =~= names.take(i));
        lemma_kind_name_stays(names, i + 1, kind);
    } else {
        assert(names.take(i) =~= names);
    }
}

/// How the metadata of a report is shown behind its kind.
pub open spec fn meta_text(meta: Option<ReportMeta>) -> Seq<char> {
    match meta {
        Some(m) => if wire::timestamp_flag(m.flags) {
            " frame_id="@ + text::dec(m.frame_id as nat) + " ts_us="@ + text::dec(
                m.timestamp_us as nat,
            )
        } else {
            " frame_id="@ + text::dec(m.frame_id as nat)
        },
        None => Seq::empty(),
    }
}

/// How the metadata of a report is shown behind its kind.
pub fn format_report_meta(meta: Option<ReportMeta>) -> (s: String)
    ensures
        s@ == meta_text(meta),
{
    match meta {
        Some(m) => {
            let mut s: String = " frame_id=".to_owned();
            push_dec(&mut s, m.frame_id as u128);
            if m.timestamp_valid() {
                s.push_str(" ts_us=");
                push_dec(&mut s, m.timestamp_us as u128);
            }
            s
        },
        None => String::new(),
    }
}

/// Bytes as they are shown, with `sep` between them.
pub open spec fn hex_join(bytes: Seq<u8>, sep: Seq<char>) -> Seq<char>
    decreases bytes.len(),
{
    if bytes.len() == 0 {
        Seq::empty()
    } else if bytes.len() == 1 {
        text::hex(bytes[0] as nat, 2)
    } else {
        hex_join(bytes.drop_last(), sep) + sep + text::hex(bytes.last() as nat, 2)
    }
}

/// Appends bytes as they are shown, with `sep` between them.
pub fn push_hex_join(out: &mut String, bytes: &[u8], sep: &str)
    ensures
        final(out)@ == old(out)@ + hex_join(bytes@, sep@),
{
    let mut i: usize = 0;
    assert(out@ =~= old(out)@ + hex_join(bytes@.take(0), sep@));
    while i < bytes.len()
        invariant
            i <= bytes.len(),
            out@ == old(out)@ + hex_join(bytes@.take(i as int), sep@),
        decreases bytes.len() - i,
    {
        assert(bytes@.take(i + 1).drop_last() =~= bytes@.take(i as int));
        if i > 0 {
            out.push_str(sep);
        }
        push_hex(out, bytes[i] as u128, 2);
        assert(out@ =~= old(out)@ + hex_join(bytes@.take(i + 1), sep@));
        i += 1;
    }
    assert(bytes@.take(bytes@.len() as int) =~= bytes@);
}

/// Bytes as they are shown: two digits each, with spaces between them.
pub open spec fn hex_text(bytes: Seq<u8>) -> Seq<char> {
    hex_join(bytes, " "@)
}

/// Bytes as they are shown.
pub fn hex_bytes(bytes: &[u8]) -> (s: String)
    ensures
        s@ == hex_text(bytes@),
{
    let mut s: String = String::new();
    push_hex_join(&mut s, bytes, " ");
    assert(s@ =~= hex_text(bytes@));
    s
}

/// At most `max` bytes as they are shown, and how many more there are.
pub open spec fn preview_text(bytes: Seq<u8>, max: nat) -> Seq<char> {
    if bytes.len() > max {
        hex_text(bytes.take(max as int)) + " ... +"@ + text::dec((bytes.len() - max) as nat) + "B"@
    } else {
        hex_text(bytes)
    }
}

/// At most `max` bytes as they are shown, and how many more there are.
pub fn hex_preview(bytes: &[u8], max: usize) -> (s: String)
    ensures
        s@ == preview_text(bytes@, max as nat),
{
    if bytes.len() > max {
        assert(bytes@.subrange(0, max as int) =~= bytes@.take(max as int));
        let mut s: String = hex_bytes(slice_subrange(bytes, 0, max));
        s.push_str(" ... +");
        push_dec(&mut s, (bytes.len() - max) as u128);
        s.push_str("B");
        s
    } else {
        hex_bytes(bytes)
    }
}

/// An argument as it is shown.
pub open spec fn arg_text(arg: ArgView) -> Seq<char> {
    match arg {
        ArgView::U32(v) => "u32=0x"@ + text::hex(v as nat, 8),
        ArgView::Bytes(b) => "bytes["@ + text::dec(b.len()) + "]=["@ + preview_text(b, 16) + "]"@,
    }
}

/// Arguments as they are shown.
pub open spec fn args_text(args: Seq<ArgView>) -> Seq<char> {
    text::joined(args.map_values(|a: ArgView| arg_text(a)), ", "@)
}

fn format_report_arg(arg: &ReportArg) -> (s: String)
    ensures
        s@ == arg_text(arg.view()),
{
    match arg {
        ReportArg::U32(v) => {
            let mut s: String = "u32=0x".to_owned();
            push_hex(&mut s, *v as u128, 8);
            s
        },
        ReportArg::Bytes(b) => {
            let mut s: String = "bytes[".to_owned();
            push_dec(&mut s, b.len() as u128);
            s.push_str("]=[");
            s.push_str(hex_preview(b, 16).as_str());
            s.push_str("]");
            s
        },
    }
}

/// Arguments as they are shown.
pub fn format_report_args(args: &[ReportArg]) -> (s: String)
    ensures
        s@ == args_text(arg_views(args@)),
{
    let mut parts: Vec<String> = Vec::new();
    let mut i: usize = 0;
    while i < args.len()
        invariant
            i <= args.len(),
            parts@.len() == i,
            forall|k: int| 0 <= k < i ==> (#[trigger] parts@[k])@ == arg_text(args@[k].view()),
        decreases args.len() - i,
    {
        parts.push(format_report_arg(&args[i]));
        i += 1;
    }
    assert(text::texts(parts@) =~= arg_views(args@).map_values(|a: ArgView| arg_text(a)));
    text::join(&parts, ", ")
}

/// The first number among arguments.
pub open spec fn first_u32(args: Seq<ArgView>) -> Option<u32>
    decreases args.len(),
{
    if args.len() == 0 {
        None
    } else {
        match args[0] {
            ArgView::U32(v) => Some(v),
            ArgView::Bytes(_) => first_u32(args.skip(1)),
        }
    }
}

/// The first raw bytes among arguments.
pub open spec fn first_bytes(args: Seq<ArgView>) -> Option<Seq<u8>>
    decreases args.len(),
{
    if args.len() == 0 {
        None
    } else {
        match args[0] {
            ArgView::Bytes(b) => Some(b),
            ArgView::U32(_) => first_bytes(args.skip(1)),
        }
    }
}

/// The first number among arguments.
pub fn first_report_u32(args: &[ReportArg]) -> (v: Option<u32>)
    ensures
        v == first_u32(arg_views(args@)),
{
    let ghost view = arg_views(args@);
    let mut i: usize = 0;
    assert(view.skip(0) =~= view);
    while i < args.len()
        invariant
            i <= args.len(),
            view == arg_views(args@),
            first_u32(view) == first_u32(view.skip(i as int)),
        decreases args.len() - i,
    {
        assert(view.skip(i as int)[0] == args@[i as int].view());
        assert(view.skip(i as int).skip(1) =~= view.skip(i + 1));
        match &args[i] {
            ReportArg::U32(v) => {
                return Some(*v);
            },
            ReportArg::Bytes(_) => {},
        }
        i += 1;
    }
    None
}

/// The first raw bytes among arguments.
pub fn first_report_bytes(args: &[ReportArg]) -> (b: Option<&[u8]>)
    ensures
        (match b {
            Some(b) => Some(b@),
            None => None,
        }) == first_bytes(arg_views(args@)),
{
    let ghost view = arg_views(args@);
    let mut i: usize = 0;
    assert(view.skip(0) =~= view);
    while i < args.len()
        invariant
            i <= args.len(),
            view == arg_views(args@),
            first_bytes(view) == first_bytes(view.skip(i as int)),
        decreases args.len() - i,
    {
        assert(view.skip(i as int)[0] == args@[i as int].view());
        assert(view.skip(i as int).skip(1) =~= view.skip(i + 1));
        match &args[i] {
            ReportArg::Bytes(b) => {
                return Some(b.as_slice());
            },
            ReportArg::U32(_) => {},
        }
        i += 1;
    }
    None
}

} // verus!
