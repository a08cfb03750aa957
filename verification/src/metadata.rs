//! What is known of chips and reports, gathered from chip descriptions and sequences.
use crate::catalog;
use crate::catalog::{Register, RegisterCatalog};
use crate::catalog::RegView;
use crate::decoder::DecoderView;
use crate::program;
use crate::program::{collect_report_decoders, Stmt};
use crate::program::Collected;
use crate::samples;
use crate::samples::ReportDecoderRegistry;
use crate::session::two;
use crate::text;
use crate::text::push_dec;
use vstd::prelude::*;

verus! {

// ---- what is told of faults

/// Where and why a source cannot be read or compiled.
#[derive(Debug, Clone, PartialEq, Eq)]
pub struct SourceFault {
    pub message: String,
    pub start: usize,
    pub end: usize,
}

/// What is told of a fault behind `what`.
pub open spec fn fault_text(what: Seq<char>, name: Seq<char>, f: SourceFault) -> Seq<char> {
    what + name + ": "@ + f.message@ + " at bytes "@ + text::dec(f.start as nat) + ".."@
        + text::dec(f.end as nat)
}

fn format_fault(what: &str, name: &str, f: &SourceFault) -> (s: String)
    ensures
        s@ == fault_text(what@, name@, *f),
{
    let mut s: String = two(what, name);
    s.push_str(": ");
    s.push_str(f.message.as_str());
    s.push_str(" at bytes ");
    push_dec(&mut s, f.start as u128);
    s.push_str("..");
    push_dec(&mut s, f.end as u128);
    s
}

/// What is told of a source that cannot be parsed.
pub fn parse_fault_text(name: &str, f: &SourceFault) -> (s: String)
    ensures
        s@ == fault_text("could not parse "@, name@, *f),
{
    format_fault("could not parse ", name, f)
}

/// What is told of a source of report formats that cannot be parsed.
pub fn report_parse_fault_text(name: &str, f: &SourceFault) -> (s: String)
    ensures
        s@ == fault_text("could not parse report metadata in "@, name@, *f),
{
    format_fault("could not parse report metadata in ", name, f)
}

/// What is told of a source that cannot be compiled, with help where there is some.
pub open spec fn compile_fault(name: Option<Seq<char>>, f: SourceFault, help: Option<Seq<char>>) -> Seq<
    char,
> {
    fault_text(
        "could not compile "@,
        match name {
            Some(n) => n,
            None => "<unknown source>"@,
        },
        f,
    ) + (match help {
        Some(h) => " ("@ + h + ")"@,
        None => Seq::empty(),
    })
}

/// What is told of a source that cannot be compiled.
pub fn compile_fault_text(name: Option<&str>, f: &SourceFault, help: Option<&str>) -> (s: String)
    ensures
        s@ == compile_fault(
            match name {
                Some(n) => Some(n@),
                None => None,
            },
            *f,
            match help {
                Some(h) => Some(h@),
                None => None,
            },
        ),
{
    let mut s: String = format_fault(
        "could not compile ",
        match name {
            Some(n) => n,
            None => "<unknown source>",
        },
        f,
    );
    let ghost before = s@;
    match help {
        Some(h) => {
            s.push_str(" (");
            s.push_str(h);
            s.push_str(")");
            assert(s@ =~= before + (" ("@ + h@ + ")"@));
        },
        None => {
            assert(s@ =~= before + Seq::<char>::empty());
        },
    }
    s
}

// ---- where a chip description is

/// A directory above a source, and whether the chip description is there.
#[derive(Debug, Clone, PartialEq, Eq)]
pub struct Candidate {
    pub path: String,
    pub exists: bool,
}

/// The first candidate that exists.
pub open spec fn first_existing(list: Seq<Candidate>) -> Option<Seq<char>>
    decreases list.len(),
{
    if list.len() == 0 {
        None
    } else if list[0].exists {
        Some(list[0].path@)
    } else {
        first_existing(list.skip(1))
    }
}

/// Where a chip description is taken from: where it was resolved to if it is there, else as it is
/// named if that is absolute, else in the nearest directory above the source that has it, else
/// where it was resolved to.
pub fn resolve_host_chip_path(
    resolved: &Candidate,
    named: &str,
    absolute: bool,
    above: &[Candidate],
) -> (path: String)
    ensures
        path@ == (if resolved.exists {
            resolved.path@
        } else if absolute {
            named@
        } else {
            match first_existing(above@) {
                Some(p) => p,
                None => resolved.path@,
            }
        }),
{
    if resolved.exists {
        return resolved.path.clone();
    }
    if absolute {
        return named.to_owned();
    }
    let mut i: usize = 0;
    assert(above@.skip(0) =~= above@);
    while i < above.len()
        invariant
            i <= above.len(),
            !resolved.exists,
            !absolute,
            first_existing(above@) == first_existing(above@.skip(i as int)),
        decreases above.len() - i,
    {
        assert(above@.skip(i as int)[0] == above@[i as int]);
        assert(above@.skip(i as int).skip(1) =~= above@.skip(i + 1));
        if above[i].exists {
            return above[i].path.clone();
        }
        i += 1;
    }
    resolved.path.clone()
}

// ---- registers

/// A register on its page.
#[derive(Debug, Clone, PartialEq, Eq)]
pub struct PageRegister {
    pub page: String,
    pub register: Register,
}

/// A chip description that was to be read: how it is named, and its registers or why it has none.
#[derive(Debug, PartialEq, Eq)]
pub struct ChipRead {
    pub path: String,
    pub registers: Result<Vec<PageRegister>, String>,
}

/// A catalog of registers, as a mathematical value.
pub struct CatalogView {
    pub marks: Map<u32, bool>,
    pub regs: Seq<RegView>,
}

/// What a catalog stands for.
pub open spec fn catalog_view(c: RegisterCatalog) -> CatalogView {
    CatalogView { marks: c.marks(), regs: c.regs() }
}

/// A catalog with one more register.
pub open spec fn entered(c: CatalogView, p: PageRegister) -> CatalogView {
    let r = p.register.on_page(p.page@);
    CatalogView {
        marks: catalog::marked(
            c.marks,
            r.addr,
            catalog::byte_width(r) as nat,
            !p.register.no_dump,
        ),
        regs: catalog::with_register(c.regs, r),
    }
}

/// A catalog with more registers.
pub open spec fn entered_all(c: CatalogView, list: Seq<PageRegister>) -> CatalogView
    decreases list.len(),
{
    if list.len() == 0 {
        c
    } else {
        entered(entered_all(c, list.drop_last()), list.last())
    }
}

/// Whether the bytes of a register all have addresses.
pub open spec fn register_fits(p: PageRegister) -> bool {
    p.register.addr + catalog::byte_width(p.register.on_page(p.page@)) <= 0x1_0000_0000
}

/// Whether the bytes of the registers of chips all have addresses.
pub open spec fn chips_fit(chips: Seq<ChipRead>) -> bool {
    forall|i: int, j: int|
        0 <= i < chips.len() && chips[i].registers is Ok && 0 <= j
            < chips[i].registers->Ok_0@.len() ==> register_fits(
            #[trigger] chips[i].registers->Ok_0@[j],
        )
}

/// A catalog with the registers of chips, or why a chip has none. The reason is given with the
/// name of the source that names the chip, or of the chip.
pub open spec fn with_chips(c: CatalogView, chips: Seq<ChipRead>, source: Option<Seq<char>>) -> Result<
    CatalogView,
    Seq<char>,
>
    decreases chips.len(),
{
    if chips.len() == 0 {
        Ok(c)
    } else {
        match with_chips(c, chips.drop_last(), source) {
            Err(e) => Err(e),
            Ok(done) => match chips.last().registers {
                Ok(list) => Ok(entered_all(done, list@)),
                Err(e) => Err(
                    (match source {
                        Some(s) => s,
                        None => chips.last().path@,
                    }) + ": "@ + e@,
                ),
            },
        }
    }
}

fn enter_registers(c: &mut RegisterCatalog, list: &[PageRegister])
    requires
        forall|i: int| 0 <= i < list@.len() ==> register_fits(#[trigger] list@[i]),
    ensures
        catalog_view(*final(c)) == entered_all(catalog_view(*old(c)), list@),
{
    let mut i: usize = 0;
    assert(list@.take(0) =~= Seq::<PageRegister>::empty());
    while i < list.len()
        invariant
            i <= list.len(),
            forall|i: int| 0 <= i < list@.len() ==> register_fits(#[trigger] list@[i]),
            catalog_view(*c) == entered_all(catalog_view(*old(c)), list@.take(i as int)),
        decreases list.len() - i,
    {
        assert(list@.take(i + 1).drop_last() =~= list@.take(i as int));
        assert(register_fits(list@[i as int]));
        c.mark_register(list[i].page.as_str(), &list[i].register);
        i += 1;
    }
    assert(list@.take(list@.len() as int) =~= list@);
}

proof fn lemma_chips_fail(c: CatalogView, chips: Seq<ChipRead>, source: Option<Seq<char>>, i: int)
    requires
        0 <= i <= chips.len(),
        with_chips(c, chips.take(i), source) is Err,
    ensures
        with_chips(c, chips, source) == with_chips(c, chips.take(i), source),
    decreases chips.len() - i,
{
    if i < chips.len() {
        assert(chips.take(i + 1).drop_last() =~= chips.take(i));
        lemma_chips_fail(c, chips, source, i + 1);
    } else {
        assert(chips.take(i) =~= chips);
    }
}

fn enter_chips(c: &mut RegisterCatalog, chips: &[ChipRead], source: Option<&str>) -> (r: Result<
    (),
    String,
>)
    requires
        chips_fit(chips@),
    ensures
        match with_chips(
            catalog_view(*old(c)),
            chips@,
            match source {
                Some(s) => Some(s@),
                None => None,
            },
        ) {
            Ok(v) => r is Ok && catalog_view(*final(c)) == v,
            Err(e) => r matches Err(s) && s@ == e,
        },
{
    let ghost who = match source {
        Some(s) => Some(s@),
        None => None,
    };
    let ghost start = catalog_view(*c);
    let mut i: usize = 0;
    assert(chips@.take(0) =~= Seq::<ChipRead>::empty());
    while i < chips.len()
        invariant
            i <= chips.len(),
            chips_fit(chips@),
            start == catalog_view(*old(c)),
            who == (match source {
                Some(s) => Some(s@),
                None => None,
            }),
            with_chips(start, chips@.take(i as int), who) == Ok::<CatalogView, Seq<char>>(
                catalog_view(*c),
            ),
        decreases chips.len() - i,
    {
        assert(chips@.take(i + 1).drop_last() =~= chips@.take(i as int));
        match &chips[i].registers {
            Ok(list) => {
                assert forall|j: int| 0 <= j < list@.len() implies register_fits(
                    #[trigger] list@[j],
                ) by {
                    assert(chips@[i as int].registers->Ok_0@[j] == list@[j]);
                }
                enter_registers(c, list);
            },
            Err(e) => {
                let mut s: String = match source {
                    Some(n) => n.to_owned(),
                    None => chips[i].path.clone(),
                };
                s.push_str(": ");
                s.push_str(e.as_str());
                proof {
                    lemma_chips_fail(start, chips@, who, i + 1);
                }
                return Err(s);
            },
        }
        i += 1;
    }
    assert(chips@.take(chips@.len() as int) =~= chips@);
    Ok(())
}

// ---- all together

/// What is known of chips and reports.
#[derive(Debug, Clone)]
pub struct HostMetadata {
    pub register_catalog: RegisterCatalog,
    pub report_decoders: ReportDecoderRegistry,
}

impl Default for HostMetadata {
    fn default() -> (m: Self)
        ensures
            m.view() == no_metadata(),
    {
        let m = HostMetadata {
            register_catalog: RegisterCatalog::default(),
            report_decoders: ReportDecoderRegistry::default(),
        };
        assert(samples::decoder_views(m.report_decoders@) =~= Map::<u32, DecoderView>::empty());
        m
    }
}

/// What is known of chips and reports, as a mathematical value.
pub struct MetadataView {
    pub registers: CatalogView,
    pub decoders: Map<u32, DecoderView>,
}

impl HostMetadata {
    pub open spec fn view(self) -> MetadataView {
        MetadataView {
            registers: catalog_view(self.register_catalog),
            decoders: samples::decoder_views(self.report_decoders@),
        }
    }
}

/// Before anything is known.
pub open spec fn no_metadata() -> MetadataView {
    MetadataView {
        registers: CatalogView { marks: Map::empty(), regs: Seq::empty() },
        decoders: Map::empty(),
    }
}

/// A source: how it is called, its statements or why it has none, and the chip descriptions that
/// they name, in order.
#[derive(Debug, PartialEq, Eq)]
pub struct SourceRead {
    pub name: String,
    pub stmts: Result<Vec<Stmt>, SourceFault>,
    pub chips: Vec<ChipRead>,
}

/// What chip descriptions are named.
pub open spec fn chip_names(chips: Seq<ChipRead>) -> Seq<Seq<char>> {
    chips.map_values(|c: ChipRead| c.path@)
}

/// Whether the chip descriptions of a source are those that it names, and their registers fit.
pub open spec fn source_fits(s: SourceRead) -> bool {
    &&& chips_fit(s.chips@)
    &&& s.stmts matches Ok(stmts) ==> chip_names(s.chips@) == program::chip_paths(stmts@)
}

/// What is known with one more source, or what is wrong with it.
pub open spec fn with_source(values: Seq<(String, u32)>, m: MetadataView, s: SourceRead) -> Result<
    MetadataView,
    Seq<char>,
> {
    match s.stmts {
        Err(f) => Err(fault_text("could not parse "@, s.name@, f)),
        Ok(stmts) => {
            let c = program::after_stmts(
                values,
                stmts@,
                Collected { decoders: m.decoders, error: None },
            );
            match c.error {
                Some(e) => Err(s.name@ + ": "@ + e),
                None => match with_chips(m.registers, s.chips@, Some(s.name@)) {
                    Err(e) => Err(e),
                    Ok(registers) => Ok(MetadataView { registers, decoders: c.decoders }),
                },
            }
        },
    }
}

/// What is known with more sources, or what is wrong with the first that does not fit.
pub open spec fn with_sources(values: Seq<(String, u32)>, m: MetadataView, sources: Seq<SourceRead>) -> Result<
    MetadataView,
    Seq<char>,
>
    decreases sources.len(),
{
    if sources.len() == 0 {
        Ok(m)
    } else {
        match with_sources(values, m, sources.drop_last()) {
            Err(e) => Err(e),
            Ok(done) => with_source(values, done, sources.last()),
        }
    }
}

/// What is known of chips and sources.
pub open spec fn metadata_of(
    values: Seq<(String, u32)>,
    sources: Seq<SourceRead>,
    chips: Seq<ChipRead>,
) -> Result<MetadataView, Seq<char>> {
    match with_chips(no_metadata().registers, chips, None) {
        Err(e) => Err(e),
        Ok(registers) => with_sources(
            values,
            MetadataView { registers, decoders: Map::empty() },
            sources,
        ),
    }
}

proof fn lemma_sources_fail(
    values: Seq<(String, u32)>,
    m: MetadataView,
    sources: Seq<SourceRead>,
    i: int,
)
    requires
        0 <= i <= sources.len(),
        with_sources(values, m, sources.take(i)) is Err,
    ensures
        with_sources(values, m, sources) == with_sources(values, m, sources.take(i)),
    decreases sources.len() - i,
{
    if i < sources.len() {
        assert(sources.take(i + 1).drop_last() =~= sources.take(i));
        lemma_sources_fail(values, m, sources, i + 1);
    } else {
        assert(sources.take(i) =~= sources);
    }
}

fn enter_source(values: &[(String, u32)], m: &mut HostMetadata, s: &SourceRead) -> (r: Result<
    (),
    String,
>)
    requires
        source_fits(*s),
    ensures
        match with_source(values@, old(m).view(), *s) {
            Ok(v) => r is Ok && final(m).view() == v,
            Err(e) => r matches Err(t) && t@ == e,
        },
{
    match &s.stmts {
        Err(f) => Err(parse_fault_text(s.name.as_str(), f)),
        Ok(stmts) => {
            match collect_report_decoders(values, stmts, &mut m.report_decoders) {
                Err(e) => {
                    let mut t: String = two(s.name.as_str(), ": ");
                    t.push_str(e.as_str());
                    Err(t)
                },
                Ok(()) => enter_chips(&mut m.register_catalog, &s.chips, Some(s.name.as_str())),
            }
        },
    }
}

/// What is known of chips and sources: registers and report decoders, or what is wrong with the
/// first that does not fit. Chips that are given come before those that sources name.
pub fn load_host_metadata_from_sources(
    values: &[(String, u32)],
    sources: &[SourceRead],
    chips: &[ChipRead],
) -> (r: Result<HostMetadata, String>)
    requires
        chips_fit(chips@),
        forall|i: int| 0 <= i < sources@.len() ==> source_fits(#[trigger] sources@[i]),
    ensures
        (match r {
            Ok(m) => Ok(m.view()),
            Err(e) => Err(e@),
        }) == metadata_of(values@, sources@, chips@),
{
    let mut m = HostMetadata::default();
    match enter_chips(&mut m.register_catalog, chips, None) {
        Ok(()) => {},
        Err(e) => {
            return Err(e);
        },
    }
    let ghost start = m.view();
    let mut i: usize = 0;
    assert(sources@.take(0) =~= Seq::<SourceRead>::empty());
    while i < sources.len()
        invariant
            i <= sources.len(),
            forall|i: int| 0 <= i < sources@.len() ==> source_fits(#[trigger] sources@[i]),
            with_chips(no_metadata().registers, chips@, None) == Ok::<CatalogView, Seq<char>>(
                start.registers,
            ),
            start.decoders == Map::<u32, DecoderView>::empty(),
            with_sources(values@, start, sources@.take(i as int)) == Ok::<
                MetadataView,
                Seq<char>,
            >(m.view()),
        decreases sources.len() - i,
    {
        assert(sources@.take(i + 1).drop_last() =~= sources@.take(i as int));
        assert(source_fits(sources@[i as int]));
        match enter_source(values, &mut m, &sources[i]) {
            Ok(()) => {},
            Err(e) => {
                proof {
                    lemma_sources_fail(values@, start, sources@, i + 1);
                }
                return Err(e);
            },
        }
        i += 1;
    }
    assert(sources@.take(sources@.len() as int) =~= sources@);
    Ok(m)
}

proof fn lemma_sources_usable(values: Seq<(String, u32)>, m: MetadataView, sources: Seq<SourceRead>)
    requires
        program::usable(m.decoders),
        with_sources(values, m, sources) is Ok,
    ensures
        program::usable(with_sources(values, m, sources)->Ok_0.decoders),
    decreases sources.len(),
{
    if sources.len() > 0 {
        lemma_sources_usable(values, m, sources.drop_last());
        let done = with_sources(values, m, sources.drop_last())->Ok_0;
        program::law_collected_are_usable(
            values,
            sources.last().stmts->Ok_0@,
            Collected { decoders: done.decoders, error: None },
        );
    }
}

/// Every report decoder that is known can be used.
pub proof fn law_metadata_is_usable(
    values: Seq<(String, u32)>,
    sources: Seq<SourceRead>,
    chips: Seq<ChipRead>,
)
    requires
        metadata_of(values, sources, chips) is Ok,
    ensures
        program::usable(metadata_of(values, sources, chips)->Ok_0.decoders),
{
    let registers = with_chips(no_metadata().registers, chips, None)->Ok_0;
    lemma_sources_usable(
        values,
        MetadataView { registers, decoders: Map::empty() },
        sources,
    );
}

} // verus!
