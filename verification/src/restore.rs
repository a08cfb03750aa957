//! Taking up what was saved, and what is told of commands and of sources that are saved.
use crate::capture_meta;
use crate::capture_meta::{report_decoder_registry_from_sidecar, CaptureSidecar};
use crate::metadata;
use crate::metadata::{compile_fault_text, parse_fault_text, report_parse_fault_text, SourceFault};
use crate::numbers::path_list_value;
use crate::program;
use crate::program::{report_decoders_from_sources, ParsedSource, Stmt};
use crate::samples;
use crate::samples::ReportDecoderRegistry;
use crate::session::CompiledProgram;
use crate::text;
use crate::text::dec_text;
use crate::workbench;
use crate::workbench::{StreamView, Workbench};
use vstd::prelude::*;

verus! {

// ---- what was saved beside a capture

/// What is taken over from beside a capture: the decoders, where some were saved, and what is
/// typed for the sequences, the chips and the samples to skip.
#[derive(Debug, Clone, PartialEq, Eq)]
pub struct RestoredCapture {
    pub decoders: Option<ReportDecoderRegistry>,
    pub rseq_files: String,
    pub chip_files: String,
    pub skip_samples: String,
}

/// What was seen once samples are to be skipped.
pub open spec fn skipping(v: StreamView, n: nat) -> StreamView {
    StreamView { skip_count: n, skip_remaining: n, ..v }
}

impl Workbench {
    /// Takes over what was saved beside a capture.
    pub fn apply_capture_sidecar(&mut self, sidecar: &CaptureSidecar) -> (r: Result<
        RestoredCapture,
        String,
    >)
        ensures
            final(self).panel == old(self).panel,
            match capture_meta::restored_all(capture_meta::meta_views(sidecar.report_decoders@)) {
                Err(e) => {
                    &&& r matches Err(s) && s@ == e
                    &&& final(self).stream() == old(self).stream()
                },
                Ok(saved) => {
                    &&& final(self).stream() == skipping(
                        old(self).stream(),
                        sidecar.skip_samples as nat,
                    )
                    &&& r matches Ok(c)
                    &&& c.decoders is Some == !saved.dom().is_empty()
                    &&& c.decoders matches Some(d) ==> samples::decoder_views(d@) == saved
                    &&& c.rseq_files@ == text::joined(text::texts(sidecar.rseq_files@), "; "@)
                    &&& c.chip_files@ == text::joined(text::texts(sidecar.chip_files@), "; "@)
                    &&& c.skip_samples@ == text::dec(sidecar.skip_samples as nat)
                },
            },
    {
        let restored = match report_decoder_registry_from_sidecar(sidecar) {
            Ok(registry) => registry,
            Err(e) => {
                return Err(e);
            },
        };
        let ghost saved = samples::decoder_views(restored@);
        assert(saved.dom() =~= restored@.dom());
        let decoders = if restored.is_empty() {
            assert(saved.dom() =~= Set::<u32>::empty());
            None
        } else {
            Some(restored)
        };
        self.sample_skip_count = sidecar.skip_samples;
        self.sample_skip_remaining = sidecar.skip_samples;
        Ok(
            RestoredCapture {
                decoders,
                rseq_files: path_list_value(&sidecar.rseq_files),
                chip_files: path_list_value(&sidecar.chip_files),
                skip_samples: dec_text(sidecar.skip_samples as u128),
            },
        )
    }

    /// Notes why a command did not reach the device, if it did not: there is no session, or it is
    /// over.
    pub fn note_command(&mut self, in_session: bool, delivered: bool)
        ensures
            final(self).panel == old(self).panel,
            final(self).stream() == (if !in_session {
                workbench::logged(old(self).stream(), "no active session; connect first"@)
            } else if !delivered {
                workbench::logged(old(self).stream(), "session command channel is closed"@)
            } else {
                old(self).stream()
            }),
    {
        if !in_session {
            self.log("no active session; connect first".to_owned());
        } else if !delivered {
            self.log("session command channel is closed".to_owned());
        }
    }
}

// ---- sources that were parsed

/// A source that was to be parsed: what it is called, its text, the directory that paths in it start
/// from, and its statements or the first fault.
#[derive(Debug, PartialEq, Eq)]
pub struct ParsedRead {
    pub name: String,
    pub source: String,
    pub base_dir: Option<String>,
    pub stmts: Result<Vec<Stmt>, SourceFault>,
}

/// What is told, behind `what`, of the first source that cannot be parsed, if there is one.
pub open spec fn first_fault(what: Seq<char>, sources: Seq<ParsedRead>) -> Option<Seq<char>>
    decreases sources.len(),
{
    if sources.len() == 0 {
        None
    } else {
        match first_fault(what, sources.drop_last()) {
            Some(e) => Some(e),
            None => match sources.last().stmts {
                Ok(_) => None,
                Err(f) => Some(metadata::fault_text(what, sources.last().name@, f)),
            },
        }
    }
}

/// Sources that were parsed.
pub open spec fn parsed(sources: Seq<ParsedRead>) -> Seq<ParsedSource> {
    sources.map_values(
        |s: ParsedRead|
            ParsedSource {
                name: s.name,
                source: s.source,
                base_dir: s.base_dir,
                stmts: match s.stmts {
                    Ok(stmts) => stmts,
                    Err(_) => arbitrary(),
                },
            },
    )
}

proof fn lemma_first_fault(what: Seq<char>, sources: Seq<ParsedRead>, n: int)
    requires
        0 <= n <= sources.len(),
        first_fault(what, sources.take(n)) is Some,
    ensures
        first_fault(what, sources) == first_fault(what, sources.take(n)),
    decreases sources.len() - n,
{
    if n < sources.len() {
        assert(sources.take(n + 1).drop_last() =~= sources.take(n));
        lemma_first_fault(what, sources, n + 1);
    } else {
        assert(sources.take(n) =~= sources);
    }
}

/// The sources with their statements, or what is told of the first that cannot be parsed.
pub fn parsed_sources(sources: Vec<ParsedRead>, of_reports: bool) -> (r: Result<
    Vec<ParsedSource>,
    String,
>)
    ensures
        match first_fault(parse_fault_head(of_reports), sources@) {
            Some(e) => r matches Err(s) && s@ == e,
            None => r matches Ok(list) && list@ == parsed(sources@),
        },
{
    let ghost all = sources@;
    let ghost what = parse_fault_head(of_reports);
    let mut list: Vec<ParsedSource> = Vec::new();
    assert(first_fault(what, all.take(0)) is None);
    assert(list@ =~= parsed(all.take(0)));
    for s in it: sources
        invariant
            it.seq() == all,
            what == parse_fault_head(of_reports),
            first_fault(what, all.take(it.index() as int)) is None,
            list@ == parsed(all.take(it.index() as int)),
    {
        let ghost n = it.index() as int;
        proof {
            assert(all.take(n + 1).drop_last() =~= all.take(n));
            assert(all.take(n + 1).last() == s);
        }
        match s.stmts {
            Ok(stmts) => {
                list.push(
                    ParsedSource { name: s.name, source: s.source, base_dir: s.base_dir, stmts },
                );
                assert(list@ =~= parsed(all.take(n + 1)));
            },
            Err(f) => {
                let e = if of_reports {
                    report_parse_fault_text(s.name.as_str(), &f)
                } else {
                    parse_fault_text(s.name.as_str(), &f)
                };
                proof {
                    lemma_first_fault(what, all, n + 1);
                }
                return Err(e);
            },
        }
    }
    assert(all.take(all.len() as int) =~= all);
    Ok(list)
}

/// What stands before the name of a source that cannot be parsed.
pub open spec fn parse_fault_head(of_reports: bool) -> Seq<char> {
    if of_reports {
        "could not parse report metadata in "@
    } else {
        "could not parse "@
    }
}

/// The report decoders that sources declare, or why there are none: the first source that cannot
/// be parsed comes before anything that is wrong with a declaration.
pub fn watch_report_decoders(values: &[(String, u32)], sources: Vec<ParsedRead>) -> (r: Result<
    ReportDecoderRegistry,
    String,
>)
    ensures
        (match r {
            Ok(registry) => Ok(samples::decoder_views(registry@)),
            Err(e) => Err(e@),
        }) == (match first_fault(parse_fault_head(true), sources@) {
            Some(e) => Err(e),
            None => program::source_decoders(values@, parsed(sources@)),
        }),
{
    match parsed_sources(sources, true) {
        Ok(list) => report_decoders_from_sources(values, &list),
        Err(e) => Err(e),
    }
}

/// Why sources cannot be compiled: the number of the source, the fault, and help if there is some.
#[derive(Debug, PartialEq, Eq)]
pub struct CompileFault {
    pub unit: usize,
    pub fault: SourceFault,
    pub help: Option<String>,
}

/// What is told of sources that cannot be compiled.
pub open spec fn compile_fault(sources: Seq<ParsedSource>, f: CompileFault) -> Seq<char> {
    metadata::compile_fault(
        if f.unit < sources.len() {
            Some(sources[f.unit as int].name@)
        } else {
            None
        },
        f.fault,
        match f.help {
            Some(h) => Some(h@),
            None => None,
        },
    )
}

/// The program that was made of sources, or what is told in its place.
pub fn compile_rseq_sources(
    sources: &[ParsedSource],
    compiled: Result<CompiledProgram, CompileFault>,
) -> (r: Result<CompiledProgram, String>)
    ensures
        match compiled {
            Ok(p) => r == Ok::<CompiledProgram, String>(p),
            Err(f) => r matches Err(s) && s@ == compile_fault(sources@, f),
        },
{
    match compiled {
        Ok(p) => Ok(p),
        Err(f) => {
            let name = if f.unit < sources.len() {
                Some(sources[f.unit].name.as_str())
            } else {
                None
            };
            let help = match &f.help {
                Some(h) => Some(h.as_str()),
                None => None,
            };
            Err(compile_fault_text(name, &f.fault, help))
        },
    }
}

} // verus!
