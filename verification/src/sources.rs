//! The sequences that the command line names.
use crate::editor_source;
use crate::editor_source::RseqSource;
use crate::session::two;
use crate::text;
use crate::visual_source;
use crate::visual_source::escape_rseq_string;
use vstd::prelude::*;

verus! {

/// A sequence of a manifest: its name there, where it is, the directory it is in, and its text or
/// why it has none.
#[derive(Debug, PartialEq, Eq)]
pub struct SequenceRead {
    pub id: String,
    pub name: Option<String>,
    pub path: String,
    pub parent: Option<String>,
    pub text: Result<String, String>,
}

/// A manifest: where it is, the directory it is in, its chip, and the sequences that were selected.
#[derive(Debug, PartialEq, Eq)]
pub struct ManifestRead {
    pub path: String,
    pub parent: Option<String>,
    pub chip: Option<String>,
    pub sequences: Vec<SequenceRead>,
}

/// The directory that the paths in a manifest start from: the one it is in, or the current one.
pub open spec fn base_of(parent: Option<Seq<char>>) -> Seq<char> {
    match parent {
        Some(p) => p,
        None => "."@,
    }
}

/// The directory that the paths in a manifest start from.
pub fn manifest_base(parent: Option<&str>) -> (base: String)
    ensures
        base@ == base_of(editor_source::text_view(parent)),
{
    match parent {
        Some(p) => p.to_owned(),
        None => ".".to_owned(),
    }
}

/// Why nothing is loaded of a manifest.
#[derive(Debug, Clone, PartialEq, Eq)]
pub enum ManifestFault {
    Unreadable(String),
    Unparsed(String),
    /// The sequences that are named cannot be selected.
    Selection(String),
}

/// What is told of a manifest of which nothing is loaded.
pub fn manifest_error(path: &str, fault: &ManifestFault) -> (s: String)
    ensures
        s@ == (match *fault {
            ManifestFault::Unreadable(e) => "Failed to read manifest "@ + path@ + ": "@ + e@,
            ManifestFault::Unparsed(e) => "Failed to parse manifest "@ + path@ + ": "@ + e@,
            ManifestFault::Selection(e) => "Invalid manifest selection: "@ + e@,
        }),
{
    match fault {
        ManifestFault::Unreadable(e) => {
            let mut s: String = two("Failed to read manifest ", path);
            s.push_str(": ");
            s.push_str(e.as_str());
            s
        },
        ManifestFault::Unparsed(e) => {
            let mut s: String = two("Failed to parse manifest ", path);
            s.push_str(": ");
            s.push_str(e.as_str());
            s
        },
        ManifestFault::Selection(e) => two("Invalid manifest selection: ", e.as_str()),
    }
}

/// A file that was to be read: where it is, the directory it is in, and its text or why it has none.
#[derive(Debug, PartialEq, Eq)]
pub struct TextRead {
    pub path: String,
    pub parent: Option<String>,
    pub text: Result<String, String>,
}

/// What was loaded: what is printed, the sources, and why no more were loaded, if so.
#[derive(Debug, Clone, PartialEq, Eq)]
pub struct Loaded {
    pub lines: Vec<String>,
    pub sources: Vec<RseqSource>,
    pub error: Option<String>,
}

/// What was loaded, as a mathematical value.
#[verifier::ext_equal]
pub struct LoadedView {
    pub lines: Seq<Seq<char>>,
    pub sources: Seq<SourceView>,
    pub error: Option<Seq<char>>,
}

/// A source as a mathematical value.
pub struct SourceView {
    pub name: Seq<char>,
    pub source: Seq<char>,
    pub base: Option<Seq<char>>,
}

/// What sources stand for.
pub open spec fn source_views(sources: Seq<RseqSource>) -> Seq<SourceView> {
    sources.map_values(
        |s: RseqSource|
            SourceView {
                name: s.name@,
                source: s.source@,
                base: editor_source::string_view(s.base_dir),
            },
    )
}

impl Loaded {
    pub open spec fn view(self) -> LoadedView {
        LoadedView {
            lines: text::texts(self.lines@),
            sources: source_views(self.sources@),
            error: match self.error {
                Some(e) => Some(e@),
                None => None,
            },
        }
    }

    fn new() -> (l: Self)
        ensures
            l.view() == nothing_loaded(),
    {
        let l = Loaded { lines: Vec::new(), sources: Vec::new(), error: None };
        assert(l.view() =~= nothing_loaded());
        l
    }

    fn take(&mut self, line: String, name: String, source: String, base: Option<String>)
        ensures
            final(self).view() == taken(
                old(self).view(),
                line@,
                (SourceView {
                    name: name@,
                    source: source@,
                    base: editor_source::string_view(base),
                }),
            ),
    {
        let ghost before = self.view();
        self.lines.push(line);
        let ghost one = SourceView {
            name: name@,
            source: source@,
            base: editor_source::string_view(base),
        };
        self.sources.push(RseqSource::new(name, source, base));
        assert(self.view().lines =~= before.lines.push(line@));
        assert(self.view().sources =~= before.sources.push(one));
    }

    fn fail(&mut self, e: String)
        ensures
            final(self).view() == (LoadedView { error: Some(e@), ..old(self).view() }),
    {
        self.error = Some(e);
    }
}

fn copy_name(name: &Option<String>) -> (c: Option<String>)
    ensures
        editor_source::string_view(c) == editor_source::string_view(*name),
{
    match name {
        Some(n) => Some(n.clone()),
        None => None,
    }
}

/// Before anything is loaded.
pub open spec fn nothing_loaded() -> LoadedView {
    LoadedView { lines: Seq::empty(), sources: Seq::empty(), error: None }
}

/// What was loaded, and one more source.
pub open spec fn taken(l: LoadedView, line: Seq<char>, source: SourceView) -> LoadedView {
    LoadedView { lines: l.lines.push(line), sources: l.sources.push(source), ..l }
}

/// How a sequence of a manifest is called.
pub open spec fn shown_name(s: SequenceRead) -> Seq<char> {
    match s.name {
        Some(n) => s.id@ + " ("@ + n@ + ")"@,
        None => s.id@,
    }
}

fn show_name(s: &SequenceRead) -> (t: String)
    ensures
        t@ == shown_name(*s),
{
    let mut t: String = s.id.clone();
    match &s.name {
        Some(n) => {
            t.push_str(" (");
            t.push_str(n.as_str());
            t.push_str(")");
        },
        None => {},
    }
    t
}

/// What was loaded with one more sequence of a manifest.
pub open spec fn with_sequence(l: LoadedView, s: SequenceRead) -> LoadedView {
    if l.error is Some {
        l
    } else {
        match s.text {
            Ok(content) => taken(
                l,
                "Original rseq content from "@ + s.path@ + " ["@ + shown_name(s) + "]:\n"@
                    + content@,
                SourceView {
                    name: s.path@,
                    source: content@,
                    base: editor_source::string_view(s.parent),
                },
            ),
            Err(e) => LoadedView {
                error: Some("Failed to read sequence "@ + shown_name(s) + ": "@ + e@),
                ..l
            },
        }
    }
}

/// What was loaded with more sequences of a manifest.
pub open spec fn with_sequences(l: LoadedView, list: Seq<SequenceRead>) -> LoadedView
    decreases list.len(),
{
    if list.len() == 0 {
        l
    } else {
        with_sequence(with_sequences(l, list.drop_last()), list.last())
    }
}

/// What was loaded with the chip of a manifest.
pub open spec fn with_chip(l: LoadedView, m: ManifestRead) -> LoadedView {
    match m.chip {
        Some(chip) => taken(
            l,
            "Manifest chip source from "@ + m.path@ + ": "@ + chip@,
            SourceView {
                name: m.path@ + "#chip"@,
                source: visual_source::chip_line(chip@) + "\n"@,
                base: Some(base_of(editor_source::string_view(m.parent))),
            },
        ),
        None => l,
    }
}

/// What is loaded of a manifest.
pub open spec fn manifest_sources(m: ManifestRead) -> LoadedView {
    with_sequences(with_chip(nothing_loaded(), m), m.sequences@)
}

/// What is loaded of a manifest: its chip as a source of its own, and the sequences up to the
/// first that cannot be read.
pub fn load_manifest_sources(m: &ManifestRead) -> (l: Loaded)
    ensures
        l.view() == manifest_sources(*m),
{
    let mut l = Loaded::new();
    match &m.chip {
        Some(chip) => {
            let mut line: String = two("Manifest chip source from ", m.path.as_str());
            line.push_str(": ");
            line.push_str(chip.as_str());
            let mut source: String = two("chip!(\"", escape_rseq_string(chip.as_str()).as_str());
            source.push_str("\");");
            source.push_str("\n");
            let base: String = match &m.parent {
                Some(p) => manifest_base(Some(p.as_str())),
                None => manifest_base(None),
            };
            l.take(line, two(m.path.as_str(), "#chip"), source, Some(base));
        },
        None => {},
    }
    let ghost start = l.view();
    let mut i: usize = 0;
    assert(m.sequences@.take(0) =~= Seq::<SequenceRead>::empty());
    while i < m.sequences.len()
        invariant
            i <= m.sequences.len(),
            l.view().error is None,
            l.view() == with_sequences(start, m.sequences@.take(i as int)),
            start == with_chip(nothing_loaded(), *m),
        decreases m.sequences.len() - i,
    {
        assert(m.sequences@.take(i + 1).drop_last() =~= m.sequences@.take(i as int));
        let s = &m.sequences[i];
        match &s.text {
            Ok(content) => {
                let mut line: String = two("Original rseq content from ", s.path.as_str());
                line.push_str(" [");
                line.push_str(show_name(s).as_str());
                line.push_str("]:\n");
                line.push_str(content.as_str());
                l.take(line, s.path.clone(), content.clone(), copy_name(&s.parent));
            },
            Err(e) => {
                let mut t: String = two("Failed to read sequence ", show_name(s).as_str());
                t.push_str(": ");
                t.push_str(e.as_str());
                l.fail(t);
                proof {
                    lemma_sequences_stop(start, m.sequences@, i + 1);
                }
                return l;
            },
        }
        i += 1;
    }
    assert(m.sequences@.take(m.sequences@.len() as int) =~= m.sequences@);
    l
}

proof fn lemma_sequences_stop(l: LoadedView, list: Seq<SequenceRead>, i: int)
    requires
        0 <= i <= list.len(),
        with_sequences(l, list.take(i)).error is Some,
    ensures
        with_sequences(l, list) == with_sequences(l, list.take(i)),
    decreases list.len() - i,
{
    if i < list.len() {
        assert(list.take(i + 1).drop_last() =~= list.take(i));
        lemma_sequences_stop(l, list, i + 1);
    } else {
        assert(list.take(i) =~= list);
    }
}

/// What was loaded with one more file.
pub open spec fn with_file(l: LoadedView, f: TextRead) -> LoadedView {
    if l.error is Some {
        l
    } else {
        match f.text {
            Ok(content) => taken(
                l,
                "Original rseq content from "@ + f.path@ + ":\n"@ + content@,
                SourceView {
                    name: f.path@,
                    source: content@,
                    base: editor_source::string_view(f.parent),
                },
            ),
            Err(e) => LoadedView {
                error: Some("Failed to read rseq file "@ + f.path@ + ": "@ + e@),
                ..l
            },
        }
    }
}

/// What was loaded with more files.
pub open spec fn with_files(l: LoadedView, list: Seq<TextRead>) -> LoadedView
    decreases list.len(),
{
    if list.len() == 0 {
        l
    } else {
        with_file(with_files(l, list.drop_last()), list.last())
    }
}

/// What is loaded where nothing is named.
pub open spec fn default_loaded() -> LoadedView {
    taken(
        nothing_loaded(),
        "Using default rseq content:\nwrite!(0x10, 0xaa, 100);"@,
        SourceView { name: "<default>"@, source: "write!(0x10, 0xaa, 100);"@, base: None },
    )
}

/// What is loaded of files, or in their place where none is named and something is needed.
pub open spec fn file_sources(files: Seq<TextRead>, needed: bool) -> LoadedView {
    if files.len() == 0 && needed {
        default_loaded()
    } else {
        with_files(nothing_loaded(), files)
    }
}

proof fn lemma_files_stop(l: LoadedView, list: Seq<TextRead>, i: int)
    requires
        0 <= i <= list.len(),
        with_files(l, list.take(i)).error is Some,
    ensures
        with_files(l, list) == with_files(l, list.take(i)),
    decreases list.len() - i,
{
    if i < list.len() {
        assert(list.take(i + 1).drop_last() =~= list.take(i));
        lemma_files_stop(l, list, i + 1);
    } else {
        assert(list.take(i) =~= list);
    }
}

/// What is loaded of files, up to the first that cannot be read. Where none is named and something
/// is needed, a sequence of one write is taken.
pub fn load_file_sources(files: &[TextRead], needed: bool) -> (l: Loaded)
    ensures
        l.view() == file_sources(files@, needed),
{
    let mut l = Loaded::new();
    if files.len() == 0 && needed {
        l.take(
            "Using default rseq content:\nwrite!(0x10, 0xaa, 100);".to_owned(),
            "<default>".to_owned(),
            "write!(0x10, 0xaa, 100);".to_owned(),
            None,
        );
        return l;
    }
    let mut i: usize = 0;
    assert(files@.take(0) =~= Seq::<TextRead>::empty());
    while i < files.len()
        invariant
            i <= files.len(),
            files@.len() > 0 || !needed,
            l.view().error is None,
            l.view() == with_files(nothing_loaded(), files@.take(i as int)),
        decreases files.len() - i,
    {
        assert(files@.take(i + 1).drop_last() =~= files@.take(i as int));
        let f = &files[i];
        match &f.text {
            Ok(content) => {
                let mut line: String = two("Original rseq content from ", f.path.as_str());
                line.push_str(":\n");
                line.push_str(content.as_str());
                l.take(line, f.path.clone(), content.clone(), copy_name(&f.parent));
            },
            Err(e) => {
                let mut t: String = two("Failed to read rseq file ", f.path.as_str());
                t.push_str(": ");
                t.push_str(e.as_str());
                l.fail(t);
                proof {
                    lemma_files_stop(nothing_loaded(), files@, i + 1);
                }
                return l;
            },
        }
        i += 1;
    }
    assert(files@.take(files@.len() as int) =~= files@);
    l
}

/// Every source that is loaded of files is the text of one, in order.
pub proof fn law_files_loaded(files: Seq<TextRead>, i: int)
    requires
        with_files(nothing_loaded(), files).error is None,
        0 <= i < files.len(),
    ensures
        with_files(nothing_loaded(), files).sources.len() == files.len(),
        files[i].text is Ok,
        with_files(nothing_loaded(), files).sources[i] == (SourceView {
            name: files[i].path@,
            source: files[i].text->Ok_0@,
            base: editor_source::string_view(files[i].parent),
        }),
    decreases files.len(),
{
    let rest = files.drop_last();
    if i < rest.len() {
        law_files_loaded(rest, i);
        assert(rest[i] == files[i]);
    } else if rest.len() > 0 {
        law_files_loaded(rest, 0);
    }
}

} // verus!
