//! The workspace: which sequence is worked on, and what comes of loading it.
use crate::modes::{PanelTab, SequenceViewMode};
use crate::session::{two, CompiledProgram};
use crate::text;
use crate::text::{chars_of, join, push_dec};
use vstd::prelude::*;

verus! {

// ---- the sequence at the start

/// The text of a new sequence.
pub open spec fn new_source() -> Seq<char> {
    "// New rseq script.\n// Pick a chip YAML in the Sequences sidebar or add chip!(\"chip.yaml\") here.\n\nprint!(\"rseq sequence start\");\n"@
}

/// The text of a new sequence.
pub fn default_rseq_source() -> (s: &'static str)
    ensures
        s@ == new_source(),
{
    "// New rseq script.\n// Pick a chip YAML in the Sequences sidebar or add chip!(\"chip.yaml\") here.\n\nprint!(\"rseq sequence start\");\n"
}

/// A file that was to be read: where it is, how it is called, and its text or why it has none.
#[derive(Debug, PartialEq, Eq)]
pub struct FileRead {
    pub path: String,
    pub name: String,
    pub text: Result<String, String>,
}

/// The sequence that is worked on at the start.
#[derive(Debug, Clone, PartialEq, Eq)]
pub struct InitialSource {
    pub path: Option<String>,
    pub text: String,
    pub status: String,
}

/// Whether a text ends with a line end.
pub open spec fn ends_line(s: Seq<char>) -> bool {
    s.len() > 0 && s.last() == '\n'
}

/// A text behind others: the path of its file, the text, and an empty line.
pub open spec fn with_file(all: Seq<char>, path: Seq<char>, source: Seq<char>) -> Seq<char> {
    let body = all + ("// rseq-gpui:file "@ + path + "\n"@) + source;
    if ends_line(body) {
        body + "\n"@
    } else {
        body + "\n"@ + "\n"@
    }
}

/// The texts of files in one.
pub open spec fn combined(files: Seq<FileRead>) -> Seq<char>
    decreases files.len(),
{
    if files.len() == 0 {
        Seq::empty()
    } else {
        match files.last().text {
            Ok(source) => with_file(combined(files.drop_last()), files.last().path@, source@),
            Err(_) => combined(files.drop_last()),
        }
    }
}

/// Why files could not be read.
pub open spec fn read_faults(files: Seq<FileRead>) -> Seq<Seq<char>>
    decreases files.len(),
{
    if files.len() == 0 {
        Seq::empty()
    } else {
        match files.last().text {
            Ok(_) => read_faults(files.drop_last()),
            Err(e) => read_faults(files.drop_last()).push(files.last().path@ + ": "@ + e@),
        }
    }
}

/// The text at the start.
pub open spec fn initial_text(files: Seq<FileRead>) -> Seq<char> {
    if files.len() > 1 {
        if combined(files).len() == 0 {
            new_source()
        } else {
            combined(files)
        }
    } else if files.len() == 1 {
        match files[0].text {
            Ok(source) => source@,
            Err(_) => new_source(),
        }
    } else {
        new_source()
    }
}

/// What is told at the start.
pub open spec fn initial_status(files: Seq<FileRead>) -> Seq<char> {
    if files.len() > 1 {
        if read_faults(files).len() == 0 {
            "opened "@ + text::dec(files.len()) + " rseq files as combined source"@
        } else {
            "some rseq files failed to read: "@ + text::joined(read_faults(files), "; "@)
        }
    } else if files.len() == 1 {
        match files[0].text {
            Ok(_) => "opened "@ + files[0].name@,
            Err(e) => "failed to read "@ + files[0].path@ + ": "@ + e@,
        }
    } else {
        "new untitled sequence"@
    }
}

fn push_file(all: &mut String, path: &str, source: &str)
    ensures
        final(all)@ == with_file(old(all)@, path@, source@),
{
    let ghost before = all@;
    let mut head: String = two("// rseq-gpui:file ", path);
    head.push_str("\n");
    all.push_str(head.as_str());
    all.push_str(source);
    let chars = chars_of(all.as_str());
    let n: usize = chars.len();
    if n == 0 || chars[n - 1] != '\n' {
        all.push_str("\n");
    }
    all.push_str("\n");
}

proof fn lemma_combined_grows(files: Seq<FileRead>)
    ensures
        read_faults(files).len() == 0 && files.len() > 0 ==> combined(files).len() > 0,
    decreases files.len(),
{
    reveal_strlit("\n");
}

/// The sequence that is worked on at the start: a file, several in one, or a new one.
pub fn initial_sequence_source(files: &[FileRead]) -> (r: InitialSource)
    ensures
        (match r.path {
            Some(p) => Some(p@),
            None => None,
        }) == (if files@.len() == 1 {
            Some(files@[0].path@)
        } else {
            None
        }),
        r.text@ == initial_text(files@),
        r.status@ == initial_status(files@),
{
    if files.len() > 1 {
        let mut all: String = String::new();
        let mut faults: Vec<String> = Vec::new();
        let mut i: usize = 0;
        assert(files@.take(0) =~= Seq::<FileRead>::empty());
        assert(all@ =~= combined(files@.take(0)));
        assert(text::texts(faults@) =~= read_faults(files@.take(0)));
        while i < files.len()
            invariant
                i <= files.len(),
                all@ == combined(files@.take(i as int)),
                text::texts(faults@) == read_faults(files@.take(i as int)),
            decreases files.len() - i,
        {
            assert(files@.take(i + 1).drop_last() =~= files@.take(i as int));
            match &files[i].text {
                Ok(source) => {
                    push_file(&mut all, files[i].path.as_str(), source.as_str());
                },
                Err(e) => {
                    let ghost before = text::texts(faults@);
                    let mut s: String = two(files[i].path.as_str(), ": ");
                    s.push_str(e.as_str());
                    faults.push(s);
                    assert(text::texts(faults@) =~= before.push(s@));
                },
            }
            i += 1;
        }
        assert(files@.take(files@.len() as int) =~= files@);
        proof {
            lemma_combined_grows(files@);
        }
        if faults.len() == 0 {
            let mut s: String = "opened ".to_owned();
            push_dec(&mut s, files.len() as u128);
            s.push_str(" rseq files as combined source");
            return InitialSource { path: None, text: all, status: s };
        }
        let status: String = two(
            "some rseq files failed to read: ",
            join(&faults, "; ").as_str(),
        );
        if chars_of(all.as_str()).len() == 0 {
            return InitialSource { path: None, text: default_rseq_source().to_owned(), status };
        }
        return InitialSource { path: None, text: all, status };
    }
    if files.len() == 1 {
        let path: Option<String> = Some(files[0].path.clone());
        match &files[0].text {
            Ok(source) => InitialSource {
                path,
                text: source.clone(),
                status: two("opened ", files[0].name.as_str()),
            },
            Err(e) => {
                let mut s: String = two("failed to read ", files[0].path.as_str());
                s.push_str(": ");
                s.push_str(e.as_str());
                InitialSource { path, text: default_rseq_source().to_owned(), status: s }
            },
        }
    } else {
        InitialSource {
            path: None,
            text: default_rseq_source().to_owned(),
            status: "new untitled sequence".to_owned(),
        }
    }
}

// ---- loading

/// Whether what is loaded is in files, or in the editor.
#[derive(Debug, Clone, Copy, PartialEq, Eq, Structural)]
pub enum SourceKind {
    File,
    Source,
}

/// What comes of loading a workspace.
#[derive(Debug, Clone, PartialEq, Eq)]
pub struct LoadOutcome {
    pub status: String,
    pub ok: bool,
}

/// What comes of loading a workspace without a program: a status, and whether it went well, or
/// nothing where the program is still to be made.
pub open spec fn early_outcome(
    kind: SourceKind,
    fault: Option<Seq<char>>,
    count: nat,
    compile: bool,
) -> Option<(Seq<char>, bool)> {
    if fault is Some {
        Some(("metadata error: "@ + fault->0, false))
    } else if count == 0 {
        Some(
            (
                match kind {
                    SourceKind::File => "no rseq file selected"@,
                    SourceKind::Source => "no rseq source selected"@,
                },
                true,
            ),
        )
    } else if !compile {
        Some(("metadata loaded; startup program not compiled"@, true))
    } else {
        None
    }
}

/// What comes of loading a workspace without a program, or nothing where the program is still
/// to be made.
pub fn load_before_program(
    kind: SourceKind,
    metadata: &Result<(), String>,
    count: usize,
    compile_program: bool,
) -> (r: Option<LoadOutcome>)
    ensures
        (match r {
            Some(o) => Some((o.status@, o.ok)),
            None => None,
        }) == early_outcome(
            kind,
            match metadata {
                Ok(_) => None,
                Err(e) => Some(e@),
            },
            count as nat,
            compile_program,
        ),
{
    match metadata {
        Err(e) => Some(LoadOutcome { status: two("metadata error: ", e.as_str()), ok: false }),
        Ok(_) => if count == 0 {
            let status: String = match kind {
                SourceKind::File => "no rseq file selected".to_owned(),
                SourceKind::Source => "no rseq source selected".to_owned(),
            };
            Some(LoadOutcome { status, ok: true })
        } else if !compile_program {
            Some(
                LoadOutcome {
                    status: "metadata loaded; startup program not compiled".to_owned(),
                    ok: true,
                },
            )
        } else {
            None
        },
    }
}

/// What comes of loading a workspace with the program that was made of it.
pub fn load_with_program(program: &Result<CompiledProgram, String>) -> (o: LoadOutcome)
    ensures
        o.ok == (program is Ok),
        o.status@ == (match program {
            Ok(p) => "compiled main="@ + text::dec(p.main@.len()) + " bytes, irq_handlers="@
                + text::dec(p.irq_bytecodes@.len()),
            Err(e) => "compile error: "@ + e@,
        }),
{
    match program {
        Ok(p) => {
            let mut s: String = "compiled main=".to_owned();
            push_dec(&mut s, p.main.len() as u128);
            s.push_str(" bytes, irq_handlers=");
            push_dec(&mut s, p.irq_bytecodes.len() as u128);
            LoadOutcome { status: s, ok: true }
        },
        Err(e) => LoadOutcome { status: two("compile error: ", e.as_str()), ok: false },
    }
}

/// What is told once a workspace was loaded.
pub open spec fn loaded_lines(
    label: Seq<char>,
    ok: bool,
    status: Seq<char>,
    in_session: bool,
) -> Seq<Seq<char>> {
    let first = seq![
        label + (if ok {
            " loaded: "@
        } else {
            " load failed: "@
        }) + status,
    ];
    if in_session {
        first.push(
            "decoder/register metadata changes apply on the next Watch or Load & Run"@,
        )
    } else {
        first
    }
}

/// What is told once a workspace was loaded.
pub fn loaded_messages(label: &str, outcome: &LoadOutcome, in_session: bool) -> (lines: Vec<String>)
    ensures
        text::texts(lines@) == loaded_lines(label@, outcome.ok, outcome.status@, in_session),
{
    let mut lines: Vec<String> = Vec::new();
    let mut s: String = two(
        label,
        if outcome.ok {
            " loaded: "
        } else {
            " load failed: "
        },
    );
    s.push_str(outcome.status.as_str());
    lines.push(s);
    if in_session {
        lines.push(
            "decoder/register metadata changes apply on the next Watch or Load & Run".to_owned(),
        );
    }
    assert(text::texts(lines@) =~= loaded_lines(label@, outcome.ok, outcome.status@, in_session));
    lines
}

// ---- what is started

/// What is known of the sequence that is worked on.
#[derive(Debug, Clone, Copy, PartialEq, Eq, Structural)]
pub struct SourceState {
    /// The panel that is shown.
    pub tab: PanelTab,
    /// Whether the sequence was changed.
    pub dirty: bool,
    /// Whether it has a file.
    pub has_path: bool,
    /// Whether files are named.
    pub has_files: bool,
    /// Whether there is something in the view of the sequence.
    pub has_source: bool,
}

/// Whether the editor is used, and not the files that are named.
pub open spec fn uses_editor(s: SourceState) -> bool {
    s.tab is Sequences || s.dirty || (!s.has_files && s.has_path)
}

/// Whether the editor is used, and not the files that are named.
pub fn use_sequence_editor_source(s: SourceState) -> (r: bool)
    ensures
        r == uses_editor(s),
{
    let shown: bool = match s.tab {
        PanelTab::Sequences => true,
        _ => false,
    };
    shown || s.dirty || (!s.has_files && s.has_path)
}

/// Whether there is something to be run.
pub fn has_startup_source(s: SourceState) -> (r: bool)
    ensures
        r == (s.has_files || s.has_path || s.dirty || (s.tab is Sequences && s.has_source)),
{
    let shown: bool = match s.tab {
        PanelTab::Sequences => true,
        _ => false,
    };
    s.has_files || s.has_path || s.dirty || (shown && s.has_source)
}

/// Whether there is something in the view of a sequence: text, or steps.
pub fn current_view_has_source(mode: SequenceViewMode, source: &str, has_steps: bool) -> (r: bool)
    ensures
        r == (match mode {
            SequenceViewMode::Text => text::trimmed(source@).len() > 0,
            SequenceViewMode::Blocks => has_steps,
        }),
{
    match mode {
        SequenceViewMode::Text => {
            let chars = chars_of(source);
            text::trim(&chars).len() > 0
        },
        SequenceViewMode::Blocks => has_steps,
    }
}

/// What is asked for.
#[derive(Debug, Clone, Copy, PartialEq, Eq, Structural)]
pub enum StartRequest {
    Connect,
    LoadAndRun,
    Watch,
}

/// What is loaded and started: from the editor or from files, with or without a program.
#[derive(Debug, Clone, Copy, PartialEq, Eq, Structural)]
pub struct StartPlan {
    pub from_editor: bool,
    pub watch: bool,
}

/// What is loaded and started on a request.
pub open spec fn plan_of(request: StartRequest, s: SourceState, always_watch: bool) -> StartPlan {
    let from_editor = uses_editor(s);
    StartPlan {
        from_editor,
        watch: match request {
            StartRequest::Connect => always_watch || (if from_editor {
                !s.has_source
            } else {
                !s.has_files
            }),
            StartRequest::LoadAndRun => false,
            StartRequest::Watch => true,
        },
    }
}

/// What is loaded and started on a request. A program is made unless the session only watches.
pub fn plan_start(request: StartRequest, s: SourceState, always_watch: bool) -> (p: StartPlan)
    ensures
        p == plan_of(request, s, always_watch),
{
    let from_editor: bool = use_sequence_editor_source(s);
    let watch: bool = match request {
        StartRequest::Connect => always_watch || (if from_editor {
            !s.has_source
        } else {
            !s.has_files
        }),
        StartRequest::LoadAndRun => false,
        StartRequest::Watch => true,
    };
    StartPlan { from_editor, watch }
}

/// Why nothing is loaded: what is told, and the status of the sequence.
#[derive(Debug, Clone, Copy, PartialEq, Eq)]
pub struct RunRefusal {
    pub message: &'static str,
    pub status: &'static str,
}

/// Why nothing is loaded to be run from the editor, if nothing is.
pub fn refuse_run(p: StartPlan, request: StartRequest, has_source: bool) -> (r: Option<RunRefusal>)
    ensures
        match r {
            Some(e) => e.message@ == "no rseq source in current sequence view"@ && e.status@
                == "no rseq source"@ && request is LoadAndRun && p.from_editor && !has_source,
            None => !(request is LoadAndRun) || !p.from_editor || has_source,
        },
{
    match request {
        StartRequest::LoadAndRun => if p.from_editor && !has_source {
            Some(
                RunRefusal {
                    message: "no rseq source in current sequence view",
                    status: "no rseq source",
                },
            )
        } else {
            None
        },
        _ => None,
    }
}

/// Why nothing is started once all is loaded, if nothing is.
pub fn refuse_start(p: StartPlan, request: StartRequest, has_program: bool) -> (r: Option<
    &'static str,
>)
    ensures
        match r {
            Some(s) => !has_program && request is LoadAndRun && s@ == (if p.from_editor {
                "sequence editor did not produce startup bytecode"@
            } else {
                "no compiled rseq program; choose an .rseq file first"@
            }),
            None => has_program || !(request is LoadAndRun),
        },
{
    match request {
        StartRequest::LoadAndRun => if has_program {
            None
        } else if p.from_editor {
            Some("sequence editor did not produce startup bytecode")
        } else {
            Some("no compiled rseq program; choose an .rseq file first")
        },
        _ => None,
    }
}

/// Whether the session at the start only watches.
pub fn default_watch_mode(always_watch: bool, has_program: bool) -> (r: bool)
    ensures
        r == (always_watch || !has_program),
{
    always_watch || !has_program
}

/// A file that is chosen.
#[derive(Debug, Clone, Copy, PartialEq, Eq, Structural)]
pub enum FileDialog {
    OpenSequence,
    SaveSequence,
    OpenChip,
    SaveCapture,
    ReplayCapture,
}

/// Where something is told.
#[derive(Debug, Clone, Copy, PartialEq, Eq, Structural)]
pub enum ToldIn {
    SequenceStatus,
    CompileStatus,
    Log,
}

impl FileDialog {
    /// What the choice is called, where it has a name.
    pub fn prompt(self) -> (r: Option<&'static str>)
        ensures
            match self {
                Self::OpenSequence => r matches Some(s) && s@ == "Open rseq sequence"@,
                Self::OpenChip => r matches Some(s) && s@ == "Open chip YAML"@,
                Self::ReplayCapture => r matches Some(s) && s@ == "Replay rseq capture"@,
                Self::SaveSequence | Self::SaveCapture => r is None,
            },
    {
        match self {
            Self::OpenSequence => Some("Open rseq sequence"),
            Self::OpenChip => Some("Open chip YAML"),
            Self::ReplayCapture => Some("Replay rseq capture"),
            Self::SaveSequence | Self::SaveCapture => None,
        }
    }

    /// What is told while a file is chosen, `reports` being how many would be saved.
    pub fn choosing(self, reports: usize) -> (s: String)
        ensures
            s@ == (match self {
                Self::OpenSequence => "opening rseq..."@,
                Self::SaveSequence => "choosing save path..."@,
                Self::OpenChip => "choosing chip metadata..."@,
                Self::SaveCapture => "choosing capture save path for "@ + text::dec(reports as nat)
                    + " report(s)"@,
                Self::ReplayCapture => "choosing capture replay file..."@,
            }),
    {
        match self {
            Self::OpenSequence => "opening rseq...".to_owned(),
            Self::SaveSequence => "choosing save path...".to_owned(),
            Self::OpenChip => "choosing chip metadata...".to_owned(),
            Self::SaveCapture => {
                let mut s: String = "choosing capture save path for ".to_owned();
                push_dec(&mut s, reports as u128);
                s.push_str(" report(s)");
                s
            },
            Self::ReplayCapture => "choosing capture replay file...".to_owned(),
        }
    }

    /// What is told where none is chosen.
    pub fn cancelled(self) -> (s: &'static str)
        ensures
            s@ == (match self {
                Self::OpenSequence => "open cancelled"@,
                Self::SaveSequence => "save cancelled"@,
                Self::OpenChip => "chip open cancelled"@,
                Self::SaveCapture => "capture save cancelled"@,
                Self::ReplayCapture => "capture replay cancelled"@,
            }),
    {
        match self {
            Self::OpenSequence => "open cancelled",
            Self::SaveSequence => "save cancelled",
            Self::OpenChip => "chip open cancelled",
            Self::SaveCapture => "capture save cancelled",
            Self::ReplayCapture => "capture replay cancelled",
        }
    }

    /// Where it is told.
    pub fn told_in(self) -> (place: ToldIn)
        ensures
            place == (match self {
                Self::OpenSequence | Self::SaveSequence => ToldIn::SequenceStatus,
                Self::OpenChip => ToldIn::CompileStatus,
                Self::SaveCapture | Self::ReplayCapture => ToldIn::Log,
            }),
    {
        match self {
            Self::OpenSequence | Self::SaveSequence => ToldIn::SequenceStatus,
            Self::OpenChip => ToldIn::CompileStatus,
            Self::SaveCapture | Self::ReplayCapture => ToldIn::Log,
        }
    }
}

/// What comes of choosing a chip.
#[derive(Debug, Clone, Copy, PartialEq, Eq, Structural)]
pub enum ChipChoice {
    /// None was chosen, and this is told.
    Cancelled,
    /// The editor is loaded again.
    FromEditor,
    /// The files that are named are loaded again, with a program or without.
    FromFiles { program: bool },
}

/// What comes of choosing a chip: what is worked on is loaded again.
pub fn open_chip_file(chosen: bool, s: SourceState) -> (c: ChipChoice)
    ensures
        c == (if !chosen {
            ChipChoice::Cancelled
        } else if s.has_source {
            ChipChoice::FromEditor
        } else {
            ChipChoice::FromFiles { program: s.has_files }
        }),
{
    if !chosen {
        ChipChoice::Cancelled
    } else if s.has_source {
        ChipChoice::FromEditor
    } else {
        ChipChoice::FromFiles { program: s.has_files }
    }
}

// ---- names and texts

/// A name, or another where there is none.
fn name_or(name: Option<&str>, other: &str) -> (s: String)
    ensures
        s@ == (match name {
            Some(n) => n@,
            None => other@,
        }),
{
    match name {
        Some(n) => n.to_owned(),
        None => other.to_owned(),
    }
}

/// How the sequence is called.
pub fn sequence_title(file_name: Option<&str>) -> (s: String)
    ensures
        s@ == (match file_name {
            Some(n) => n@,
            None => "untitled.rseq"@,
        }),
{
    name_or(file_name, "untitled.rseq")
}

/// The name under which a sequence is saved.
pub fn sequence_default_file_name(file_name: Option<&str>) -> (s: String)
    ensures
        s@ == (match file_name {
            Some(n) => n@,
            None => "sequence.rseq"@,
        }),
{
    name_or(file_name, "sequence.rseq")
}

/// The name under which a capture is saved.
pub fn capture_default_file_name(stem: Option<&str>) -> (s: String)
    ensures
        s@ == (match stem {
            Some(n) => n@,
            None => "rseq"@,
        }) + "-capture.bin"@,
{
    let mut s: String = name_or(stem, "rseq");
    s.push_str("-capture.bin");
    s
}

/// The chips that are named.
pub fn chip_paths_label(chips: &[String]) -> (s: String)
    ensures
        s@ == (if chips@.len() == 0 {
            "from chip!(...) or none"@
        } else {
            text::joined(text::texts(chips@), "\n"@)
        }),
{
    if chips.len() == 0 {
        "from chip!(...) or none".to_owned()
    } else {
        join(chips, "\n")
    }
}

/// The text of the sequence as it is saved. Blocks that cannot be written are told of instead.
pub fn current_sequence_text(mode: SequenceViewMode, source: &str, blocks: &Result<
    String,
    Vec<String>,
>) -> (s: String)
    ensures
        s@ == (match mode {
            SequenceViewMode::Text => source@,
            SequenceViewMode::Blocks => match blocks {
                Ok(b) => b@,
                Err(e) => "// visual sequence error:\n// "@ + text::joined(
                    text::texts(e@),
                    "\n// "@,
                ),
            },
        }),
{
    match mode {
        SequenceViewMode::Text => source.to_owned(),
        SequenceViewMode::Blocks => match blocks {
            Ok(b) => b.clone(),
            Err(e) => two("// visual sequence error:\n// ", join(e, "\n// ").as_str()),
        },
    }
}

/// What is told where blocks cannot be written: of the sequence, of making the program, and in
/// the log.
pub struct BuildFailure {
    pub sequence_status: String,
    pub compile_status: String,
    pub log: String,
}

/// What is told where blocks cannot be written.
pub fn build_failure(errors: &[String]) -> (f: BuildFailure)
    ensures
        f.sequence_status@ == text::joined(text::texts(errors@), "\n"@),
        f.compile_status@ == "visual sequence error: "@ + f.sequence_status@,
        f.log@ == "sequence build failed: "@ + f.sequence_status@,
{
    let s: String = join(errors, "\n");
    BuildFailure {
        compile_status: two("visual sequence error: ", s.as_str()),
        log: two("sequence build failed: ", s.as_str()),
        sequence_status: s,
    }
}

/// What is told of a program.
pub fn program_text(program: Option<&CompiledProgram>) -> (s: String)
    ensures
        s@ == (match program {
            Some(p) => "main="@ + text::dec(p.main@.len()) + " bytes\nirq_handlers="@ + text::dec(
                p.irq_bytecodes@.len(),
            ),
            None => "not compiled"@,
        }),
{
    match program {
        Some(p) => {
            let mut s: String = "main=".to_owned();
            push_dec(&mut s, p.main.len() as u128);
            s.push_str(" bytes\nirq_handlers=");
            push_dec(&mut s, p.irq_bytecodes.len() as u128);
            s
        },
        None => "not compiled".to_owned(),
    }
}

} // verus!
