//! The sequence that is worked on: its file, its text, and its blocks.
use crate::blocks::{EditorView, VisualEditor};
use crate::session::{two, CompiledProgram};
use crate::text;
use crate::visual;
use crate::visual::visual_sequences_from_source;
use crate::workspace;
use crate::workspace::{default_rseq_source, initial_sequence_source, FileDialog, FileRead};
use vstd::prelude::*;

verus! {

/// The sequence that is worked on: the file it is in, the files that are named, its text, and its
/// blocks.
#[derive(Debug, Clone, PartialEq, Eq)]
pub struct SequenceDocument {
    pub path: Option<String>,
    pub files: Vec<String>,
    pub source: String,
    pub editor: VisualEditor,
}

/// The sequence that is worked on, as a mathematical value.
#[verifier::ext_equal]
pub struct DocumentView {
    pub path: Option<Seq<char>>,
    pub files: Seq<Seq<char>>,
    pub source: Seq<char>,
    pub editor: EditorView,
}

/// A file that was to be written: where it is, how it is called, and why it was not written if it
/// was not.
#[derive(Debug, PartialEq, Eq)]
pub struct FileWritten {
    pub path: String,
    pub name: String,
    pub written: Result<(), String>,
}

/// The sequence once something was told of it.
pub open spec fn told(d: DocumentView, status: Seq<char>) -> DocumentView {
    DocumentView { editor: EditorView { status, ..d.editor }, ..d }
}

/// The sequence once it was changed.
pub open spec fn modified(d: DocumentView, status: Seq<char>) -> DocumentView {
    DocumentView { editor: EditorView { dirty: true, status, ..d.editor }, ..d }
}

/// The blocks of a text, the first sequence being shown.
pub open spec fn blocks_of(source: Seq<char>, status: Seq<char>) -> EditorView {
    EditorView { sequences: visual::shown_sequences(source), active: 0, dirty: false, status }
}

/// The sequence once a file was opened, or could not be, or none was chosen.
pub open spec fn opened(d: DocumentView, chosen: Option<FileRead>) -> DocumentView {
    match chosen {
        None => told(d, "open cancelled"@),
        Some(f) => match f.text {
            Err(e) => told(d, "failed to read "@ + f.path@ + ": "@ + e@),
            Ok(source) => DocumentView {
                path: Some(f.path@),
                files: seq![f.path@],
                source: source@,
                editor: blocks_of(source@, "opened "@ + f.name@),
            },
        },
    }
}

/// The sequence once it was saved, or could not be, or no file was chosen.
pub open spec fn saved(d: DocumentView, chosen: Option<FileWritten>) -> DocumentView {
    match chosen {
        None => told(d, "save cancelled"@),
        Some(f) => match f.written {
            Err(e) => told(d, "failed to save "@ + f.path@ + ": "@ + e@),
            Ok(()) => DocumentView {
                path: Some(f.path@),
                files: seq![f.path@],
                source: d.source,
                editor: EditorView { dirty: false, status: "saved "@ + f.name@, ..d.editor },
            },
        },
    }
}

/// A new sequence.
pub open spec fn fresh() -> DocumentView {
    DocumentView {
        path: None,
        files: Seq::empty(),
        source: workspace::new_source(),
        editor: blocks_of(workspace::new_source(), "new untitled sequence"@),
    }
}

fn failure(what: &str, path: &str, why: &str) -> (s: String)
    ensures
        s@ == what@ + path@ + ": "@ + why@,
{
    let mut s = two(what, path);
    s.push_str(": ");
    s.push_str(why);
    s
}

fn only(path: &str) -> (files: Vec<String>)
    ensures
        text::texts(files@) == seq![path@],
{
    let mut files: Vec<String> = Vec::new();
    files.push(path.to_owned());
    assert(text::texts(files@) =~= seq![path@]);
    files
}

fn edited(source: &str, status: String) -> (e: VisualEditor)
    ensures
        e.view() == blocks_of(source@, status@),
{
    VisualEditor {
        sequences: visual_sequences_from_source(source),
        active: 0,
        dirty: false,
        status,
    }
}

impl SequenceDocument {
    pub open spec fn view(self) -> DocumentView {
        DocumentView {
            path: match self.path {
                Some(p) => Some(p@),
                None => None,
            },
            files: text::texts(self.files@),
            source: self.source@,
            editor: self.editor.view(),
        }
    }

    /// The sequence at the start.
    pub fn from_files(files: &[FileRead]) -> (d: Self)
        ensures
            d.view() == (DocumentView {
                path: if files@.len() == 1 {
                    Some(files@[0].path@)
                } else {
                    None
                },
                files: files@.map_values(|f: FileRead| f.path@),
                source: workspace::initial_text(files@),
                editor: blocks_of(
                    workspace::initial_text(files@),
                    workspace::initial_status(files@),
                ),
            }),
    {
        let first = initial_sequence_source(files);
        let mut named: Vec<String> = Vec::new();
        let mut i: usize = 0;
        while i < files.len()
            invariant
                i <= files@.len(),
                named@.len() == i,
                forall|k: int| 0 <= k < i ==> (#[trigger] named@[k])@ == files@[k].path@,
            decreases files.len() - i,
        {
            named.push(files[i].path.clone());
            i += 1;
        }
        assert(text::texts(named@) =~= files@.map_values(|f: FileRead| f.path@));
        let editor = edited(first.text.as_str(), first.status);
        SequenceDocument { path: first.path, files: named, source: first.text, editor }
    }

    /// Starts a new sequence. The program that was to be loaded first is dropped.
    pub fn new_sequence(&mut self, program: &mut Option<CompiledProgram>)
        ensures
            final(self).view() == fresh(),
            *final(program) is None,
    {
        *program = None;
        let source = default_rseq_source();
        self.path = None;
        self.files = Vec::new();
        self.source = source.to_owned();
        self.editor = edited(source, "new untitled sequence".to_owned());
        assert(text::texts(self.files@) =~= Seq::<Seq<char>>::empty());
    }

    /// Takes over a text that was typed.
    pub fn edit_text(&mut self, source: String)
        ensures
            final(self).view() == (DocumentView {
                source: source@,
                ..modified(old(self).view(), "modified"@)
            }),
    {
        self.source = source;
        self.editor.dirty = true;
        self.editor.status = "modified".to_owned();
    }

    /// Notes that something was typed into a block.
    pub fn edit_block(&mut self)
        ensures
            final(self).view() == modified(old(self).view(), "visual sequence modified"@),
    {
        self.editor.dirty = true;
        self.editor.status = "visual sequence modified".to_owned();
    }

    /// Tells that a file is being chosen.
    pub fn open_sequence_file(&mut self)
        ensures
            final(self).view() == told(old(self).view(), "opening rseq..."@),
    {
        self.editor.status = FileDialog::OpenSequence.choosing(0);
    }

    /// Takes over the file that was chosen, if one was, and tells whether it is to be loaded.
    pub fn finish_open(&mut self, chosen: Option<FileRead>) -> (load: bool)
        ensures
            final(self).view() == opened(old(self).view(), chosen),
            load == (chosen matches Some(f) && f.text is Ok),
    {
        match chosen {
            None => {
                self.editor.status = FileDialog::OpenSequence.cancelled().to_owned();
                false
            },
            Some(f) => match f.text {
                Err(e) => {
                    self.editor.status = failure("failed to read ", f.path.as_str(), e.as_str());
                    false
                },
                Ok(source) => {
                    self.files = only(f.path.as_str());
                    self.path = Some(f.path);
                    self.editor = edited(source.as_str(), two("opened ", f.name.as_str()));
                    self.source = source;
                    true
                },
            },
        }
    }

    /// The file that the sequence is saved to, `name` being how it is called, or nothing where one
    /// is to be chosen first.
    pub fn save_sequence_file(&mut self, name: &str) -> (path: Option<String>)
        ensures
            (match path {
                Some(p) => Some(p@),
                None => None,
            }) == old(self).view().path,
            final(self).view() == told(
                old(self).view(),
                if old(self).path is Some {
                    "saving "@ + name@ + "..."@
                } else {
                    "choosing save path..."@
                },
            ),
    {
        let path = match &self.path {
            Some(p) => Some(p.clone()),
            None => None,
        };
        if path.is_some() {
            let mut s = two("saving ", name);
            s.push_str("...");
            self.editor.status = s;
        } else {
            self.save_sequence_file_as();
        }
        path
    }

    /// Tells that a file to save to is being chosen.
    pub fn save_sequence_file_as(&mut self)
        ensures
            final(self).view() == told(old(self).view(), "choosing save path..."@),
    {
        self.editor.status = FileDialog::SaveSequence.choosing(0);
    }

    /// Takes over the file that the sequence was saved to, if one was chosen, and tells whether it
    /// is to be loaded.
    pub fn finish_save(&mut self, chosen: Option<FileWritten>) -> (load: bool)
        ensures
            final(self).view() == saved(old(self).view(), chosen),
            load == (chosen matches Some(f) && f.written is Ok),
    {
        match chosen {
            None => {
                self.editor.status = FileDialog::SaveSequence.cancelled().to_owned();
                false
            },
            Some(f) => match f.written {
                Err(e) => {
                    self.editor.status = failure("failed to save ", f.path.as_str(), e.as_str());
                    false
                },
                Ok(()) => {
                    self.files = only(f.path.as_str());
                    self.path = Some(f.path);
                    self.editor.dirty = false;
                    self.editor.status = two("saved ", f.name.as_str());
                    true
                },
            },
        }
    }
}

} // verus!
