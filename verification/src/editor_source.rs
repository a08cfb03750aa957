//! Sources as they are handed on: what they are called, and where the paths in them start.
use crate::modes::SequenceViewMode;
use crate::session::two;
use crate::text;
use crate::text::{copy_texts, join};
use vstd::prelude::*;

verus! {

/// A source: what it is called, its text, and the directory that paths in it start from.
#[derive(Debug, Clone, PartialEq, Eq)]
pub struct RseqSource {
    pub name: String,
    pub source: String,
    pub base_dir: Option<String>,
}

impl RseqSource {
    /// A source.
    pub fn new(name: String, source: String, base_dir: Option<String>) -> (s: Self)
        ensures
            s.name == name,
            s.source == source,
            s.base_dir == base_dir,
    {
        RseqSource { name, source, base_dir }
    }
}

/// A text, if there is one.
pub open spec fn text_view(s: Option<&str>) -> Option<Seq<char>> {
    match s {
        Some(s) => Some(s@),
        None => None,
    }
}

/// A text, if there is one.
pub open spec fn string_view(s: Option<String>) -> Option<Seq<char>> {
    match s {
        Some(s) => Some(s@),
        None => None,
    }
}

fn copied(s: Option<&str>) -> (c: Option<String>)
    ensures
        string_view(c) == text_view(s),
{
    match s {
        Some(s) => Some(s.to_owned()),
        None => None,
    }
}

/// A file with a sequence, and the directory it is in.
#[derive(Debug, Clone, Copy)]
pub struct SequenceFile<'a> {
    pub path: &'a str,
    pub parent: Option<&'a str>,
}

/// Where paths in a sequence start: the directory of its file, else the current one.
pub open spec fn base_of(file: Option<SequenceFile>, current: Option<&str>) -> Option<Seq<char>> {
    match file {
        Some(f) => match f.parent {
            Some(p) => Some(p@),
            None => text_view(current),
        },
        None => text_view(current),
    }
}

/// Where paths in a sequence start.
pub fn sequence_base_dir(file: Option<SequenceFile>, current: Option<&str>) -> (dir: Option<String>)
    ensures
        string_view(dir) == base_of(file, current),
{
    match file {
        Some(f) => match f.parent {
            Some(p) => Some(p.to_owned()),
            None => copied(current),
        },
        None => copied(current),
    }
}

/// Where the choice of a file to save to starts: as the paths in the sequence do, else here.
pub fn save_directory(file: Option<SequenceFile>, current: Option<&str>) -> (dir: String)
    ensures
        dir@ == (match base_of(file, current) {
            Some(d) => d,
            None => "."@,
        }),
{
    match sequence_base_dir(file, current) {
        Some(d) => d,
        None => ".".to_owned(),
    }
}

/// The text of an editor as a source, called by its file.
pub fn sequence_source_from_editor(
    text: String,
    file: Option<SequenceFile>,
    current: Option<&str>,
) -> (s: RseqSource)
    ensures
        s.name@ == (match file {
            Some(f) => f.path@,
            None => "untitled.rseq"@,
        }),
        s.source == text,
        string_view(s.base_dir) == base_of(file, current),
{
    let name = match file {
        Some(f) => f.path.to_owned(),
        None => "untitled.rseq".to_owned(),
    };
    RseqSource::new(name, text, sequence_base_dir(file, current))
}

/// What is shown as a source, or what is wrong with the blocks it is made of: in the view of
/// blocks what they make, else the text.
pub fn sequence_source_from_current_view(
    mode: SequenceViewMode,
    text: String,
    blocks: &Result<String, Vec<String>>,
    file: Option<SequenceFile>,
    current: Option<&str>,
) -> (r: Result<RseqSource, Vec<String>>)
    ensures
        match (mode, *blocks) {
            (SequenceViewMode::Text, _) => {
                &&& r matches Ok(s)
                &&& s.name@ == (match file {
                    Some(f) => f.path@,
                    None => "untitled.rseq"@,
                })
                &&& s.source == text
                &&& string_view(s.base_dir) == base_of(file, current)
            },
            (SequenceViewMode::Blocks, Ok(made)) => {
                &&& r matches Ok(s)
                &&& s.name@ == "visual-sequences.rseq"@
                &&& s.source@ == made@
                &&& string_view(s.base_dir) == base_of(file, current)
            },
            (SequenceViewMode::Blocks, Err(errors)) => r matches Err(e) && text::texts(e@)
                == text::texts(errors@),
        },
{
    match mode {
        SequenceViewMode::Text => Ok(sequence_source_from_editor(text, file, current)),
        SequenceViewMode::Blocks => match blocks {
            Ok(made) => Ok(
                RseqSource::new(
                    "visual-sequences.rseq".to_owned(),
                    made.clone(),
                    sequence_base_dir(file, current),
                ),
            ),
            Err(errors) => Err(copy_texts(errors)),
        },
    }
}

/// The sequence of blocks that is shown as a source, or what is wrong with it.
pub fn active_sequence_source(
    made: Result<String, Vec<String>>,
    file: Option<SequenceFile>,
    current: Option<&str>,
) -> (r: Result<RseqSource, Vec<String>>)
    ensures
        match made {
            Ok(text) => {
                &&& r matches Ok(s)
                &&& s.name@ == "visual-active-sequence.rseq"@
                &&& s.source == text
                &&& string_view(s.base_dir) == base_of(file, current)
            },
            Err(errors) => r == Err::<RseqSource, Vec<String>>(errors),
        },
{
    match made {
        Ok(text) => Ok(
            RseqSource::new(
                "visual-active-sequence.rseq".to_owned(),
                text,
                sequence_base_dir(file, current),
            ),
        ),
        Err(errors) => Err(errors),
    }
}

/// What is told where the sequence of blocks that is shown cannot be run: the state of the
/// sequence, and a line for the log.
pub fn active_sequence_failure(errors: &[String]) -> (r: (String, String))
    ensures
        r.0@ == text::joined(text::texts(errors@), "\n"@),
        r.1@ == "active visual sequence failed: "@ + r.0@,
{
    let status = join(errors, "\n");
    let line = two("active visual sequence failed: ", status.as_str());
    (status, line)
}

/// What blocks do to the text once they are to replace it: the new text, if there is one, and
/// the state of the sequence.
pub fn apply_visual_to_text(made: Result<String, Vec<String>>) -> (r: (Option<String>, String))
    ensures
        match made {
            Ok(text) => r.0 == Some(text) && r.1@ == "visual sequence applied to text"@,
            Err(errors) => r.0 is None && r.1@ == text::joined(text::texts(errors@), "\n"@),
        },
{
    match made {
        Ok(text) => (Some(text), "visual sequence applied to text".to_owned()),
        Err(errors) => (None, join(&errors, "\n")),
    }
}

// ---- files

/// A file that was read: its path, the directory it is in, and its text or why there is none.
#[derive(Debug, PartialEq, Eq)]
pub struct SourceFile {
    pub path: String,
    pub parent: Option<String>,
    pub text: Result<String, String>,
}

/// A source as it was read.
pub open spec fn is_source_of(s: RseqSource, f: SourceFile) -> bool {
    &&& f.text matches Ok(t) && s.source == t
    &&& s.name == f.path
    &&& s.base_dir == f.parent
}

/// The first file that could not be read, if there is one.
pub open spec fn first_unread(files: Seq<SourceFile>) -> Option<int>
    decreases files.len(),
{
    if files.len() == 0 {
        None
    } else {
        match first_unread(files.drop_last()) {
            Some(i) => Some(i),
            None => if files.last().text is Err {
                Some(files.len() - 1)
            } else {
                None
            },
        }
    }
}

proof fn lemma_first_unread(files: Seq<SourceFile>, n: int)
    requires
        0 <= n <= files.len(),
    ensures
        first_unread(files.take(n)) is Some ==> first_unread(files) == first_unread(files.take(n)),
        first_unread(files) matches Some(i) ==> 0 <= i < files.len() && files[i].text is Err,
    decreases files.len(),
{
    if n == files.len() {
        assert(files.take(n) =~= files);
        if files.len() > 0 {
            lemma_first_unread(files.drop_last(), files.len() - 1);
        }
    } else {
        lemma_first_unread(files.drop_last(), n);
        assert(files.drop_last().take(n) =~= files.take(n));
    }
}

/// Files as sources, or why the first one that could not be read has none.
pub fn sources_from_files(files: Vec<SourceFile>) -> (r: Result<Vec<RseqSource>, String>)
    ensures
        match first_unread(files@) {
            None => {
                &&& r matches Ok(list)
                &&& list@.len() == files@.len()
                &&& forall|i: int|
                    0 <= i < list@.len() ==> is_source_of(#[trigger] list@[i], files@[i])
            },
            Some(i) => r matches Err(e) && e@ == "failed to read "@ + files@[i].path@ + ": "@
                + files@[i].text->Err_0@,
        },
{
    let ghost all = files@;
    let mut list: Vec<RseqSource> = Vec::new();
    assert(first_unread(all.take(0)) is None);
    for f in it: files
        invariant
            it.seq() == all,
            list@.len() == it.index(),
            first_unread(all.take(it.index() as int)) is None,
            forall|i: int|
                0 <= i < list@.len() ==> is_source_of(#[trigger] list@[i], all[i]),
    {
        let ghost n = it.index() as int;
        proof {
            assert(all.take(n + 1).drop_last() =~= all.take(n));
            assert(all.take(n + 1).last() == all[n]);
        }
        match f.text {
            Ok(text) => {
                list.push(RseqSource::new(f.path, text, f.parent));
            },
            Err(why) => {
                proof {
                    lemma_first_unread(all, n + 1);
                }
                let mut e = two("failed to read ", f.path.as_str());
                e.push_str(": ");
                e.push_str(why.as_str());
                return Err(e);
            },
        }
    }
    assert(all.take(all.len() as int) =~= all);
    Ok(list)
}

} // verus!
