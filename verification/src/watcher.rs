//! Walking a vault: what is entered, what is read, and what comes of it.

use vstd::prelude::*;
use vstd::slice::slice_subrange;

use crate::ingest::frontmatter::{note_settings, parse_frontmatter, split_frontmatter, split_note};
use crate::ingest::{ingest_text, note_chunks, ChunkConfig};
use crate::llm::{chunk_views, ChunkContext, ChunkView};
use crate::path::{
    components, inside, law_name_inside_adds_a_component, path_inside, plain_names, relative,
    relativize,
};
use crate::text::{chars_of, join, occurs_at, same_chars, views};

verus! {

/// What a directory entry is.
#[derive(Debug, Clone, Copy, PartialEq, Eq, Structural)]
pub enum EntryKind {
    Directory,
    File,
    Other,
}

/// What to do with a directory entry.
#[derive(Debug, Clone, Copy, PartialEq, Eq, Structural)]
pub enum EntryAction {
    /// Walk into it.
    Enter,
    /// Read it as a note.
    Read,
    /// Leave it.
    Leave,
}

/// What came of a walk.
#[derive(Debug)]
pub struct IngestOutput {
    pub chunks: Vec<ChunkContext>,
    pub files_scanned: usize,
    pub excluded_files: usize,
}

// ---------- the model ----------

/// Whether a text ends in another.
pub open spec fn ends_in(s: Seq<char>, end: Seq<char>) -> bool {
    end.len() <= s.len() && occurs_at(s, end, s.len() - end.len())
}

/// Whether a name is hidden.
pub open spec fn hidden(name: Seq<char>) -> bool {
    name.len() > 0 && name[0] == '.'
}

/// What to do with a directory entry: directories are entered unless they are
/// hidden, and files are read where their names end in `.md`.
pub open spec fn action_for(name: Seq<char>, kind: EntryKind) -> EntryAction {
    if kind == EntryKind::Directory && !hidden(name) {
        EntryAction::Enter
    } else if kind == EntryKind::File && ends_in(name, ".md"@) {
        EntryAction::Read
    } else {
        EntryAction::Leave
    }
}

/// The chunks that a note adds to a walk: none where it is left out or does not
/// parse.
pub open spec fn added(content: Seq<char>, path: Seq<char>, config: ChunkConfig) -> Seq<ChunkView> {
    match note_chunks(content, path, config) {
        Ok(chunks) => chunks,
        Err(_) => seq![],
    }
}

/// Whether a note asks to be left out.
pub open spec fn is_excluded(content: Seq<char>) -> bool {
    note_settings(split_note(content).0) matches Ok((excluded, _)) && excluded
}

/// A note as it is found: its text, unless it cannot be read, and its path.
pub struct NoteFile {
    pub content: Option<Seq<char>>,
    pub path: Seq<char>,
}

/// The chunks that a note as it is found adds.
pub open spec fn chunks_of(note: NoteFile, config: ChunkConfig) -> Seq<ChunkView> {
    match note.content {
        Some(text) => added(text, note.path, config),
        None => seq![],
    }
}

/// 1 for a note that asks to be left out, and 0 for any other.
pub open spec fn exclusions(note: NoteFile) -> nat {
    if note.content matches Some(text) && is_excluded(text) {
        1
    } else {
        0
    }
}

/// Whether a walk has taken a note in: the note is counted, its chunks come
/// behind those so far, and it is counted as left out where it asks for that.
pub open spec fn taken(
    before: IngestOutput,
    note: NoteFile,
    config: ChunkConfig,
    after: IngestOutput,
) -> bool {
    &&& after.files_scanned == before.files_scanned + 1
    &&& chunk_views(after.chunks@) == chunk_views(before.chunks@) + chunks_of(note, config)
    &&& after.excluded_files == before.excluded_files + exclusions(note)
}

/// The chunks of some notes, one note after another.
pub open spec fn all_chunks(notes: Seq<NoteFile>, config: ChunkConfig) -> Seq<ChunkView>
    decreases notes.len(),
{
    if notes.len() == 0 {
        seq![]
    } else {
        all_chunks(notes.drop_last(), config) + chunks_of(notes.last(), config)
    }
}

/// How many of some notes ask to be left out.
pub open spec fn all_exclusions(notes: Seq<NoteFile>) -> nat
    decreases notes.len(),
{
    if notes.len() == 0 {
        0
    } else {
        all_exclusions(notes.drop_last()) + exclusions(notes.last())
    }
}

// ---------- the code ----------

/// Whether a text ends in another.
fn text_ends_in(s: &str, end: &str) -> (b: bool)
    ensures
        b == ends_in(s@, end@),
{
    let chars = chars_of(s);
    let tail = chars_of(end);
    if tail.len() > chars.len() {
        return false;
    }
    let from = chars.len() - tail.len();
    let rest = slice_subrange(&chars, from, chars.len());
    assert(rest@ =~= s@.subrange(from as int, s@.len() as int));
    let b = same_chars(rest, &tail);
    assert(s@.subrange(from as int, from + end@.len()) =~= rest@);
    b
}

/// What to do with a directory entry.
pub fn entry_action(name: &str, kind: EntryKind) -> (a: EntryAction)
    ensures
        a == action_for(name@, kind),
{
    match kind {
        EntryKind::Directory => {
            let chars = chars_of(name);
            if chars.len() > 0 && chars[0] == '.' {
                EntryAction::Leave
            } else {
                EntryAction::Enter
            }
        },
        EntryKind::File => if text_ends_in(name, ".md") {
            EntryAction::Read
        } else {
            EntryAction::Leave
        },
        EntryKind::Other => EntryAction::Leave,
    }
}

impl IngestOutput {
    /// A walk that has seen nothing.
    pub fn new() -> (o: Self)
        ensures
            o.chunks@.len() == 0,
            o.files_scanned == 0,
            o.excluded_files == 0,
    {
        IngestOutput { chunks: Vec::new(), files_scanned: 0, excluded_files: 0 }
    }

    /// Takes a note in: `content` is `None` where the file could not be read. A
    /// note that is left out is counted as that; one that cannot be read or
    /// does not parse adds nothing.
    pub fn take_note(&mut self, content: Option<&str>, path: &str, config: &ChunkConfig)
        requires
            old(self).files_scanned < usize::MAX,
            old(self).excluded_files <= old(self).files_scanned,
        ensures
            final(self).excluded_files <= final(self).files_scanned,
            taken(
                *old(self),
                NoteFile {
                    content: match content {
                        Some(text) => Some(text@),
                        None => None,
                    },
                    path: path@,
                },
                *config,
                *final(self),
            ),
    {
        self.files_scanned = self.files_scanned + 1;
        let ghost before = chunk_views(self.chunks@);
        assert(before + seq![] =~= before);
        if let Some(text) = content {
            let (yaml, _) = split_frontmatter(text);
            let settings = match &yaml {
                Some(y) => parse_frontmatter(Some(y.as_str())),
                None => parse_frontmatter(None),
            };
            if let Ok((excluded, _)) = settings {
                if excluded {
                    self.excluded_files = self.excluded_files + 1;
                }
            }
            if let Ok(chunks) = ingest_text(text, path, config) {
                let ghost more = chunk_views(chunks@);
                let mut chunks = chunks;
                self.chunks.append(&mut chunks);
                assert(chunk_views(self.chunks@) =~= before + more);
            }
        }
    }
}

/// A walk over a vault: where it started, and the directories still to list.
#[derive(Debug)]
pub struct VaultWalk {
    pub root: String,
    pub queue: Vec<String>,
}

/// A note that the walk has come to.
#[derive(Debug, PartialEq, Eq)]
pub struct FoundNote {
    /// Where it is.
    pub path: String,
    /// Its path relative to the root of the walk.
    pub source_file: String,
}

/// What a directory entry came to.
#[derive(Debug, PartialEq, Eq)]
pub enum Visit {
    /// A directory, which the walk comes to later.
    Directory,
    /// A note.
    Note(FoundNote),
    /// Nothing.
    Nothing,
}

/// The path of a note relative to the root of a walk; a path that is not under
/// the root stays as it is.
pub open spec fn source_of(root: Seq<char>, path: Seq<char>) -> Seq<char> {
    match relative(root, path) {
        Ok(r) => r,
        Err(_) => path,
    }
}

impl VaultWalk {
    /// A walk that starts at a directory.
    pub fn start(root: &str) -> (w: Self)
        ensures
            w.root@ == root@,
            views(w.queue@) == seq![root@],
    {
        let mut queue: Vec<String> = Vec::new();
        queue.push(root.to_string());
        assert(views(queue@) =~= seq![root@]);
        VaultWalk { root: root.to_string(), queue }
    }

    /// The directory to list next: the one found last.
    pub fn next_dir(&mut self) -> (r: Option<String>)
        ensures
            final(self).root == old(self).root,
            match r {
                Some(d) => old(self).queue@.len() > 0 && d@ == views(old(self).queue@).last()
                    && views(final(self).queue@) == views(old(self).queue@).drop_last(),
                None => old(self).queue@.len() == 0 && final(self).queue@ == old(self).queue@,
            },
    {
        let ghost before = self.queue@;
        let r = self.queue.pop();
        if r.is_some() {
            assert(views(self.queue@) =~= views(before).drop_last());
        }
        r
    }

    /// Comes to an entry of a directory: a directory is put on the list, a note
    /// is handed out, and all else is left.
    pub fn visit(&mut self, dir: &str, name: &str, kind: EntryKind) -> (r: Visit)
        ensures
            final(self).root == old(self).root,
            match action_for(name@, kind) {
                EntryAction::Enter => r is Directory && views(final(self).queue@) == views(
                    old(self).queue@,
                ).push(inside(dir@, name@)),
                EntryAction::Read => {
                    &&& final(self).queue@ == old(self).queue@
                    &&& r matches Visit::Note(n)
                    &&& n.path@ == inside(dir@, name@)
                    &&& n.source_file@ == source_of(old(self).root@, inside(dir@, name@))
                },
                EntryAction::Leave => r is Nothing && final(self).queue@ == old(self).queue@,
            },
    {
        match entry_action(name, kind) {
            EntryAction::Enter => {
                let ghost before = self.queue@;
                self.queue.push(path_inside(dir, name));
                assert(views(self.queue@) =~= views(before).push(inside(dir@, name@)));
                Visit::Directory
            },
            EntryAction::Read => {
                let path = path_inside(dir, name);
                let source_file = match relativize(self.root.as_str(), path.as_str()) {
                    Ok(r) => r,
                    Err(_) => path.clone(),
                };
                Visit::Note(FoundNote { path, source_file })
            },
            EntryAction::Leave => Visit::Nothing,
        }
    }
}

// ---------- laws ----------

/// Every directory is entered but the hidden ones.
pub proof fn law_hidden_directories_are_left(name: Seq<char>)
    ensures
        action_for(name, EntryKind::Directory) == if hidden(name) {
            EntryAction::Leave
        } else {
            EntryAction::Enter
        },
{
}

/// Every file whose name ends in `.md` is read, and nothing else is.
pub proof fn law_markdown_is_read(name: Seq<char>, kind: EntryKind)
    ensures
        action_for(name, kind) == EntryAction::Read <==> kind == EntryKind::File && ends_in(
            name,
            ".md"@,
        ),
{
}

/// A note that is left out adds no chunks.
pub proof fn law_excluded_notes_add_nothing(
    content: Seq<char>,
    path: Seq<char>,
    config: ChunkConfig,
)
    ensures
        is_excluded(content) ==> added(content, path, config).len() == 0,
{
}

/// A note is known by its path below the root of the walk: the names of the
/// directories on the way and its own, whatever the root is called.
pub proof fn law_notes_are_known_by_relative_paths(
    root: Seq<char>,
    dir: Seq<char>,
    parts: Seq<Seq<char>>,
    name: Seq<char>,
)
    requires
        components(dir) == components(root) + parts,
        plain_names(seq![name]),
    ensures
        source_of(root, inside(dir, name)) == join(parts.push(name), "/"@),
{
    law_name_inside_adds_a_component(dir, name);
    let v = components(root);
    let f = components(inside(dir, name));
    assert(f =~= v + parts.push(name));
    assert(v =~= f.take(v.len() as int));
    assert(f.skip(v.len() as int) =~= parts.push(name));
}

/// What a whole walk comes to: the chunks of all notes taken in, in their order;
/// as many notes scanned as were taken in, whether they could be used or not; and
/// as many left out as ask for it.
pub proof fn law_walk_comes_to_its_notes(
    outputs: Seq<IngestOutput>,
    notes: Seq<NoteFile>,
    config: ChunkConfig,
)
    requires
        outputs.len() == notes.len() + 1,
        outputs[0].chunks@.len() == 0,
        outputs[0].files_scanned == 0,
        outputs[0].excluded_files == 0,
        forall|i: int|
            0 <= i < notes.len() ==> #[trigger] taken(
                outputs[i],
                notes[i],
                config,
                outputs[i + 1],
            ),
    ensures
        chunk_views(outputs.last().chunks@) == all_chunks(notes, config),
        outputs.last().files_scanned == notes.len(),
        outputs.last().excluded_files == all_exclusions(notes),
    decreases notes.len(),
{
    if notes.len() > 0 {
        let n = notes.len() - 1;
        let few = notes.drop_last();
        let sooner = outputs.drop_last();
        assert forall|i: int| 0 <= i < few.len() implies #[trigger] taken(
            sooner[i],
            few[i],
            config,
            sooner[i + 1],
        ) by {
            assert(taken(outputs[i], notes[i], config, outputs[i + 1]));
        }
        law_walk_comes_to_its_notes(sooner, few, config);
        assert(taken(outputs[n], notes[n], config, outputs[n + 1]));
        assert(sooner.last() == outputs[n]);
    } else {
        assert(chunk_views(outputs.last().chunks@) =~= seq![]);
    }
}

/// A name ends in another if that stands behind something, or is all of it; a name
/// is hidden if it begins with a dot.
pub proof fn law_names_by_their_ends(start: Seq<char>, end: Seq<char>, s: Seq<char>)
    ensures
        ends_in(start + end, end),
        ends_in(s, end) ==> s == s.take(s.len() - end.len()) + end,
        hidden(seq!['.'] + start),
        s.len() == 0 || s[0] != '.' ==> !hidden(s),
{
    let all = start + end;
    assert(all.subrange(start.len() as int, all.len() as int) =~= end);
    if ends_in(s, end) {
        assert(s =~= s.take(s.len() - end.len()) + s.subrange(
            s.len() - end.len(),
            s.len() as int,
        ));
    }
}

/// A note adds its chunks to a walk, under its path, and nothing where it cannot be
/// read or does not parse; it counts as left out only where it parses and says so.
pub proof fn law_notes_add_their_chunks(content: Seq<char>, path: Seq<char>, config: ChunkConfig)
    ensures
        ({
            let note = NoteFile { content: Some(content), path };
            let lost = NoteFile { content: None, path };
            &&& note_chunks(content, path, config) matches Ok(chunks) ==> chunks_of(note, config)
                == chunks
            &&& note_chunks(content, path, config) is Err ==> chunks_of(note, config).len() == 0
                && exclusions(note) == 0
            &&& chunks_of(lost, config).len() == 0 && exclusions(lost) == 0
            &&& exclusions(note) == 1 <==> exists|tags: Seq<Seq<char>>|
                note_settings(split_note(content).0) == Ok::<_, Seq<char>>(
                    #[trigger] settings_out(tags),
                )
            &&& exclusions(note) <= 1
        }),
{
    let note = NoteFile { content: Some(content), path };
    if let Ok((excluded, tags)) = note_settings(split_note(content).0) {
        if excluded {
            assert(note_settings(split_note(content).0) == Ok::<_, Seq<char>>(settings_out(tags)));
        }
    }
}

/// The settings of a note that asks to be left out.
pub open spec fn settings_out(tags: Seq<Seq<char>>) -> (bool, Seq<Seq<char>>) {
    (true, tags)
}

/// Taking a note in counts it once, keeps the chunks so far and puts its own behind
/// them.
pub proof fn law_taking_a_note_in(
    before: IngestOutput,
    note: NoteFile,
    config: ChunkConfig,
    after: IngestOutput,
)
    requires
        taken(before, note, config, after),
    ensures
        after.files_scanned == before.files_scanned + 1,
        chunk_views(after.chunks@) == chunk_views(before.chunks@) + chunks_of(note, config),
        after.excluded_files - before.excluded_files == exclusions(note),
{
}

/// A note outside the root of a walk is known by its whole path.
pub proof fn law_notes_outside_keep_their_paths(root: Seq<char>, path: Seq<char>)
    ensures
        relative(root, path) is Err ==> source_of(root, path) == path,
        relative(root, path) matches Ok(r) ==> source_of(root, path) == r,
{
}

/// What is done with a directory entry: directories are entered unless hidden,
/// files are read if they are notes, and all else is left.
pub proof fn law_entry_action(name: &str, kind: EntryKind, a: EntryAction)
    requires
        call_ensures(entry_action, (name, kind), a),
    ensures
        a == EntryAction::Enter <==> kind == EntryKind::Directory && !hidden(name@),
        a == EntryAction::Read <==> kind == EntryKind::File && ends_in(name@, ".md"@),
{
}

} // verus!
