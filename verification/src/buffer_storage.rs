//! The staged changes of each visited directory: one entry per file, with the
//! name and directory it has on disk, the ones it is meant to get, and the
//! state that says which operation is pending for it.
//!
//! Entries are kept in the order in which they came in, and no two entries of
//! one directory share a name.

use crate::text::{
    concat, is_blank, matches_at, split_lines, split_text, starts_with, str_eq, strings_view,
    to_string, trim, trimmed,
};
use vstd::prelude::*;
use vstd::string::*;

verus! {

/// The pending change of an entry.
#[derive(Debug, Clone, Copy, PartialEq, Eq, Structural)]
pub enum State {
    Created,
    Modified,
    Deleted,
    Moved,
    Unmodified,
}

#[derive(Debug, Clone, Copy, PartialEq, Eq, Structural)]
pub enum FileType {
    File,
    Directory,
    Unknown,
}

/// One file or directory, bound to a line of the buffer.
#[derive(Debug)]
pub struct FileEntry {
    pub original_name: String,
    pub name: String,
    pub original_dir: String,
    pub dir: String,
    pub state: State,
    pub file_type: FileType,
}

/// What a [`FileEntry`] holds.
pub struct Entry {
    pub original_name: Seq<char>,
    pub name: Seq<char>,
    pub original_dir: Seq<char>,
    pub dir: Seq<char>,
    pub state: State,
    pub file_type: FileType,
}

impl View for FileEntry {
    type V = Entry;

    open spec fn view(&self) -> Entry {
        Entry {
            original_name: self.original_name@,
            name: self.name@,
            original_dir: self.original_dir@,
            dir: self.dir@,
            state: self.state,
            file_type: self.file_type,
        }
    }
}

/// A name and a kind, as a directory listing gives them.
#[derive(Debug)]
pub struct Listed {
    pub name: String,
    pub file_type: FileType,
}

/// What a [`DirBuffer`] holds.
pub struct Directory {
    pub dir: Seq<char>,
    pub files: Seq<Entry>,
}

/// The views of a sequence of entries.
pub open spec fn entries_view(v: Seq<FileEntry>) -> Seq<Entry> {
    v.map_values(|e: FileEntry| e@)
}

/// The index of the first entry at or after `from` that is called `name`, or
/// the length.
pub open spec fn position_from(files: Seq<Entry>, name: Seq<char>, from: int) -> int
    decreases files.len() - from,
{
    if 0 <= from < files.len() && files[from].name != name {
        position_from(files, name, from + 1)
    } else {
        from
    }
}

/// The index of the entry called `name`, or the length where there is none.
pub open spec fn position(files: Seq<Entry>, name: Seq<char>) -> int {
    position_from(files, name, 0)
}

/// Some entry is called `name`.
pub open spec fn has_entry(files: Seq<Entry>, name: Seq<char>) -> bool {
    position(files, name) < files.len()
}

/// No two entries share a name.
pub open spec fn distinct_names(files: Seq<Entry>) -> bool {
    forall|a: int, b: int|
        0 <= a < b < files.len() ==> (#[trigger] files[a]).name != (#[trigger] files[b]).name
}

/// The state of an entry once its name is `name`: a created entry stays
/// created, any other is unmodified with its original name and modified with
/// any other.
pub open spec fn state_for_name(e: Entry, name: Seq<char>) -> State {
    if e.state == State::Created {
        State::Created
    } else if name == e.original_name {
        State::Unmodified
    } else {
        State::Modified
    }
}

/// The state of an entry once its directory is `dir`: a created entry stays
/// created, any other is unmodified in its original directory and moved in
/// any other.
pub open spec fn state_for_dir(e: Entry, dir: Seq<char>) -> State {
    if e.state == State::Created {
        State::Created
    } else if dir == e.original_dir {
        State::Unmodified
    } else {
        State::Moved
    }
}

/// A new entry of directory `dir` that waits to be created.
pub open spec fn created_entry(name: Seq<char>, file_type: FileType, dir: Seq<char>) -> Entry {
    Entry {
        original_name: name,
        name,
        original_dir: dir,
        dir,
        state: State::Created,
        file_type,
    }
}

/// An entry as found on disk in directory `dir`.
pub open spec fn listed_entry(name: Seq<char>, file_type: FileType, dir: Seq<char>) -> Entry {
    Entry {
        original_name: name,
        name,
        original_dir: dir,
        dir,
        state: State::Unmodified,
        file_type,
    }
}

/// The entries with `e` in the place of the entry of its name, or at the end
/// where no entry has that name.
pub open spec fn upserted(files: Seq<Entry>, e: Entry) -> Seq<Entry> {
    let i = position(files, e.name);
    if i < files.len() {
        files.update(i, e)
    } else {
        files.push(e)
    }
}

/// The entries with the state of the one called `name` set to `state`.
pub open spec fn with_state(files: Seq<Entry>, name: Seq<char>, state: State) -> Seq<Entry> {
    let i = position(files, name);
    if i < files.len() {
        files.update(i, Entry { state, ..files[i] })
    } else {
        files
    }
}

/// The entries with the kind of the one called `name` set to `file_type`.
pub open spec fn with_file_type(files: Seq<Entry>, name: Seq<char>, file_type: FileType) -> Seq<
    Entry,
> {
    let i = position(files, name);
    if i < files.len() {
        files.update(i, Entry { file_type, ..files[i] })
    } else {
        files
    }
}

/// The entries after the one called `name` was renamed to `new_name`. It
/// keeps its place; another entry that was called `new_name` leaves.
pub open spec fn renamed(files: Seq<Entry>, name: Seq<char>, new_name: Seq<char>) -> Seq<Entry> {
    let i = position(files, name);
    let j = position(files, new_name);
    if i >= files.len() {
        files
    } else {
        let e = Entry { name: new_name, state: state_for_name(files[i], new_name), ..files[i] };
        if j < files.len() && j != i {
            files.update(i, e).remove(j)
        } else {
            files.update(i, e)
        }
    }
}

/// The entries after the one called `name` was given the directory `dir`.
pub open spec fn redirected(files: Seq<Entry>, name: Seq<char>, dir: Seq<char>) -> Seq<Entry> {
    let i = position(files, name);
    if i < files.len() {
        files.update(i, Entry { dir, state: state_for_dir(files[i], dir), ..files[i] })
    } else {
        files
    }
}

/// The entries that are in `state`, in their order.
pub open spec fn in_state(files: Seq<Entry>, state: State) -> Seq<Entry>
    decreases files.len(),
{
    if files.len() == 0 {
        Seq::empty()
    } else if files.last().state == state {
        in_state(files.drop_last(), state).push(files.last())
    } else {
        in_state(files.drop_last(), state)
    }
}

/// Some entry is not unmodified.
pub open spec fn any_pending(files: Seq<Entry>) -> bool {
    exists|i: int| 0 <= i < files.len() && (#[trigger] files[i]).state != State::Unmodified
}

/// The names of the entries, each followed by a line feed.
pub open spec fn raw_listing(files: Seq<Entry>) -> Seq<char>
    decreases files.len(),
{
    if files.len() == 0 {
        Seq::empty()
    } else {
        raw_listing(files.drop_last()) + files.last().name + seq!['\n']
    }
}

/// The entries that the lines of a raw listing stand for: one unmodified
/// entry of unknown kind for each line that holds more than whitespace, named
/// by the line without the whitespace around it.
pub open spec fn entries_of_lines(lines: Seq<Seq<char>>) -> Seq<Entry>
    decreases lines.len(),
{
    if lines.len() == 0 {
        Seq::empty()
    } else {
        let before = entries_of_lines(lines.drop_last());
        let name = trimmed(lines.last());
        if name.len() == 0 {
            before
        } else {
            upserted(before, listed_entry(name, FileType::Unknown, Seq::empty()))
        }
    }
}

/// The entries that a directory listing stands for: one unmodified entry for
/// each item; of two items of one name the later one counts.
pub open spec fn entries_of_listing(listing: Seq<Listed>, dir: Seq<char>) -> Seq<Entry>
    decreases listing.len(),
{
    if listing.len() == 0 {
        Seq::empty()
    } else {
        upserted(
            entries_of_listing(listing.drop_last(), dir),
            listed_entry(listing.last().name@, listing.last().file_type, dir),
        )
    }
}

/// The directory that `dir` names for a process whose working directory is
/// `pwd`: itself where it starts with `/`, `pwd` for `.`, and else the path
/// below `pwd`.
pub open spec fn resolved_dir(dir: Seq<char>, pwd: Seq<char>) -> Seq<char> {
    if matches_at(dir, seq!['/'], 0) {
        dir
    } else if dir == seq!['.'] {
        pwd
    } else {
        pwd + seq!['/'] + dir
    }
}

/// The entries once the pending changes were carried out: deleted entries
/// are gone, and every other entry is unmodified under the name and in the
/// directory it was given.
pub open spec fn committed(files: Seq<Entry>) -> Seq<Entry>
    decreases files.len(),
{
    if files.len() == 0 {
        Seq::empty()
    } else {
        let e = files.last();
        if e.state == State::Deleted {
            committed(files.drop_last())
        } else {
            committed(files.drop_last()).push(
                Entry { original_name: e.name, original_dir: e.dir, state: State::Unmodified, ..e },
            )
        }
    }
}

/// The entries once the pending changes were given up: created entries are
/// gone, and every other entry is unmodified under its original name and in
/// its original directory.
pub open spec fn reverted(files: Seq<Entry>) -> Seq<Entry>
    decreases files.len(),
{
    if files.len() == 0 {
        Seq::empty()
    } else {
        let e = files.last();
        if e.state == State::Created {
            reverted(files.drop_last())
        } else {
            upserted(
                reverted(files.drop_last()),
                Entry { name: e.original_name, dir: e.original_dir, state: State::Unmodified, ..e },
            )
        }
    }
}

/// Where `position` points: at the first entry of that name, or past the end
/// where no entry has it.
pub proof fn lemma_position(files: Seq<Entry>, name: Seq<char>)
    ensures
        0 <= position(files, name) <= files.len(),
        has_entry(files, name) ==> files[position(files, name)].name == name,
        forall|k: int| 0 <= k < position(files, name) ==> (#[trigger] files[k]).name != name,
{
    lemma_position_from(files, name, 0);
}

proof fn lemma_position_from(files: Seq<Entry>, name: Seq<char>, from: int)
    requires
        0 <= from <= files.len(),
    ensures
        from <= position_from(files, name, from) <= files.len(),
        position_from(files, name, from) < files.len() ==> files[position_from(
            files,
            name,
            from,
        )].name == name,
        forall|k: int|
            from <= k < position_from(files, name, from) ==> (#[trigger] files[k]).name != name,
    decreases files.len() - from,
{
    if from < files.len() && files[from].name != name {
        lemma_position_from(files, name, from + 1);
    }
}

/// Among distinct names, the entry called `name` is the one `position` finds.
pub proof fn lemma_position_unique(files: Seq<Entry>, name: Seq<char>, k: int)
    requires
        distinct_names(files),
        0 <= k < files.len(),
        files[k].name == name,
    ensures
        position(files, name) == k,
{
    lemma_position(files, name);
}

proof fn lemma_update_distinct(files: Seq<Entry>, i: int, e: Entry)
    requires
        distinct_names(files),
        0 <= i < files.len(),
        forall|k: int| 0 <= k < files.len() && k != i ==> (#[trigger] files[k]).name != e.name,
    ensures
        distinct_names(files.update(i, e)),
{
    let out = files.update(i, e);
    assert forall|a: int, b: int| 0 <= a < b < out.len() implies (#[trigger] out[a]).name != (
    #[trigger] out[b]).name by {
        if a != i && b != i {
            assert(files[a].name != files[b].name);
        } else if a == i {
            assert(files[b].name != e.name);
        } else {
            assert(files[a].name != e.name);
        }
    }
}

proof fn lemma_remove_distinct(files: Seq<Entry>, j: int)
    requires
        distinct_names(files),
        0 <= j < files.len(),
    ensures
        distinct_names(files.remove(j)),
{
    let out = files.remove(j);
    assert forall|a: int, b: int| 0 <= a < b < out.len() implies (#[trigger] out[a]).name != (
    #[trigger] out[b]).name by {
        let a0 = if a < j {
            a
        } else {
            a + 1
        };
        let b0 = if b < j {
            b
        } else {
            b + 1
        };
        assert(out[a] == files[a0] && out[b] == files[b0]);
        assert(files[a0].name != files[b0].name);
    }
}

proof fn lemma_push_distinct(files: Seq<Entry>, e: Entry)
    requires
        distinct_names(files),
        !has_entry(files, e.name),
    ensures
        distinct_names(files.push(e)),
{
    lemma_position(files, e.name);
    let out = files.push(e);
    assert forall|a: int, b: int| 0 <= a < b < out.len() implies (#[trigger] out[a]).name != (
    #[trigger] out[b]).name by {
        if b < files.len() {
            assert(files[a].name != files[b].name);
        } else {
            assert(files[a].name != e.name);
        }
    }
}

proof fn lemma_others_differ(files: Seq<Entry>, i: int)
    requires
        distinct_names(files),
        0 <= i < files.len(),
    ensures
        forall|k: int|
            0 <= k < files.len() && k != i ==> (#[trigger] files[k]).name != files[i].name,
{
    assert forall|k: int| 0 <= k < files.len() && k != i implies (#[trigger] files[k]).name
        != files[i].name by {
        if k < i {
            assert(files[k].name != files[i].name);
        } else {
            assert(files[i].name != files[k].name);
        }
    }
}

/// Putting an entry in keeps the names distinct.
pub proof fn lemma_upserted_distinct(files: Seq<Entry>, e: Entry)
    requires
        distinct_names(files),
    ensures
        distinct_names(upserted(files, e)),
{
    lemma_position(files, e.name);
    let i = position(files, e.name);
    if i < files.len() {
        lemma_others_differ(files, i);
        lemma_update_distinct(files, i, e);
    } else {
        lemma_push_distinct(files, e);
    }
}

/// Renaming an entry keeps the names distinct.
pub proof fn lemma_renamed_distinct(files: Seq<Entry>, name: Seq<char>, new_name: Seq<char>)
    requires
        distinct_names(files),
    ensures
        distinct_names(renamed(files, name, new_name)),
{
    lemma_position(files, name);
    lemma_position(files, new_name);
    let i = position(files, name);
    let j = position(files, new_name);
    if i < files.len() {
        let e = Entry { name: new_name, state: state_for_name(files[i], new_name), ..files[i] };
        if j < files.len() && j != i {
            lemma_remove_distinct(files, j);
            let cut = files.remove(j);
            let i2 = if i < j {
                i
            } else {
                i - 1
            };
            assert forall|k: int| 0 <= k < cut.len() && k != i2 implies (#[trigger] cut[k]).name
                != new_name by {
                let k0 = if k < j {
                    k
                } else {
                    k + 1
                };
                assert(cut[k] == files[k0]);
                lemma_others_differ(files, j);
            }
            lemma_update_distinct(cut, i2, e);
            assert(cut.update(i2, e) =~= files.update(i, e).remove(j));
        } else {
            assert forall|k: int| 0 <= k < files.len() && k != i implies (#[trigger] files[k]).name
                != new_name by {
                if j < files.len() {
                    lemma_others_differ(files, j);
                } else {
                    assert(files[k].name != new_name);
                }
            }
            lemma_update_distinct(files, i, e);
        }
    }
}

/// Renaming an entry that carries its original name and is not waiting to be
/// created, and then renaming it back, leaves it unmodified under that name.
pub proof fn lemma_rename_round_trip(files: Seq<Entry>, name: Seq<char>, new_name: Seq<char>)
    requires
        distinct_names(files),
        has_entry(files, name),
        files[position(files, name)].state != State::Created,
        files[position(files, name)].original_name == name,
    ensures
        has_entry(renamed(renamed(files, name, new_name), new_name, name), name),
        ({
            let after = renamed(renamed(files, name, new_name), new_name, name);
            let e = after[position(after, name)];
            &&& e.state == State::Unmodified
            &&& e.name == name
            &&& e == Entry { state: State::Unmodified, ..files[position(files, name)] }
        }),
{
    lemma_position(files, name);
    lemma_rename_there_and_back(files, name, new_name);
}

/// Renaming an entry and renaming it back leaves it under its name, in the
/// state that the name calls for: created if it was, unmodified if the name
/// is its original name, modified otherwise.
pub proof fn lemma_rename_there_and_back(files: Seq<Entry>, name: Seq<char>, new_name: Seq<char>)
    requires
        distinct_names(files),
        has_entry(files, name),
    ensures
        has_entry(renamed(renamed(files, name, new_name), new_name, name), name),
        ({
            let before = files[position(files, name)];
            let after = renamed(renamed(files, name, new_name), new_name, name);
            after[position(after, name)] == Entry {
                state: state_for_name(before, name),
                ..before
            }
        }),
{
    lemma_position(files, name);
    lemma_position(files, new_name);
    let i = position(files, name);
    let j = position(files, new_name);
    let before = files[i];
    let e = Entry { name: new_name, state: state_for_name(before, new_name), ..before };
    let mid = renamed(files, name, new_name);
    lemma_renamed_distinct(files, name, new_name);
    let i2 = if j < files.len() && j < i {
        i - 1
    } else {
        i
    };
    assert(mid[i2] == e);
    lemma_position_unique(mid, new_name, i2);
    lemma_position(mid, name);
    let back = Entry { name, state: state_for_name(e, name), ..e };
    assert(state_for_name(e, name) == state_for_name(before, name));
    let after = renamed(mid, new_name, name);
    lemma_renamed_distinct(mid, new_name, name);
    let j2 = position(mid, name);
    let i3 = if j2 < mid.len() && j2 < i2 {
        i2 - 1
    } else {
        i2
    };
    assert(after[i3] == back);
    lemma_position_unique(after, name, i3);
}

proof fn lemma_in_state_step(files: Seq<Entry>, state: State, i: int)
    requires
        0 <= i < files.len(),
    ensures
        in_state(files.take(i + 1), state) == if files[i].state == state {
            in_state(files.take(i), state).push(files[i])
        } else {
            in_state(files.take(i), state)
        },
{
    assert(files.take(i + 1).drop_last() =~= files.take(i));
}

impl Clone for FileEntry {
    fn clone(&self) -> (r: Self)
        ensures
            r@ == self@,
    {
        FileEntry {
            original_name: self.original_name.clone(),
            name: self.name.clone(),
            original_dir: self.original_dir.clone(),
            dir: self.dir.clone(),
            state: self.state,
            file_type: self.file_type,
        }
    }
}

impl FileEntry {
    /// An entry of directory `dir` that waits to be created.
    pub fn created(name: &str, file_type: FileType, dir: &str) -> (r: Self)
        ensures
            r@ == created_entry(name@, file_type, dir@),
    {
        FileEntry {
            original_name: to_string(name),
            name: to_string(name),
            original_dir: to_string(dir),
            dir: to_string(dir),
            state: State::Created,
            file_type,
        }
    }

    /// An entry as found on disk in directory `dir`.
    pub fn listed(name: &str, file_type: FileType, dir: &str) -> (r: Self)
        ensures
            r@ == listed_entry(name@, file_type, dir@),
    {
        FileEntry {
            original_name: to_string(name),
            name: to_string(name),
            original_dir: to_string(dir),
            dir: to_string(dir),
            state: State::Unmodified,
            file_type,
        }
    }
}

/// The index of the entry called `name`, or the length.
fn find_entry(files: &Vec<FileEntry>, name: &str) -> (r: usize)
    ensures
        r == position(entries_view(files@), name@),
        r <= files.len(),
        r < files.len() ==> files@[r as int]@.name == name@,
{
    let ghost all = entries_view(files@);
    let mut i: usize = 0;
    while i < files.len() && !str_eq(files[i].name.as_str(), name)
        invariant
            i <= files.len(),
            all == entries_view(files@),
            position(all, name@) == position_from(all, name@, i as int),
        decreases files.len() - i,
    {
        i += 1;
    }
    i
}

/// Puts `e` in the place of the entry of its name, or at the end.
fn upsert(files: &mut Vec<FileEntry>, e: FileEntry)
    ensures
        entries_view(final(files)@) == upserted(entries_view(old(files)@), e@),
{
    let i = find_entry(files, e.name.as_str());
    if i < files.len() {
        proof {
            assert(entries_view(files@.update(i as int, e)) =~= entries_view(files@).update(
                i as int,
                e@,
            ));
        }
        files[i] = e;
    } else {
        proof {
            assert(entries_view(files@.push(e)) =~= entries_view(files@).push(e@));
        }
        files.push(e);
    }
}

/// A copy of the entries.
fn copy_entries(files: &Vec<FileEntry>) -> (r: Vec<FileEntry>)
    ensures
        entries_view(r@) == entries_view(files@),
{
    let mut out: Vec<FileEntry> = Vec::new();
    let mut i: usize = 0;
    while i < files.len()
        invariant
            i <= files.len(),
            out@.len() == i,
            forall|k: int| 0 <= k < i ==> out@[k]@ == files@[k]@,
        decreases files.len() - i,
    {
        out.push(files[i].clone());
        i += 1;
    }
    assert(entries_view(out@) =~= entries_view(files@));
    out
}

/// The changes staged for one directory.
#[derive(Debug)]
pub struct DirBuffer {
    dir: String,
    files: Vec<FileEntry>,
}

impl View for DirBuffer {
    type V = Directory;

    closed spec fn view(&self) -> Directory {
        Directory { dir: self.dir@, files: entries_view(self.files@) }
    }
}

impl Clone for DirBuffer {
    fn clone(&self) -> (r: Self)
        ensures
            r@ == self@,
    {
        proof {
            use_type_invariant(self);
        }
        DirBuffer { dir: self.dir.clone(), files: copy_entries(&self.files) }
    }
}

impl DirBuffer {
    #[verifier::type_invariant]
    spec fn inv(self) -> bool {
        distinct_names(self@.files)
    }

    /// The buffer of the directory that `dir` names, seeded with one
    /// unmodified entry for each item of its listing.
    pub fn new(dir: &str, pwd: &str, listing: &Vec<Listed>) -> (r: Self)
        ensures
            r@.dir == resolved_dir(dir@, pwd@),
            r@.files == entries_of_listing(listing@, resolved_dir(dir@, pwd@)),
            distinct_names(r@.files),
    {
        proof {
            reveal_strlit("/");
            reveal_strlit(".");
            assert("/"@ =~= seq!['/']);
            assert("."@ =~= seq!['.']);
        }
        let resolved = if starts_with(dir, "/") {
            to_string(dir)
        } else if str_eq(dir, ".") {
            to_string(pwd)
        } else {
            let mut path = concat(pwd, "/");
            path.append(dir);
            path
        };
        let mut files: Vec<FileEntry> = Vec::new();
        let mut i: usize = 0;
        assert(listing@.take(0) =~= Seq::<Listed>::empty());
        assert(entries_view(files@) =~= Seq::<Entry>::empty());
        while i < listing.len()
            invariant
                i <= listing.len(),
                entries_view(files@) == entries_of_listing(listing@.take(i as int), resolved@),
                distinct_names(entries_view(files@)),
            decreases listing.len() - i,
        {
            let item = &listing[i];
            let e = FileEntry::listed(item.name.as_str(), item.file_type, resolved.as_str());
            proof {
                assert(listing@.take(i + 1).drop_last() =~= listing@.take(i as int));
                lemma_upserted_distinct(entries_view(files@), e@);
            }
            upsert(&mut files, e);
            i += 1;
        }
        assert(listing@.take(listing.len() as int) =~= listing@);
        DirBuffer { dir: resolved, files }
    }

    /// The buffer that a raw listing stands for: one unmodified entry of
    /// unknown kind for each line that holds more than whitespace.
    pub fn from_raw(raw: &str) -> (r: Self)
        ensures
            r@.dir.len() == 0,
            r@.files == entries_of_lines(split_lines(raw@)),
            distinct_names(r@.files),
    {
        let lines = split_text(raw);
        let ghost all = split_lines(raw@);
        let mut files: Vec<FileEntry> = Vec::new();
        let mut i: usize = 0;
        assert(all.take(0) =~= Seq::<Seq<char>>::empty());
        assert(entries_view(files@) =~= Seq::<Entry>::empty());
        while i < lines.len()
            invariant
                i <= lines.len(),
                all == lines@.map_values(|s: String| s@),
                entries_view(files@) == entries_of_lines(all.take(i as int)),
                distinct_names(entries_view(files@)),
            decreases lines.len() - i,
        {
            let name = trim(lines[i].as_str());
            proof {
                assert(all.take(i + 1).drop_last() =~= all.take(i as int));
                assert(all.take(i + 1).last() == lines@[i as int]@);
            }
            if name.as_str().unicode_len() != 0 {
                let e = FileEntry::listed(name.as_str(), FileType::Unknown, "");
                proof {
                    reveal_strlit("");
                    assert(""@ =~= Seq::<char>::empty());
                    lemma_upserted_distinct(entries_view(files@), e@);
                }
                upsert(&mut files, e);
            }
            i += 1;
        }
        assert(all.take(lines.len() as int) =~= all);
        DirBuffer { dir: String::new(), files }
    }

    /// The names of the entries, each followed by a line feed.
    pub fn into_raw(&self) -> (r: String)
        ensures
            r@ == raw_listing(self@.files),
    {
        let ghost all = entries_view(self.files@);
        let mut raw = String::new();
        let mut i: usize = 0;
        assert(all.take(0) =~= Seq::<Entry>::empty());
        while i < self.files.len()
            invariant
                i <= self.files.len(),
                all == entries_view(self.files@),
                raw@ == raw_listing(all.take(i as int)),
            decreases self.files.len() - i,
        {
            proof {
                reveal_strlit("\n");
                assert("\n"@ =~= seq!['\n']);
                assert(all.take(i + 1).drop_last() =~= all.take(i as int));
            }
            raw.append(self.files[i].name.as_str());
            raw.append("\n");
            i += 1;
        }
        assert(all.take(self.files.len() as int) =~= all);
        raw
    }

    /// The path of the directory.
    pub fn dir(&self) -> (r: &String)
        ensures
            r@ == self@.dir,
            distinct_names(self@.files),
    {
        proof {
            use_type_invariant(self);
        }
        &self.dir
    }

    /// The number of entries.
    pub fn len(&self) -> (r: usize)
        ensures
            r == self@.files.len(),
    {
        self.files.len()
    }

    /// Sets the state of the entry called `name`, if there is one.
    pub fn set_state(&mut self, name: &str, state: State)
        ensures
            final(self)@.dir == old(self)@.dir,
            final(self)@.files == with_state(old(self)@.files, name@, state),
            distinct_names(final(self)@.files),
    {
        proof {
            use_type_invariant(&*self);
        }
        let mut files: Vec<FileEntry> = Vec::new();
        core::mem::swap(&mut files, &mut self.files);
        let i = find_entry(&files, name);
        if i < files.len() {
            let mut e = files[i].clone();
            e.state = state;
            proof {
                let all = entries_view(files@);
                lemma_others_differ(all, i as int);
                lemma_update_distinct(all, i as int, e@);
                assert(entries_view(files@.update(i as int, e)) =~= all.update(i as int, e@));
            }
            files[i] = e;
        }
        self.files = files;
    }

    /// Sets the kind of the entry called `name`, if there is one.
    pub fn set_file_type(&mut self, name: &str, file_type: FileType)
        ensures
            final(self)@.dir == old(self)@.dir,
            final(self)@.files == with_file_type(old(self)@.files, name@, file_type),
            distinct_names(final(self)@.files),
    {
        proof {
            use_type_invariant(&*self);
        }
        let mut files: Vec<FileEntry> = Vec::new();
        core::mem::swap(&mut files, &mut self.files);
        let i = find_entry(&files, name);
        if i < files.len() {
            let mut e = files[i].clone();
            e.file_type = file_type;
            proof {
                let all = entries_view(files@);
                lemma_others_differ(all, i as int);
                lemma_update_distinct(all, i as int, e@);
                assert(entries_view(files@.update(i as int, e)) =~= all.update(i as int, e@));
            }
            files[i] = e;
        }
        self.files = files;
    }

    /// Renames the entry called `name` to `new_name`, if there is one. A
    /// created entry stays created; any other becomes unmodified where
    /// `new_name` is its original name and modified where it is not. Another
    /// entry that was called `new_name` is dropped.
    pub fn set_name(&mut self, name: &str, new_name: &str)
        ensures
            final(self)@.dir == old(self)@.dir,
            final(self)@.files == renamed(old(self)@.files, name@, new_name@),
            distinct_names(final(self)@.files),
    {
        proof {
            use_type_invariant(&*self);
        }
        let mut files: Vec<FileEntry> = Vec::new();
        core::mem::swap(&mut files, &mut self.files);
        let ghost all = entries_view(files@);
        proof {
            lemma_renamed_distinct(all, name@, new_name@);
        }
        let i = find_entry(&files, name);
        if i < files.len() {
            let j = find_entry(&files, new_name);
            let mut e = files[i].clone();
            e.state = match e.state {
                State::Created => State::Created,
                _ => if str_eq(new_name, e.original_name.as_str()) {
                    State::Unmodified
                } else {
                    State::Modified
                },
            };
            e.name = to_string(new_name);
            let mut at: usize = i;
            if j < files.len() && j != i {
                let _ = files.remove(j);
                if j < i {
                    at = i - 1;
                }
                proof {
                    assert(entries_view(files@) =~= all.remove(j as int));
                }
            }
            proof {
                assert(entries_view(files@.update(at as int, e)) =~= entries_view(files@).update(
                    at as int,
                    e@,
                ));
                assert(entries_view(files@).update(at as int, e@) =~= renamed(
                    all,
                    name@,
                    new_name@,
                ));
            }
            files[at] = e;
        }
        self.files = files;
    }

    /// Gives the entry called `name` the directory `path`, if there is one. A
    /// created entry stays created; any other becomes unmodified where `path`
    /// is its original directory and moved where it is not.
    pub fn set_path(&mut self, name: &str, path: &str)
        ensures
            final(self)@.dir == old(self)@.dir,
            final(self)@.files == redirected(old(self)@.files, name@, path@),
            distinct_names(final(self)@.files),
    {
        proof {
            use_type_invariant(&*self);
        }
        let mut files: Vec<FileEntry> = Vec::new();
        core::mem::swap(&mut files, &mut self.files);
        let i = find_entry(&files, name);
        if i < files.len() {
            let mut e = files[i].clone();
            e.state = match e.state {
                State::Created => State::Created,
                _ => if str_eq(path, e.original_dir.as_str()) {
                    State::Unmodified
                } else {
                    State::Moved
                },
            };
            e.dir = to_string(path);
            proof {
                let all = entries_view(files@);
                lemma_others_differ(all, i as int);
                lemma_update_distinct(all, i as int, e@);
                assert(entries_view(files@.update(i as int, e)) =~= all.update(i as int, e@));
            }
            files[i] = e;
        }
        self.files = files;
    }

    /// Gives the entry called `name` the directory `dir`; the same as
    /// [`DirBuffer::set_path`].
    pub fn set_dir(&mut self, name: &str, dir: &str)
        ensures
            final(self)@.dir == old(self)@.dir,
            final(self)@.files == redirected(old(self)@.files, name@, dir@),
            distinct_names(final(self)@.files),
    {
        self.set_path(name, dir);
    }

    /// Marks the entry called `name` as deleted, if there is one. The entry
    /// stays in the buffer.
    pub fn delete_file(&mut self, name: &str)
        ensures
            final(self)@.dir == old(self)@.dir,
            final(self)@.files == with_state(old(self)@.files, name@, State::Deleted),
            final(self)@.files.len() == old(self)@.files.len(),
            distinct_names(final(self)@.files),
    {
        proof {
            lemma_position(self@.files, name@);
        }
        self.set_state(name, State::Deleted);
    }

    /// The entries that are in `state`, in their order.
    pub fn get_files_by_state(&self, state: State) -> (r: Vec<FileEntry>)
        ensures
            entries_view(r@) == in_state(self@.files, state),
    {
        let ghost all = entries_view(self.files@);
        let mut out: Vec<FileEntry> = Vec::new();
        let mut i: usize = 0;
        assert(all.take(0) =~= Seq::<Entry>::empty());
        assert(entries_view(out@) =~= Seq::<Entry>::empty());
        while i < self.files.len()
            invariant
                i <= self.files.len(),
                all == entries_view(self.files@),
                entries_view(out@) == in_state(all.take(i as int), state),
            decreases self.files.len() - i,
        {
            proof {
                lemma_in_state_step(all, state, i as int);
            }
            if self.files[i].state == state {
                let e = self.files[i].clone();
                proof {
                    assert(entries_view(out@.push(e)) =~= entries_view(out@).push(e@));
                }
                out.push(e);
            }
            i += 1;
        }
        assert(all.take(self.files.len() as int) =~= all);
        out
    }

    /// Puts in a file called `name` that waits to be created. It takes the
    /// place of an entry of that name.
    pub fn add_file(&mut self, name: &str, file_type: FileType)
        ensures
            final(self)@.dir == old(self)@.dir,
            final(self)@.files == upserted(
                old(self)@.files,
                created_entry(name@, file_type, old(self)@.dir),
            ),
            distinct_names(final(self)@.files),
    {
        proof {
            use_type_invariant(&*self);
        }
        let e = FileEntry::created(name, file_type, self.dir.as_str());
        let mut files: Vec<FileEntry> = Vec::new();
        core::mem::swap(&mut files, &mut self.files);
        proof {
            lemma_upserted_distinct(entries_view(files@), e@);
        }
        upsert(&mut files, e);
        self.files = files;
    }

    /// The original and the current directory of the entry called `name`.
    pub fn get_file_move_dirs(&self, name: &str) -> (r: Option<(String, String)>)
        ensures
            match r {
                Some((from, to)) => has_entry(self@.files, name@) && from@ == self@.files[position(
                    self@.files,
                    name@,
                )].original_dir && to@ == self@.files[position(self@.files, name@)].dir,
                None => !has_entry(self@.files, name@),
            },
    {
        let i = find_entry(&self.files, name);
        if i < self.files.len() {
            Some((self.files[i].original_dir.clone(), self.files[i].dir.clone()))
        } else {
            None
        }
    }

    /// The original and the current name of the entry called `name`.
    pub fn get_rename(&self, name: &str) -> (r: Option<(String, String)>)
        ensures
            match r {
                Some((from, to)) => has_entry(self@.files, name@) && from@ == self@.files[position(
                    self@.files,
                    name@,
                )].original_name && to@ == name@,
                None => !has_entry(self@.files, name@),
            },
    {
        let i = find_entry(&self.files, name);
        if i < self.files.len() {
            Some((self.files[i].original_name.clone(), self.files[i].name.clone()))
        } else {
            None
        }
    }

    /// A copy of the entry called `name`.
    pub fn get_file(&self, name: &str) -> (r: Option<FileEntry>)
        ensures
            match r {
                Some(e) => has_entry(self@.files, name@) && e@ == self@.files[position(
                    self@.files,
                    name@,
                )],
                None => !has_entry(self@.files, name@),
            },
    {
        let i = find_entry(&self.files, name);
        if i < self.files.len() {
            Some(self.files[i].clone())
        } else {
            None
        }
    }

    /// Whether some entry is not unmodified.
    pub fn has_changes(&self) -> (r: bool)
        ensures
            r == any_pending(self@.files),
    {
        let mut i: usize = 0;
        while i < self.files.len()
            invariant
                i <= self.files.len(),
                forall|k: int|
                    0 <= k < i ==> (#[trigger] entries_view(self.files@)[k]).state
                        == State::Unmodified,
            decreases self.files.len() - i,
        {
            if self.files[i].state != State::Unmodified {
                assert(entries_view(self.files@)[i as int].state != State::Unmodified);
                return true;
            }
            i += 1;
        }
        false
    }

    /// Takes the pending changes as carried out: deleted entries leave, and
    /// every other entry is unmodified under the name and in the directory
    /// it was given.
    pub fn commit(&mut self)
        ensures
            final(self)@.dir == old(self)@.dir,
            final(self)@.files == committed(old(self)@.files),
            !any_pending(final(self)@.files),
            distinct_names(final(self)@.files),
    {
        proof {
            use_type_invariant(&*self);
        }
        let mut files: Vec<FileEntry> = Vec::new();
        core::mem::swap(&mut files, &mut self.files);
        let ghost all = entries_view(files@);
        let mut out: Vec<FileEntry> = Vec::new();
        let mut i: usize = 0;
        assert(all.take(0) =~= Seq::<Entry>::empty());
        assert(entries_view(out@) =~= Seq::<Entry>::empty());
        while i < files.len()
            invariant
                i <= files.len(),
                all == entries_view(files@),
                distinct_names(all),
                entries_view(out@) == committed(all.take(i as int)),
                !any_pending(entries_view(out@)),
                distinct_names(entries_view(out@)),
                forall|k: int|
                    0 <= k < out@.len() ==> exists|m: int|
                        0 <= m < i && (#[trigger] entries_view(out@)[k]).name == all[m].name,
            decreases files.len() - i,
        {
            proof {
                assert(all.take(i + 1).drop_last() =~= all.take(i as int));
            }
            if files[i].state != State::Deleted {
                let mut e = files[i].clone();
                e.original_name = e.name.clone();
                e.original_dir = e.dir.clone();
                e.state = State::Unmodified;
                proof {
                    let before = entries_view(out@);
                    let after = before.push(e@);
                    assert(entries_view(out@.push(e)) =~= after);
                    assert forall|a: int, b: int| 0 <= a < b < after.len() implies (
                    #[trigger] after[a]).name != (#[trigger] after[b]).name by {
                        if b < before.len() {
                            assert(before[a].name != before[b].name);
                        } else {
                            let m = choose|m: int| 0 <= m < i && before[a].name == all[m].name;
                            assert(all[m].name != all[i as int].name);
                        }
                    }
                    assert forall|k: int| 0 <= k < after.len() implies exists|m: int|
                        0 <= m < i + 1 && (#[trigger] after[k]).name == all[m].name by {
                        if k < before.len() {
                            let m = choose|m: int| 0 <= m < i && before[k].name == all[m].name;
                            assert(0 <= m < i + 1 && after[k].name == all[m].name);
                        } else {
                            assert(after[k].name == all[i as int].name);
                        }
                    }
                    assert(!any_pending(after)) by {
                        assert forall|k: int| 0 <= k < after.len() implies (
                        #[trigger] after[k]).state == State::Unmodified by {
                            if k < before.len() {
                                assert(before[k].state == State::Unmodified);
                            }
                        }
                    }
                }
                out.push(e);
            } else {
                proof {
                    let before = entries_view(out@);
                    assert forall|k: int| 0 <= k < before.len() implies exists|m: int|
                        0 <= m < i + 1 && (#[trigger] before[k]).name == all[m].name by {
                        let m = choose|m: int| 0 <= m < i && before[k].name == all[m].name;
                        assert(0 <= m < i + 1 && before[k].name == all[m].name);
                    }
                }
            }
            i += 1;
        }
        assert(all.take(files.len() as int) =~= all);
        self.files = out;
    }

    /// Gives the pending changes up: created entries leave, and every other
    /// entry is unmodified under its original name and in its original
    /// directory.
    pub fn revert(&mut self)
        ensures
            final(self)@.dir == old(self)@.dir,
            final(self)@.files == reverted(old(self)@.files),
            !any_pending(final(self)@.files),
            distinct_names(final(self)@.files),
    {
        proof {
            use_type_invariant(&*self);
        }
        let mut files: Vec<FileEntry> = Vec::new();
        core::mem::swap(&mut files, &mut self.files);
        let ghost all = entries_view(files@);
        let mut out: Vec<FileEntry> = Vec::new();
        let mut i: usize = 0;
        assert(all.take(0) =~= Seq::<Entry>::empty());
        assert(entries_view(out@) =~= Seq::<Entry>::empty());
        while i < files.len()
            invariant
                i <= files.len(),
                all == entries_view(files@),
                entries_view(out@) == reverted(all.take(i as int)),
                !any_pending(entries_view(out@)),
                distinct_names(entries_view(out@)),
            decreases files.len() - i,
        {
            proof {
                assert(all.take(i + 1).drop_last() =~= all.take(i as int));
            }
            if files[i].state != State::Created {
                let mut e = files[i].clone();
                e.name = e.original_name.clone();
                e.dir = e.original_dir.clone();
                e.state = State::Unmodified;
                proof {
                    let before = entries_view(out@);
                    let after = upserted(before, e@);
                    lemma_upserted_distinct(before, e@);
                    lemma_position(before, e@.name);
                    assert(!any_pending(after)) by {
                        assert forall|k: int| 0 <= k < after.len() implies (
                        #[trigger] after[k]).state == State::Unmodified by {
                            if k < before.len() && k != position(before, e@.name) {
                                assert(before[k].state == State::Unmodified);
                            }
                        }
                    }
                }
                upsert(&mut out, e);
            }
            i += 1;
        }
        assert(all.take(files.len() as int) =~= all);
        self.files = out;
    }
}

/// The index of the first directory at or after `from` that is kept under
/// `path`, or the length.
pub open spec fn view_position_from(
    views: Seq<(Seq<char>, Directory)>,
    path: Seq<char>,
    from: int,
) -> int
    decreases views.len() - from,
{
    if 0 <= from < views.len() && views[from].0 != path {
        view_position_from(views, path, from + 1)
    } else {
        from
    }
}

/// The index of the directory kept under `path`, or the length where there
/// is none.
pub open spec fn view_position(views: Seq<(Seq<char>, Directory)>, path: Seq<char>) -> int {
    view_position_from(views, path, 0)
}

/// A directory is kept under `path`.
pub open spec fn has_view(views: Seq<(Seq<char>, Directory)>, path: Seq<char>) -> bool {
    view_position(views, path) < views.len()
}

/// No two directories are kept under one path.
pub open spec fn distinct_paths(views: Seq<(Seq<char>, Directory)>) -> bool {
    forall|a: int, b: int|
        0 <= a < b < views.len() ==> (#[trigger] views[a]).0 != (#[trigger] views[b]).0
}

/// The directories with `d` kept under `path`: in the place of the one that
/// was kept there, or at the end.
pub open spec fn view_put(views: Seq<(Seq<char>, Directory)>, path: Seq<char>, d: Directory) -> Seq<
    (Seq<char>, Directory),
> {
    let i = view_position(views, path);
    if i < views.len() {
        views.update(i, (path, d))
    } else {
        views.push((path, d))
    }
}

/// Some entry of some directory is not unmodified.
pub open spec fn storage_pending(views: Seq<(Seq<char>, Directory)>) -> bool {
    exists|i: int| 0 <= i < views.len() && any_pending((#[trigger] views[i]).1.files)
}

/// The entries of all directories that are in `state`: directory by
/// directory, each in its order.
pub open spec fn all_in_state(views: Seq<(Seq<char>, Directory)>, state: State) -> Seq<Entry>
    decreases views.len(),
{
    if views.len() == 0 {
        Seq::empty()
    } else {
        all_in_state(views.drop_last(), state) + in_state(views.last().1.files, state)
    }
}

/// The directories once the pending changes of each were carried out.
pub open spec fn all_committed(views: Seq<(Seq<char>, Directory)>) -> Seq<(Seq<char>, Directory)> {
    views.map_values(
        |v: (Seq<char>, Directory)| (v.0, Directory { dir: v.1.dir, files: committed(v.1.files) }),
    )
}

/// The directories once the pending changes of each were given up.
pub open spec fn all_reverted(views: Seq<(Seq<char>, Directory)>) -> Seq<(Seq<char>, Directory)> {
    views.map_values(
        |v: (Seq<char>, Directory)| (v.0, Directory { dir: v.1.dir, files: reverted(v.1.files) }),
    )
}

/// Where `view_position` points: at the first directory under that path, or
/// past the end where there is none.
pub proof fn lemma_view_position(views: Seq<(Seq<char>, Directory)>, path: Seq<char>)
    ensures
        0 <= view_position(views, path) <= views.len(),
        has_view(views, path) ==> views[view_position(views, path)].0 == path,
        forall|k: int| 0 <= k < view_position(views, path) ==> (#[trigger] views[k]).0 != path,
{
    lemma_view_position_from(views, path, 0);
}

proof fn lemma_view_position_from(views: Seq<(Seq<char>, Directory)>, path: Seq<char>, from: int)
    requires
        0 <= from <= views.len(),
    ensures
        from <= view_position_from(views, path, from) <= views.len(),
        view_position_from(views, path, from) < views.len() ==> views[view_position_from(
            views,
            path,
            from,
        )].0 == path,
        forall|k: int|
            from <= k < view_position_from(views, path, from) ==> (#[trigger] views[k]).0 != path,
    decreases views.len() - from,
{
    if from < views.len() && views[from].0 != path {
        lemma_view_position_from(views, path, from + 1);
    }
}

/// Keeping a directory under a path leaves the paths distinct.
pub proof fn lemma_view_put_distinct(
    views: Seq<(Seq<char>, Directory)>,
    path: Seq<char>,
    d: Directory,
)
    requires
        distinct_paths(views),
    ensures
        distinct_paths(view_put(views, path, d)),
{
    lemma_view_position(views, path);
    let i = view_position(views, path);
    let out = view_put(views, path, d);
    assert forall|a: int, b: int| 0 <= a < b < out.len() implies (#[trigger] out[a]).0 != (
    #[trigger] out[b]).0 by {
        if i < views.len() {
            assert(views[a].0 != views[b].0);
        } else if b < views.len() {
            assert(views[a].0 != views[b].0);
        } else {
            assert(views[a].0 != path);
        }
    }
}

/// One directory buffer and the path it is kept under.
#[derive(Debug)]
struct Slot {
    path: String,
    buffer: DirBuffer,
}

/// The views of a sequence of slots.
spec fn slots_view(v: Seq<Slot>) -> Seq<(Seq<char>, Directory)> {
    v.map_values(|s: Slot| (s.path@, s.buffer@))
}

/// The index of the slot kept under `path`, or the length.
fn find_slot(slots: &Vec<Slot>, path: &str) -> (r: usize)
    ensures
        r == view_position(slots_view(slots@), path@),
        r <= slots.len(),
        r < slots.len() ==> slots@[r as int].path@ == path@,
{
    let ghost all = slots_view(slots@);
    let mut i: usize = 0;
    while i < slots.len() && !str_eq(slots[i].path.as_str(), path)
        invariant
            i <= slots.len(),
            all == slots_view(slots@),
            view_position(all, path@) == view_position_from(all, path@, i as int),
        decreases slots.len() - i,
    {
        i += 1;
    }
    i
}

/// The directory buffers of a session, each kept under the absolute path of
/// its directory.
#[derive(Debug)]
pub struct BufferStorage {
    views: Vec<Slot>,
}

impl View for BufferStorage {
    type V = Seq<(Seq<char>, Directory)>;

    closed spec fn view(&self) -> Seq<(Seq<char>, Directory)> {
        slots_view(self.views@)
    }
}

impl BufferStorage {
    #[verifier::type_invariant]
    spec fn inv(self) -> bool {
        distinct_paths(self@)
    }

    /// A storage that keeps no directory.
    pub fn new() -> (r: Self)
        ensures
            r@.len() == 0,
    {
        BufferStorage { views: Vec::new() }
    }

    /// Whether a directory is kept under `dir`.
    pub fn has_view(&self, dir: &str) -> (r: bool)
        ensures
            r == has_view(self@, dir@),
            distinct_paths(self@),
    {
        proof {
            use_type_invariant(self);
        }
        find_slot(&self.views, dir) < self.views.len()
    }

    /// Keeps `buffer` under `dir`, in the place of what was kept there.
    fn put(&mut self, dir: String, buffer: DirBuffer)
        ensures
            final(self)@ == view_put(old(self)@, dir@, buffer@),
            distinct_paths(final(self)@),
    {
        proof {
            use_type_invariant(&*self);
            lemma_view_put_distinct(self@, dir@, buffer@);
        }
        let mut views: Vec<Slot> = Vec::new();
        core::mem::swap(&mut views, &mut self.views);
        let i = find_slot(&views, dir.as_str());
        let slot = Slot { path: dir, buffer };
        if i < views.len() {
            proof {
                assert(slots_view(views@.update(i as int, slot)) =~= slots_view(views@).update(
                    i as int,
                    (slot.path@, slot.buffer@),
                ));
            }
            views[i] = slot;
        } else {
            proof {
                assert(slots_view(views@.push(slot)) =~= slots_view(views@).push(
                    (slot.path@, slot.buffer@),
                ));
            }
            views.push(slot);
        }
        self.views = views;
    }

    /// Keeps the directory `dir`, seeded from its listing, unless a directory
    /// is kept under `dir` already: visiting a directory again changes
    /// nothing.
    pub fn add_view(&mut self, dir: String, pwd: &str, listing: &Vec<Listed>)
        ensures
            has_view(old(self)@, dir@) ==> final(self)@ == old(self)@,
            !has_view(old(self)@, dir@) ==> final(self)@ == old(self)@.push(
                (
                    dir@,
                    Directory {
                        dir: resolved_dir(dir@, pwd@),
                        files: entries_of_listing(listing@, resolved_dir(dir@, pwd@)),
                    },
                ),
            ),
            has_view(final(self)@, dir@),
            distinct_paths(final(self)@),
    {
        proof {
            lemma_view_position(self@, dir@);
        }
        if self.has_view(dir.as_str()) {
            return ;
        }
        let buffer = DirBuffer::new(dir.as_str(), pwd, listing);
        let ghost before = self@;
        self.put(dir, buffer);
        proof {
            lemma_view_position(self@, dir@);
            assert(self@[before.len() as int].0 == dir@);
        }
    }

    /// Keeps the directory that the raw listing stands for under `dir`, in
    /// the place of what was kept there.
    pub fn add_view_raw(&mut self, dir: String, raw: &str)
        ensures
            final(self)@ == view_put(
                old(self)@,
                dir@,
                Directory { dir: Seq::empty(), files: entries_of_lines(split_lines(raw@)) },
            ),
            distinct_paths(final(self)@),
    {
        let buffer = DirBuffer::from_raw(raw);
        assert(buffer@ == Directory {
            dir: Seq::<char>::empty(),
            files: entries_of_lines(split_lines(raw@)),
        }) by {
            assert(buffer@.dir =~= Seq::<char>::empty());
        }
        self.put(dir, buffer);
    }

    /// A copy of the directory kept under `dir`.
    pub fn get_view(&self, dir: &str) -> (r: Option<DirBuffer>)
        ensures
            match r {
                Some(buffer) => has_view(self@, dir@) && buffer@ == self@[view_position(
                    self@,
                    dir@,
                )].1,
                None => !has_view(self@, dir@),
            },
    {
        let i = find_slot(&self.views, dir);
        if i < self.views.len() {
            Some(self.views[i].buffer.clone())
        } else {
            None
        }
    }

    /// Keeps `buffer` under `dir`, in the place of what was kept there.
    pub fn update_view(&mut self, dir: &str, buffer: DirBuffer)
        ensures
            final(self)@ == view_put(old(self)@, dir@, buffer@),
            distinct_paths(final(self)@),
    {
        self.put(to_string(dir), buffer);
    }

    /// Whether any entry of any directory is not unmodified.
    pub fn has_changes(&self) -> (r: bool)
        ensures
            r == storage_pending(self@),
    {
        let mut i: usize = 0;
        while i < self.views.len()
            invariant
                i <= self.views.len(),
                forall|k: int| 0 <= k < i ==> !any_pending((#[trigger] self@[k]).1.files),
            decreases self.views.len() - i,
        {
            if self.views[i].buffer.has_changes() {
                assert(any_pending(self@[i as int].1.files));
                return true;
            }
            i += 1;
        }
        false
    }

    /// The entries of all directories that are in `state`: directory by
    /// directory, each in its order.
    pub fn get_files(&self, state: State) -> (r: Vec<FileEntry>)
        ensures
            entries_view(r@) == all_in_state(self@, state),
    {
        let ghost all = self@;
        let mut out: Vec<FileEntry> = Vec::new();
        let mut i: usize = 0;
        assert(all.take(0) =~= Seq::<(Seq<char>, Directory)>::empty());
        assert(entries_view(out@) =~= Seq::<Entry>::empty());
        while i < self.views.len()
            invariant
                i <= self.views.len(),
                all == self@,
                all.len() == self.views.len(),
                entries_view(out@) == all_in_state(all.take(i as int), state),
            decreases self.views.len() - i,
        {
            let mut found = self.views[i].buffer.get_files_by_state(state);
            proof {
                assert(all.take(i + 1).drop_last() =~= all.take(i as int));
                assert(all.take(i + 1).last() == all[i as int]);
                assert(entries_view(out@ + found@) =~= entries_view(out@) + entries_view(found@));
            }
            out.append(&mut found);
            i += 1;
        }
        assert(all.take(self.views.len() as int) =~= all);
        out
    }

    /// Takes the pending changes of every directory as carried out.
    pub fn commit(&mut self)
        ensures
            final(self)@ == all_committed(old(self)@),
            !storage_pending(final(self)@),
            distinct_paths(final(self)@),
    {
        proof {
            use_type_invariant(&*self);
        }
        let mut views: Vec<Slot> = Vec::new();
        core::mem::swap(&mut views, &mut self.views);
        let ghost all = slots_view(views@);
        let mut out: Vec<Slot> = Vec::new();
        let mut i: usize = 0;
        while i < views.len()
            invariant
                i <= views.len(),
                all == slots_view(views@),
                out@.len() == i,
                forall|k: int|
                    0 <= k < i ==> (#[trigger] slots_view(out@)[k]) == all_committed(all)[k],
                forall|k: int| 0 <= k < i ==> !any_pending((#[trigger] slots_view(out@)[k]).1.files),
            decreases views.len() - i,
        {
            let mut buffer = views[i].buffer.clone();
            buffer.commit();
            let slot = Slot { path: views[i].path.clone(), buffer };
            proof {
                let before = slots_view(out@);
                let after = slots_view(out@.push(slot));
                assert(after =~= before.push((slot.path@, slot.buffer@)));
                assert(slot.buffer@ == Directory {
                    dir: all[i as int].1.dir,
                    files: committed(all[i as int].1.files),
                });
                assert forall|k: int| 0 <= k < i + 1 implies (#[trigger] after[k]) == all_committed(
                    all,
                )[k] by {
                    if k < i {
                        assert(after[k] == before[k]);
                    }
                }
                assert forall|k: int| 0 <= k < i + 1 implies !any_pending(
                    (#[trigger] after[k]).1.files,
                ) by {
                    if k < i {
                        assert(after[k] == before[k]);
                    }
                }
            }
            out.push(slot);
            i += 1;
        }
        proof {
            let done = slots_view(out@);
            assert(done =~= all_committed(all));
            assert forall|a: int, b: int| 0 <= a < b < done.len() implies (#[trigger] done[a]).0 != (
            #[trigger] done[b]).0 by {
                assert(all[a].0 != all[b].0);
            }
        }
        self.views = out;
    }

    /// Gives the pending changes of every directory up.
    pub fn revert(&mut self)
        ensures
            final(self)@ == all_reverted(old(self)@),
            !storage_pending(final(self)@),
            distinct_paths(final(self)@),
    {
        proof {
            use_type_invariant(&*self);
        }
        let mut views: Vec<Slot> = Vec::new();
        core::mem::swap(&mut views, &mut self.views);
        let ghost all = slots_view(views@);
        let mut out: Vec<Slot> = Vec::new();
        let mut i: usize = 0;
        while i < views.len()
            invariant
                i <= views.len(),
                all == slots_view(views@),
                out@.len() == i,
                forall|k: int|
                    0 <= k < i ==> (#[trigger] slots_view(out@)[k]) == all_reverted(all)[k],
                forall|k: int| 0 <= k < i ==> !any_pending((#[trigger] slots_view(out@)[k]).1.files),
            decreases views.len() - i,
        {
            let mut buffer = views[i].buffer.clone();
            buffer.revert();
            let slot = Slot { path: views[i].path.clone(), buffer };
            proof {
                let before = slots_view(out@);
                let after = slots_view(out@.push(slot));
                assert(after =~= before.push((slot.path@, slot.buffer@)));
                assert(slot.buffer@ == Directory {
                    dir: all[i as int].1.dir,
                    files: reverted(all[i as int].1.files),
                });
                assert forall|k: int| 0 <= k < i + 1 implies (#[trigger] after[k]) == all_reverted(
                    all,
                )[k] by {
                    if k < i {
                        assert(after[k] == before[k]);
                    }
                }
                assert forall|k: int| 0 <= k < i + 1 implies !any_pending(
                    (#[trigger] after[k]).1.files,
                ) by {
                    if k < i {
                        assert(after[k] == before[k]);
                    }
                }
            }
            out.push(slot);
            i += 1;
        }
        proof {
            let done = slots_view(out@);
            assert(done =~= all_reverted(all));
            assert forall|a: int, b: int| 0 <= a < b < done.len() implies (#[trigger] done[a]).0 != (
            #[trigger] done[b]).0 by {
                assert(all[a].0 != all[b].0);
            }
        }
        self.views = out;
    }
}

/// The entries after text went into the line `before` and left it as
/// `after`. An entry carries the text of its line: the entry of the line is
/// renamed. A line that had no entry and held nothing but whitespace becomes
/// a file called `after` that waits to be created. A line that had no entry
/// and held more binds nothing.
pub open spec fn rebound(files: Seq<Entry>, dir: Seq<char>, before: Seq<char>, after: Seq<char>) -> Seq<
    Entry,
> {
    if after == before {
        files
    } else if has_entry(files, before) {
        renamed(files, before, after)
    } else if trimmed(before).len() == 0 {
        upserted(files, created_entry(after, FileType::File, dir))
    } else {
        files
    }
}

/// The entries after text went out of the line `before` and left it as
/// `after`: the entry of the line is renamed, and a line without an entry
/// binds nothing.
pub open spec fn line_renamed(files: Seq<Entry>, before: Seq<char>, after: Seq<char>) -> Seq<Entry> {
    if after == before {
        files
    } else {
        renamed(files, before, after)
    }
}

/// The entries with a file called `name` that waits to be created, unless an
/// entry of that name is there.
pub open spec fn added_if_absent(files: Seq<Entry>, dir: Seq<char>, name: Seq<char>) -> Seq<Entry> {
    if has_entry(files, name) {
        files
    } else {
        files.push(created_entry(name, FileType::File, dir))
    }
}

/// One of the lines holds the text `name`.
pub open spec fn keeps_name(lines: Seq<Seq<char>>, name: Seq<char>) -> bool {
    exists|k: int| 0 <= k < lines.len() && #[trigger] lines[k] == name
}

/// The entries after the lines from index `from` on were bound: lines that
/// hold nothing but whitespace and lines that hold `before` bind nothing;
/// the first other line takes over the entry of `before` unless `taken` says
/// that it is spoken for; every further line is added as a file that waits
/// to be created.
pub open spec fn bound_from(
    files: Seq<Entry>,
    dir: Seq<char>,
    before: Seq<char>,
    lines: Seq<Seq<char>>,
    from: int,
    taken: bool,
) -> Seq<Entry>
    decreases lines.len() - from,
{
    if from < 0 || from >= lines.len() {
        files
    } else {
        let name = lines[from];
        if trimmed(name).len() == 0 || name == before {
            bound_from(files, dir, before, lines, from + 1, taken)
        } else if !taken {
            bound_from(rebound(files, dir, before, name), dir, before, lines, from + 1, true)
        } else {
            bound_from(added_if_absent(files, dir, name), dir, before, lines, from + 1, true)
        }
    }
}

/// The entries after text went into the line `before` and `lines` took its
/// place. An entry carries the text of its line. Where one line takes the
/// place of one, its entry is renamed. Where several lines take the place of
/// one, the entry stays with the line that keeps the text, or else goes to
/// the first line that holds more than whitespace, and the other such lines
/// are added.
pub open spec fn bound_lines(
    files: Seq<Entry>,
    dir: Seq<char>,
    before: Seq<char>,
    lines: Seq<Seq<char>>,
) -> Seq<Entry> {
    if lines.len() == 1 {
        rebound(files, dir, before, lines[0])
    } else {
        bound_from(files, dir, before, lines, 0, keeps_name(lines, before))
    }
}

/// The directories after line `before` of the directory kept under `path`
/// was replaced by `lines`. Where no directory is kept there, nothing
/// changes.
pub open spec fn view_bound(
    views: Seq<(Seq<char>, Directory)>,
    path: Seq<char>,
    before: Seq<char>,
    lines: Seq<Seq<char>>,
) -> Seq<(Seq<char>, Directory)> {
    let i = view_position(views, path);
    if i < views.len() {
        let d = views[i].1;
        views.update(
            i,
            (path, Directory { dir: d.dir, files: bound_lines(d.files, d.dir, before, lines) }),
        )
    } else {
        views
    }
}

/// The directories after text went out of line `before` of the directory
/// kept under `path` and left it as `after`.
pub open spec fn view_renamed(
    views: Seq<(Seq<char>, Directory)>,
    path: Seq<char>,
    before: Seq<char>,
    after: Seq<char>,
) -> Seq<(Seq<char>, Directory)> {
    let i = view_position(views, path);
    if i < views.len() {
        let d = views[i].1;
        views.update(i, (path, Directory { dir: d.dir, files: line_renamed(d.files, before, after) }))
    } else {
        views
    }
}

/// The directories after the entry called `name` of the directory kept under
/// `path` was put in `state`.
pub open spec fn view_with_state(
    views: Seq<(Seq<char>, Directory)>,
    path: Seq<char>,
    name: Seq<char>,
    state: State,
) -> Seq<(Seq<char>, Directory)> {
    let i = view_position(views, path);
    if i < views.len() {
        let d = views[i].1;
        views.update(i, (path, Directory { dir: d.dir, files: with_state(d.files, name, state) }))
    } else {
        views
    }
}

/// The entries after the one called `name` was put back by a paste into the
/// directory `path`: unless it waits to be created, it is unmodified if
/// `path` is its original directory, and moved there if not.
pub open spec fn pasted(files: Seq<Entry>, name: Seq<char>, path: Seq<char>) -> Seq<Entry> {
    if has_entry(files, name) && files[position(files, name)].state != State::Created {
        redirected(with_state(files, name, State::Moved), name, path)
    } else {
        files
    }
}

/// The directories after the entry called `name` of the directory kept under
/// `path` was put back by a paste.
pub open spec fn view_pasted(
    views: Seq<(Seq<char>, Directory)>,
    path: Seq<char>,
    name: Seq<char>,
) -> Seq<(Seq<char>, Directory)> {
    let i = view_position(views, path);
    if i < views.len() {
        let d = views[i].1;
        views.update(i, (path, Directory { dir: d.dir, files: pasted(d.files, name, path) }))
    } else {
        views
    }
}

/// The kind of the entry called `name` of the directory kept under `path`;
/// unknown where there is no such entry.
pub open spec fn kind_of(views: Seq<(Seq<char>, Directory)>, path: Seq<char>, name: Seq<char>) -> FileType {
    let i = view_position(views, path);
    if i < views.len() && has_entry(views[i].1.files, name) {
        views[i].1.files[position(views[i].1.files, name)].file_type
    } else {
        FileType::Unknown
    }
}

/// The state of the entry called `name` of the directory kept under `path`,
/// where there is such an entry.
pub open spec fn state_of(views: Seq<(Seq<char>, Directory)>, path: Seq<char>, name: Seq<char>) -> Option<
    State,
> {
    let i = view_position(views, path);
    if i < views.len() && has_entry(views[i].1.files, name) {
        Some(views[i].1.files[position(views[i].1.files, name)].state)
    } else {
        None
    }
}

impl DirBuffer {
    /// Whether an entry is called `name`.
    pub fn contains(&self, name: &str) -> (r: bool)
        ensures
            r == has_entry(self@.files, name@),
    {
        find_entry(&self.files, name) < self.files.len()
    }

    /// Follows a line that text went into: it held `before` and holds
    /// `after`.
    fn rebind(&mut self, before: &str, after: &str)
        ensures
            final(self)@.dir == old(self)@.dir,
            final(self)@.files == rebound(old(self)@.files, old(self)@.dir, before@, after@),
            distinct_names(final(self)@.files),
    {
        proof {
            use_type_invariant(&*self);
        }
        if str_eq(after, before) {
            return ;
        }
        if self.contains(before) {
            self.set_name(before, after);
        } else if is_blank(before) {
            self.add_file(after, FileType::File);
        }
    }

    /// Follows a line that text went out of: it held `before` and holds
    /// `after`.
    pub fn rename_line(&mut self, before: &str, after: &str)
        ensures
            final(self)@.dir == old(self)@.dir,
            final(self)@.files == line_renamed(old(self)@.files, before@, after@),
            distinct_names(final(self)@.files),
    {
        proof {
            use_type_invariant(&*self);
        }
        if !str_eq(after, before) {
            self.set_name(before, after);
        }
    }

    /// Follows a line that text went into: it held `before`, and `lines`
    /// took its place.
    pub fn bind_lines(&mut self, before: &str, lines: &Vec<String>)
        ensures
            final(self)@.dir == old(self)@.dir,
            final(self)@.files == bound_lines(
                old(self)@.files,
                old(self)@.dir,
                before@,
                strings_view(lines@),
            ),
            distinct_names(final(self)@.files),
    {
        proof {
            use_type_invariant(&*self);
        }
        let ghost all = strings_view(lines@);
        let ghost dir = self@.dir;
        let ghost start = self@.files;
        if lines.len() == 1 {
            self.rebind(before, lines[0].as_str());
            return ;
        }
        let mut taken = false;
        let mut k: usize = 0;
        while k < lines.len()
            invariant
                k <= lines.len(),
                all == strings_view(lines@),
                taken == exists|j: int| 0 <= j < k && #[trigger] all[j] == before@,
            decreases lines.len() - k,
        {
            if str_eq(lines[k].as_str(), before) {
                assert(all[k as int] == before@);
                taken = true;
            }
            k += 1;
        }
        let mut i: usize = 0;
        while i < lines.len()
            invariant
                i <= lines.len(),
                all == strings_view(lines@),
                self@.dir == dir,
                distinct_names(self@.files),
                bound_from(start, dir, before@, all, 0, keeps_name(all, before@)) == bound_from(
                    self@.files,
                    dir,
                    before@,
                    all,
                    i as int,
                    taken,
                ),
            decreases lines.len() - i,
        {
            let here = lines[i].as_str();
            assert(here@ == all[i as int]);
            if !is_blank(here) && !str_eq(here, before) {
                if !taken {
                    self.rebind(before, here);
                    taken = true;
                } else {
                    if !self.contains(here) {
                        proof {
                            lemma_position(self@.files, here@);
                        }
                        self.add_file(here, FileType::File);
                    }
                }
            }
            i += 1;
        }
    }
}

impl BufferStorage {
    /// Follows text that went out of a line of the directory kept under
    /// `dir`: the line held `before` and holds `after`.
    pub fn rename_line(&mut self, dir: &str, before: &str, after: &str)
        ensures
            final(self)@ == view_renamed(old(self)@, dir@, before@, after@),
            distinct_paths(final(self)@),
    {
        proof {
            use_type_invariant(&*self);
            lemma_view_position(self@, dir@);
        }
        match self.get_view(dir) {
            Some(mut view) => {
                view.rename_line(before, after);
                self.update_view(dir, view);
            },
            None => {},
        }
    }

    /// Follows text that went into a line of the directory kept under `dir`:
    /// the line held `before`, and `lines` took its place.
    pub fn bind_lines(&mut self, dir: &str, before: &str, lines: &Vec<String>)
        ensures
            final(self)@ == view_bound(old(self)@, dir@, before@, strings_view(lines@)),
            distinct_paths(final(self)@),
    {
        proof {
            use_type_invariant(&*self);
            lemma_view_position(self@, dir@);
        }
        match self.get_view(dir) {
            Some(mut view) => {
                view.bind_lines(before, lines);
                self.update_view(dir, view);
            },
            None => {},
        }
    }

    /// Puts the entry called `name` of the directory kept under `dir` in
    /// `state`.
    pub fn set_state(&mut self, dir: &str, name: &str, state: State)
        ensures
            final(self)@ == view_with_state(old(self)@, dir@, name@, state),
            distinct_paths(final(self)@),
    {
        proof {
            use_type_invariant(&*self);
            lemma_view_position(self@, dir@);
        }
        match self.get_view(dir) {
            Some(mut view) => {
                view.set_state(name, state);
                self.update_view(dir, view);
            },
            None => {},
        }
    }

    /// Takes the entry called `name` of the directory kept under `dir` as
    /// put back by a paste: unless it waits to be created, it is unmodified
    /// if `dir` is its original directory, and moved there if not.
    pub fn paste(&mut self, dir: &str, name: &str)
        ensures
            final(self)@ == view_pasted(old(self)@, dir@, name@),
            distinct_paths(final(self)@),
    {
        proof {
            use_type_invariant(&*self);
            lemma_view_position(self@, dir@);
        }
        match self.get_view(dir) {
            Some(mut view) => {
                let back = match view.get_file(name) {
                    Some(e) => e.state != State::Created,
                    None => false,
                };
                if back {
                    view.set_state(name, State::Moved);
                    view.set_path(name, dir);
                }
                self.update_view(dir, view);
            },
            None => {},
        }
    }

    /// The state of the entry called `name` of the directory kept under
    /// `dir`, where there is such an entry.
    pub fn get_file_state(&self, dir: &str, name: &str) -> (r: Option<State>)
        ensures
            r == state_of(self@, dir@, name@),
    {
        let i = find_slot(&self.views, dir);
        if i < self.views.len() {
            match self.views[i].buffer.get_file(name) {
                Some(e) => Some(e.state),
                None => None,
            }
        } else {
            None
        }
    }

    /// The kind of the entry called `name` of the directory kept under `dir`;
    /// unknown where there is no such entry.
    pub fn get_file_type(&self, dir: &str, name: &str) -> (r: FileType)
        ensures
            r == kind_of(self@, dir@, name@),
    {
        let i = find_slot(&self.views, dir);
        if i < self.views.len() {
            match self.views[i].buffer.get_file(name) {
                Some(e) => e.file_type,
                None => FileType::Unknown,
            }
        } else {
            FileType::Unknown
        }
    }
}

} // verus!
