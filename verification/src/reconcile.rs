//! From pending changes to file system operations: one operation for each
//! entry that is not unmodified, with paths relative to the directory the
//! program was started in. Nothing here touches the file system.

use crate::buffer_storage::{
    all_in_state, entries_view, in_state, BufferStorage, Directory, Entry, FileEntry, FileType,
    State,
};
use crate::file_helper::ends_with_seq;
use crate::model::Operation;
use crate::text::{
    concat, ends_with, matches_at, matches_from, substring, to_string, trim, trim_start_matches,
    trimmed, without_leading,
};
use vstd::prelude::*;
use vstd::string::*;

verus! {

/// `dir` lies at or below `pwd`.
pub open spec fn is_below(dir: Seq<char>, pwd: Seq<char>) -> bool {
    pwd.len() > 0 && matches_at(dir, pwd, 0) && (dir.len() == pwd.len() || dir[pwd.len() as int]
        == '/')
}

/// `dir` as a path relative to `pwd`: what follows `pwd` where `dir` lies
/// below it, without the `/`s, `./`s and `../`s it starts with. It is empty
/// for `pwd` itself.
pub open spec fn relative_dir(dir: Seq<char>, pwd: Seq<char>) -> Seq<char> {
    let rest = if is_below(dir, pwd) {
        without_leading(dir.subrange(pwd.len() as int, dir.len() as int), seq!['/'])
    } else {
        dir
    };
    without_leading(without_leading(rest, seq!['.', '/']), seq!['.', '.', '/'])
}

/// The path of `name` in `dir`, relative to `pwd`.
pub open spec fn path_in(dir: Seq<char>, name: Seq<char>, pwd: Seq<char>) -> Seq<char> {
    let rel = relative_dir(dir, pwd);
    if rel.len() == 0 {
        name
    } else if ends_with_seq(rel, seq!['/']) {
        rel + name
    } else {
        rel + seq!['/'] + name
    }
}

/// The path of an entry relative to `pwd`, with a `/` at its end where it
/// is a directory.
pub open spec fn condensed(e: Entry, pwd: Seq<char>) -> Seq<char> {
    if e.file_type == FileType::Directory {
        path_in(e.dir, e.name, pwd) + seq!['/']
    } else {
        path_in(e.dir, e.name, pwd)
    }
}

/// `dir` as the target of a move: relative to `pwd`, and `.` for `pwd`
/// itself.
pub open spec fn target_dir(dir: Seq<char>, pwd: Seq<char>) -> Seq<char> {
    let rel = relative_dir(dir, pwd);
    if rel.len() == 0 {
        seq!['.']
    } else {
        rel
    }
}

/// The operation that carries out the pending change of an entry: delete
/// what is deleted, rename what is modified, create what is created, as a
/// directory where its name ends in `/` and as a file where not, and move
/// what is moved. An unmodified entry asks for none.
pub open spec fn operation_for(e: Entry, pwd: Seq<char>) -> Option<Operation> {
    match e.state {
        State::Deleted => Some(Operation::Delete(condensed(e, pwd))),
        State::Modified => Some(
            Operation::Rename(
                path_in(e.dir, e.original_name, pwd),
                path_in(e.dir, trimmed(e.name), pwd),
            ),
        ),
        State::Created => if ends_with_seq(trimmed(e.name), seq!['/']) {
            Some(Operation::CreateDirectory(path_in(e.dir, trimmed(e.name), pwd)))
        } else {
            Some(Operation::CreateFile(path_in(e.dir, trimmed(e.name), pwd)))
        },
        State::Moved => Some(
            Operation::Move(
                path_in(e.original_dir, e.original_name, pwd),
                target_dir(e.dir, pwd),
            ),
        ),
        State::Unmodified => None,
    }
}

/// The operations for the entries, one for each that asks for one, in their
/// order.
pub open spec fn operations(files: Seq<Entry>, pwd: Seq<char>) -> Seq<Operation>
    decreases files.len(),
{
    if files.len() == 0 {
        Seq::empty()
    } else {
        match operation_for(files.last(), pwd) {
            Some(op) => operations(files.drop_last(), pwd).push(op),
            None => operations(files.drop_last(), pwd),
        }
    }
}

/// The operations that carry out all pending changes: first the deletions,
/// then the renames, the creations and the moves; in each group directory
/// by directory.
pub open spec fn plan(views: Seq<(Seq<char>, Directory)>, pwd: Seq<char>) -> Seq<Operation> {
    operations(all_in_state(views, State::Deleted), pwd) + operations(
        all_in_state(views, State::Modified),
        pwd,
    ) + operations(all_in_state(views, State::Created), pwd) + operations(
        all_in_state(views, State::Moved),
        pwd,
    )
}

/// Each entry that is not unmodified gets exactly one operation.
pub proof fn lemma_one_operation_each(files: Seq<Entry>, pwd: Seq<char>)
    requires
        forall|i: int| 0 <= i < files.len() ==> (#[trigger] files[i]).state != State::Unmodified,
    ensures
        operations(files, pwd).len() == files.len(),
        forall|i: int|
            0 <= i < files.len() ==> Some(#[trigger] operations(files, pwd)[i]) == operation_for(
                files[i],
                pwd,
            ),
    decreases files.len(),
{
    if files.len() > 0 {
        let before = files.drop_last();
        assert forall|i: int| 0 <= i < before.len() implies (#[trigger] before[i]).state
            != State::Unmodified by {
            assert(before[i] == files[i]);
        }
        lemma_one_operation_each(before, pwd);
        assert(files.last() == files[files.len() - 1]);
        assert forall|i: int| 0 <= i < files.len() implies Some(
            #[trigger] operations(files, pwd)[i],
        ) == operation_for(files[i], pwd) by {
            if i < before.len() {
                assert(before[i] == files[i]);
                assert(operations(files, pwd)[i] == operations(before, pwd)[i]);
            }
        }
    }
}

proof fn lemma_in_state_none(files: Seq<Entry>, state: State)
    requires
        forall|k: int| 0 <= k < files.len() ==> (#[trigger] files[k]).state != state,
    ensures
        in_state(files, state) == Seq::<Entry>::empty(),
    decreases files.len(),
{
    if files.len() > 0 {
        let before = files.drop_last();
        assert forall|k: int| 0 <= k < before.len() implies (#[trigger] before[k]).state
            != state by {
            assert(before[k] == files[k]);
        }
        lemma_in_state_none(before, state);
        assert(files.last() == files[files.len() - 1]);
    }
}

proof fn lemma_in_state_one(files: Seq<Entry>, state: State, j: int)
    requires
        0 <= j < files.len(),
        files[j].state == state,
        forall|k: int| 0 <= k < files.len() && k != j ==> (#[trigger] files[k]).state != state,
    ensures
        in_state(files, state) == seq![files[j]],
    decreases files.len(),
{
    let before = files.drop_last();
    assert(files.last() == files[files.len() - 1]);
    if j == files.len() - 1 {
        assert forall|k: int| 0 <= k < before.len() implies (#[trigger] before[k]).state
            != state by {
            assert(before[k] == files[k]);
        }
        lemma_in_state_none(before, state);
        assert(in_state(files, state) =~= seq![files[j]]);
    } else {
        assert(before[j] == files[j]);
        assert forall|k: int| 0 <= k < before.len() && k != j implies (#[trigger] before[k]).state
            != state by {
            assert(before[k] == files[k]);
        }
        lemma_in_state_one(before, state, j);
    }
}

proof fn lemma_all_in_state_none(views: Seq<(Seq<char>, Directory)>, state: State)
    requires
        forall|a: int, b: int|
            0 <= a < views.len() && 0 <= b < views[a].1.files.len() ==> (
            #[trigger] views[a].1.files[b]).state != state,
    ensures
        all_in_state(views, state) == Seq::<Entry>::empty(),
    decreases views.len(),
{
    if views.len() > 0 {
        let before = views.drop_last();
        let last = views.len() - 1;
        assert(views.last() == views[last]);
        assert forall|a: int, b: int|
            0 <= a < before.len() && 0 <= b < before[a].1.files.len() implies (
        #[trigger] before[a].1.files[b]).state != state by {
            assert(before[a] == views[a]);
            assert(views[a].1.files[b].state != state);
        }
        lemma_all_in_state_none(before, state);
        assert forall|k: int| 0 <= k < views[last].1.files.len() implies (
        #[trigger] views[last].1.files[k]).state != state by {
            assert(views[last].1.files[k].state != state);
        }
        lemma_in_state_none(views[last].1.files, state);
        assert(all_in_state(views, state) =~= Seq::<Entry>::empty());
    }
}

proof fn lemma_all_in_state_one(views: Seq<(Seq<char>, Directory)>, state: State, i: int, j: int)
    requires
        0 <= i < views.len(),
        0 <= j < views[i].1.files.len(),
        views[i].1.files[j].state == state,
        forall|a: int, b: int|
            0 <= a < views.len() && 0 <= b < views[a].1.files.len() && (a != i || b != j) ==> (
            #[trigger] views[a].1.files[b]).state != state,
    ensures
        all_in_state(views, state) == seq![views[i].1.files[j]],
    decreases views.len(),
{
    let before = views.drop_last();
    let last = views.len() - 1;
    assert(views.last() == views[last]);
    if i == last {
        assert forall|a: int, b: int|
            0 <= a < before.len() && 0 <= b < before[a].1.files.len() implies (
        #[trigger] before[a].1.files[b]).state != state by {
            assert(before[a] == views[a]);
            assert(views[a].1.files[b].state != state);
        }
        lemma_all_in_state_none(before, state);
        assert forall|k: int| 0 <= k < views[i].1.files.len() && k != j implies (
        #[trigger] views[i].1.files[k]).state != state by {
            assert(views[i].1.files[k].state != state);
        }
        lemma_in_state_one(views[i].1.files, state, j);
        assert(all_in_state(views, state) =~= seq![views[i].1.files[j]]);
    } else {
        assert(before[i] == views[i]);
        assert forall|a: int, b: int|
            0 <= a < before.len() && 0 <= b < before[a].1.files.len() && (a != i || b != j) implies (
        #[trigger] before[a].1.files[b]).state != state by {
            assert(before[a] == views[a]);
            assert(views[a].1.files[b].state != state);
        }
        lemma_all_in_state_one(before, state, i, j);
        assert forall|k: int| 0 <= k < views[last].1.files.len() implies (
        #[trigger] views[last].1.files[k]).state != state by {
            assert(views[last].1.files[k].state != state);
        }
        lemma_in_state_none(views[last].1.files, state);
        assert(all_in_state(views, state) =~= seq![views[i].1.files[j]]);
    }
}

/// Entry `j` of directory `i` is the only entry of all directories that is
/// not unmodified.
pub open spec fn only_pending(views: Seq<(Seq<char>, Directory)>, i: int, j: int) -> bool {
    &&& 0 <= i < views.len()
    &&& 0 <= j < views[i].1.files.len()
    &&& views[i].1.files[j].state != State::Unmodified
    &&& forall|a: int, b: int|
        0 <= a < views.len() && 0 <= b < views[a].1.files.len() && (a != i || b != j) ==> (
        #[trigger] views[a].1.files[b]).state == State::Unmodified
}

/// Where one entry is the only one that is not unmodified, the plan holds
/// exactly one operation: the one for that entry.
pub proof fn lemma_plan_of_one(views: Seq<(Seq<char>, Directory)>, pwd: Seq<char>, i: int, j: int)
    requires
        only_pending(views, i, j),
    ensures
        plan(views, pwd).len() == 1,
        Some(plan(views, pwd)[0]) == operation_for(views[i].1.files[j], pwd),
{
    let e = views[i].1.files[j];
    let one = seq![e];
    assert(operations(Seq::<Entry>::empty(), pwd) =~= Seq::<Operation>::empty());
    assert(one.drop_last() =~= Seq::<Entry>::empty());
    assert(one.last() == e);
    assert(operation_for(e, pwd) is Some);
    assert(operations(one, pwd) == operations(one.drop_last(), pwd).push(
        operation_for(e, pwd)->0,
    ));
    assert(operations(one, pwd) =~= seq![operation_for(e, pwd)->0]);
    if e.state == State::Deleted {
        lemma_all_in_state_one(views, State::Deleted, i, j);
    } else {
        lemma_all_in_state_none(views, State::Deleted);
    }
    if e.state == State::Modified {
        lemma_all_in_state_one(views, State::Modified, i, j);
    } else {
        lemma_all_in_state_none(views, State::Modified);
    }
    if e.state == State::Created {
        lemma_all_in_state_one(views, State::Created, i, j);
    } else {
        lemma_all_in_state_none(views, State::Created);
    }
    if e.state == State::Moved {
        lemma_all_in_state_one(views, State::Moved, i, j);
    } else {
        lemma_all_in_state_none(views, State::Moved);
    }
    assert(plan(views, pwd) =~= seq![operation_for(e, pwd)->0]);
}

/// In the directory that the program was started in, the path of a name is
/// the name.
pub proof fn lemma_path_in_start_directory(pwd: Seq<char>, name: Seq<char>)
    ensures
        relative_dir(pwd, pwd).len() == 0,
        path_in(pwd, name, pwd) == name,
{
    let none = Seq::<char>::empty();
    assert(pwd.subrange(0, pwd.len() as int) =~= pwd);
    assert(pwd.subrange(pwd.len() as int, pwd.len() as int) =~= none);
    assert(without_leading(none, seq!['/']) =~= none);
    assert(without_leading(none, seq!['.', '/']) =~= none);
    assert(without_leading(none, seq!['.', '.', '/']) =~= none);
}

/// Where the only entry that is not unmodified is a renamed entry of the
/// directory that the program was started in, confirming asks for exactly
/// one operation: the rename of its original name to its name, without the
/// whitespace around that.
pub proof fn lemma_one_rename(views: Seq<(Seq<char>, Directory)>, pwd: Seq<char>, i: int, j: int)
    requires
        only_pending(views, i, j),
        views[i].1.files[j].state == State::Modified,
        views[i].1.files[j].dir == pwd,
    ensures
        plan(views, pwd) == seq![
            Operation::Rename(
                views[i].1.files[j].original_name,
                trimmed(views[i].1.files[j].name),
            ),
        ],
{
    let e = views[i].1.files[j];
    lemma_plan_of_one(views, pwd, i, j);
    lemma_path_in_start_directory(pwd, e.original_name);
    lemma_path_in_start_directory(pwd, trimmed(e.name));
    assert(plan(views, pwd) =~= seq![Operation::Rename(e.original_name, trimmed(e.name))]);
}

/// Where the only entry that is not unmodified is a created entry of the
/// directory that the program was started in, confirming asks for exactly
/// one operation: a directory is created where the name, without the
/// whitespace around it, ends in `/`, and a file where it does not.
pub proof fn lemma_one_creation(views: Seq<(Seq<char>, Directory)>, pwd: Seq<char>, i: int, j: int)
    requires
        only_pending(views, i, j),
        views[i].1.files[j].state == State::Created,
        views[i].1.files[j].dir == pwd,
    ensures
        plan(views, pwd) == seq![
            if ends_with_seq(trimmed(views[i].1.files[j].name), seq!['/']) {
                Operation::CreateDirectory(trimmed(views[i].1.files[j].name))
            } else {
                Operation::CreateFile(trimmed(views[i].1.files[j].name))
            },
        ],
{
    let e = views[i].1.files[j];
    lemma_plan_of_one(views, pwd, i, j);
    lemma_path_in_start_directory(pwd, trimmed(e.name));
    assert(plan(views, pwd) =~= seq![
        if ends_with_seq(trimmed(e.name), seq!['/']) {
            Operation::CreateDirectory(trimmed(e.name))
        } else {
            Operation::CreateFile(trimmed(e.name))
        },
    ]);
}

/// One change to the file system.
#[derive(Debug, PartialEq, Eq)]
pub enum FsOperation {
    /// Delete the file or the directory tree at the path.
    Delete(String),
    /// Rename the first path to the second.
    Rename(String, String),
    CreateFile(String),
    CreateDirectory(String),
    /// Move what is at the path into the directory.
    Move(String, String),
}

impl View for FsOperation {
    type V = Operation;

    open spec fn view(&self) -> Operation {
        match *self {
            FsOperation::Delete(p) => Operation::Delete(p@),
            FsOperation::Rename(a, b) => Operation::Rename(a@, b@),
            FsOperation::CreateFile(p) => Operation::CreateFile(p@),
            FsOperation::CreateDirectory(p) => Operation::CreateDirectory(p@),
            FsOperation::Move(a, b) => Operation::Move(a@, b@),
        }
    }
}

/// The views of a sequence of operations.
pub open spec fn operations_view(v: Seq<FsOperation>) -> Seq<Operation> {
    v.map_values(|op: FsOperation| op@)
}

/// `dir` as a path relative to `pwd`.
pub fn relative_directory(dir: &str, pwd: &str) -> (r: String)
    ensures
        r@ == relative_dir(dir@, pwd@),
{
    proof {
        reveal_strlit("/");
        reveal_strlit("./");
        reveal_strlit("../");
        assert("/"@ =~= seq!['/']);
        assert("./"@ =~= seq!['.', '/']);
        assert("../"@ =~= seq!['.', '.', '/']);
    }
    let n: usize = dir.unicode_len();
    let m: usize = pwd.unicode_len();
    let below: bool = m > 0 && matches_from(dir, pwd, 0) && (n == m || dir.get_char(m) == '/');
    let rest = if below {
        let tail = substring(dir, m, n);
        trim_start_matches(tail.as_str(), "/")
    } else {
        to_string(dir)
    };
    let first = trim_start_matches(rest.as_str(), "./");
    trim_start_matches(first.as_str(), "../")
}

/// The path of `name` in `dir`, relative to `pwd`.
pub fn entry_path(dir: &str, name: &str, pwd: &str) -> (r: String)
    ensures
        r@ == path_in(dir@, name@, pwd@),
{
    proof {
        reveal_strlit("/");
        assert("/"@ =~= seq!['/']);
    }
    let rel = relative_directory(dir, pwd);
    if rel.as_str().unicode_len() == 0 {
        to_string(name)
    } else if ends_with(rel.as_str(), "/") {
        concat(rel.as_str(), name)
    } else {
        let mut path = concat(rel.as_str(), "/");
        path.append(name);
        path
    }
}

/// The path of an entry relative to `pwd`, with a `/` at its end where it is
/// a directory.
pub fn condense_path_name(file: &FileEntry, pwd: &str) -> (r: String)
    ensures
        r@ == condensed(file@, pwd@),
{
    proof {
        reveal_strlit("/");
        assert("/"@ =~= seq!['/']);
    }
    let mut name = entry_path(file.dir.as_str(), file.name.as_str(), pwd);
    if file.file_type == FileType::Directory {
        name.append("/");
    }
    name
}

/// The operation that carries out the pending change of an entry.
pub fn operation_of(file: &FileEntry, pwd: &str) -> (r: Option<FsOperation>)
    ensures
        match r {
            Some(op) => operation_for(file@, pwd@) == Some(op@),
            None => operation_for(file@, pwd@) is None,
        },
{
    proof {
        reveal_strlit("/");
        reveal_strlit(".");
        assert("/"@ =~= seq!['/']);
        assert("."@ =~= seq!['.']);
    }
    match file.state {
        State::Deleted => Some(FsOperation::Delete(condense_path_name(file, pwd))),
        State::Modified => {
            let name = trim(file.name.as_str());
            Some(
                FsOperation::Rename(
                    entry_path(file.dir.as_str(), file.original_name.as_str(), pwd),
                    entry_path(file.dir.as_str(), name.as_str(), pwd),
                ),
            )
        },
        State::Created => {
            let name = trim(file.name.as_str());
            let path = entry_path(file.dir.as_str(), name.as_str(), pwd);
            if ends_with(name.as_str(), "/") {
                Some(FsOperation::CreateDirectory(path))
            } else {
                Some(FsOperation::CreateFile(path))
            }
        },
        State::Moved => {
            let rel = relative_directory(file.dir.as_str(), pwd);
            let target = if rel.as_str().unicode_len() == 0 {
                to_string(".")
            } else {
                rel
            };
            Some(
                FsOperation::Move(
                    entry_path(file.original_dir.as_str(), file.original_name.as_str(), pwd),
                    target,
                ),
            )
        },
        State::Unmodified => None,
    }
}

/// Appends the operations for `files` to `out`.
fn append_operations(out: &mut Vec<FsOperation>, files: &Vec<FileEntry>, pwd: &str)
    ensures
        operations_view(final(out)@) == operations_view(old(out)@) + operations(
            entries_view(files@),
            pwd@,
        ),
{
    let ghost start = operations_view(out@);
    let ghost all = entries_view(files@);
    let mut i: usize = 0;
    assert(all.take(0) =~= Seq::<Entry>::empty());
    assert(start + operations(all.take(0), pwd@) =~= start);
    while i < files.len()
        invariant
            i <= files.len(),
            all == entries_view(files@),
            operations_view(out@) == start + operations(all.take(i as int), pwd@),
        decreases files.len() - i,
    {
        proof {
            assert(all.take(i + 1).drop_last() =~= all.take(i as int));
            assert(all.take(i + 1).last() == files@[i as int]@);
        }
        match operation_of(&files[i], pwd) {
            Some(op) => {
                proof {
                    assert(operations_view(out@.push(op)) =~= operations_view(out@).push(op@));
                    assert(start + operations(all.take(i as int), pwd@).push(op@) =~= (start
                        + operations(all.take(i as int), pwd@)).push(op@));
                }
                out.push(op);
            },
            None => {},
        }
        i += 1;
    }
    assert(all.take(files.len() as int) =~= all);
}

/// The operations that carry out all pending changes of `storage`, with
/// paths relative to `pwd`: first the deletions, then the renames, the
/// creations and the moves.
pub fn reconciliation_plan(storage: &BufferStorage, pwd: &str) -> (r: Vec<FsOperation>)
    ensures
        operations_view(r@) == plan(storage@, pwd@),
{
    let mut out: Vec<FsOperation> = Vec::new();
    assert(operations_view(out@) =~= Seq::<Operation>::empty());
    let deleted = storage.get_files(State::Deleted);
    append_operations(&mut out, &deleted, pwd);
    let modified = storage.get_files(State::Modified);
    append_operations(&mut out, &modified, pwd);
    let created = storage.get_files(State::Created);
    append_operations(&mut out, &created, pwd);
    let moved = storage.get_files(State::Moved);
    append_operations(&mut out, &moved, pwd);
    assert(operations_view(out@) =~= plan(storage@, pwd@));
    out
}

} // verus!
