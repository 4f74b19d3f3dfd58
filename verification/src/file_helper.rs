//! Where the session stands in the file system: a path relative to the
//! directory the program was started in, and the arithmetic on it.
//!
//! Nothing here touches the file system. Where a step depends on whether a
//! path exists, the caller has asked and passes the answer in.

use crate::text::{
    concat, ends_with, last_component, last_index_of, matches_at, rfind_char, split_at_char,
    split_on, starts_with, str_eq, strings_view, substring, to_string, trim_start_matches,
    without_leading,
};
use vstd::prelude::*;
use vstd::string::*;

verus! {

/// `s` ends with `suffix`.
pub open spec fn ends_with_seq(s: Seq<char>, suffix: Seq<char>) -> bool {
    suffix.len() <= s.len() && matches_at(s, suffix, s.len() - suffix.len())
}

/// `path` names the parent directory.
pub open spec fn is_up(path: Seq<char>) -> bool {
    path == seq!['.', '.'] || path == seq!['.', '.', '/']
}

/// `s` up to its last `/`; all of it where it holds none.
pub open spec fn before_last_slash(s: Seq<char>) -> Seq<char> {
    let i = last_index_of(s, '/');
    if i < 0 {
        s
    } else {
        s.subrange(0, i)
    }
}

/// `path` below `current`, with one `/` between them.
pub open spec fn joined(current: Seq<char>, path: Seq<char>) -> Seq<char> {
    if ends_with_seq(current, seq!['/']) {
        current + path
    } else {
        current + seq!['/'] + path
    }
}

/// The path that changing from `current` into `path` leads to. Going up from
/// a path that names a directory cuts its last component off; from `.` or a
/// path that ends in `..` it appends another `..`.
pub open spec fn cd_target(current: Seq<char>, path: Seq<char>) -> Seq<char> {
    let path = without_leading(path, seq!['/']);
    let climbing = ends_with_seq(current, seq!['.', '.']) || ends_with_seq(
        current,
        seq!['.', '.', '/'],
    );
    if !climbing && current != seq!['.'] && is_up(path) {
        before_last_slash(current)
    } else {
        joined(current, path)
    }
}

/// `path` directly below `current`.
pub open spec fn sim_cd_target(current: Seq<char>, path: Seq<char>) -> Seq<char> {
    current + seq!['/'] + path
}

/// `base` with one component cut off for each `../` that `rel` starts
/// with, and what is left of `rel`.
pub open spec fn climbed(base: Seq<char>, rel: Seq<char>) -> (Seq<char>, Seq<char>)
    decreases rel.len(),
{
    if matches_at(rel, seq!['.', '.', '/'], 0) || rel == seq!['.', '.'] {
        let cut = last_index_of(base, '/');
        let keep = if cut >= 0 {
            cut
        } else if rel.len() <= base.len() {
            rel.len() as int
        } else {
            base.len() as int
        };
        let skip = if rel.len() < 3 {
            rel.len() as int
        } else {
            3
        };
        climbed(base.subrange(0, keep), rel.subrange(skip, rel.len() as int))
    } else {
        (base, rel)
    }
}

/// The absolute path that the relative path `current` names for a process
/// started in `base`.
pub open spec fn absolute_path_of(base: Seq<char>, current: Seq<char>) -> Seq<char> {
    let (up, left) = climbed(base, without_leading(current, seq!['.', '/']));
    let rest = without_leading(left, seq!['.', '/']);
    if rest.len() > 0 && rest != seq!['.'] {
        up + seq!['/'] + rest
    } else {
        up
    }
}

/// The index of the last component before index `to` that is neither empty
/// nor `.`, or -1.
pub open spec fn last_named(components: Seq<Seq<char>>, to: int) -> int
    decreases to,
{
    if to <= 0 || to > components.len() {
        -1
    } else if components[to - 1].len() > 0 && components[to - 1] != seq!['.'] {
        to - 1
    } else {
        last_named(components, to - 1)
    }
}

/// The final component of `path`: the last piece between `/`s that is
/// neither empty nor `.`. A path that has no such piece, or ends in `..`, has
/// none.
pub open spec fn file_name_of(path: Seq<char>) -> Option<Seq<char>> {
    let components = split_on(path, '/');
    let i = last_named(components, components.len() as int);
    if i < 0 || components[i] == seq!['.', '.'] {
        None
    } else {
        Some(components[i])
    }
}

/// Why a line of a listing has no length.
#[derive(Debug, Clone, Copy, PartialEq, Eq, Structural)]
pub enum PathError {
    /// The listing has no such line.
    OutOfBounds,
}

impl PathError {
    pub fn message(&self) -> (r: String)
        ensures
            r@ == "y is out of bounds"@,
    {
        to_string("y is out of bounds")
    }
}

/// The place of the session in the file system.
#[derive(Debug)]
pub struct PathHelper {
    absolute_path: String,
    current_path: String,
}

impl Clone for PathHelper {
    fn clone(&self) -> (r: Self)
        ensures
            r.base() == self.base(),
            r.current() == self.current(),
    {
        PathHelper {
            absolute_path: self.absolute_path.clone(),
            current_path: self.current_path.clone(),
        }
    }
}

impl PathHelper {
    /// The directory the program was started in.
    pub closed spec fn base(&self) -> Seq<char> {
        self.absolute_path@
    }

    /// The path relative to that directory.
    pub closed spec fn current(&self) -> Seq<char> {
        self.current_path@
    }

    /// The relative path `path` for a process started in `pwd`.
    pub fn new(path: &str, pwd: &str) -> (r: Self)
        ensures
            r.current() == path@,
            r.base() == pwd@,
    {
        PathHelper { current_path: to_string(path), absolute_path: to_string(pwd) }
    }

    pub fn from_path(path: PathHelper) -> (r: Self)
        ensures
            r.current() == path.current(),
            r.base() == path.base(),
    {
        PathHelper { current_path: path.current_path, absolute_path: path.absolute_path }
    }

    /// The directory the program was started in.
    pub fn start_directory(&self) -> (r: &String)
        ensures
            r@ == self.base(),
    {
        &self.absolute_path
    }

    /// The relative path.
    pub fn get_path_str(&self) -> (r: String)
        ensures
            r@ == self.current(),
    {
        self.current_path.clone()
    }

    /// The names of a listing as they are shown: each without the `./`s it
    /// starts with where `trim_start` is set, and as it is where not.
    pub fn get_dir_names_printable(&self, names: &Vec<String>, trim_start: bool) -> (r: Vec<String>)
        ensures
            r@.len() == names@.len(),
            forall|i: int|
                0 <= i < names@.len() ==> (#[trigger] r@[i])@ == if trim_start {
                    without_leading(names@[i]@, seq!['.', '/'])
                } else {
                    names@[i]@
                },
    {
        let mut out: Vec<String> = Vec::new();
        let mut i: usize = 0;
        while i < names.len()
            invariant
                i <= names.len(),
                out@.len() == i,
                forall|k: int|
                    0 <= k < i ==> (#[trigger] out@[k])@ == if trim_start {
                        without_leading(names@[k]@, seq!['.', '/'])
                    } else {
                        names@[k]@
                    },
            decreases names.len() - i,
        {
            proof {
                reveal_strlit("./");
                assert("./"@ =~= seq!['.', '/']);
            }
            let name = if trim_start {
                trim_start_matches(names[i].as_str(), "./")
            } else {
                names[i].clone()
            };
            out.push(name);
            i += 1;
        }
        out
    }

    /// The names of a listing without the `./`s and then the `../`s they
    /// start with.
    pub fn get_dir_names_trimmed(&self, names: &Vec<String>) -> (r: Vec<String>)
        ensures
            r@.len() == names@.len(),
            forall|i: int|
                0 <= i < names@.len() ==> (#[trigger] r@[i])@ == without_leading(
                    without_leading(names@[i]@, seq!['.', '/']),
                    seq!['.', '.', '/'],
                ),
    {
        let mut out: Vec<String> = Vec::new();
        let mut i: usize = 0;
        while i < names.len()
            invariant
                i <= names.len(),
                out@.len() == i,
                forall|k: int|
                    0 <= k < i ==> (#[trigger] out@[k])@ == without_leading(
                        without_leading(names@[k]@, seq!['.', '/']),
                        seq!['.', '.', '/'],
                    ),
            decreases names.len() - i,
        {
            proof {
                reveal_strlit("./");
                reveal_strlit("../");
                assert("./"@ =~= seq!['.', '/']);
                assert("../"@ =~= seq!['.', '.', '/']);
            }
            let first = trim_start_matches(names[i].as_str(), "./");
            out.push(trim_start_matches(first.as_str(), "../"));
            i += 1;
        }
        out
    }

    /// The final component of the relative path.
    pub fn get_file_name(&self) -> (r: Option<String>)
        ensures
            match r {
                Some(name) => file_name_of(self.current()) == Some(name@),
                None => file_name_of(self.current()) is None,
            },
    {
        let components = split_at_char(self.current_path.as_str(), '/');
        let ghost all = strings_view(components@);
        let mut i: usize = components.len();
        while i > 0
            invariant
                i <= components.len(),
                all == strings_view(components@),
                all == split_on(self.current(), '/'),
                last_named(all, all.len() as int) == last_named(all, i as int),
            decreases i,
        {
            assert(all[i - 1] == components@[i - 1]@);
            proof {
                reveal_strlit(".");
                reveal_strlit("..");
                assert("."@ =~= seq!['.']);
                assert(".."@ =~= seq!['.', '.']);
            }
            let c = components[i - 1].as_str();
            if c.unicode_len() > 0 && !str_eq(c, ".") {
                if str_eq(c, "..") {
                    return None;
                }
                return Some(components[i - 1].clone());
            }
            i -= 1;
        }
        None
    }

    /// The path that changing into `path` leads to, where there is a
    /// directory to start from.
    pub fn cd_target(&self, path: &str) -> (r: Option<String>)
        ensures
            match r {
                Some(target) => self.absolute().len() > 0 && target@ == cd_target(
                    self.current(),
                    path@,
                ),
                None => self.absolute().len() == 0,
            },
    {
        if self.get_absolute_path().as_str().unicode_len() == 0 {
            return None;
        }
        proof {
            reveal_strlit("/");
            reveal_strlit(".");
            reveal_strlit("..");
            reveal_strlit("../");
            assert("/"@ =~= seq!['/']);
            assert("."@ =~= seq!['.']);
            assert(".."@ =~= seq!['.', '.']);
            assert("../"@ =~= seq!['.', '.', '/']);
        }
        let path = trim_start_matches(path, "/");
        let current = self.current_path.as_str();
        let climbing = ends_with(current, "..") || ends_with(current, "../");
        let up = str_eq(path.as_str(), "..") || str_eq(path.as_str(), "../");
        if !climbing && !str_eq(current, ".") && up {
            let n: usize = current.unicode_len();
            match rfind_char(current, '/') {
                Some(i) => Some(substring(current, 0, i)),
                None => {
                    assert(current@.subrange(0, n as int) =~= current@);
                    Some(substring(current, 0, n))
                },
            }
        } else if ends_with(current, "/") {
            Some(concat(current, path.as_str()))
        } else {
            let mut target = concat(current, "/");
            target.append(path.as_str());
            Some(target)
        }
    }

    /// Changes into `path`, where `present` says that the path this leads to
    /// exists. Returns `None` and stays where there is no directory to
    /// start from or the path does not exist.
    pub fn cd(&mut self, path: &str, present: bool) -> (r: Option<()>)
        ensures
            final(self).base() == old(self).base(),
            r is Some <==> (present && old(self).absolute().len() > 0),
            r is Some ==> final(self).current() == cd_target(old(self).current(), path@),
            r is None ==> final(self).current() == old(self).current(),
    {
        match self.cd_target(path) {
            Some(target) => {
                if !present {
                    return None;
                }
                self.current_path = target;
                Some(())
            },
            None => None,
        }
    }

    /// A copy of this place after changing into the parent directory, where
    /// `exists` says that the path this leads to exists.
    pub fn get_parent(&self, present: bool) -> (r: Option<PathHelper>)
        ensures
            r is Some <==> (present && self.absolute().len() > 0),
            r matches Some(parent) ==> parent.base() == self.base() && parent.current()
                == cd_target(self.current(), seq!['.', '.']),
    {
        proof {
            reveal_strlit("..");
            assert(".."@ =~= seq!['.', '.']);
        }
        let mut path = self.clone();
        match path.cd("..", present) {
            Some(_) => Some(path),
            None => None,
        }
    }

    /// `path` directly below the relative path.
    pub fn sim_cd_target(&self, path: &str) -> (r: String)
        ensures
            r@ == sim_cd_target(self.current(), path@),
    {
        proof {
            reveal_strlit("/");
            assert("/"@ =~= seq!['/']);
        }
        let mut target = concat(self.current_path.as_str(), "/");
        target.append(path);
        target
    }

    /// The path directly below this place that `path` names, where `exists`
    /// says that it exists. This place stays as it is.
    pub fn sim_cd(&self, path: &str, present: bool) -> (r: Option<String>)
        ensures
            r is Some <==> present,
            r matches Some(target) ==> target@ == sim_cd_target(self.current(), path@),
    {
        if !present {
            return None;
        }
        Some(self.sim_cd_target(path))
    }

    /// Makes `path` the relative path, where `present` says that it exists.
    pub fn set_path(&mut self, path: &str, present: bool) -> (r: Option<()>)
        ensures
            final(self).base() == old(self).base(),
            r is Some <==> present,
            final(self).current() == if present {
                path@
            } else {
                old(self).current()
            },
    {
        if !present {
            return None;
        }
        self.current_path = to_string(path);
        Some(())
    }

    /// The number of names of a listing.
    pub fn get_file_count(&self, names: &Vec<String>) -> (r: usize)
        ensures
            r == names@.len(),
    {
        names.len()
    }

    /// The number of characters of the final component of line `y` of a
    /// listing, counted from 0.
    pub fn get_line_length(&self, names: &Vec<String>, y: u16) -> (r: Result<usize, PathError>)
        ensures
            match r {
                Ok(n) => y < names@.len() && n == last_component(names@[y as int]@).len(),
                Err(e) => y >= names@.len() && e == PathError::OutOfBounds,
            },
    {
        if y as usize >= names.len() {
            return Err(PathError::OutOfBounds);
        }
        let name = crate::text::trim_path(names[y as usize].as_str());
        Ok(name.as_str().unicode_len())
    }

    /// The absolute path of this place.
    pub open spec fn absolute(&self) -> Seq<char> {
        absolute_path_of(self.base(), self.current())
    }

    /// The absolute path of this place: the start directory, one component
    /// shorter for each `../` that the relative path starts with, and what
    /// is left of the relative path below it.
    pub fn get_absolute_path(&self) -> (r: String)
        ensures
            r@ == absolute_path_of(self.base(), self.current()),
    {
        proof {
            reveal_strlit("/");
            reveal_strlit(".");
            reveal_strlit("..");
            reveal_strlit("../");
            reveal_strlit("./");
            assert("/"@ =~= seq!['/']);
            assert("."@ =~= seq!['.']);
            assert(".."@ =~= seq!['.', '.']);
            assert("../"@ =~= seq!['.', '.', '/']);
            assert("./"@ =~= seq!['.', '/']);
        }
        let mut temp = trim_start_matches(self.current_path.as_str(), "./");
        let mut absolute_path = self.absolute_path.clone();
        let ghost start = (absolute_path@, temp@);
        while starts_with(temp.as_str(), "../") || str_eq(temp.as_str(), "..")
            invariant
                "../"@ == seq!['.', '.', '/'],
                ".."@ == seq!['.', '.'],
                climbed(start.0, start.1) == climbed(absolute_path@, temp@),
            decreases temp@.len(),
        {
            let base_len: usize = absolute_path.as_str().unicode_len();
            let rel_len: usize = temp.as_str().unicode_len();
            let keep: usize = match rfind_char(absolute_path.as_str(), '/') {
                Some(i) => i,
                None => if rel_len <= base_len {
                    rel_len
                } else {
                    base_len
                },
            };
            let skip: usize = if rel_len < 3 {
                rel_len
            } else {
                3
            };
            absolute_path = substring(absolute_path.as_str(), 0, keep);
            temp = substring(temp.as_str(), skip, rel_len);
        }
        let rest = trim_start_matches(temp.as_str(), "./");
        if rest.as_str().unicode_len() > 0 && !str_eq(rest.as_str(), ".") {
            absolute_path.append("/");
            absolute_path.append(rest.as_str());
        }
        absolute_path
    }

    /// What follows the last `/` of `path`.
    pub fn trim_path(path: &str) -> (r: String)
        ensures
            r@ == last_component(path@),
    {
        crate::text::trim_path(path)
    }
}

} // verus!
