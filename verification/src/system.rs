//! What the output of the system's commands says. Running the commands is
//! left to the program around the editor; reading their output is done
//! here.

use crate::text::{
    ends_with, is_whitespace_char, join_lines, join_text, matches_at, split_at_char, split_lines,
    split_on, split_text, starts_with, strings_view, substring, trailing_blank_start, trim, trimmed,
};
use vstd::prelude::*;
use vstd::string::*;

verus! {

/// `line` without one carriage return at its end.
pub open spec fn without_carriage_return(line: Seq<char>) -> Seq<char> {
    if line.len() > 0 && line.last() == '\r' {
        line.drop_last()
    } else {
        line
    }
}

/// The lines of `s`: the pieces between its line feeds, each without the
/// carriage return before the line feed. What follows the last line feed is
/// a line only if it is not empty.
pub open spec fn text_lines(s: Seq<char>) -> Seq<Seq<char>> {
    let pieces = split_lines(s);
    let ended = pieces.drop_last().map_values(|l: Seq<char>| without_carriage_return(l));
    if pieces.last().len() > 0 {
        ended.push(pieces.last())
    } else {
        ended
    }
}

/// The start of the run of characters that are no whitespace and end before
/// index `to`.
pub open spec fn word_begin(s: Seq<char>, to: int) -> int
    decreases to,
{
    if 0 < to <= s.len() && !is_whitespace_char(s[to - 1]) {
        word_begin(s, to - 1)
    } else {
        to
    }
}

/// The last run of characters of `s` that are no whitespace; empty where
/// there is none.
pub open spec fn last_word(s: Seq<char>) -> Seq<char> {
    let end = trailing_blank_start(s, s.len() as int);
    s.subrange(word_begin(s, end), end)
}

/// The first field of the last of the lines that, without the whitespace
/// around it, does not start with `total`; the field without the whitespace
/// around it. Fields are what `sep` separates. Empty where there is no such
/// line.
pub open spec fn first_field(lines: Seq<Seq<char>>, sep: char) -> Seq<char>
    decreases lines.len(),
{
    if lines.len() == 0 {
        Seq::empty()
    } else if matches_at(trimmed(lines.last()), "total"@, 0) {
        first_field(lines.drop_last(), sep)
    } else {
        trimmed(split_on(lines.last(), sep)[0])
    }
}

/// What the last of the lines that start with `Static hostname:` says
/// behind its first colon.
pub open spec fn static_hostname(lines: Seq<Seq<char>>) -> Option<Seq<char>>
    decreases lines.len(),
{
    if lines.len() == 0 {
        None
    } else if matches_at(trimmed(lines.last()), "Static hostname:"@, 0) && split_on(
        lines.last(),
        ':',
    ).len() > 1 {
        Some(trimmed(split_on(lines.last(), ':')[1]))
    } else {
        static_hostname(lines.drop_last())
    }
}

/// The last word of each of the lines that does not start with `total`.
pub open spec fn listed_names(lines: Seq<Seq<char>>) -> Seq<Seq<char>>
    decreases lines.len(),
{
    if lines.len() == 0 {
        Seq::empty()
    } else if matches_at(lines.last(), "total"@, 0) {
        listed_names(lines.drop_last())
    } else {
        listed_names(lines.drop_last()).push(last_word(lines.last()))
    }
}

/// The lines of `text`, as the standard library cuts them.
pub fn lines_of(text: &str) -> (r: Vec<String>)
    ensures
        strings_view(r@) == text_lines(text@),
{
    let pieces = split_text(text);
    let ghost all = strings_view(pieces@);
    let mut out: Vec<String> = Vec::new();
    let mut i: usize = 0;
    let ended: usize = pieces.len() - 1;
    assert(strings_view(out@) =~= all.drop_last().map_values(
        |l: Seq<char>| without_carriage_return(l),
    ).take(0));
    while i < ended
        invariant
            i <= ended,
            ended + 1 == pieces.len(),
            all == strings_view(pieces@),
            strings_view(out@) == all.drop_last().map_values(
                |l: Seq<char>| without_carriage_return(l),
            ).take(i as int),
        decreases ended - i,
    {
        let line = pieces[i].as_str();
        let n: usize = line.unicode_len();
        let kept = if n > 0 && line.get_char(n - 1) == '\r' {
            substring(line, 0, n - 1)
        } else {
            pieces[i].clone()
        };
        proof {
            let want = all.drop_last().map_values(|l: Seq<char>| without_carriage_return(l));
            assert(all.drop_last()[i as int] == line@);
            assert(kept@ =~= without_carriage_return(line@));
            assert(strings_view(out@.push(kept)) =~= strings_view(out@).push(kept@));
            assert(want.take(i + 1) =~= want.take(i as int).push(want[i as int]));
        }
        out.push(kept);
        i += 1;
    }
    proof {
        let want = all.drop_last().map_values(|l: Seq<char>| without_carriage_return(l));
        assert(want.take(ended as int) =~= want);
    }
    if pieces[ended].as_str().unicode_len() > 0 {
        let last = pieces[ended].clone();
        proof {
            assert(strings_view(out@.push(last)) =~= strings_view(out@).push(last@));
            assert(all.last() == last@);
        }
        out.push(last);
    }
    out
}

/// The last word of `line`.
pub fn last_word_of(line: &str) -> (r: String)
    ensures
        r@ == last_word(line@),
{
    let n: usize = line.unicode_len();
    let mut end: usize = n;
    while end > 0 && line.get_char(end - 1).is_whitespace()
        invariant
            n == line@.len(),
            end <= n,
            trailing_blank_start(line@, n as int) == trailing_blank_start(line@, end as int),
        decreases end,
    {
        end -= 1;
    }
    let mut begin: usize = end;
    while begin > 0 && !line.get_char(begin - 1).is_whitespace()
        invariant
            n == line@.len(),
            begin <= end <= n,
            word_begin(line@, end as int) == word_begin(line@, begin as int),
        decreases begin,
    {
        begin -= 1;
    }
    substring(line, begin, end)
}

/// The first field of the last line of `output` that does not start with
/// `total`.
fn field_of_last_line(output: &str, sep: char) -> (r: String)
    ensures
        r@ == first_field(text_lines(output@), sep),
{
    let lines = lines_of(output);
    let ghost all = strings_view(lines@);
    let mut res = String::new();
    let mut i: usize = 0;
    assert(all.take(0) =~= Seq::<Seq<char>>::empty());
    assert(res@ =~= Seq::<char>::empty());
    while i < lines.len()
        invariant
            i <= lines.len(),
            all == strings_view(lines@),
            res@ == first_field(all.take(i as int), sep),
        decreases lines.len() - i,
    {
        proof {
            assert(all.take(i + 1).drop_last() =~= all.take(i as int));
            assert(all.take(i + 1).last() == lines@[i as int]@);
        }
        let line = lines[i].as_str();
        let bare = trim(line);
        if !starts_with(bare.as_str(), "total") {
            let fields = split_at_char(line, sep);
            res = trim(fields[0].as_str());
        }
        i += 1;
    }
    assert(all.take(lines.len() as int) =~= all);
    res
}

/// The permissions that the output of `ls -l` gives for a file: the first
/// field of its last line that does not start with `total`.
pub fn get_file_permission(output: &str) -> (r: String)
    ensures
        r@ == first_field(text_lines(output@), ' '),
{
    field_of_last_line(output, ' ')
}

/// The size that the output of `du -sh` gives for a file: what stands
/// before the first tab of its last line.
pub fn get_file_size(output: &str) -> (r: String)
    ensures
        r@ == first_field(text_lines(output@), '\t'),
{
    field_of_last_line(output, '\t')
}

/// The host name that the output of `hostnamectl` gives.
pub fn try_get_hostnamectl(output: &str) -> (r: Option<String>)
    ensures
        match r {
            Some(name) => static_hostname(text_lines(output@)) == Some(name@),
            None => static_hostname(text_lines(output@)) is None,
        },
{
    let lines = lines_of(output);
    let ghost all = strings_view(lines@);
    let mut hostname: Option<String> = None;
    let mut i: usize = 0;
    assert(all.take(0) =~= Seq::<Seq<char>>::empty());
    while i < lines.len()
        invariant
            i <= lines.len(),
            all == strings_view(lines@),
            match hostname {
                Some(name) => static_hostname(all.take(i as int)) == Some(name@),
                None => static_hostname(all.take(i as int)) is None,
            },
        decreases lines.len() - i,
    {
        proof {
            assert(all.take(i + 1).drop_last() =~= all.take(i as int));
            assert(all.take(i + 1).last() == lines@[i as int]@);
        }
        let line = lines[i].as_str();
        let bare = trim(line);
        if starts_with(bare.as_str(), "Static hostname:") {
            let parts = split_at_char(line, ':');
            if parts.len() > 1 {
                hostname = Some(trim(parts[1].as_str()));
            }
        }
        i += 1;
    }
    assert(all.take(lines.len() as int) =~= all);
    hostname
}

/// The preview that the output of `head` gives for a file: the output
/// without the whitespace around it; none where the output is empty or
/// reports an error.
pub fn get_file_preview(output: &str) -> (r: Option<String>)
    ensures
        match r {
            Some(text) => output@.len() > 0 && !matches_at(output@, "head: error"@, 0) && text@
                == trimmed(output@),
            None => output@.len() == 0 || matches_at(output@, "head: error"@, 0),
        },
{
    if output.unicode_len() == 0 || starts_with(output, "head: error") {
        None
    } else {
        Some(trim(output))
    }
}

/// The names that the output of `ls -l` gives for a directory: the last
/// word of each line that does not start with `total`, one name to a line.
pub fn get_dir_preview(output: &str) -> (r: String)
    ensures
        r@ == join_lines(listed_names(text_lines(output@))),
{
    let lines = lines_of(output);
    let ghost all = strings_view(lines@);
    let mut names: Vec<String> = Vec::new();
    let mut i: usize = 0;
    assert(all.take(0) =~= Seq::<Seq<char>>::empty());
    assert(strings_view(names@) =~= Seq::<Seq<char>>::empty());
    while i < lines.len()
        invariant
            i <= lines.len(),
            all == strings_view(lines@),
            strings_view(names@) == listed_names(all.take(i as int)),
        decreases lines.len() - i,
    {
        proof {
            assert(all.take(i + 1).drop_last() =~= all.take(i as int));
            assert(all.take(i + 1).last() == lines@[i as int]@);
        }
        let line = lines[i].as_str();
        if !starts_with(line, "total") {
            let name = last_word_of(line);
            proof {
                assert(strings_view(names@.push(name)) =~= strings_view(names@).push(name@));
            }
            names.push(name);
        }
        i += 1;
    }
    assert(all.take(lines.len() as int) =~= all);
    join_text(&names)
}

/// The command that creates `file_name`: `mkdir` for a name that ends in
/// `/`, `touch` for any other.
pub fn create_command(file_name: &str) -> (r: &'static str)
    ensures
        r@ == if matches_at(file_name@, seq!['/'], file_name@.len() - 1) {
            "mkdir"@
        } else {
            "touch"@
        },
{
    proof {
        reveal_strlit("/");
        assert("/"@ =~= seq!['/']);
    }
    if ends_with(file_name, "/") {
        "mkdir"
    } else {
        "touch"
    }
}

} // verus!
