//! Character classes and the string operations the editor is built from.
//!
//! Everything here works on characters, never on bytes: a column is the
//! 1-based position of a character in its line.

use vstd::prelude::*;
use vstd::string::*;

verus! {

/// Whether `c` is alphabetic or numeric in the sense of Unicode.
pub uninterp spec fn is_alphanumeric_char(c: char) -> bool;

/// Whether `c` has the Unicode property `White_Space`.
pub uninterp spec fn is_whitespace_char(c: char) -> bool;

/// `char::is_alphanumeric`: the answer is the Unicode classification of the
/// character and depends on nothing else. Trusted, not proved.
pub assume_specification[ char::is_alphanumeric ](c: char) -> (answer: bool)
    ensures
        answer == is_alphanumeric_char(c),
;

/// `char::is_whitespace`: the answer is the Unicode classification of the
/// character and depends on nothing else. Trusted, not proved.
pub assume_specification[ char::is_whitespace ](c: char) -> (answer: bool)
    ensures
        answer == is_whitespace_char(c),
;

/// The views of a sequence of strings.
pub open spec fn strings_view(v: Seq<String>) -> Seq<Seq<char>> {
    v.map_values(|s: String| s@)
}

/// `v` as a `usize`, cut off at the ends of that type.
pub open spec fn saturate(v: int) -> usize {
    if v < 0 {
        0
    } else if v > usize::MAX {
        usize::MAX
    } else {
        v as usize
    }
}

/// Column `col` of `line` holds a word character. Columns outside the line
/// hold none.
pub open spec fn is_word_at(line: Seq<char>, col: int) -> bool {
    1 <= col <= line.len() && is_alphanumeric_char(line[col - 1])
}

/// Column `col` of `line` holds whitespace. Columns outside the line count as
/// whitespace.
pub open spec fn is_blank_at(line: Seq<char>, col: int) -> bool {
    !(1 <= col <= line.len()) || is_whitespace_char(line[col - 1])
}

/// The first index at or after `from` that holds no whitespace, or the length.
pub open spec fn leading_blank_end(s: Seq<char>, from: int) -> int
    decreases s.len() - from,
{
    if 0 <= from < s.len() && is_whitespace_char(s[from]) {
        leading_blank_end(s, from + 1)
    } else {
        from
    }
}

/// The end of the last run of non-whitespace that ends at or before `to`.
pub open spec fn trailing_blank_start(s: Seq<char>, to: int) -> int
    decreases to,
{
    if 0 < to <= s.len() && is_whitespace_char(s[to - 1]) {
        trailing_blank_start(s, to - 1)
    } else {
        to
    }
}

/// `s` without its leading and trailing whitespace.
pub open spec fn trimmed(s: Seq<char>) -> Seq<char> {
    let a = leading_blank_end(s, 0);
    let b = trailing_blank_start(s, s.len() as int);
    if a < b {
        s.subrange(a, b)
    } else {
        Seq::empty()
    }
}

/// The index of the first `sep` at or after `from`, or the length.
pub open spec fn separator_from(s: Seq<char>, sep: char, from: int) -> int
    decreases s.len() - from,
{
    if 0 <= from < s.len() && s[from] != sep {
        separator_from(s, sep, from + 1)
    } else {
        from
    }
}

/// The pieces of `s` between its `sep`s, from index `from` on.
pub open spec fn fields_from(s: Seq<char>, sep: char, from: int) -> Seq<Seq<char>>
    decreases s.len() - from,
{
    let e = separator_from(s, sep, from);
    if 0 <= from <= e < s.len() {
        seq![s.subrange(from, e)] + fields_from(s, sep, e + 1)
    } else {
        seq![s.subrange(from, s.len() as int)]
    }
}

/// `s` cut at every `sep`. There is always at least one piece, and a text
/// that ends in `sep` ends in an empty piece.
pub open spec fn split_on(s: Seq<char>, sep: char) -> Seq<Seq<char>> {
    fields_from(s, sep, 0)
}

/// `s` cut at every line feed. There is always at least one line, and a text
/// that ends in a line feed ends in an empty line.
pub open spec fn split_lines(s: Seq<char>) -> Seq<Seq<char>> {
    split_on(s, '\n')
}

/// The lines with one line feed between each two neighbours.
pub open spec fn join_lines(lines: Seq<Seq<char>>) -> Seq<char>
    decreases lines.len(),
{
    if lines.len() == 0 {
        Seq::empty()
    } else if lines.len() == 1 {
        lines[0]
    } else {
        lines[0] + seq!['\n'] + join_lines(lines.drop_first())
    }
}

/// No character of `line` is a line feed.
pub open spec fn is_single_line(line: Seq<char>) -> bool {
    forall|i: int| 0 <= i < line.len() ==> line[i] != '\n'
}

/// The first column at or after `col` that holds no word character.
pub open spec fn word_run_end(line: Seq<char>, col: int) -> int
    decreases line.len() - col + 1,
{
    if is_word_at(line, col) {
        word_run_end(line, col + 1)
    } else {
        col
    }
}

/// The last column at or before `col` that holds no word character; 0 where
/// word characters reach back to the start of the line.
pub open spec fn word_run_before(line: Seq<char>, col: int) -> int
    decreases col,
{
    if is_word_at(line, col) {
        word_run_before(line, col - 1)
    } else {
        col
    }
}

/// The first column at or after `col` that lies in the line and holds no
/// whitespace; the column past the line where there is none.
pub open spec fn blank_run_end(line: Seq<char>, col: int) -> int
    decreases line.len() - col + 1,
{
    if 1 <= col <= line.len() && is_whitespace_char(line[col - 1]) {
        blank_run_end(line, col + 1)
    } else {
        col
    }
}

/// The last column at or before `col` that holds no whitespace; 0 where there
/// is none.
pub open spec fn blank_run_before(line: Seq<char>, col: int) -> int
    decreases col,
{
    if col > 0 && is_blank_at(line, col) {
        blank_run_before(line, col - 1)
    } else {
        col
    }
}

/// The column just past the word under `start`; one column more where
/// `inclusive` is set. On a column that holds no word character this is the
/// next column.
pub open spec fn word_end(line: Seq<char>, start: int, inclusive: bool) -> int {
    if !is_word_at(line, start) {
        start + 1
    } else if inclusive {
        word_run_end(line, start) + 1
    } else {
        word_run_end(line, start)
    }
}

/// The column a backward word motion reaches from `start`: the first column of
/// the word that ends just before `start`, stepping over one separator.
pub open spec fn word_start(line: Seq<char>, start: int) -> int {
    if start <= 1 {
        1
    } else {
        let p = if is_word_at(line, start - 1) {
            start - 1
        } else {
            start - 2
        };
        if p < 1 {
            1
        } else if is_word_at(line, p) {
            word_run_before(line, p) + 1
        } else {
            p
        }
    }
}

/// `pat` stands in `s` at index `from`.
pub open spec fn matches_at(s: Seq<char>, pat: Seq<char>, from: int) -> bool {
    0 <= from && from + pat.len() <= s.len() && s.subrange(from, from + pat.len()) == pat
}

/// The index behind every copy of `pat` that stands, one after the other, at
/// `from`.
pub open spec fn repeats_end(s: Seq<char>, pat: Seq<char>, from: int) -> int
    decreases s.len() - from,
{
    if pat.len() > 0 && matches_at(s, pat, from) {
        repeats_end(s, pat, from + pat.len())
    } else {
        from
    }
}

/// `s` without the copies of `pat` it starts with.
pub open spec fn without_leading(s: Seq<char>, pat: Seq<char>) -> Seq<char> {
    s.subrange(repeats_end(s, pat, 0), s.len() as int)
}

/// The index of the last `c` before index `to`, or -1.
pub open spec fn last_index_before(s: Seq<char>, c: char, to: int) -> int
    decreases to,
{
    if to <= 0 || to > s.len() {
        -1
    } else if s[to - 1] == c {
        to - 1
    } else {
        last_index_before(s, c, to - 1)
    }
}

/// The index of the last `c` in `s`, or -1.
pub open spec fn last_index_of(s: Seq<char>, c: char) -> int {
    last_index_before(s, c, s.len() as int)
}

/// What follows the last `/` of `path`; all of it where it holds none.
pub open spec fn last_component(path: Seq<char>) -> Seq<char> {
    path.subrange(last_index_of(path, '/') + 1, path.len() as int)
}

proof fn lemma_trailing_blank_start_bounds(s: Seq<char>, to: int)
    requires
        0 <= to <= s.len(),
    ensures
        0 <= trailing_blank_start(s, to) <= to,
    decreases to,
{
    if 0 < to && is_whitespace_char(s[to - 1]) {
        lemma_trailing_blank_start_bounds(s, to - 1);
    }
}

/// A copy of `s`.
pub fn to_string(s: &str) -> (r: String)
    ensures
        r@ == s@,
{
    s.to_owned()
}

/// The characters of `s` from index `from` up to index `to`.
pub(crate) fn substring(s: &str, from: usize, to: usize) -> (r: String)
    requires
        from <= to <= s@.len(),
    ensures
        r@ == s@.subrange(from as int, to as int),
{
    s.substring_char(from, to).to_owned()
}

/// `a` followed by `b`.
pub fn concat(a: &str, b: &str) -> (r: String)
    ensures
        r@ == a@ + b@,
{
    let mut r = a.to_owned();
    r.append(b);
    r
}

/// Whether two strings hold the same characters.
pub fn str_eq(a: &str, b: &str) -> (r: bool)
    ensures
        r == (a@ == b@),
{
    let n: usize = a.unicode_len();
    if n != b.unicode_len() {
        return false;
    }
    let mut i: usize = 0;
    while i < n
        invariant
            n == a@.len(),
            n == b@.len(),
            i <= n,
            forall|j: int| 0 <= j < i ==> a@[j] == b@[j],
        decreases n - i,
    {
        if a.get_char(i) != b.get_char(i) {
            return false;
        }
        i += 1;
    }
    assert(a@ =~= b@);
    true
}

/// `s` without its leading and trailing whitespace.
pub fn trim(s: &str) -> (r: String)
    ensures
        r@ == trimmed(s@),
{
    let n: usize = s.unicode_len();
    let mut a: usize = 0;
    while a < n && s.get_char(a).is_whitespace()
        invariant
            n == s@.len(),
            a <= n,
            leading_blank_end(s@, 0) == leading_blank_end(s@, a as int),
        decreases n - a,
    {
        a += 1;
    }
    if a == n {
        proof {
            lemma_trailing_blank_start_bounds(s@, n as int);
        }
        return String::new();
    }
    let mut b: usize = n;
    while s.get_char(b - 1).is_whitespace()
        invariant
            n == s@.len(),
            a < b <= n,
            !is_whitespace_char(s@[a as int]),
            trailing_blank_start(s@, n as int) == trailing_blank_start(s@, b as int),
        decreases b,
    {
        b -= 1;
    }
    substring(s, a, b)
}

/// Whether `s` holds nothing but whitespace.
pub fn is_blank(s: &str) -> (r: bool)
    ensures
        r == (trimmed(s@).len() == 0),
{
    let t = trim(s);
    t.as_str().unicode_len() == 0
}

/// `text` cut at every `sep`.
pub fn split_at_char(text: &str, sep: char) -> (r: Vec<String>)
    ensures
        strings_view(r@) == split_on(text@, sep),
        r@.len() >= 1,
{
    let n: usize = text.unicode_len();
    let mut out: Vec<String> = Vec::new();
    let mut start: usize = 0;
    let mut i: usize = 0;
    assert(strings_view(out@) + fields_from(text@, sep, 0) =~= fields_from(text@, sep, 0));
    while i < n
        invariant
            n == text@.len(),
            start <= i <= n,
            separator_from(text@, sep, start as int) == separator_from(text@, sep, i as int),
            split_on(text@, sep) == strings_view(out@) + fields_from(text@, sep, start as int),
        decreases n - i,
    {
        if text.get_char(i) == sep {
            let piece = substring(text, start, i);
            proof {
                let before = strings_view(out@);
                let after = strings_view(out@.push(piece));
                assert(after =~= before + seq![piece@]);
                assert(fields_from(text@, sep, start as int) == seq![piece@] + fields_from(
                    text@,
                    sep,
                    i + 1,
                ));
                assert(before + (seq![piece@] + fields_from(text@, sep, i + 1)) =~= after
                    + fields_from(text@, sep, i + 1));
            }
            out.push(piece);
            start = i + 1;
        }
        i += 1;
    }
    let piece = substring(text, start, n);
    proof {
        let before = strings_view(out@);
        let after = strings_view(out@.push(piece));
        assert(after =~= before + seq![piece@]);
    }
    out.push(piece);
    out
}

/// `text` cut at every line feed.
pub fn split_text(text: &str) -> (r: Vec<String>)
    ensures
        strings_view(r@) == split_lines(text@),
        r@.len() >= 1,
{
    split_at_char(text, '\n')
}

/// The lines with one line feed between each two neighbours.
pub fn join_text(lines: &Vec<String>) -> (r: String)
    ensures
        r@ == join_lines(strings_view(lines@)),
{
    let ghost all = strings_view(lines@);
    let mut out = String::new();
    let mut i: usize = lines.len();
    assert(all.subrange(i as int, all.len() as int) =~= Seq::<Seq<char>>::empty());
    while i > 0
        invariant
            i <= lines.len(),
            all == strings_view(lines@),
            out@ == join_lines(all.subrange(i as int, all.len() as int)),
        decreases i,
    {
        i -= 1;
        let ghost rest = all.subrange(i + 1, all.len() as int);
        let ghost here = all.subrange(i as int, all.len() as int);
        assert(here.drop_first() =~= rest);
        assert(here[0] == lines@[i as int]@);
        if i + 1 == lines.len() {
            assert(here.len() == 1);
            out = lines[i].clone();
        } else {
            proof {
                reveal_strlit("\n");
                assert("\n"@ =~= seq!['\n']);
            }
            let mut next = concat(lines[i].as_str(), "\n");
            next.append(out.as_str());
            out = next;
        }
    }
    assert(all.subrange(0, all.len() as int) =~= all);
    out
}

/// Whether `s` starts with `prefix`.
pub fn starts_with(s: &str, prefix: &str) -> (r: bool)
    ensures
        r == matches_at(s@, prefix@, 0),
{
    matches_from(s, prefix, 0)
}

/// Whether `pat` stands in `s` at index `from`.
pub fn matches_from(s: &str, pat: &str, from: usize) -> (r: bool)
    ensures
        r == matches_at(s@, pat@, from as int),
{
    let n: usize = s.unicode_len();
    let m: usize = pat.unicode_len();
    if from > n || m > n - from {
        return false;
    }
    let mut i: usize = 0;
    while i < m
        invariant
            n == s@.len(),
            m == pat@.len(),
            from + m <= n,
            i <= m,
            forall|j: int| 0 <= j < i ==> s@[from + j] == pat@[j],
        decreases m - i,
    {
        if s.get_char(from + i) != pat.get_char(i) {
            assert(s@.subrange(from as int, from + m)[i as int] != pat@[i as int]);
            return false;
        }
        i += 1;
    }
    assert(s@.subrange(from as int, from + m) =~= pat@);
    true
}

/// Whether `s` ends with `suffix`.
pub fn ends_with(s: &str, suffix: &str) -> (r: bool)
    ensures
        r == (suffix@.len() <= s@.len() && matches_at(
            s@,
            suffix@,
            s@.len() - suffix@.len(),
        )),
{
    let n: usize = s.unicode_len();
    let m: usize = suffix.unicode_len();
    if m > n {
        return false;
    }
    matches_from(s, suffix, n - m)
}

/// `s` without the copies of `pat` it starts with.
pub fn trim_start_matches(s: &str, pat: &str) -> (r: String)
    ensures
        r@ == without_leading(s@, pat@),
{
    let n: usize = s.unicode_len();
    let m: usize = pat.unicode_len();
    let mut pos: usize = 0;
    if m > 0 {
        while matches_from(s, pat, pos)
            invariant
                n == s@.len(),
                m == pat@.len(),
                m > 0,
                pos <= n,
                repeats_end(s@, pat@, 0) == repeats_end(s@, pat@, pos as int),
            decreases n - pos,
        {
            pos += m;
        }
    }
    substring(s, pos, n)
}

/// The index of the last `c` in `s`.
pub fn rfind_char(s: &str, c: char) -> (r: Option<usize>)
    ensures
        match r {
            Some(i) => i < s@.len() && i as int == last_index_of(s@, c),
            None => last_index_of(s@, c) == -1,
        },
{
    let n: usize = s.unicode_len();
    let mut i: usize = n;
    while i > 0
        invariant
            n == s@.len(),
            i <= n,
            last_index_of(s@, c) == last_index_before(s@, c, i as int),
        decreases i,
    {
        if s.get_char(i - 1) == c {
            return Some(i - 1);
        }
        i -= 1;
    }
    None
}

/// What follows the last `/` of `path`.
pub fn trim_path(path: &str) -> (r: String)
    ensures
        r@ == last_component(path@),
{
    let n: usize = path.unicode_len();
    match rfind_char(path, '/') {
        Some(i) => substring(path, i + 1, n),
        None => substring(path, 0, n),
    }
}

/// The number of word characters from column `start` on, up to the first
/// column that holds none.
pub fn word_run_length(s: &str, start: usize) -> (r: usize)
    ensures
        r == word_run_end(s@, start as int) - start,
        1 <= start <= s@.len() ==> start - 1 + r <= s@.len(),
{
    let n: usize = s.unicode_len();
    if start < 1 || start > n {
        return 0;
    }
    // `idx` is the index of column `idx + 1`
    let mut idx: usize = start - 1;
    while idx < n && s.get_char(idx).is_alphanumeric()
        invariant
            n == s@.len(),
            start - 1 <= idx <= n,
            word_run_end(s@, start as int) == word_run_end(s@, idx + 1),
        decreases n - idx,
    {
        idx += 1;
    }
    idx - (start - 1)
}

/// The column just past the word under column `start`, one more where
/// `inclusive` is set; `start + 1` where `start` holds no word character.
pub fn get_end_x(s: &str, start: usize, inclusive: bool) -> (r: usize)
    ensures
        r == saturate(word_end(s@, start as int, inclusive)),
{
    let n: usize = s.unicode_len();
    if start < 1 || start > n || !s.get_char(start - 1).is_alphanumeric() {
        return if start == usize::MAX {
            start
        } else {
            start + 1
        };
    }
    // `idx` is the index of column `idx + 1`
    let mut idx: usize = start;
    while idx < n && s.get_char(idx).is_alphanumeric()
        invariant
            n == s@.len(),
            1 <= start <= idx <= n,
            word_run_end(s@, start as int) == word_run_end(s@, idx + 1),
        decreases n - idx,
    {
        idx += 1;
    }
    let end: usize = if idx == usize::MAX {
        idx
    } else {
        idx + 1
    };
    if inclusive && end < usize::MAX {
        end + 1
    } else {
        end
    }
}

/// The first column of the run of word characters that reaches column
/// `start`; `start + 1` where `start` holds no word character.
pub fn seek_special_character_backward(s: &str, start: usize) -> (r: usize)
    ensures
        r == saturate(word_run_before(s@, start as int) + 1),
{
    let n: usize = s.unicode_len();
    let mut end: usize = start;
    while end > 0 && end <= n && s.get_char(end - 1).is_alphanumeric()
        invariant
            n == s@.len(),
            end <= start,
            word_run_before(s@, start as int) == word_run_before(s@, end as int),
        decreases end,
    {
        end -= 1;
    }
    if end == usize::MAX {
        end
    } else {
        end + 1
    }
}

/// The first column at or after `start` that holds no word character.
pub fn seek_special_character_forward(s: &str, start: usize) -> (r: usize)
    ensures
        r == saturate(word_run_end(s@, start as int)),
{
    let n: usize = s.unicode_len();
    if start < 1 || start > n {
        return start;
    }
    let mut idx: usize = start - 1;
    while idx < n && s.get_char(idx).is_alphanumeric()
        invariant
            n == s@.len(),
            idx <= n,
            word_run_end(s@, start as int) == word_run_end(s@, idx + 1),
        decreases n - idx,
    {
        idx += 1;
    }
    if idx == usize::MAX {
        idx
    } else {
        idx + 1
    }
}

/// The first column at or after `start` that lies in the line and holds no
/// whitespace; the column past the line where there is none.
pub fn seek_whitespace_forward(s: &str, start: usize) -> (r: usize)
    ensures
        r == saturate(blank_run_end(s@, start as int)),
{
    let n: usize = s.unicode_len();
    if start < 1 || start > n {
        return start;
    }
    let mut idx: usize = start - 1;
    while idx < n && s.get_char(idx).is_whitespace()
        invariant
            n == s@.len(),
            idx <= n,
            blank_run_end(s@, start as int) == blank_run_end(s@, idx + 1),
        decreases n - idx,
    {
        idx += 1;
    }
    if idx == usize::MAX {
        idx
    } else {
        idx + 1
    }
}

/// The last column at or before `start` that holds no whitespace; 0 where
/// there is none.
pub fn seek_whitespace_backward(s: &str, start: usize) -> (r: usize)
    ensures
        r == blank_run_before(s@, start as int),
{
    let n: usize = s.unicode_len();
    let mut end: usize = start;
    while end > 0 && (end > n || s.get_char(end - 1).is_whitespace())
        invariant
            n == s@.len(),
            end <= start,
            blank_run_before(s@, start as int) == blank_run_before(s@, end as int),
        decreases end,
    {
        end -= 1;
    }
    end
}

/// The column a backward word motion reaches from column `start`.
pub fn get_start_x(s: &str, start: usize) -> (r: usize)
    ensures
        r == word_start(s@, start as int),
{
    if start <= 1 {
        return 1;
    }
    let n: usize = s.unicode_len();
    let before: usize = start - 1;
    let p: usize = if before <= n && s.get_char(before - 1).is_alphanumeric() {
        before
    } else {
        before - 1
    };
    if p < 1 {
        1
    } else if p <= n && s.get_char(p - 1).is_alphanumeric() {
        proof {
            lemma_word_run_before_bounds(s@, p as int);
        }
        seek_special_character_backward(s, p)
    } else {
        p
    }
}

/// A run of word characters that reaches back from a column starts in the
/// line, at or before the column.
pub proof fn lemma_word_run_before_bounds(line: Seq<char>, col: int)
    requires
        0 <= col,
    ensures
        0 <= word_run_before(line, col) <= col,
    decreases col,
{
    if is_word_at(line, col) {
        lemma_word_run_before_bounds(line, col - 1);
    }
}

/// A run of word characters that starts in the line ends no later than one
/// column past the line; past the line there is none.
pub proof fn lemma_word_run_end_bounds(line: Seq<char>, col: int)
    requires
        1 <= col,
    ensures
        col <= word_run_end(line, col),
        col <= line.len() ==> word_run_end(line, col) <= line.len() + 1,
        col > line.len() ==> word_run_end(line, col) == col,
    decreases line.len() - col + 1,
{
    if is_word_at(line, col) {
        lemma_word_run_end_bounds(line, col + 1);
    }
}

} // verus!
