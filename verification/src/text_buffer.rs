//! The text buffer: an ordered list of lines that always holds at least one
//! line. Rows and columns are 1-based; the column one past the last character
//! of a line is where text is appended.

use crate::text::{
    concat, fields_from, is_single_line, join_lines, join_text, separator_from, split_lines,
    split_text, strings_view, substring, word_end, word_run_length,
};
use vstd::prelude::*;
use vstd::string::*;

verus! {

/// At least one line, and no line holds a line feed.
pub open spec fn well_formed_lines(lines: Seq<Seq<char>>) -> bool {
    &&& lines.len() >= 1
    &&& forall|i: int| 0 <= i < lines.len() ==> is_single_line(#[trigger] lines[i])
}

/// `row` names a line.
pub open spec fn valid_row(lines: Seq<Seq<char>>, row: int) -> bool {
    1 <= row <= lines.len()
}

/// `(col, row)` names a character of the buffer or the end of a line.
pub open spec fn valid_position(lines: Seq<Seq<char>>, col: int, row: int) -> bool {
    valid_row(lines, row) && 1 <= col <= lines[row - 1].len() + 1
}

/// `(col, row)` names a character of the buffer.
pub open spec fn on_character(lines: Seq<Seq<char>>, col: int, row: int) -> bool {
    valid_row(lines, row) && 1 <= col <= lines[row - 1].len()
}

/// `text` put into `line` before column `col`.
pub open spec fn line_with(line: Seq<char>, col: int, text: Seq<char>) -> Seq<char> {
    line.subrange(0, col - 1) + text + line.subrange(col - 1, line.len() as int)
}

/// `line` without the `length` characters from column `col` on, as far as the
/// line reaches.
pub open spec fn line_without(line: Seq<char>, col: int, length: int) -> Seq<char> {
    let end = if col - 1 + length < line.len() {
        col - 1 + length
    } else {
        line.len() as int
    };
    line.subrange(0, col - 1) + line.subrange(end, line.len() as int)
}

/// The lines from index `from` up to index `to` replaced by `with`.
pub open spec fn spliced(lines: Seq<Seq<char>>, from: int, to: int, with: Seq<Seq<char>>) -> Seq<
    Seq<char>,
> {
    lines.subrange(0, from) + with + lines.subrange(to, lines.len() as int)
}

/// The buffer after `text` went in before `(col, row)`. Line feeds in `text`
/// start new lines. Positions outside the buffer change nothing.
pub open spec fn inserted(lines: Seq<Seq<char>>, col: int, row: int, text: Seq<char>) -> Seq<
    Seq<char>,
> {
    if valid_position(lines, col, row) {
        spliced(lines, row - 1, row, split_lines(line_with(lines[row - 1], col, text)))
    } else {
        lines
    }
}

/// The buffer without the character at `(col, row)`.
pub open spec fn char_deleted(lines: Seq<Seq<char>>, col: int, row: int) -> Seq<Seq<char>> {
    range_deleted(lines, col, row, 1)
}

/// The buffer without the `length` characters from `(col, row)` on, as far as
/// the line reaches.
pub open spec fn range_deleted(lines: Seq<Seq<char>>, col: int, row: int, length: int) -> Seq<
    Seq<char>,
> {
    if on_character(lines, col, row) && length >= 0 {
        lines.update(row - 1, line_without(lines[row - 1], col, length))
    } else {
        lines
    }
}

/// The buffer with line `row` emptied.
pub open spec fn line_cleared(lines: Seq<Seq<char>>, row: int) -> Seq<Seq<char>> {
    if valid_row(lines, row) {
        lines.update(row - 1, Seq::empty())
    } else {
        lines
    }
}

/// The buffer without line `row`. Where that was the only line, one empty line
/// is left.
pub open spec fn line_removed(lines: Seq<Seq<char>>, row: int) -> Seq<Seq<char>> {
    if !valid_row(lines, row) {
        lines
    } else if lines.len() == 1 {
        seq![Seq::empty()]
    } else {
        lines.remove(row - 1)
    }
}

/// The buffer with line `second` appended to line `first` and taken out of
/// the list. All other lines keep their order.
pub open spec fn lines_merged(lines: Seq<Seq<char>>, first: int, second: int) -> Seq<Seq<char>> {
    if valid_row(lines, first) && valid_row(lines, second) && first != second {
        lines.update(first - 1, lines[first - 1] + lines[second - 1]).remove(second - 1)
    } else {
        lines
    }
}

/// The buffer without the rest of the word under `(col, row)`; without the one
/// character there where it is no word character.
pub open spec fn word_deleted(lines: Seq<Seq<char>>, col: int, row: int) -> Seq<Seq<char>> {
    if on_character(lines, col, row) {
        range_deleted(lines, col, row, word_end(lines[row - 1], col, false) - col)
    } else {
        lines
    }
}

proof fn lemma_separator_from(s: Seq<char>, sep: char, from: int)
    requires
        0 <= from <= s.len(),
    ensures
        from <= separator_from(s, sep, from) <= s.len(),
        separator_from(s, sep, from) < s.len() ==> s[separator_from(s, sep, from)] == sep,
        forall|k: int| from <= k < separator_from(s, sep, from) ==> s[k] != sep,
    decreases s.len() - from,
{
    if from < s.len() && s[from] != sep {
        lemma_separator_from(s, sep, from + 1);
    }
}

/// No piece of a text cut at `sep` holds `sep`.
pub open spec fn free_of(pieces: Seq<Seq<char>>, sep: char) -> bool {
    forall|i: int, k: int|
        0 <= i < pieces.len() && 0 <= k < pieces[i].len() ==> (#[trigger] pieces[i][k]) != sep
}

proof fn lemma_fields_from(s: Seq<char>, sep: char, from: int)
    requires
        0 <= from <= s.len(),
    ensures
        fields_from(s, sep, from).len() >= 1,
        free_of(fields_from(s, sep, from), sep),
    decreases s.len() - from,
{
    lemma_separator_from(s, sep, from);
    let e = separator_from(s, sep, from);
    if e < s.len() {
        lemma_fields_from(s, sep, e + 1);
        let rest = fields_from(s, sep, e + 1);
        let all = fields_from(s, sep, from);
        assert(all == seq![s.subrange(from, e)] + rest);
        assert forall|i: int, k: int| 0 <= i < all.len() && 0 <= k < all[i].len() implies (
        #[trigger] all[i][k]) != sep by {
            if i > 0 {
                assert(all[i] == rest[i - 1]);
                assert(rest[i - 1][k] != sep);
            }
        }
    }
}

/// Cutting a text at its line feeds gives at least one line, and no line
/// holds a line feed.
pub proof fn lemma_split_lines_well_formed(s: Seq<char>)
    ensures
        well_formed_lines(split_lines(s)),
{
    lemma_fields_from(s, '\n', 0);
    let all = split_lines(s);
    assert forall|i: int| 0 <= i < all.len() implies is_single_line(#[trigger] all[i]) by {
        assert forall|k: int| 0 <= k < all[i].len() implies all[i][k] != '\n' by {
            assert(all[i][k] != '\n');
        }
    }
}

proof fn lemma_join_fields_from(s: Seq<char>, from: int)
    requires
        0 <= from <= s.len(),
    ensures
        join_lines(fields_from(s, '\n', from)) == s.subrange(from, s.len() as int),
    decreases s.len() - from,
{
    lemma_separator_from(s, '\n', from);
    let e = separator_from(s, '\n', from);
    if e < s.len() {
        lemma_join_fields_from(s, e + 1);
        lemma_fields_from(s, '\n', e + 1);
        let rest = fields_from(s, '\n', e + 1);
        let all = fields_from(s, '\n', from);
        assert(all == seq![s.subrange(from, e)] + rest);
        assert(all.drop_first() =~= rest);
        assert(join_lines(all) == all[0] + seq!['\n'] + join_lines(rest));
        assert(join_lines(all) =~= s.subrange(from, s.len() as int));
    } else {
        assert(fields_from(s, '\n', from) == seq![s.subrange(from, s.len() as int)]);
    }
}

/// Joining the lines of a text gives the text back.
pub proof fn lemma_join_split(s: Seq<char>)
    ensures
        join_lines(split_lines(s)) == s,
{
    lemma_join_fields_from(s, 0);
    assert(s.subrange(0, s.len() as int) =~= s);
}

proof fn lemma_separator_from_shift(a: Seq<char>, u: Seq<char>, sep: char, from: int)
    requires
        0 <= from <= u.len(),
    ensures
        separator_from(a + u, sep, a.len() + from) == a.len() + separator_from(u, sep, from),
    decreases u.len() - from,
{
    if from < u.len() && u[from] != sep {
        assert((a + u)[a.len() + from] == u[from]);
        lemma_separator_from_shift(a, u, sep, from + 1);
    } else if from < u.len() {
        assert((a + u)[a.len() + from] == u[from]);
    }
}

proof fn lemma_fields_from_shift(a: Seq<char>, u: Seq<char>, sep: char, from: int)
    requires
        0 <= from <= u.len(),
    ensures
        fields_from(a + u, sep, a.len() + from) == fields_from(u, sep, from),
    decreases u.len() - from,
{
    lemma_separator_from_shift(a, u, sep, from);
    lemma_separator_from(u, sep, from);
    let e = separator_from(u, sep, from);
    let t = a + u;
    if e < u.len() {
        lemma_fields_from_shift(a, u, sep, e + 1);
        assert(t.subrange(a.len() + from, a.len() + e) =~= u.subrange(from, e));
    } else {
        assert(t.subrange(a.len() + from, t.len() as int) =~= u.subrange(from, u.len() as int));
    }
}

proof fn lemma_separator_from_single_line(l: Seq<char>, rest: Seq<char>, from: int)
    requires
        is_single_line(l),
        0 <= from <= l.len(),
    ensures
        separator_from(l + rest, '\n', from) == separator_from(l + rest, '\n', l.len() as int),
    decreases l.len() - from,
{
    if from < l.len() {
        assert((l + rest)[from] == l[from]);
        lemma_separator_from_single_line(l, rest, from + 1);
    }
}

/// Cutting the joined lines of a well-formed buffer gives the lines back.
pub proof fn lemma_split_join(lines: Seq<Seq<char>>)
    requires
        well_formed_lines(lines),
    ensures
        split_lines(join_lines(lines)) == lines,
    decreases lines.len(),
{
    let l = lines[0];
    if lines.len() == 1 {
        lemma_separator_from_single_line(l, Seq::empty(), 0);
        assert(l + Seq::<char>::empty() =~= l);
        assert(l.subrange(0, l.len() as int) =~= l);
        assert(split_lines(l) =~= lines);
    } else {
        let rest = lines.drop_first();
        assert(well_formed_lines(rest)) by {
            assert forall|i: int| 0 <= i < rest.len() implies is_single_line(
                #[trigger] rest[i],
            ) by {
                assert(rest[i] == lines[i + 1]);
            }
        }
        lemma_split_join(rest);
        let tail = seq!['\n'] + join_lines(rest);
        let t = l + tail;
        assert(join_lines(lines) =~= t);
        lemma_separator_from_single_line(l, tail, 0);
        assert(t[l.len() as int] == '\n');
        assert(separator_from(t, '\n', 0) == l.len());
        assert(t.subrange(0, l.len() as int) =~= l);
        let a = l + seq!['\n'];
        assert(a + join_lines(rest) =~= t);
        lemma_fields_from_shift(a, join_lines(rest), '\n', 0);
        assert(fields_from(t, '\n', (l.len() + 1) as int) == rest);
        assert(split_lines(t) =~= lines);
    }
}

proof fn lemma_join_with_empty_line(lines: Seq<Seq<char>>)
    requires
        lines.len() >= 1,
    ensures
        join_lines(lines.push(Seq::empty())) == join_lines(lines) + seq!['\n'],
    decreases lines.len(),
{
    let more = lines.push(Seq::empty());
    if lines.len() == 1 {
        assert(more.drop_first() =~= seq![Seq::<char>::empty()]);
        assert(join_lines(more.drop_first()) =~= Seq::<char>::empty());
        assert(join_lines(more) =~= lines[0] + seq!['\n']);
    } else {
        let rest = lines.drop_first();
        lemma_join_with_empty_line(rest);
        assert(more.drop_first() =~= rest.push(Seq::empty()));
        assert(join_lines(more) =~= join_lines(lines) + seq!['\n']);
    }
}

/// A line feed at the end of the text of a buffer adds one empty line.
pub proof fn lemma_split_with_line_feed(lines: Seq<Seq<char>>)
    requires
        well_formed_lines(lines),
    ensures
        split_lines(join_lines(lines) + seq!['\n']) == lines.push(Seq::empty()),
{
    let more = lines.push(Seq::empty());
    lemma_join_with_empty_line(lines);
    assert(well_formed_lines(more)) by {
        assert forall|i: int| 0 <= i < more.len() implies is_single_line(#[trigger] more[i]) by {
            if i < lines.len() {
                assert(more[i] == lines[i]);
            }
        }
    }
    lemma_split_join(more);
}

/// What `splice` gives from well-formed parts is well formed.
pub proof fn lemma_spliced_well_formed(
    lines: Seq<Seq<char>>,
    from: int,
    to: int,
    with: Seq<Seq<char>>,
)
    requires
        well_formed_lines(lines),
        0 <= from <= to <= lines.len(),
        forall|i: int| 0 <= i < with.len() ==> is_single_line(#[trigger] with[i]),
        with.len() >= 1 || from > 0 || to < lines.len(),
    ensures
        well_formed_lines(spliced(lines, from, to, with)),
{
    let out = spliced(lines, from, to, with);
    assert forall|i: int| 0 <= i < out.len() implies is_single_line(#[trigger] out[i]) by {
        if i < from {
            assert(out[i] == lines[i]);
        } else if i < from + with.len() {
            assert(out[i] == with[i - from]);
        } else {
            assert(out[i] == lines[i - from - with.len() + to]);
        }
    }
}

/// Putting one character that is no line feed into a line and deleting the
/// character at the same position gives the buffer back.
pub proof fn lemma_insert_then_delete_at(lines: Seq<Seq<char>>, col: int, row: int, c: char)
    requires
        well_formed_lines(lines),
        valid_position(lines, col, row),
        c != '\n',
    ensures
        char_deleted(inserted(lines, col, row, seq![c]), col, row) == lines,
{
    lemma_insert_then_delete_range(lines, col, row, seq![c]);
}

/// Putting a text without line feeds into a line and deleting as many
/// characters at the same position gives the buffer back.
pub proof fn lemma_insert_then_delete_range(
    lines: Seq<Seq<char>>,
    col: int,
    row: int,
    text: Seq<char>,
)
    requires
        well_formed_lines(lines),
        valid_position(lines, col, row),
        is_single_line(text),
    ensures
        range_deleted(inserted(lines, col, row, text), col, row, text.len() as int) == lines,
{
    let line = lines[row - 1];
    let merged = line_with(line, col, text);
    assert(is_single_line(merged));
    lemma_split_join(seq![merged]);
    assert(join_lines(seq![merged]) == merged);
    assert(split_lines(merged) == seq![merged]);
    let mid = inserted(lines, col, row, text);
    assert(mid =~= lines.update(row - 1, merged));
    if on_character(mid, col, row) {
        assert(line_without(merged, col, text.len() as int) =~= line);
        assert(mid.update(row - 1, line) =~= lines);
    } else {
        assert(text.len() == 0);
        assert(merged =~= line);
        assert(mid =~= lines);
    }
}

/// Removing a line leaves at least one line, and a well-formed buffer well
/// formed.
pub proof fn lemma_line_removed_keeps_a_line(lines: Seq<Seq<char>>, row: int)
    requires
        well_formed_lines(lines),
    ensures
        line_removed(lines, row).len() >= 1,
        well_formed_lines(line_removed(lines, row)),
{
    let out = line_removed(lines, row);
    if valid_row(lines, row) && lines.len() > 1 {
        assert forall|i: int| 0 <= i < out.len() implies is_single_line(#[trigger] out[i]) by {
            if i < row - 1 {
                assert(out[i] == lines[i]);
            } else {
                assert(out[i] == lines[i + 1]);
            }
        }
    }
}

/// The editor's text: a list of lines.
#[derive(Debug)]
pub struct TextBuffer {
    lines: Vec<String>,
}

impl View for TextBuffer {
    type V = Seq<Seq<char>>;

    closed spec fn view(&self) -> Seq<Seq<char>> {
        strings_view(self.lines@)
    }
}

/// `part` of `lines`, from index `from` up to index `to`, appended to `out`.
fn append_lines(out: &mut Vec<String>, lines: &Vec<String>, from: usize, to: usize)
    requires
        from <= to <= lines.len(),
    ensures
        strings_view(final(out)@) == strings_view(old(out)@) + strings_view(lines@).subrange(
            from as int,
            to as int,
        ),
{
    let ghost start = strings_view(out@);
    let ghost all = strings_view(lines@);
    let mut i: usize = from;
    assert(start + all.subrange(from as int, i as int) =~= start);
    while i < to
        invariant
            from <= i <= to <= lines.len(),
            all == strings_view(lines@),
            strings_view(out@) == start + all.subrange(from as int, i as int),
        decreases to - i,
    {
        let line = lines[i].clone();
        proof {
            assert(strings_view(out@.push(line)) =~= strings_view(out@) + seq![line@]);
            assert(start + all.subrange(from as int, i as int) + seq![line@] =~= start
                + all.subrange(from as int, i + 1));
        }
        out.push(line);
        i += 1;
    }
}

/// `lines` with the lines from index `from` up to index `to` replaced by
/// `with`.
fn splice(lines: &Vec<String>, from: usize, to: usize, with: &Vec<String>) -> (r: Vec<String>)
    requires
        from <= to <= lines.len(),
    ensures
        strings_view(r@) == spliced(
            strings_view(lines@),
            from as int,
            to as int,
            strings_view(with@),
        ),
{
    let mut out: Vec<String> = Vec::new();
    assert(strings_view(out@) =~= Seq::<Seq<char>>::empty());
    append_lines(&mut out, lines, 0, from);
    append_lines(&mut out, with, 0, with.len());
    append_lines(&mut out, lines, to, lines.len());
    proof {
        let w = strings_view(with@);
        assert(w.subrange(0, w.len() as int) =~= w);
        assert(strings_view(out@) =~= spliced(
            strings_view(lines@),
            from as int,
            to as int,
            w,
        ));
    }
    out
}

impl TextBuffer {
    #[verifier::type_invariant]
    spec fn inv(self) -> bool {
        well_formed_lines(self@)
    }

    /// A buffer of one empty line.
    pub fn new() -> (r: Self)
        ensures
            r@ == seq![Seq::<char>::empty()],
    {
        let mut lines: Vec<String> = Vec::new();
        lines.push(String::new());
        assert(strings_view(lines@) =~= seq![Seq::<char>::empty()]);
        TextBuffer { lines }
    }

    /// The buffer that holds the lines of `text`.
    pub fn from_text(text: &str) -> (r: Self)
        ensures
            r@ == split_lines(text@),
            well_formed_lines(r@),
    {
        let lines = split_text(text);
        proof {
            lemma_split_lines_well_formed(text@);
        }
        TextBuffer { lines }
    }

    /// The lines joined by line feeds.
    pub fn to_text(&self) -> (r: String)
        ensures
            r@ == join_lines(self@),
            split_lines(r@) == self@,
            well_formed_lines(self@),
    {
        proof {
            use_type_invariant(self);
            lemma_split_join(self@);
        }
        join_text(&self.lines)
    }

    /// The number of lines, which is never 0.
    pub fn line_count(&self) -> (r: usize)
        ensures
            r == self@.len(),
            r >= 1,
            well_formed_lines(self@),
    {
        proof {
            use_type_invariant(self);
        }
        self.lines.len()
    }

    /// A copy of line `row`.
    pub fn line(&self, row: usize) -> (r: Option<String>)
        ensures
            match r {
                Some(line) => valid_row(self@, row as int) && line@ == self@[row - 1],
                None => !valid_row(self@, row as int),
            },
    {
        if row < 1 || row > self.lines.len() {
            None
        } else {
            Some(self.lines[row - 1].clone())
        }
    }

    /// The number of characters of line `row`.
    pub fn line_length(&self, row: usize) -> (r: Option<usize>)
        ensures
            match r {
                Some(n) => valid_row(self@, row as int) && n == self@[row - 1].len(),
                None => !valid_row(self@, row as int),
            },
    {
        if row < 1 || row > self.lines.len() {
            None
        } else {
            Some(self.lines[row - 1].as_str().unicode_len())
        }
    }

    /// A copy of the buffer.
    pub fn duplicate(&self) -> (r: Self)
        ensures
            r@ == self@,
    {
        proof {
            use_type_invariant(self);
        }
        let none: Vec<String> = Vec::new();
        let lines = splice(&self.lines, 0, 0, &none);
        assert(strings_view(lines@) =~= self@);
        TextBuffer { lines }
    }

    /// Whether both buffers hold the same lines.
    pub fn same_text(&self, other: &TextBuffer) -> (r: bool)
        ensures
            r == (self@ == other@),
    {
        assert(self@.len() == self.lines@.len() && other@.len() == other.lines@.len());
        if self.lines.len() != other.lines.len() {
            return false;
        }
        let mut i: usize = 0;
        while i < self.lines.len()
            invariant
                self.lines.len() == other.lines.len(),
                i <= self.lines.len(),
                forall|j: int| 0 <= j < i ==> self@[j] == other@[j],
            decreases self.lines.len() - i,
        {
            if self.lines[i] != other.lines[i] {
                assert(self@[i as int] != other@[i as int]);
                return false;
            }
            i += 1;
        }
        assert(self@ =~= other@);
        true
    }

    /// Puts `text` in before `(col, row)`. Line feeds in `text` start new
    /// lines. A position outside the buffer changes nothing.
    pub fn insert(&mut self, col: usize, row: usize, text: &str)
        ensures
            final(self)@ == inserted(old(self)@, col as int, row as int, text@),
            well_formed_lines(final(self)@),
    {
        proof {
            use_type_invariant(&*self);
        }
        if col >= 1 {
            self.insert_after(col - 1, row, text);
        }
    }

    /// Puts `text` in behind the first `index` characters of line `row`.
    pub fn insert_after(&mut self, index: usize, row: usize, text: &str)
        ensures
            final(self)@ == inserted(old(self)@, index + 1, row as int, text@),
            well_formed_lines(final(self)@),
    {
        proof {
            use_type_invariant(&*self);
        }
        if row < 1 || row > self.lines.len() {
            return ;
        }
        let line = self.lines[row - 1].as_str();
        let n: usize = line.unicode_len();
        if index > n {
            return ;
        }
        let mut merged = substring(line, 0, index);
        merged.append(text);
        let tail = substring(line, index, n);
        merged.append(tail.as_str());
        let pieces = split_text(merged.as_str());
        proof {
            lemma_split_lines_well_formed(merged@);
            lemma_spliced_well_formed(self@, row - 1, row as int, strings_view(pieces@));
        }
        self.lines = splice(&self.lines, row - 1, row, &pieces);
    }

    /// Takes out the `length` characters from `(col, row)` on, as far as the
    /// line reaches. A position that names no character changes nothing.
    pub fn delete_range(&mut self, col: usize, row: usize, length: usize)
        ensures
            final(self)@ == range_deleted(old(self)@, col as int, row as int, length as int),
            well_formed_lines(final(self)@),
    {
        proof {
            use_type_invariant(&*self);
        }
        if row < 1 || row > self.lines.len() {
            return ;
        }
        let line = self.lines[row - 1].as_str();
        let n: usize = line.unicode_len();
        if col < 1 || col > n {
            return ;
        }
        let end: usize = if length < n - (col - 1) {
            col - 1 + length
        } else {
            n
        };
        let mut rest = substring(line, 0, col - 1);
        let tail = substring(line, end, n);
        rest.append(tail.as_str());
        let mut with: Vec<String> = Vec::new();
        with.push(rest);
        proof {
            let w = strings_view(with@);
            assert(w =~= seq![rest@]);
            assert(is_single_line(self@[row - 1]));
            assert(is_single_line(rest@));
            lemma_spliced_well_formed(self@, row - 1, row as int, w);
            assert(spliced(self@, row - 1, row as int, w) =~= self@.update(row - 1, rest@));
        }
        self.lines = splice(&self.lines, row - 1, row, &with);
    }

    /// Takes out the character at `(col, row)`.
    pub fn delete_at(&mut self, col: usize, row: usize)
        ensures
            final(self)@ == char_deleted(old(self)@, col as int, row as int),
            well_formed_lines(final(self)@),
    {
        self.delete_range(col, row, 1);
    }

    /// Takes out the rest of the word under `(col, row)`, or the one character
    /// there where it is no word character.
    pub fn delete_word(&mut self, col: usize, row: usize)
        ensures
            final(self)@ == word_deleted(old(self)@, col as int, row as int),
            well_formed_lines(final(self)@),
    {
        proof {
            use_type_invariant(&*self);
        }
        if row < 1 || row > self.lines.len() {
            return ;
        }
        let line = self.lines[row - 1].as_str();
        let n: usize = line.unicode_len();
        if col < 1 || col > n {
            return ;
        }
        let length: usize = if line.get_char(col - 1).is_alphanumeric() {
            word_run_length(line, col)
        } else {
            1
        };
        self.delete_range(col, row, length);
    }

    /// Empties line `row` and keeps it.
    pub fn delete_line(&mut self, row: usize)
        ensures
            final(self)@ == line_cleared(old(self)@, row as int),
            well_formed_lines(final(self)@),
    {
        proof {
            use_type_invariant(&*self);
        }
        if row < 1 || row > self.lines.len() {
            return ;
        }
        let mut with: Vec<String> = Vec::new();
        with.push(String::new());
        proof {
            let w = strings_view(with@);
            assert(w =~= seq![Seq::<char>::empty()]);
            lemma_spliced_well_formed(self@, row - 1, row as int, w);
            assert(spliced(self@, row - 1, row as int, w) =~= self@.update(
                row - 1,
                Seq::empty(),
            ));
        }
        self.lines = splice(&self.lines, row - 1, row, &with);
    }

    /// Takes line `row` out of the list. Where it was the only line, one
    /// empty line is left: the buffer never holds no line.
    pub fn delete_line_full(&mut self, row: usize)
        ensures
            final(self)@ == line_removed(old(self)@, row as int),
            final(self)@.len() >= 1,
            well_formed_lines(final(self)@),
    {
        proof {
            use_type_invariant(&*self);
            lemma_line_removed_keeps_a_line(self@, row as int);
        }
        if row < 1 || row > self.lines.len() {
            return ;
        }
        let mut with: Vec<String> = Vec::new();
        if self.lines.len() == 1 {
            with.push(String::new());
        }
        proof {
            let w = strings_view(with@);
            if self@.len() == 1 {
                assert(w =~= seq![Seq::<char>::empty()]);
                assert(spliced(self@, row - 1, row as int, w) =~= seq![Seq::<char>::empty()]);
            } else {
                assert(w =~= Seq::<Seq<char>>::empty());
                assert(spliced(self@, row - 1, row as int, w) =~= self@.remove(row - 1));
            }
        }
        self.lines = splice(&self.lines, row - 1, row, &with);
    }

    /// Appends line `second` to line `first` and takes it out of the list.
    /// Nothing changes where a row names no line or both name the same.
    pub fn merge_lines(&mut self, first: usize, second: usize) -> (r: bool)
        ensures
            final(self)@ == lines_merged(old(self)@, first as int, second as int),
            r == (valid_row(old(self)@, first as int) && valid_row(old(self)@, second as int)),
            well_formed_lines(final(self)@),
    {
        proof {
            use_type_invariant(&*self);
        }
        let n: usize = self.lines.len();
        if first < 1 || first > n || second < 1 || second > n {
            return false;
        }
        if first == second {
            return true;
        }
        let merged = concat(self.lines[first - 1].as_str(), self.lines[second - 1].as_str());
        let mut with: Vec<String> = Vec::new();
        with.push(merged);
        let none: Vec<String> = Vec::new();
        let ghost before = self@;
        let ghost joined = before[first - 1] + before[second - 1];
        proof {
            assert(is_single_line(before[first - 1]));
            assert(is_single_line(before[second - 1]));
            assert(is_single_line(joined));
            assert(strings_view(with@) =~= seq![joined]);
            assert(strings_view(none@) =~= Seq::<Seq<char>>::empty());
            lemma_spliced_well_formed(before, first - 1, first as int, seq![joined]);
            assert(spliced(before, first - 1, first as int, seq![joined]) =~= before.update(
                first - 1,
                joined,
            ));
        }
        let updated = splice(&self.lines, first - 1, first, &with);
        proof {
            let u = strings_view(updated@);
            lemma_spliced_well_formed(u, second - 1, second as int, Seq::empty());
            assert(spliced(u, second - 1, second as int, Seq::empty()) =~= u.remove(second - 1));
        }
        self.lines = splice(&updated, second - 1, second, &none);
        true
    }
}

} // verus!
