//! The order in which a directory is shown: directories first, and within
//! each group the names in the order of their characters.

use crate::app::App;
use crate::buffer_storage::{kind_of, Directory, FileType, Listed};
use crate::model::AppState;
use crate::text::{join_lines, join_text, last_component, split_lines, strings_view, to_string};
use crate::text_buffer::TextBuffer;
use vstd::prelude::*;
use vstd::seq_lib::*;
use vstd::string::*;

verus! {

/// A name and a kind.
pub struct Item {
    pub name: Seq<char>,
    pub file_type: FileType,
}

/// What a listed item holds.
pub open spec fn item_of(l: Listed) -> Item {
    Item { name: l.name@, file_type: l.file_type }
}

/// The items of a listing.
pub open spec fn items_view(v: Seq<Listed>) -> Seq<Item> {
    v.map_values(|l: Listed| item_of(l))
}

/// `a` comes no later than `b` in the order of their characters, judged
/// from index `i` on. A text comes before every text it is the start of.
pub open spec fn lex_le_from(a: Seq<char>, b: Seq<char>, i: int) -> bool
    decreases a.len() - i,
{
    if i < 0 || i >= a.len() {
        true
    } else if i >= b.len() {
        false
    } else if a[i] != b[i] {
        (a[i] as int) < (b[i] as int)
    } else {
        lex_le_from(a, b, i + 1)
    }
}

/// `a` comes no later than `b` in the order of their characters.
pub open spec fn lex_le(a: Seq<char>, b: Seq<char>) -> bool {
    lex_le_from(a, b, 0)
}

/// Directories rank before everything else.
pub open spec fn rank(file_type: FileType) -> int {
    if file_type == FileType::Directory {
        0
    } else {
        1
    }
}

/// `a` is shown no later than `b`.
pub open spec fn item_le(a: Item, b: Item) -> bool {
    rank(a.file_type) < rank(b.file_type) || (rank(a.file_type) == rank(b.file_type) && lex_le(
        a.name,
        b.name,
    ))
}

/// Each item is shown no later than those behind it.
pub open spec fn is_sorted(s: Seq<Item>) -> bool {
    forall|i: int, j: int| 0 <= i < j < s.len() ==> item_le(#[trigger] s[i], #[trigger] s[j])
}

/// The index of the first item at or after `from` that `x` is to be shown
/// before, or the length.
pub open spec fn insert_position(s: Seq<Item>, x: Item, from: int) -> int
    decreases s.len() - from,
{
    if 0 <= from < s.len() && item_le(s[from], x) {
        insert_position(s, x, from + 1)
    } else {
        from
    }
}

/// The items in the order in which they are shown. Items that rank alike
/// and share a name keep the order they came in.
pub open spec fn sorted_items(s: Seq<Item>) -> Seq<Item>
    decreases s.len(),
{
    if s.len() == 0 {
        Seq::empty()
    } else {
        let before = sorted_items(s.drop_last());
        before.insert(insert_position(before, s.last(), 0), s.last())
    }
}

/// The names of the items.
pub open spec fn names_of(s: Seq<Item>) -> Seq<Seq<char>> {
    s.map_values(|i: Item| i.name)
}

/// The items that the paths of a listing stand for: each named by the last
/// component of its path, with the kind that the directory kept under
/// `dir` knows for that name.
pub open spec fn listed_items(
    views: Seq<(Seq<char>, Directory)>,
    dir: Seq<char>,
    paths: Seq<Seq<char>>,
) -> Seq<Item> {
    paths.map_values(
        |p: Seq<char>|
            Item { name: last_component(p), file_type: kind_of(views, dir, last_component(p)) },
    )
}

/// The lines that show a listing: the way up, then the names in their
/// order.
pub open spec fn listing_lines(
    views: Seq<(Seq<char>, Directory)>,
    dir: Seq<char>,
    paths: Seq<Seq<char>>,
) -> Seq<Seq<char>> {
    split_lines(
        join_lines(seq![seq!['.', '.', '/']] + names_of(sorted_items(listed_items(views, dir, paths)))),
    )
}

proof fn lemma_lex_total(a: Seq<char>, b: Seq<char>, i: int)
    requires
        0 <= i,
    ensures
        lex_le_from(a, b, i) || lex_le_from(b, a, i),
    decreases a.len() - i,
{
    if i < a.len() && i < b.len() {
        if a[i] == b[i] {
            lemma_lex_total(a, b, i + 1);
        } else {
            assert(a[i] as int != b[i] as int);
        }
    }
}

proof fn lemma_lex_transitive(a: Seq<char>, b: Seq<char>, c: Seq<char>, i: int)
    requires
        0 <= i,
        lex_le_from(a, b, i),
        lex_le_from(b, c, i),
    ensures
        lex_le_from(a, c, i),
    decreases a.len() - i,
{
    if i < a.len() && i < b.len() && i < c.len() && a[i] == b[i] && b[i] == c[i] {
        lemma_lex_transitive(a, b, c, i + 1);
    }
}

/// Of two items, one is shown no later than the other.
pub proof fn lemma_item_le_total(a: Item, b: Item)
    ensures
        item_le(a, b) || item_le(b, a),
{
    lemma_lex_total(a.name, b.name, 0);
}

/// What is shown no later than an item comes no later than all that the
/// item comes no later than.
pub proof fn lemma_item_le_transitive(a: Item, b: Item, c: Item)
    requires
        item_le(a, b),
        item_le(b, c),
    ensures
        item_le(a, c),
{
    if rank(a.file_type) == rank(b.file_type) && rank(b.file_type) == rank(c.file_type) {
        lemma_lex_transitive(a.name, b.name, c.name, 0);
    }
}

proof fn lemma_insert_position(s: Seq<Item>, x: Item, from: int)
    requires
        0 <= from <= s.len(),
    ensures
        from <= insert_position(s, x, from) <= s.len(),
        forall|k: int| from <= k < insert_position(s, x, from) ==> item_le(#[trigger] s[k], x),
        insert_position(s, x, from) < s.len() ==> !item_le(s[insert_position(s, x, from)], x),
    decreases s.len() - from,
{
    if from < s.len() && item_le(s[from], x) {
        lemma_insert_position(s, x, from + 1);
    }
}

proof fn lemma_insert_keeps_sorted(s: Seq<Item>, x: Item)
    requires
        is_sorted(s),
    ensures
        is_sorted(s.insert(insert_position(s, x, 0), x)),
{
    lemma_insert_position(s, x, 0);
    let p = insert_position(s, x, 0);
    let out = s.insert(p, x);
    assert forall|i: int, j: int| 0 <= i < j < out.len() implies item_le(
        #[trigger] out[i],
        #[trigger] out[j],
    ) by {
        if j < p {
            assert(out[i] == s[i] && out[j] == s[j]);
        } else if j == p {
            assert(out[i] == s[i]);
        } else if i == p {
            assert(out[j] == s[j - 1]);
            lemma_item_le_total(s[p], x);
            if j - 1 > p {
                assert(item_le(s[p], s[j - 1]));
                lemma_item_le_transitive(x, s[p], s[j - 1]);
            }
        } else if i < p {
            assert(out[i] == s[i] && out[j] == s[j - 1]);
        } else {
            assert(out[i] == s[i - 1] && out[j] == s[j - 1]);
        }
    }
}

/// The order in which items are shown is sorted: directories first, and
/// within each group by name.
pub proof fn lemma_sorted_items_sorted(s: Seq<Item>)
    ensures
        is_sorted(sorted_items(s)),
    decreases s.len(),
{
    if s.len() > 0 {
        lemma_sorted_items_sorted(s.drop_last());
        lemma_insert_keeps_sorted(sorted_items(s.drop_last()), s.last());
    }
}

/// The order in which items are shown holds each item as often as the
/// listing does: none is lost and none is made up.
pub proof fn lemma_sorted_items_permutation(s: Seq<Item>)
    ensures
        sorted_items(s).len() == s.len(),
        sorted_items(s).to_multiset() == s.to_multiset(),
    decreases s.len(),
{
    if s.len() > 0 {
        let before = s.drop_last();
        lemma_sorted_items_permutation(before);
        lemma_insert_position(sorted_items(before), s.last(), 0);
        let p = insert_position(sorted_items(before), s.last(), 0);
        to_multiset_insert(sorted_items(before), p, s.last());
        to_multiset_build(before, s.last());
        assert(before.push(s.last()) =~= s);
    } else {
        assert(sorted_items(s) =~= s);
    }
}

impl Clone for Listed {
    fn clone(&self) -> (r: Self)
        ensures
            item_of(r) == item_of(*self),
    {
        Listed { name: self.name.clone(), file_type: self.file_type }
    }
}

/// Whether `a` comes no later than `b` in the order of their characters.
pub fn name_le(a: &str, b: &str) -> (r: bool)
    ensures
        r == lex_le(a@, b@),
{
    let n: usize = a.unicode_len();
    let m: usize = b.unicode_len();
    let mut i: usize = 0;
    while i < n
        invariant
            n == a@.len(),
            m == b@.len(),
            i <= n,
            lex_le(a@, b@) == lex_le_from(a@, b@, i as int),
        decreases n - i,
    {
        if i >= m {
            return false;
        }
        let x = a.get_char(i);
        let y = b.get_char(i);
        if x != y {
            return (x as u32) < (y as u32);
        }
        i += 1;
    }
    true
}

/// Whether `a` is shown no later than `b`.
pub fn shown_before(a: &Listed, b: &Listed) -> (r: bool)
    ensures
        r == item_le(item_of(*a), item_of(*b)),
{
    let ra: u8 = match a.file_type {
        FileType::Directory => 0,
        _ => 1,
    };
    let rb: u8 = match b.file_type {
        FileType::Directory => 0,
        _ => 1,
    };
    ra < rb || (ra == rb && name_le(a.name.as_str(), b.name.as_str()))
}

/// The items in the order in which they are shown: directories first, and
/// within each group by name.
pub fn sort_listing(items: &Vec<Listed>) -> (r: Vec<Listed>)
    ensures
        items_view(r@) == sorted_items(items_view(items@)),
        is_sorted(items_view(r@)),
        items_view(r@).to_multiset() == items_view(items@).to_multiset(),
        r@.len() == items@.len(),
{
    let ghost all = items_view(items@);
    let mut out: Vec<Listed> = Vec::new();
    let mut i: usize = 0;
    assert(all.take(0) =~= Seq::<Item>::empty());
    assert(items_view(out@) =~= Seq::<Item>::empty());
    while i < items.len()
        invariant
            i <= items.len(),
            all == items_view(items@),
            items_view(out@) == sorted_items(all.take(i as int)),
        decreases items.len() - i,
    {
        let item = items[i].clone();
        let ghost sorted = items_view(out@);
        let mut at: usize = 0;
        while at < out.len() && shown_before(&out[at], &item)
            invariant
                at <= out.len(),
                sorted == items_view(out@),
                insert_position(sorted, item_of(item), 0) == insert_position(
                    sorted,
                    item_of(item),
                    at as int,
                ),
            decreases out.len() - at,
        {
            at += 1;
        }
        proof {
            assert(all.take(i + 1).drop_last() =~= all.take(i as int));
            assert(all.take(i + 1).last() == item_of(item));
            assert(items_view(out@.insert(at as int, item)) =~= sorted.insert(
                at as int,
                item_of(item),
            ));
        }
        out.insert(at, item);
        i += 1;
    }
    proof {
        assert(all.take(items.len() as int) =~= all);
        lemma_sorted_items_sorted(all);
        lemma_sorted_items_permutation(all);
    }
    out
}

impl AppState {
    /// The buffer filled with the listing of the current directory, where
    /// that is asked for: the way up first, then the names in their order.
    pub open spec fn refresh(self, paths: Seq<Seq<char>>) -> AppState {
        if self.rerender_dir_content {
            AppState {
                lines: listing_lines(self.views, self.dir(), paths),
                rerender_dir_content: false,
                ..self
            }
        } else {
            self
        }
    }
}

impl App {
    /// The names under which the paths of a listing of the current directory
    /// are shown, in their order.
    pub fn sorted_names(&self, paths: &Vec<String>) -> (r: Vec<String>)
        ensures
            strings_view(r@) == names_of(
                sorted_items(listed_items(self@.views, self@.dir(), strings_view(paths@))),
            ),
    {
        let dir = self.path.get_absolute_path();
        let ghost want = listed_items(self@.views, self@.dir(), strings_view(paths@));
        let mut items: Vec<Listed> = Vec::new();
        let mut i: usize = 0;
        while i < paths.len()
            invariant
                i <= paths.len(),
                dir@ == self@.dir(),
                want == listed_items(self@.views, self@.dir(), strings_view(paths@)),
                items@.len() == i,
                forall|k: int| 0 <= k < i ==> item_of(#[trigger] items@[k]) == want[k],
            decreases paths.len() - i,
        {
            let name = crate::text::trim_path(paths[i].as_str());
            let file_type = self.buffer_storage.get_file_type(dir.as_str(), name.as_str());
            items.push(Listed { name, file_type });
            i += 1;
        }
        assert(items_view(items@) =~= want);
        let sorted = sort_listing(&items);
        let mut names: Vec<String> = Vec::new();
        let mut k: usize = 0;
        while k < sorted.len()
            invariant
                k <= sorted.len(),
                names@.len() == k,
                forall|j: int| 0 <= j < k ==> (#[trigger] names@[j])@ == sorted@[j].name@,
            decreases sorted.len() - k,
        {
            names.push(sorted[k].name.clone());
            k += 1;
        }
        assert(strings_view(names@) =~= names_of(items_view(sorted@)));
        names
    }

    /// Fills the buffer with the listing of the current directory, where
    /// that is asked for: the way up first, then the names in their order.
    /// The request is then answered.
    pub fn refresh_buffer(&mut self, paths: &Vec<String>)
        ensures
            final(self)@ == old(self)@.refresh(strings_view(paths@)),
    {
        if !self.rerender_dir_content {
            return ;
        }
        let names = self.sorted_names(paths);
        let mut lines: Vec<String> = Vec::new();
        lines.push(to_string("../"));
        let mut k: usize = 0;
        proof {
            reveal_strlit("../");
            assert("../"@ =~= seq!['.', '.', '/']);
            assert(strings_view(lines@) =~= seq![seq!['.', '.', '/']] + strings_view(names@).take(
                0,
            ));
        }
        while k < names.len()
            invariant
                k <= names.len(),
                strings_view(lines@) == seq![seq!['.', '.', '/']] + strings_view(names@).take(
                    k as int,
                ),
            decreases names.len() - k,
        {
            let name = names[k].clone();
            proof {
                let shown = strings_view(names@);
                assert(name@ == shown[k as int]);
                assert(shown.take(k + 1) =~= shown.take(k as int).push(shown[k as int]));
                assert(strings_view(lines@.push(name)) =~= strings_view(lines@).push(name@));
                assert(strings_view(lines@.push(name)) =~= seq![seq!['.', '.', '/']] + shown.take(
                    k + 1,
                ));
            }
            lines.push(name);
            k += 1;
        }
        assert(strings_view(names@).take(names.len() as int) =~= strings_view(names@));
        let text = join_text(&lines);
        self.buffer_content = TextBuffer::from_text(text.as_str());
        self.rerender_dir_content = false;
    }
}

} // verus!
