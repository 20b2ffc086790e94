use vstd::prelude::*;

use unicode_width::UnicodeWidthStr;

verus! {

/// One table row of the viewer, every column already text.
#[derive(Debug)]
pub struct Data {
    pub repo: String,
    pub date: String,
    pub branch: String,
    pub author: String,
    pub insertions: String,
    pub deletions: String,
}

pub struct DataView {
    pub repo: Seq<char>,
    pub date: Seq<char>,
    pub branch: Seq<char>,
    pub author: Seq<char>,
    pub insertions: Seq<char>,
    pub deletions: Seq<char>,
}

impl View for Data {
    type V = DataView;

    open spec fn view(&self) -> DataView {
        DataView {
            repo: self.repo@,
            date: self.date@,
            branch: self.branch@,
            author: self.author@,
            insertions: self.insertions@,
            deletions: self.deletions@,
        }
    }
}

/// An empty text, the default for a missing column.
pub fn default_str() -> (r: String)
    ensures
        r@ == Seq::<char>::empty(),
{
    let r = String::new();
    proof {
        assert(r@ =~= Seq::<char>::empty());
    }
    r
}

impl Data {
    /// The six columns in display order.
    pub fn ref_array(&self) -> (r: [&String; 6])
        ensures
            r@.len() == 6,
            r@[0]@ == self.repo@,
            r@[1]@ == self.date@,
            r@[2]@ == self.branch@,
            r@[3]@ == self.author@,
            r@[4]@ == self.insertions@,
            r@[5]@ == self.deletions@,
    {
        let r = [
            &self.repo,
            &self.date,
            &self.branch,
            &self.author,
            &self.insertions,
            &self.deletions,
        ];
        proof {
            assert(r@[0] == &self.repo);
            assert(r@[1] == &self.date);
            assert(r@[2] == &self.branch);
            assert(r@[3] == &self.author);
            assert(r@[4] == &self.insertions);
            assert(r@[5] == &self.deletions);
        }
        r
    }

    pub fn repo(&self) -> (r: &str)
        ensures
            r@ == self.repo@,
    {
        self.repo.as_str()
    }

    pub fn date(&self) -> (r: &str)
        ensures
            r@ == self.date@,
    {
        self.date.as_str()
    }

    pub fn branch(&self) -> (r: &str)
        ensures
            r@ == self.branch@,
    {
        self.branch.as_str()
    }

    pub fn author(&self) -> (r: &str)
        ensures
            r@ == self.author@,
    {
        self.author.as_str()
    }

    pub fn insertions(&self) -> (r: &str)
        ensures
            r@ == self.insertions@,
    {
        self.insertions.as_str()
    }

    pub fn deletions(&self) -> (r: &str)
        ensures
            r@ == self.deletions@,
    {
        self.deletions.as_str()
    }
}

/// The number of terminal columns a text takes.
pub uninterp spec fn display_width(s: Seq<char>) -> nat;

/// Measures a text's displayed width.
///
/// Relies on `UnicodeWidthStr::width` of the unicode-width crate: the
/// width in columns of a string, a function of its characters alone;
/// an empty string has width zero.
#[verifier::external_body]
fn text_width(s: &str) -> (r: usize)
    ensures
        r as nat == display_width(s@),
        s@.len() == 0 ==> r == 0,
{
    UnicodeWidthStr::width(s)
}

/// The larger of two widths.
pub open spec fn max2(a: nat, b: nat) -> nat {
    if a >= b {
        a
    } else {
        b
    }
}

/// The place of the first line feed, or the text's length when it
/// has none.
pub open spec fn first_nl(s: Seq<char>) -> int
    decreases s.len(),
{
    if s.len() == 0 {
        0
    } else if s.first() == '\n' {
        0
    } else {
        1 + first_nl(s.drop_first())
    }
}

proof fn lemma_first_nl_bounds(s: Seq<char>)
    ensures
        0 <= first_nl(s) <= s.len(),
    decreases s.len(),
{
    if s.len() > 0 && s.first() != '\n' {
        lemma_first_nl_bounds(s.drop_first());
    }
}

proof fn lemma_first_nl_at(s: Seq<char>, m: int)
    requires
        0 <= m <= s.len(),
        forall|k: int| 0 <= k < m ==> s[k] != '\n',
        m == s.len() || s[m] == '\n',
    ensures
        first_nl(s) == m,
    decreases s.len(),
{
    if s.len() == 0 {
    } else if s.first() == '\n' {
        assert(m == 0);
    } else {
        assert(m >= 1);
        lemma_first_nl_at(s.drop_first(), m - 1);
    }
}

/// A line segment with a carriage return before the break taken off.
pub open spec fn strip_cr(t: Seq<char>) -> Seq<char> {
    if t.len() > 0 && t.last() == '\r' {
        t.drop_last()
    } else {
        t
    }
}

/// The lines of a text, split at line feeds; a carriage return
/// before a line feed is taken off, and a final line end opens no
/// further line.
pub open spec fn lines_of(s: Seq<char>) -> Seq<Seq<char>>
    decreases s.len(),
{
    if s.len() == 0 {
        Seq::empty()
    } else {
        let j = if 0 <= first_nl(s) <= s.len() {
            first_nl(s)
        } else {
            s.len() as int
        };
        if j == s.len() {
            seq![s]
        } else {
            seq![strip_cr(s.take(j))] + lines_of(s.skip(j + 1))
        }
    }
}

/// The widest of a list of lines.
pub open spec fn lines_max(ls: Seq<Seq<char>>) -> nat
    decreases ls.len(),
{
    if ls.len() == 0 {
        0
    } else {
        max2(lines_max(ls.drop_last()), display_width(ls.last()))
    }
}

/// The widest line of a text.
pub open spec fn line_max(s: Seq<char>) -> nat {
    lines_max(lines_of(s))
}

proof fn lemma_lines_max_cons(a: Seq<char>, ls: Seq<Seq<char>>)
    ensures
        lines_max(seq![a] + ls) == max2(display_width(a), lines_max(ls)),
    decreases ls.len(),
{
    if ls.len() == 0 {
        assert(seq![a] + ls =~= seq![a]);
        assert(seq![a].drop_last() =~= Seq::<Seq<char>>::empty());
        assert(lines_max(Seq::<Seq<char>>::empty()) == 0);
    } else {
        assert((seq![a] + ls).drop_last() =~= seq![a] + ls.drop_last());
        assert((seq![a] + ls).last() == ls.last());
        lemma_lines_max_cons(a, ls.drop_last());
    }
}

fn max_line_width_from(s: &str, pos: usize) -> (r: usize)
    requires
        pos <= s@.len(),
    ensures
        r as nat == line_max(s@.skip(pos as int)),
    decreases s@.len() - pos,
{
    let len = s.unicode_len();
    if pos == len {
        proof {
            assert(s@.skip(pos as int).len() == 0);
            assert(lines_of(s@.skip(pos as int)) =~= Seq::<Seq<char>>::empty());
        }
        return 0;
    }
    let mut j: usize = pos;
    while j < len && s.get_char(j) != '\n'
        invariant
            len == s@.len(),
            pos <= j <= len,
            forall|k: int| pos <= k < j ==> s@[k] != '\n',
        decreases len - j,
    {
        j = j + 1;
    }
    let ghost tail = s@.skip(pos as int);
    proof {
        assert(forall|k: int| 0 <= k < j - pos ==> tail[k] == s@[k + pos] && s@[k + pos] != '\n');
        assert(j - pos == tail.len() || tail[j - pos] == '\n');
        lemma_first_nl_at(tail, j - pos);
    }
    if j == len {
        let seg = s.substring_char(pos, len);
        let w = text_width(seg);
        proof {
            assert(seg@ =~= tail);
            assert(lines_of(tail) == seq![tail]);
            assert(seq![tail].drop_last() =~= Seq::<Seq<char>>::empty());
            assert(lines_max(Seq::<Seq<char>>::empty()) == 0);
            assert(lines_max(seq![tail]) == display_width(tail));
        }
        return w;
    }
    let seg_end = if j > pos && s.get_char(j - 1) == '\r' {
        j - 1
    } else {
        j
    };
    let seg = s.substring_char(pos, seg_end);
    let w = text_width(seg);
    let rest = max_line_width_from(s, j + 1);
    proof {
        assert(tail.take(j - pos) =~= s@.subrange(pos as int, j as int));
        assert(strip_cr(tail.take(j - pos)) =~= s@.subrange(pos as int, seg_end as int));
        assert(seg@ == strip_cr(tail.take(j - pos)));
        assert(tail.skip(j - pos + 1) =~= s@.skip(j + 1));
        assert(lines_of(tail) == seq![strip_cr(tail.take(j - pos))] + lines_of(s@.skip(j + 1)));
        lemma_lines_max_cons(strip_cr(tail.take(j - pos)), lines_of(s@.skip(j + 1)));
    }
    if w >= rest {
        w
    } else {
        rest
    }
}

/// The widest line of a text, measured in display columns.
pub fn max_line_width(s: &str) -> (r: usize)
    ensures
        r as nat == line_max(s@),
{
    proof {
        assert(s@.skip(0) =~= s@);
    }
    max_line_width_from(s, 0)
}

/// A width clipped to what a table column can carry.
pub open spec fn clamp_u16(n: nat) -> nat {
    if n > 65535 {
        65535
    } else {
        n
    }
}

/// The widest repo text of the rows.
pub open spec fn repo_w(items: Seq<DataView>) -> nat
    decreases items.len(),
{
    if items.len() == 0 {
        0
    } else {
        max2(repo_w(items.drop_last()), display_width(items.last().repo))
    }
}

/// The widest date text of the rows.
pub open spec fn date_w(items: Seq<DataView>) -> nat
    decreases items.len(),
{
    if items.len() == 0 {
        0
    } else {
        max2(date_w(items.drop_last()), display_width(items.last().date))
    }
}

/// The widest branch line of the rows.
pub open spec fn branch_w(items: Seq<DataView>) -> nat
    decreases items.len(),
{
    if items.len() == 0 {
        0
    } else {
        max2(branch_w(items.drop_last()), line_max(items.last().branch))
    }
}

/// The widest author text of the rows.
pub open spec fn author_w(items: Seq<DataView>) -> nat
    decreases items.len(),
{
    if items.len() == 0 {
        0
    } else {
        max2(author_w(items.drop_last()), display_width(items.last().author))
    }
}

/// The widest insertions text of the rows.
pub open spec fn insertions_w(items: Seq<DataView>) -> nat
    decreases items.len(),
{
    if items.len() == 0 {
        0
    } else {
        max2(insertions_w(items.drop_last()), display_width(items.last().insertions))
    }
}

/// The widest deletions text of the rows.
pub open spec fn deletions_w(items: Seq<DataView>) -> nat
    decreases items.len(),
{
    if items.len() == 0 {
        0
    } else {
        max2(deletions_w(items.drop_last()), display_width(items.last().deletions))
    }
}

pub open spec fn data_views(items: Seq<Data>) -> Seq<DataView> {
    items.map_values(|d: Data| d@)
}

/// The six column widths a table needs for these rows: per column
/// the widest cell (for the branch column, the widest cell line),
/// clipped to a table's column type.
pub fn constraint_len_calculator(items: &Vec<Data>) -> (r: (u16, u16, u16, u16, u16, u16))
    ensures
        r.0 as nat == clamp_u16(repo_w(data_views(items@))),
        r.1 as nat == clamp_u16(date_w(data_views(items@))),
        r.2 as nat == clamp_u16(branch_w(data_views(items@))),
        r.3 as nat == clamp_u16(author_w(data_views(items@))),
        r.4 as nat == clamp_u16(insertions_w(data_views(items@))),
        r.5 as nat == clamp_u16(deletions_w(data_views(items@))),
{
    let ghost s = data_views(items@);
    let mut repo_len: usize = 0;
    let mut date_len: usize = 0;
    let mut branch_len: usize = 0;
    let mut author_len: usize = 0;
    let mut insertions_len: usize = 0;
    let mut deletions_len: usize = 0;
    let mut i: usize = 0;
    proof {
        assert(s.take(0) =~= Seq::<DataView>::empty());
    }
    while i < items.len()
        invariant
            i <= items.len(),
            s == data_views(items@),
            s.len() == items@.len(),
            forall|k: int| 0 <= k < s.len() ==> s[k] == #[trigger] items@[k]@,
            repo_len as nat == repo_w(s.take(i as int)),
            date_len as nat == date_w(s.take(i as int)),
            branch_len as nat == branch_w(s.take(i as int)),
            author_len as nat == author_w(s.take(i as int)),
            insertions_len as nat == insertions_w(s.take(i as int)),
            deletions_len as nat == deletions_w(s.take(i as int)),
        decreases items.len() - i,
    {
        let d = &items[i];
        proof {
            assert(s.take(i + 1).drop_last() =~= s.take(i as int));
            assert(s.take(i + 1).last() == s[i as int]);
        }
        let w0 = text_width(d.repo.as_str());
        if w0 > repo_len {
            repo_len = w0;
        }
        let w1 = text_width(d.date.as_str());
        if w1 > date_len {
            date_len = w1;
        }
        let w2 = max_line_width(d.branch.as_str());
        if w2 > branch_len {
            branch_len = w2;
        }
        let w3 = text_width(d.author.as_str());
        if w3 > author_len {
            author_len = w3;
        }
        let w4 = text_width(d.insertions.as_str());
        if w4 > insertions_len {
            insertions_len = w4;
        }
        let w5 = text_width(d.deletions.as_str());
        if w5 > deletions_len {
            deletions_len = w5;
        }
        i = i + 1;
    }
    proof {
        assert(s.take(items@.len() as int) =~= s);
    }
    (
        clamp_exec(repo_len),
        clamp_exec(date_len),
        clamp_exec(branch_len),
        clamp_exec(author_len),
        clamp_exec(insertions_len),
        clamp_exec(deletions_len),
    )
}

fn clamp_exec(n: usize) -> (r: u16)
    ensures
        r as nat == clamp_u16(n as nat),
{
    if n > 65535 {
        65535
    } else {
        n as u16
    }
}

} // verus!
