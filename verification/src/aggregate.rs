use vstd::prelude::*;

use crate::config::{author_views, Author, AuthorView};
use crate::record::{
    filter_retained, lemma_rec_views_insert, lemma_rec_views_update, opt_int, rec_views,
    resolve_all, resolved_rec, CommitInfo, CommitInfoVec, CommitInfoView,
};
use crate::strutil::{
    dec_seq, dec_string, lemma_lex_le_antisym, lemma_lex_le_total, lemma_lex_le_trans, lex_le,
    str_eq, str_le,
};

verus! {

/// Whether two records fall in the same summary group: same repo,
/// same branch, same author.
pub open spec fn same_group(a: CommitInfoView, b: CommitInfoView) -> bool {
    a.repo == b.repo && a.branch == b.branch && a.author == b.author
}

/// The insertions of a record list that fall in `key`'s group,
/// summed.
pub open spec fn group_ins(s: Seq<CommitInfoView>, key: CommitInfoView) -> int
    decreases s.len(),
{
    if s.len() == 0 {
        0
    } else {
        group_ins(s.drop_last(), key) + (if same_group(s.last(), key) {
            s.last().insertions
        } else {
            0
        })
    }
}

/// The deletions of a record list that fall in `key`'s group, summed.
pub open spec fn group_del(s: Seq<CommitInfoView>, key: CommitInfoView) -> int
    decreases s.len(),
{
    if s.len() == 0 {
        0
    } else {
        group_del(s.drop_last(), key) + (if same_group(s.last(), key) {
            s.last().deletions
        } else {
            0
        })
    }
}

/// All insertions of a record list, summed.
pub open spec fn total_ins(s: Seq<CommitInfoView>) -> int
    decreases s.len(),
{
    if s.len() == 0 {
        0
    } else {
        total_ins(s.drop_last()) + s.last().insertions
    }
}

/// All deletions of a record list, summed.
pub open spec fn total_del(s: Seq<CommitInfoView>) -> int
    decreases s.len(),
{
    if s.len() == 0 {
        0
    } else {
        total_del(s.drop_last()) + s.last().deletions
    }
}

/// Whether some record of `s` falls in `key`'s group.
pub open spec fn group_present(s: Seq<CommitInfoView>, key: CommitInfoView) -> bool {
    exists|j: int| 0 <= j < s.len() && same_group(#[trigger] s[j], key)
}

/// No record counts lines below zero.
pub open spec fn recs_nonneg(s: Seq<CommitInfoView>) -> bool {
    forall|k: int| 0 <= k < s.len() ==> (#[trigger] s[k]).insertions >= 0 && s[k].deletions >= 0
}

/// Summary order: ascending by repo, then by branch; authors tie.
pub open spec fn row_le(a: CommitInfoView, b: CommitInfoView) -> bool {
    if a.repo == b.repo {
        lex_le(a.branch, b.branch)
    } else {
        lex_le(a.repo, b.repo)
    }
}

/// Whether a row list is sorted by `row_le`.
pub open spec fn rows_sorted(rows: Seq<CommitInfoView>) -> bool {
    forall|k1: int, k2: int| 0 <= k1 < k2 < rows.len() ==> row_le(
        #[trigger] rows[k1],
        #[trigger] rows[k2],
    )
}

/// What correct summary rows say of a record list: every row's group
/// appears in the list; every row carries its group's two sums; no
/// two rows share a group; and every record's group has a row.
pub open spec fn aggregated(s: Seq<CommitInfoView>, rows: Seq<CommitInfoView>) -> bool {
    &&& forall|k: int| 0 <= k < rows.len() ==> group_present(s, #[trigger] rows[k])
    &&& forall|k: int| 0 <= k < rows.len() ==> (#[trigger] rows[k]).insertions == group_ins(
        s,
        rows[k],
    ) && rows[k].deletions == group_del(s, rows[k])
    &&& forall|k1: int, k2: int| 0 <= k1 < k2 < rows.len() ==> !same_group(
        #[trigger] rows[k1],
        #[trigger] rows[k2],
    )
    &&& forall|j: int| 0 <= j < s.len() ==> group_present(rows, #[trigger] s[j])
}

/// A summary row's message text: the two totals, written out.
pub open spec fn sum_message(ins: int, del: int) -> Seq<char> {
    "Total lines: +"@ + dec_seq(ins as nat) + " -"@ + dec_seq(del as nat)
}

/// The order `row_le` is total.
pub proof fn lemma_row_le_total(a: CommitInfoView, b: CommitInfoView)
    ensures
        row_le(a, b) || row_le(b, a),
{
    lemma_lex_le_total(a.repo, b.repo);
    lemma_lex_le_total(a.branch, b.branch);
}

/// The order `row_le` is transitive.
pub proof fn lemma_row_le_trans(a: CommitInfoView, b: CommitInfoView, c: CommitInfoView)
    requires
        row_le(a, b),
        row_le(b, c),
    ensures
        row_le(a, c),
{
    if a.repo == b.repo {
        if b.repo == c.repo {
            lemma_lex_le_trans(a.branch, b.branch, c.branch);
        }
    } else if b.repo == c.repo {
    } else {
        lemma_lex_le_trans(a.repo, b.repo, c.repo);
        if a.repo == c.repo {
            lemma_lex_le_antisym(a.repo, b.repo);
        }
    }
}

/// Group sums read the same through any key of the group.
pub proof fn lemma_group_congruent(s: Seq<CommitInfoView>, k1: CommitInfoView, k2: CommitInfoView)
    requires
        same_group(k1, k2),
    ensures
        group_ins(s, k1) == group_ins(s, k2),
        group_del(s, k1) == group_del(s, k2),
    decreases s.len(),
{
    if s.len() > 0 {
        lemma_group_congruent(s.drop_last(), k1, k2);
    }
}

/// A group's sums lie between zero and the list's totals.
pub proof fn lemma_group_le_total(s: Seq<CommitInfoView>, key: CommitInfoView)
    requires
        recs_nonneg(s),
    ensures
        0 <= group_ins(s, key) <= total_ins(s),
        0 <= group_del(s, key) <= total_del(s),
    decreases s.len(),
{
    if s.len() > 0 {
        assert(recs_nonneg(s.drop_last()));
        lemma_group_le_total(s.drop_last(), key);
        assert(s.last().insertions >= 0 && s.last().deletions >= 0);
    }
}

/// A prefix's totals are no more than the whole list's.
pub proof fn lemma_total_prefix_le(s: Seq<CommitInfoView>, i: int)
    requires
        recs_nonneg(s),
        0 <= i <= s.len(),
    ensures
        total_ins(s.take(i)) <= total_ins(s),
        total_del(s.take(i)) <= total_del(s),
    decreases s.len(),
{
    if i == s.len() {
        assert(s.take(i) =~= s);
    } else {
        assert(recs_nonneg(s.drop_last()));
        assert(s.drop_last().take(i) =~= s.take(i));
        lemma_total_prefix_le(s.drop_last(), i);
        assert(s.last().insertions >= 0 && s.last().deletions >= 0);
    }
}

/// A group no record of the list falls in sums to zero.
pub proof fn lemma_group_absent(s: Seq<CommitInfoView>, key: CommitInfoView)
    requires
        forall|j: int| 0 <= j < s.len() ==> !same_group(#[trigger] s[j], key),
    ensures
        group_ins(s, key) == 0,
        group_del(s, key) == 0,
        !group_present(s, key),
    decreases s.len(),
{
    if s.len() > 0 {
        assert(forall|j: int| 0 <= j < s.drop_last().len() ==> !same_group(
            #[trigger] s.drop_last()[j],
            key,
        ));
        lemma_group_absent(s.drop_last(), key);
        assert(!same_group(s.last(), key));
    }
}

/// Aggregation is additive: the sums of a group over two record
/// lists laid end to end are the sums over each, added.
pub proof fn lemma_group_sum_additive(
    s1: Seq<CommitInfoView>,
    s2: Seq<CommitInfoView>,
    key: CommitInfoView,
)
    ensures
        group_ins(s1 + s2, key) == group_ins(s1, key) + group_ins(s2, key),
        group_del(s1 + s2, key) == group_del(s1, key) + group_del(s2, key),
    decreases s2.len(),
{
    if s2.len() == 0 {
        assert(s1 + s2 =~= s1);
    } else {
        assert((s1 + s2).drop_last() =~= s1 + s2.drop_last());
        assert((s1 + s2).last() == s2.last());
        lemma_group_sum_additive(s1, s2.drop_last(), key);
    }
}

/// The first row of `rows` in the same group as `rec`, when one is
/// there.
fn find_group(rows: &Vec<CommitInfo>, rec: &CommitInfo) -> (r: Option<usize>)
    ensures
        match r {
            Some(p) => p < rows@.len() && same_group(rows@[p as int]@, rec@),
            None => forall|k: int| 0 <= k < rows@.len() ==> !same_group(
                #[trigger] rows@[k]@,
                rec@,
            ),
        },
{
    let mut j: usize = 0;
    while j < rows.len()
        invariant
            j <= rows.len(),
            forall|k: int| 0 <= k < j ==> !same_group(#[trigger] rows@[k]@, rec@),
        decreases rows.len() - j,
    {
        let row = &rows[j];
        if str_eq(row.repo.as_str(), rec.repo.as_str()) && str_eq(
            row.branch.as_str(),
            rec.branch.as_str(),
        ) && str_eq(row.author.as_str(), rec.author.as_str()) {
            return Some(j);
        }
        j = j + 1;
    }
    None
}

/// Decides `row_le` on two records.
fn row_le_exec(a: &CommitInfo, b: &CommitInfo) -> (r: bool)
    ensures
        r == row_le(a@, b@),
{
    if str_eq(a.repo.as_str(), b.repo.as_str()) {
        str_le(a.branch.as_str(), b.branch.as_str())
    } else {
        str_le(a.repo.as_str(), b.repo.as_str())
    }
}

/// Writes a summary row's message for its two sums.
fn build_sum_message(ins: usize, del: usize) -> (r: String)
    ensures
        r@ == sum_message(ins as int, del as int),
{
    let mut r = String::from_str("Total lines: +");
    r.append(dec_string(ins).as_str());
    r.append(" -");
    r.append(dec_string(del).as_str());
    proof {
        assert(r@ =~= sum_message(ins as int, del as int));
    }
    r
}

/// The fixed shape of a summary row: no date, no commit id, and a
/// message naming its two sums.
pub open spec fn rows_shaped(rows: Seq<CommitInfoView>) -> bool {
    forall|k: int| 0 <= k < rows.len() ==> (#[trigger] rows[k]).date is None && rows[k].commit_id
        == Seq::<char>::empty() && rows[k].message == sum_message(
        rows[k].insertions,
        rows[k].deletions,
    )
}

/// The state between two steps of grouping: the rows aggregate the
/// records seen so far, stand sorted, and have a summary row's shape.
pub open spec fn partial_rows(prefix: Seq<CommitInfoView>, rows: Seq<CommitInfoView>) -> bool {
    aggregated(prefix, rows) && rows_sorted(rows) && rows_shaped(rows)
}

/// Keys equal place for place keep a row list sorted.
proof fn lemma_same_keys_sorted(oldrows: Seq<CommitInfoView>, newrows: Seq<CommitInfoView>)
    requires
        rows_sorted(oldrows),
        newrows.len() == oldrows.len(),
        forall|k: int| 0 <= k < newrows.len() ==> same_group(#[trigger] newrows[k], oldrows[k]),
    ensures
        rows_sorted(newrows),
{
    assert forall|k1: int, k2: int| 0 <= k1 < k2 < newrows.len() implies row_le(
        #[trigger] newrows[k1],
        #[trigger] newrows[k2],
    ) by {
        assert(row_le(oldrows[k1], oldrows[k2]));
        assert(newrows[k1].repo == oldrows[k1].repo && newrows[k1].branch == oldrows[k1].branch);
        assert(newrows[k2].repo == oldrows[k2].repo && newrows[k2].branch == oldrows[k2].branch);
    }
}

/// Keys equal place for place keep distinct groups distinct.
proof fn lemma_same_keys_distinct(oldrows: Seq<CommitInfoView>, newrows: Seq<CommitInfoView>)
    requires
        forall|k1: int, k2: int| 0 <= k1 < k2 < oldrows.len() ==> !same_group(
            #[trigger] oldrows[k1],
            #[trigger] oldrows[k2],
        ),
        newrows.len() == oldrows.len(),
        forall|k: int| 0 <= k < newrows.len() ==> same_group(#[trigger] newrows[k], oldrows[k]),
    ensures
        forall|k1: int, k2: int| 0 <= k1 < k2 < newrows.len() ==> !same_group(
            #[trigger] newrows[k1],
            #[trigger] newrows[k2],
        ),
{
    assert forall|k1: int, k2: int| 0 <= k1 < k2 < newrows.len() implies !same_group(
        #[trigger] newrows[k1],
        #[trigger] newrows[k2],
    ) by {
        assert(!same_group(oldrows[k1], oldrows[k2]));
    }
}

/// With only one row matching the new record's group, growing it
/// keeps every row's sums right for the records seen so far.
proof fn lemma_bump_sums(
    prefix: Seq<CommitInfoView>,
    rv: CommitInfoView,
    oldrows: Seq<CommitInfoView>,
    newrows: Seq<CommitInfoView>,
    p: int,
)
    requires
        forall|k: int| 0 <= k < oldrows.len() ==> (#[trigger] oldrows[k]).insertions == group_ins(
            prefix,
            oldrows[k],
        ) && oldrows[k].deletions == group_del(prefix, oldrows[k]),
        0 <= p < oldrows.len(),
        same_group(oldrows[p], rv),
        forall|k: int| 0 <= k < oldrows.len() && k != p ==> !same_group(
            #[trigger] oldrows[k],
            rv,
        ),
        newrows.len() == oldrows.len(),
        forall|k: int| 0 <= k < newrows.len() && k != p ==> #[trigger] newrows[k] == oldrows[k],
        same_group(newrows[p], oldrows[p]),
        newrows[p].insertions == oldrows[p].insertions + rv.insertions,
        newrows[p].deletions == oldrows[p].deletions + rv.deletions,
    ensures
        forall|k: int| 0 <= k < newrows.len() ==> (#[trigger] newrows[k]).insertions == group_ins(
            prefix.push(rv),
            newrows[k],
        ) && newrows[k].deletions == group_del(prefix.push(rv), newrows[k]),
{
    let prefix1 = prefix.push(rv);
    assert(prefix1.drop_last() =~= prefix);
    assert(prefix1.last() == rv);
    assert forall|k: int| 0 <= k < newrows.len() implies (#[trigger] newrows[k]).insertions
        == group_ins(prefix1, newrows[k]) && newrows[k].deletions == group_del(
        prefix1,
        newrows[k],
    ) by {
        if k == p {
            lemma_group_congruent(prefix1, newrows[k], oldrows[k]);
            lemma_group_congruent(prefix, newrows[k], oldrows[k]);
            lemma_group_congruent(prefix, oldrows[k], rv);
            assert(same_group(prefix1.last(), oldrows[k]));
        } else {
            assert(!same_group(prefix1.last(), newrows[k]));
        }
    }
}

/// Every row whose group appears among the records seen still
/// appears among them after one more record.
proof fn lemma_push_present(
    prefix: Seq<CommitInfoView>,
    rv: CommitInfoView,
    newrows: Seq<CommitInfoView>,
    oldrows: Seq<CommitInfoView>,
)
    requires
        forall|k: int| 0 <= k < oldrows.len() ==> group_present(prefix, #[trigger] oldrows[k]),
        newrows.len() == oldrows.len(),
        forall|k: int| 0 <= k < newrows.len() ==> same_group(#[trigger] newrows[k], oldrows[k]),
    ensures
        forall|k: int| 0 <= k < newrows.len() ==> group_present(prefix.push(rv), #[trigger] newrows[k]),
{
    let prefix1 = prefix.push(rv);
    assert forall|k: int| 0 <= k < newrows.len() implies group_present(
        prefix1,
        #[trigger] newrows[k],
    ) by {
        assert(group_present(prefix, oldrows[k]));
        let w = choose|j: int| 0 <= j < prefix.len() && same_group(#[trigger] prefix[j], oldrows[k]);
        assert(prefix1[w] == prefix[w]);
        assert(same_group(prefix1[w], newrows[k]));
    }
}

/// Every record seen so far still has its row after the row of the
/// new record's group was matched or made.
proof fn lemma_push_complete(
    prefix: Seq<CommitInfoView>,
    rv: CommitInfoView,
    oldrows: Seq<CommitInfoView>,
    newrows: Seq<CommitInfoView>,
    p: int,
)
    requires
        forall|j: int| 0 <= j < prefix.len() ==> group_present(newrows, #[trigger] prefix[j]),
        0 <= p < newrows.len(),
        same_group(newrows[p], rv),
    ensures
        forall|j: int| 0 <= j < prefix.push(rv).len() ==> group_present(
            newrows,
            #[trigger] prefix.push(rv)[j],
        ),
{
    let prefix1 = prefix.push(rv);
    assert forall|j: int| 0 <= j < prefix1.len() implies group_present(
        newrows,
        #[trigger] prefix1[j],
    ) by {
        if j < prefix.len() {
            assert(prefix1[j] == prefix[j]);
        } else {
            assert(prefix1[j] == rv);
            assert(same_group(newrows[p], prefix1[j]));
        }
    }
}

/// Groups survive an elementwise group-preserving rewrite of the
/// rows.
proof fn lemma_same_keys_complete(
    prefix: Seq<CommitInfoView>,
    oldrows: Seq<CommitInfoView>,
    newrows: Seq<CommitInfoView>,
)
    requires
        forall|j: int| 0 <= j < prefix.len() ==> group_present(oldrows, #[trigger] prefix[j]),
        newrows.len() == oldrows.len(),
        forall|k: int| 0 <= k < newrows.len() ==> same_group(#[trigger] newrows[k], oldrows[k]),
    ensures
        forall|j: int| 0 <= j < prefix.len() ==> group_present(newrows, #[trigger] prefix[j]),
{
    assert forall|j: int| 0 <= j < prefix.len() implies group_present(
        newrows,
        #[trigger] prefix[j],
    ) by {
        assert(group_present(oldrows, prefix[j]));
        let w = choose|k: int| 0 <= k < oldrows.len() && same_group(#[trigger] oldrows[k], prefix[j]);
        assert(same_group(newrows[w], prefix[j]));
    }
}

/// A matched row is the only one of its group.
proof fn lemma_match_unique(oldrows: Seq<CommitInfoView>, rv: CommitInfoView, p: int)
    requires
        forall|k1: int, k2: int| 0 <= k1 < k2 < oldrows.len() ==> !same_group(
            #[trigger] oldrows[k1],
            #[trigger] oldrows[k2],
        ),
        0 <= p < oldrows.len(),
        same_group(oldrows[p], rv),
    ensures
        forall|k: int| 0 <= k < oldrows.len() && k != p ==> !same_group(
            #[trigger] oldrows[k],
            rv,
        ),
{
    assert forall|k: int| 0 <= k < oldrows.len() && k != p implies !same_group(
        #[trigger] oldrows[k],
        rv,
    ) by {
        if same_group(oldrows[k], rv) {
            if k < p {
                assert(!same_group(oldrows[k], oldrows[p]));
            } else {
                assert(!same_group(oldrows[p], oldrows[k]));
            }
        }
    }
}

/// A fresh row at place `m` keeps the list sorted when everything
/// before it lies at or under the new key and the row at `m` did not.
proof fn lemma_insert_sorted(
    oldrows: Seq<CommitInfoView>,
    nv: CommitInfoView,
    rv: CommitInfoView,
    m: int,
)
    requires
        rows_sorted(oldrows),
        0 <= m <= oldrows.len(),
        forall|k: int| 0 <= k < m ==> row_le(#[trigger] oldrows[k], rv),
        m < oldrows.len() ==> !row_le(oldrows[m], rv),
        same_group(nv, rv),
    ensures
        rows_sorted(oldrows.insert(m, nv)),
{
    let newrows = oldrows.insert(m, nv);
    assert forall|k1: int, k2: int| 0 <= k1 < k2 < newrows.len() implies row_le(
        #[trigger] newrows[k1],
        #[trigger] newrows[k2],
    ) by {
        if k1 == m {
            assert(newrows[k2] == oldrows[k2 - 1]);
            lemma_row_le_total(nv, oldrows[k2 - 1]);
            if m < oldrows.len() {
                lemma_row_le_total(oldrows[m], rv);
                assert(row_le(rv, oldrows[m]));
                assert(row_le(nv, oldrows[m]));
                if k2 - 1 > m {
                    lemma_row_le_trans(nv, oldrows[m], oldrows[k2 - 1]);
                }
            }
        } else if k2 == m {
            assert(newrows[k1] == oldrows[k1]);
            assert(row_le(oldrows[k1], rv));
        } else {
        }
    }
}

/// A fresh row for an unseen group makes the rows a correct aggregate
/// of the records seen, the new one included.
proof fn lemma_insert_agg(
    prefix: Seq<CommitInfoView>,
    rv: CommitInfoView,
    oldrows: Seq<CommitInfoView>,
    nv: CommitInfoView,
    m: int,
)
    requires
        aggregated(prefix, oldrows),
        forall|k: int| 0 <= k < oldrows.len() ==> !same_group(#[trigger] oldrows[k], rv),
        0 <= m <= oldrows.len(),
        same_group(nv, rv),
        nv.insertions == rv.insertions,
        nv.deletions == rv.deletions,
    ensures
        aggregated(prefix.push(rv), oldrows.insert(m, nv)),
{
    let prefix1 = prefix.push(rv);
    let newrows = oldrows.insert(m, nv);
    assert(prefix1.drop_last() =~= prefix);
    assert(prefix1.last() == rv);
    assert forall|j: int| 0 <= j < prefix.len() implies !same_group(#[trigger] prefix[j], rv) by {
        if same_group(prefix[j], rv) {
            assert(group_present(oldrows, prefix[j]));
            let w = choose|k: int|
                0 <= k < oldrows.len() && same_group(#[trigger] oldrows[k], prefix[j]);
            assert(same_group(oldrows[w], rv));
        }
    }
    lemma_group_absent(prefix, rv);
    lemma_group_congruent(prefix, nv, rv);
    lemma_group_congruent(prefix1, nv, rv);
    assert(newrows.len() == oldrows.len() + 1);
    assert(newrows[m] == nv);
    assert(forall|k: int| 0 <= k < m ==> #[trigger] newrows[k] == oldrows[k]);
    assert(forall|k: int| m < k < newrows.len() ==> #[trigger] newrows[k] == oldrows[k - 1]);
    assert forall|k: int| 0 <= k < newrows.len() implies group_present(
        prefix1,
        #[trigger] newrows[k],
    ) && newrows[k].insertions == group_ins(prefix1, newrows[k]) && newrows[k].deletions
        == group_del(prefix1, newrows[k]) by {
        if k == m {
            assert(same_group(prefix1.last(), newrows[k]));
        } else {
            let korig: int = if k < m {
                k
            } else {
                k - 1
            };
            assert(newrows[k] == oldrows[korig]);
            assert(group_present(prefix, oldrows[korig]));
            let w = choose|j: int|
                0 <= j < prefix.len() && same_group(#[trigger] prefix[j], oldrows[korig]);
            assert(prefix1[w] == prefix[w]);
            assert(group_present(prefix1, newrows[k]));
            assert(!same_group(rv, oldrows[korig]));
            assert(group_ins(prefix1, oldrows[korig]) == group_ins(prefix, oldrows[korig]));
            assert(group_del(prefix1, oldrows[korig]) == group_del(prefix, oldrows[korig]));
        }
    }
    assert forall|k1: int, k2: int| 0 <= k1 < k2 < newrows.len() implies !same_group(
        #[trigger] newrows[k1],
        #[trigger] newrows[k2],
    ) by {
        if k1 == m {
            assert(newrows[k2] == oldrows[k2 - 1]);
            assert(!same_group(oldrows[k2 - 1], rv));
            assert(same_group(newrows[k1], rv));
        } else if k2 == m {
            assert(newrows[k1] == oldrows[k1]);
            assert(!same_group(oldrows[k1], rv));
        }
    }
    assert forall|j: int| 0 <= j < prefix1.len() implies group_present(
        newrows,
        #[trigger] prefix1[j],
    ) by {
        if j < prefix.len() {
            assert(group_present(oldrows, prefix[j]));
            let w = choose|k: int|
                0 <= k < oldrows.len() && same_group(#[trigger] oldrows[k], prefix[j]);
            let wn: int = if w < m {
                w
            } else {
                w + 1
            };
            assert(newrows[wn] == oldrows[w]);
            assert(same_group(newrows[wn], prefix1[j]));
        } else {
            assert(same_group(newrows[m], prefix1[j]));
        }
    }
}

/// A fresh row keeps the summary shape when it has it.
proof fn lemma_insert_shaped(oldrows: Seq<CommitInfoView>, nv: CommitInfoView, m: int)
    requires
        rows_shaped(oldrows),
        0 <= m <= oldrows.len(),
        nv.date is None,
        nv.commit_id == Seq::<char>::empty(),
        nv.message == sum_message(nv.insertions, nv.deletions),
    ensures
        rows_shaped(oldrows.insert(m, nv)),
{
    let newrows = oldrows.insert(m, nv);
    assert forall|k: int| 0 <= k < newrows.len() implies (#[trigger] newrows[k]).date is None
        && newrows[k].commit_id == Seq::<char>::empty() && newrows[k].message == sum_message(
        newrows[k].insertions,
        newrows[k].deletions,
    ) by {
        if k < m {
            assert(newrows[k] == oldrows[k]);
        } else if k > m {
            assert(newrows[k] == oldrows[k - 1]);
        } else {
            assert(newrows[k] == nv);
        }
    }
}

/// Folds one record into the summary rows: the row of its group grows
/// by its counts, or a fresh row is put in at its sorted place.
#[verifier::rlimit(40)]
fn absorb_record(rows: &mut Vec<CommitInfo>, rec: &CommitInfo, Ghost(prefix): Ghost<
    Seq<CommitInfoView>,
>)
    requires
        partial_rows(prefix, rec_views(old(rows)@)),
        group_ins(prefix, rec@) + rec@.insertions <= usize::MAX,
        group_del(prefix, rec@) + rec@.deletions <= usize::MAX,
        rec@.insertions >= 0,
        rec@.deletions >= 0,
    ensures
        partial_rows(prefix.push(rec@), rec_views(final(rows)@)),
{
    let ghost oldrows = rec_views(rows@);
    let ghost rv = rec@;
    match find_group(rows, rec) {
        Some(p) => {
            proof {
                let rowp = oldrows[p as int];
                lemma_group_congruent(prefix, rowp, rv);
                assert(oldrows[p as int].insertions + rv.insertions <= usize::MAX);
                assert(oldrows[p as int].deletions + rv.deletions <= usize::MAX);
            }
            let ins0 = rows[p].insertions;
            let del0 = rows[p].deletions;
            let newins = ins0 + rec.insertions;
            let newdel = del0 + rec.deletions;
            let msg = build_sum_message(newins, newdel);
            let ghost mid = rows@;
            rows[p].insertions = newins;
            let ghost mid2 = rows@;
            rows[p].deletions = newdel;
            let ghost mid3 = rows@;
            rows[p].message = msg;
            proof {
                let pp = p as int;
                let newrows = rec_views(rows@);
                assert(newrows.len() == oldrows.len());
                assert forall|k: int| 0 <= k < newrows.len() && k != pp implies #[trigger] newrows[k]
                    == oldrows[k] by {
                    assert(rows@[k] == mid3[k]);
                    assert(mid3[k] == mid2[k]);
                    assert(mid2[k] == mid[k]);
                    assert(newrows[k] == rows@[k]@);
                    assert(oldrows[k] == mid[k]@);
                }
                assert(newrows[pp] == rows@[pp]@);
                assert(same_group(newrows[pp], oldrows[pp]));
                assert(newrows[pp].insertions == oldrows[pp].insertions + rv.insertions);
                assert(newrows[pp].deletions == oldrows[pp].deletions + rv.deletions);
                assert(newrows[pp].date is None && newrows[pp].commit_id == Seq::<char>::empty());
                assert(newrows[pp].message == sum_message(
                    newrows[pp].insertions,
                    newrows[pp].deletions,
                ));
                assert(forall|k: int| 0 <= k < newrows.len() ==> same_group(
                    #[trigger] newrows[k],
                    oldrows[k],
                ));
                lemma_match_unique(oldrows, rv, pp);
                lemma_bump_sums(prefix, rv, oldrows, newrows, pp);
                lemma_push_present(prefix, rv, newrows, oldrows);
                lemma_same_keys_distinct(oldrows, newrows);
                lemma_same_keys_complete(prefix, oldrows, newrows);
                lemma_push_complete(prefix, rv, oldrows, newrows, pp);
                lemma_same_keys_sorted(oldrows, newrows);
                assert(rows_shaped(newrows));
                assert(aggregated(prefix.push(rv), newrows));
            }
        },
        None => {
            let mut m: usize = 0;
            while m < rows.len() && row_le_exec(&rows[m], rec)
                invariant
                    m <= rows@.len(),
                    rows@ == old(rows)@,
                    rv == rec@,
                    oldrows == rec_views(rows@),
                    forall|k: int| 0 <= k < m ==> row_le(#[trigger] oldrows[k], rv),
                decreases rows@.len() - m,
            {
                m = m + 1;
            }
            let msg = build_sum_message(rec.insertions, rec.deletions);
            let newrow = CommitInfo {
                repo: rec.repo.clone(),
                date: None,
                branch: rec.branch.clone(),
                commit_id: String::new(),
                author: rec.author.clone(),
                message: msg,
                insertions: rec.insertions,
                deletions: rec.deletions,
            };
            let ghost gm = m as int;
            let ghost nv = newrow@;
            let ghost before = rows@;
            rows.insert(m, newrow);
            proof {
                lemma_rec_views_insert(before, gm, rows@[gm]);
                assert(rec_views(rows@) == oldrows.insert(gm, nv));
                lemma_insert_agg(prefix, rv, oldrows, nv, gm);
                lemma_insert_sorted(oldrows, nv, rv, gm);
                lemma_insert_shaped(oldrows, nv, gm);
            }
        },
    }
}

impl CommitInfoVec {
    /// Fills the summary rows: one row per (repo, branch, author)
    /// group of the records, carrying the group's summed insertions
    /// and deletions, rows sorted ascending by repo then branch, the
    /// records themselves untouched.
    pub fn sum_insertions_deletions_by_branch_and_author(&mut self)
        requires
            total_ins(rec_views(old(self).commit_info_vec@)) <= usize::MAX,
            total_del(rec_views(old(self).commit_info_vec@)) <= usize::MAX,
        ensures
            final(self).commit_info_vec == old(self).commit_info_vec,
            aggregated(rec_views(old(self).commit_info_vec@), rec_views(final(self).sum_vec@)),
            rows_sorted(rec_views(final(self).sum_vec@)),
            forall|k: int| 0 <= k < final(self).sum_vec@.len() ==> (#[trigger] rec_views(
                final(self).sum_vec@,
            )[k]).date is None && rec_views(final(self).sum_vec@)[k].commit_id
                == Seq::<char>::empty() && rec_views(final(self).sum_vec@)[k].message
                == sum_message(
                rec_views(final(self).sum_vec@)[k].insertions,
                rec_views(final(self).sum_vec@)[k].deletions,
            ),
    {
        let ghost s = rec_views(self.commit_info_vec@);
        proof {
            assert(forall|k: int| 0 <= k < s.len() ==> s[k] == #[trigger] self.commit_info_vec@[k]@);
            assert(recs_nonneg(s));
        }
        let mut rows: Vec<CommitInfo> = Vec::new();
        let mut i: usize = 0;
        proof {
            assert(s.take(0) =~= Seq::<CommitInfoView>::empty());
            assert(partial_rows(s.take(0), rec_views(rows@)));
        }
        while i < self.commit_info_vec.len()
            invariant
                i <= self.commit_info_vec.len(),
                self.commit_info_vec == old(self).commit_info_vec,
                self.sum_vec == old(self).sum_vec,
                s == rec_views(self.commit_info_vec@),
                s.len() == self.commit_info_vec@.len(),
                forall|k: int| 0 <= k < s.len() ==> s[k] == #[trigger] self.commit_info_vec@[k]@,
                recs_nonneg(s),
                total_ins(s) <= usize::MAX,
                total_del(s) <= usize::MAX,
                partial_rows(s.take(i as int), rec_views(rows@)),
            decreases self.commit_info_vec.len() - i,
        {
            let ghost prefix = s.take(i as int);
            let ghost prefix1 = s.take(i + 1);
            proof {
                assert(prefix1.drop_last() =~= prefix);
                assert(prefix1.last() == s[i as int]);
                assert(recs_nonneg(prefix1));
                lemma_group_le_total(prefix1, s[i as int]);
                lemma_total_prefix_le(s, i + 1);
                assert(group_ins(prefix1, s[i as int]) == group_ins(prefix, s[i as int])
                    + s[i as int].insertions);
                assert(group_del(prefix1, s[i as int]) == group_del(prefix, s[i as int])
                    + s[i as int].deletions);
            }
            let rec = &self.commit_info_vec[i];
            absorb_record(&mut rows, rec, Ghost(prefix));
            proof {
                assert(prefix.push(s[i as int]) =~= prefix1);
            }
            i = i + 1;
        }
        proof {
            assert(s.take(self.commit_info_vec@.len() as int) =~= s);
        }

        self.sum_vec = rows;
    }
}


/// Resolving authors changes no line counts.
proof fn lemma_resolve_totals(s: Seq<CommitInfoView>, authors: Seq<AuthorView>)
    ensures
        total_ins(resolve_all(s, authors)) == total_ins(s),
        total_del(resolve_all(s, authors)) == total_del(s),
        recs_nonneg(s) ==> recs_nonneg(resolve_all(s, authors)),
    decreases s.len(),
{
    if s.len() == 0 {
        assert(resolve_all(s, authors) =~= Seq::<CommitInfoView>::empty());
    } else {
        lemma_resolve_totals(s.drop_last(), authors);
        assert(resolve_all(s, authors).drop_last() =~= resolve_all(s.drop_last(), authors));
        assert(resolve_all(s, authors).last() == resolved_rec(s.last(), authors));
        if recs_nonneg(s) {
            assert(recs_nonneg(s.drop_last()));
            assert forall|k: int| 0 <= k < resolve_all(s, authors).len() implies (
            #[trigger] resolve_all(s, authors)[k]).insertions >= 0 && resolve_all(
                s,
                authors,
            )[k].deletions >= 0 by {
                assert(resolve_all(s, authors)[k] == resolved_rec(s[k], authors));
                assert(s[k].insertions >= 0 && s[k].deletions >= 0);
            }
        }
    }
}

/// The date window can only shrink the totals.
proof fn lemma_filter_totals(s: Seq<CommitInfoView>, since: Option<int>, until: Option<int>)
    requires
        recs_nonneg(s),
    ensures
        total_ins(filter_retained(s, since, until)) <= total_ins(s),
        total_del(filter_retained(s, since, until)) <= total_del(s),
    decreases s.len(),
{
    if s.len() > 0 {
        assert(recs_nonneg(s.drop_last()));
        lemma_filter_totals(s.drop_last(), since, until);
        assert(s.last().insertions >= 0 && s.last().deletions >= 0);
        let fp = filter_retained(s.drop_last(), since, until);
        if crate::record::retained_spec(s.last(), since, until) {
            assert((fp + seq![s.last()]).drop_last() =~= fp);
            assert((fp + seq![s.last()]).last() == s.last());
        } else {
            assert(fp + Seq::<CommitInfoView>::empty() =~= fp);
        }
    }
}

impl CommitInfoVec {
    /// The whole summary stage: authors resolved through the alias
    /// table, records restricted to the inclusive date window, and
    /// the summary rows filled with the per-group sums, sorted by
    /// repo then branch.
    pub fn summary(&mut self, authors: &Vec<Author>, since: Option<i64>, until: Option<i64>)
        requires
            total_ins(rec_views(old(self).commit_info_vec@)) <= usize::MAX,
            total_del(rec_views(old(self).commit_info_vec@)) <= usize::MAX,
        ensures
            rec_views(final(self).commit_info_vec@) == filter_retained(
                resolve_all(rec_views(old(self).commit_info_vec@), author_views(authors@)),
                opt_int(since),
                opt_int(until),
            ),
            aggregated(rec_views(final(self).commit_info_vec@), rec_views(final(self).sum_vec@)),
            rows_sorted(rec_views(final(self).sum_vec@)),
            rows_shaped(rec_views(final(self).sum_vec@)),
    {
        let ghost s0 = rec_views(self.commit_info_vec@);
        let ghost ga = author_views(authors@);
        proof {
            assert(forall|k: int| 0 <= k < s0.len() ==> s0[k]
                == #[trigger] self.commit_info_vec@[k]@);
            assert(recs_nonneg(s0));
        }
        self.resolve_authors(authors);
        proof {
            assert(rec_views(self.commit_info_vec@) =~= resolve_all(s0, ga));
            lemma_resolve_totals(s0, ga);
        }
        self.filter_by_date(since, until);
        proof {
            lemma_filter_totals(resolve_all(s0, ga), opt_int(since), opt_int(until));
        }
        self.sum_insertions_deletions_by_branch_and_author();
    }
}

} // verus!
