use vstd::prelude::*;

use crate::config::{author_views, resolve_author, Author, AuthorView};
use crate::datetime::{epoch_in_range, format_epoch, lemma_shaped_nonempty, shaped_datetime};
use crate::strutil::str_eq;

verus! {

/// One retained commit: where it was found, when it was made, who
/// made it, and how many lines its diff added and removed.
#[derive(Debug, Clone)]
pub struct CommitInfo {
    pub repo: String,
    pub date: Option<i64>,
    pub branch: String,
    pub commit_id: String,
    pub author: String,
    pub message: String,
    pub insertions: usize,
    pub deletions: usize,
}

pub struct CommitInfoView {
    pub repo: Seq<char>,
    pub date: Option<int>,
    pub branch: Seq<char>,
    pub commit_id: Seq<char>,
    pub author: Seq<char>,
    pub message: Seq<char>,
    pub insertions: int,
    pub deletions: int,
}

impl View for CommitInfo {
    type V = CommitInfoView;

    open spec fn view(&self) -> CommitInfoView {
        CommitInfoView {
            repo: self.repo@,
            date: match self.date {
                Some(t) => Some(t as int),
                None => None,
            },
            branch: self.branch@,
            commit_id: self.commit_id@,
            author: self.author@,
            message: self.message@,
            insertions: self.insertions as int,
            deletions: self.deletions as int,
        }
    }
}

/// The record views of a sequence of records.
pub open spec fn rec_views(s: Seq<CommitInfo>) -> Seq<CommitInfoView> {
    s.map_values(|c: CommitInfo| c@)
}

/// Mapping to record views commutes with appending one record.
pub proof fn lemma_rec_views_push(s: Seq<CommitInfo>, x: CommitInfo)
    ensures
        rec_views(s.push(x)) == rec_views(s).push(x@),
{
    assert(rec_views(s.push(x)) =~= rec_views(s).push(x@));
}

/// Mapping to record views commutes with replacing one record.
pub proof fn lemma_rec_views_update(s: Seq<CommitInfo>, i: int, x: CommitInfo)
    requires
        0 <= i < s.len(),
    ensures
        rec_views(s.update(i, x)) == rec_views(s).update(i, x@),
{
    assert(rec_views(s.update(i, x)) =~= rec_views(s).update(i, x@));
}

/// Mapping to record views commutes with putting one record in.
pub proof fn lemma_rec_views_insert(s: Seq<CommitInfo>, i: int, x: CommitInfo)
    requires
        0 <= i <= s.len(),
    ensures
        rec_views(s.insert(i, x)) == rec_views(s).insert(i, x@),
{
    assert(rec_views(s.insert(i, x)) =~= rec_views(s).insert(i, x@));
}

pub open spec fn opt_int(o: Option<i64>) -> Option<int> {
    match o {
        Some(v) => Some(v as int),
        None => None,
    }
}

/// Whether the inclusive date window keeps a record: its date must be
/// present, no earlier than `since` when that bound is given, and no
/// later than `until` when that bound is given.
pub open spec fn retained_spec(c: CommitInfoView, since: Option<int>, until: Option<int>) -> bool {
    match c.date {
        None => false,
        Some(d) => (match since {
            None => true,
            Some(s) => d >= s,
        }) && (match until {
            None => true,
            Some(u) => d <= u,
        }),
    }
}

/// The records the date window keeps, in their order.
pub open spec fn filter_retained(
    s: Seq<CommitInfoView>,
    since: Option<int>,
    until: Option<int>,
) -> Seq<CommitInfoView>
    decreases s.len(),
{
    if s.len() == 0 {
        Seq::empty()
    } else {
        filter_retained(s.drop_last(), since, until) + (if retained_spec(s.last(), since, until) {
            seq![s.last()]
        } else {
            Seq::empty()
        })
    }
}

/// The records whose author stands in the allowed list, in their
/// order.
pub open spec fn filter_allowed(s: Seq<CommitInfoView>, allowed: Seq<Seq<char>>) -> Seq<
    CommitInfoView,
>
    decreases s.len(),
{
    if s.len() == 0 {
        Seq::empty()
    } else if allowed.contains(s.last().author) {
        filter_allowed(s.drop_last(), allowed).push(s.last())
    } else {
        filter_allowed(s.drop_last(), allowed)
    }
}

/// A record dated exactly on a bound is kept; one second outside the
/// bound is dropped.
pub proof fn lemma_date_boundary(c: CommitInfoView, b: int)
    requires
        c.date is Some,
    ensures
        c.date == Some(b) ==> retained_spec(c, Some(b), None),
        c.date == Some(b) ==> retained_spec(c, None, Some(b)),
        c.date == Some(b - 1) ==> !retained_spec(c, Some(b), None),
        c.date == Some(b + 1) ==> !retained_spec(c, None, Some(b)),
{
}

/// A record's author after alias resolution: only the author field
/// changes.
pub open spec fn resolved_rec(r: CommitInfoView, authors: Seq<AuthorView>) -> CommitInfoView {
    CommitInfoView { author: resolve_author(authors, r.author), ..r }
}

/// Every record's author resolved, nothing else changed.
pub open spec fn resolve_all(s: Seq<CommitInfoView>, authors: Seq<AuthorView>) -> Seq<
    CommitInfoView,
> {
    Seq::new(s.len(), |k: int| resolved_rec(s[k], authors))
}

fn retained_exec(c: &CommitInfo, since: Option<i64>, until: Option<i64>) -> (r: bool)
    ensures
        r == retained_spec(c@, opt_int(since), opt_int(until)),
{
    match c.date {
        None => false,
        Some(d) => {
            let since_ok = match since {
                None => true,
                Some(s) => d >= s,
            };
            let until_ok = match until {
                None => true,
                Some(u) => d <= u,
            };
            since_ok && until_ok
        },
    }
}

/// The records walked out of the repositories, and the summary rows
/// made from them.
#[derive(Debug)]
pub struct CommitInfoVec {
    pub commit_info_vec: Vec<CommitInfo>,
    pub sum_vec: Vec<CommitInfo>,
}

impl CommitInfoVec {
    /// Wraps freshly walked records; no summary rows yet.
    pub fn new(commit_info_vec: Vec<CommitInfo>) -> (r: CommitInfoVec)
        ensures
            r.commit_info_vec == commit_info_vec,
            r.sum_vec@.len() == 0,
    {
        CommitInfoVec { commit_info_vec, sum_vec: vec![] }
    }

    /// Keeps exactly the records inside the inclusive date window;
    /// records without a date are dropped. Order is kept; the summary
    /// rows are untouched.
    pub fn filter_by_date(&mut self, since: Option<i64>, until: Option<i64>)
        ensures
            rec_views(final(self).commit_info_vec@) == filter_retained(
                rec_views(old(self).commit_info_vec@),
                opt_int(since),
                opt_int(until),
            ),
            final(self).sum_vec == old(self).sum_vec,
    {
        let ghost s = rec_views(self.commit_info_vec@);
        let ghost gsince = opt_int(since);
        let ghost guntil = opt_int(until);
        let mut out: Vec<CommitInfo> = Vec::new();
        let mut i: usize = 0;
        proof {
            assert(rec_views(out@) =~= filter_retained(s.take(0), gsince, guntil));
        }
        while i < self.commit_info_vec.len()
            invariant
                i <= self.commit_info_vec.len(),
                s == rec_views(self.commit_info_vec@),
                s.len() == self.commit_info_vec@.len(),
                forall|k: int| 0 <= k < s.len() ==> s[k] == #[trigger] self.commit_info_vec@[k]@,
                gsince == opt_int(since),
                guntil == opt_int(until),
                rec_views(out@) == filter_retained(s.take(i as int), gsince, guntil),
            decreases self.commit_info_vec.len() - i,
        {
            let c = &self.commit_info_vec[i];
            let ghost prev = out@;
            proof {
                assert(s.take(i + 1).drop_last() =~= s.take(i as int));
                assert(s.take(i + 1).last() == s[i as int]);
            }
            if retained_exec(c, since, until) {
                out.push(c.clone_rec());
                proof {
                    lemma_rec_views_push(prev, self.commit_info_vec@[i as int]);
                    assert(rec_views(out@) =~= filter_retained(s.take(i + 1), gsince, guntil));
                }
            } else {
                proof {
                    assert(rec_views(out@) =~= filter_retained(s.take(i + 1), gsince, guntil));
                }
            }
            i = i + 1;
        }
        proof {
            assert(s.take(self.commit_info_vec@.len() as int) =~= s);
        }
        self.commit_info_vec = out;
    }

    /// Rewrites every record's author through the alias table; no
    /// record is dropped and nothing else changes.
    pub fn resolve_authors(&mut self, authors: &Vec<Author>)
        ensures
            final(self).commit_info_vec@.len() == old(self).commit_info_vec@.len(),
            forall|k: int| 0 <= k < old(self).commit_info_vec@.len()
                ==> final(self).commit_info_vec@[k]@ == resolved_rec(
                #[trigger] old(self).commit_info_vec@[k]@,
                author_views(authors@),
            ),
            final(self).sum_vec == old(self).sum_vec,
    {
        let ghost ga = author_views(authors@);
        let mut i: usize = 0;
        while i < self.commit_info_vec.len()
            invariant
                i <= self.commit_info_vec.len(),
                ga == author_views(authors@),
                self.commit_info_vec@.len() == old(self).commit_info_vec@.len(),
                forall|k: int| i <= k < old(self).commit_info_vec@.len()
                    ==> self.commit_info_vec@[k] == #[trigger] old(self).commit_info_vec@[k],
                forall|k: int| 0 <= k < i ==> self.commit_info_vec@[k]@ == resolved_rec(
                    #[trigger] old(self).commit_info_vec@[k]@,
                    ga,
                ),
                self.sum_vec == old(self).sum_vec,
            decreases self.commit_info_vec.len() - i,
        {
            let name = crate::config::lookup_alias(authors, self.commit_info_vec[i].author.as_str());
            match name {
                Some(n) => {
                    self.commit_info_vec[i].author = n;
                },
                None => {},
            }
            i = i + 1;
        }
    }

    /// Keeps exactly the records whose (already resolved) author
    /// stands in the allowed list, in their order; an explicitly
    /// asked-for narrowing, off the main path.
    pub fn filter_by_authors(&mut self, allowed: &Vec<String>)
        ensures
            rec_views(final(self).commit_info_vec@) == filter_allowed(
                rec_views(old(self).commit_info_vec@),
                crate::strutil::str_views(allowed@),
            ),
            final(self).sum_vec == old(self).sum_vec,
    {
        let ghost s = rec_views(self.commit_info_vec@);
        let ghost ga = crate::strutil::str_views(allowed@);
        let mut out: Vec<CommitInfo> = Vec::new();
        let mut i: usize = 0;
        proof {
            assert(rec_views(out@) =~= filter_allowed(s.take(0), ga));
        }
        while i < self.commit_info_vec.len()
            invariant
                i <= self.commit_info_vec.len(),
                self.commit_info_vec == old(self).commit_info_vec,
                self.sum_vec == old(self).sum_vec,
                s == rec_views(self.commit_info_vec@),
                s.len() == self.commit_info_vec@.len(),
                forall|k: int| 0 <= k < s.len() ==> s[k] == #[trigger] self.commit_info_vec@[k]@,
                ga == crate::strutil::str_views(allowed@),
                rec_views(out@) == filter_allowed(s.take(i as int), ga),
            decreases self.commit_info_vec.len() - i,
        {
            let c = &self.commit_info_vec[i];
            let ghost prev = out@;
            proof {
                assert(s.take(i + 1).drop_last() =~= s.take(i as int));
                assert(s.take(i + 1).last() == s[i as int]);
            }
            if contains_str(allowed, c.author.as_str()) {
                out.push(c.clone_rec());
                proof {
                    lemma_rec_views_push(prev, self.commit_info_vec@[i as int]);
                    assert(rec_views(out@) =~= filter_allowed(s.take(i + 1), ga));
                }
            } else {
                proof {
                    assert(rec_views(out@) =~= filter_allowed(s.take(i + 1), ga));
                }
            }
            i = i + 1;
        }
        proof {
            assert(s.take(self.commit_info_vec@.len() as int) =~= s);
        }
        self.commit_info_vec = out;
    }

    /// The record list's views.
    pub open spec fn views(&self) -> Seq<CommitInfoView> {
        rec_views(self.commit_info_vec@)
    }
}

/// The records of all workers, one worker's list after the other.
pub open spec fn concat_parts(parts: Seq<Vec<CommitInfo>>) -> Seq<CommitInfoView>
    decreases parts.len(),
{
    if parts.len() == 0 {
        Seq::empty()
    } else {
        concat_parts(parts.drop_last()) + rec_views(parts.last()@)
    }
}

/// Drains the per-repository record lists into one collection, in
/// the order the lists stand; callers may not read anything into
/// that order.
pub fn collect_records(parts: &Vec<Vec<CommitInfo>>) -> (r: Vec<CommitInfo>)
    ensures
        rec_views(r@) == concat_parts(parts@),
{
    let mut r: Vec<CommitInfo> = Vec::new();
    let mut i: usize = 0;
    proof {
        assert(parts@.take(0) =~= Seq::<Vec<CommitInfo>>::empty());
        assert(rec_views(r@) =~= concat_parts(parts@.take(0)));
    }
    while i < parts.len()
        invariant
            i <= parts.len(),
            rec_views(r@) == concat_parts(parts@.take(i as int)),
        decreases parts.len() - i,
    {
        let part = &parts[i];
        let mut j: usize = 0;
        proof {
            assert(parts@.take(i + 1).drop_last() =~= parts@.take(i as int));
            assert(parts@.take(i + 1).last() == parts@[i as int]);
            assert(rec_views(part@.take(0)) =~= Seq::<CommitInfoView>::empty());
            assert(rec_views(r@) =~= concat_parts(parts@.take(i as int)) + rec_views(
                part@.take(0),
            ));
        }
        while j < part.len()
            invariant
                j <= part.len(),
                i < parts@.len(),
                part == &parts@[i as int],
                rec_views(r@) == concat_parts(parts@.take(i as int)) + rec_views(
                    part@.take(j as int),
                ),
            decreases part.len() - j,
        {
            let ghost prev = r@;
            r.push(part[j].clone_rec());
            proof {
                lemma_rec_views_push(prev, part@[j as int]);
                assert(part@.take(j + 1).drop_last() =~= part@.take(j as int));
                assert(part@.take(j + 1).last() == part@[j as int]);
                assert(rec_views(part@.take(j + 1)) =~= rec_views(part@.take(j as int)).push(
                    part@[j as int]@,
                ));
                assert(rec_views(r@) =~= concat_parts(parts@.take(i as int)) + rec_views(
                    part@.take(j + 1),
                ));
            }
            j = j + 1;
        }
        proof {
            assert(part@.take(part@.len() as int) =~= part@);
            assert(rec_views(r@) =~= concat_parts(parts@.take(i + 1)));
        }
        i = i + 1;
    }
    proof {
        assert(parts@.take(parts@.len() as int) =~= parts@);
    }
    r
}

/// Whether the list holds a string with these characters.
pub fn contains_str(list: &Vec<String>, x: &str) -> (r: bool)
    ensures
        r == crate::strutil::str_views(list@).contains(x@),
{
    let mut i: usize = 0;
    while i < list.len()
        invariant
            i <= list.len(),
            forall|k: int| 0 <= k < i ==> crate::strutil::str_views(list@)[k] != x@,
        decreases list.len() - i,
    {
        if str_eq(list[i].as_str(), x) {
            proof {
                assert(crate::strutil::str_views(list@)[i as int] == x@);
            }
            return true;
        }
        i = i + 1;
    }
    false
}

impl CommitInfo {
    /// A field-for-field copy.
    pub fn clone_rec(&self) -> (r: CommitInfo)
        ensures
            r == *self,
    {
        CommitInfo {
            repo: self.repo.clone(),
            date: self.date,
            branch: self.branch.clone(),
            commit_id: self.commit_id.clone(),
            author: self.author.clone(),
            message: self.message.clone(),
            insertions: self.insertions,
            deletions: self.deletions,
        }
    }

    /// The record's date as local `YYYY-MM-DD HH:MM:SS` text: a date
    /// inside the calendar years 0001 through 9999 is always written
    /// out, and the text is empty exactly when the record has no
    /// date (or one outside that range that chrono refused).
    pub fn format_datetime(&self) -> (r: String)
        ensures
            self.date is None ==> r@ == Seq::<char>::empty(),
            (match self.date {
                Some(t) => epoch_in_range(t as int),
                None => false,
            }) ==> shaped_datetime(r@),
            self.date is Some ==> r@ == Seq::<char>::empty() || shaped_datetime(r@),
            r@ == Seq::<char>::empty() ==> (match self.date {
                Some(t) => !epoch_in_range(t as int),
                None => true,
            }),
    {
        match self.date {
            None => {
                let r = String::new();
                proof {
                    assert(r@ =~= Seq::<char>::empty());
                }
                r
            },
            Some(t) => {
                match format_epoch(t) {
                    Some(s) => {
                        proof {
                            lemma_shaped_nonempty(s@);
                            assert(s@ != Seq::<char>::empty());
                        }
                        s
                    },
                    None => {
                        let r = String::new();
                        proof {
                            assert(r@ =~= Seq::<char>::empty());
                        }
                        r
                    },
                }
            },
        }
    }
}

} // verus!
