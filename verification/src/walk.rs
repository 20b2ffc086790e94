use vstd::prelude::*;

use crate::pathspec::path_retained;
use crate::record::{rec_views, CommitInfo, CommitInfoView};
use crate::strutil::str_views;

verus! {

/// One file touched by a commit's diff, with its line counts.
#[derive(Debug, Clone)]
pub struct FileDiff {
    pub path: String,
    pub insertions: usize,
    pub deletions: usize,
}

pub struct FileDiffView {
    pub path: Seq<char>,
    pub insertions: int,
    pub deletions: int,
}

impl View for FileDiff {
    type V = FileDiffView;

    open spec fn view(&self) -> FileDiffView {
        FileDiffView {
            path: self.path@,
            insertions: self.insertions as int,
            deletions: self.deletions as int,
        }
    }
}

/// What a walk reads of one commit: its id, how many parents it has,
/// who made it and when, and the per-file counts of its diff against
/// its parent (or the empty tree).
#[derive(Debug, Clone)]
pub struct CommitSource {
    pub commit_id: String,
    pub parent_count: usize,
    pub author: String,
    pub message: String,
    pub time: i64,
    pub files: Vec<FileDiff>,
}

pub struct CommitSourceView {
    pub commit_id: Seq<char>,
    pub parent_count: int,
    pub author: Seq<char>,
    pub message: Seq<char>,
    pub time: int,
    pub files: Seq<FileDiffView>,
}

impl View for CommitSource {
    type V = CommitSourceView;

    open spec fn view(&self) -> CommitSourceView {
        CommitSourceView {
            commit_id: self.commit_id@,
            parent_count: self.parent_count as int,
            author: self.author@,
            message: self.message@,
            time: self.time as int,
            files: file_views(self.files@),
        }
    }
}

pub open spec fn file_views(s: Seq<FileDiff>) -> Seq<FileDiffView> {
    s.map_values(|f: FileDiff| f@)
}

pub open spec fn commit_views(s: Seq<CommitSource>) -> Seq<CommitSourceView> {
    s.map_values(|c: CommitSource| c@)
}

/// The files of a diff that the ordered rule list keeps, in order.
pub open spec fn kept_files(rules: Seq<Seq<char>>, files: Seq<FileDiffView>) -> Seq<FileDiffView>
    decreases files.len(),
{
    if files.len() == 0 {
        Seq::empty()
    } else if path_retained(rules, files.last().path) {
        kept_files(rules, files.drop_last()).push(files.last())
    } else {
        kept_files(rules, files.drop_last())
    }
}

/// The inserted lines of a file list, summed.
pub open spec fn files_ins(s: Seq<FileDiffView>) -> int
    decreases s.len(),
{
    if s.len() == 0 {
        0
    } else {
        files_ins(s.drop_last()) + s.last().insertions
    }
}

/// The deleted lines of a file list, summed.
pub open spec fn files_del(s: Seq<FileDiffView>) -> int
    decreases s.len(),
{
    if s.len() == 0 {
        0
    } else {
        files_del(s.drop_last()) + s.last().deletions
    }
}

/// What one commit contributes to a walk: nothing for a merge commit
/// (more than one parent) and nothing for a commit whose filtered
/// diff touches no file; otherwise one record carrying the repo and
/// branch names, the commit's own fields, and the line counts of the
/// kept files.
pub open spec fn walk_one(
    repo: Seq<char>,
    branch: Seq<char>,
    rules: Seq<Seq<char>>,
    c: CommitSourceView,
) -> Option<CommitInfoView> {
    if c.parent_count > 1 {
        None
    } else {
        let kept = kept_files(rules, c.files);
        if kept.len() == 0 {
            None
        } else {
            Some(
                CommitInfoView {
                    repo: repo,
                    date: Some(c.time),
                    branch: branch,
                    commit_id: c.commit_id,
                    author: c.author,
                    message: c.message,
                    insertions: files_ins(kept),
                    deletions: files_del(kept),
                },
            )
        }
    }
}

/// The records of a whole walk, one commit after the other in the
/// commits' given order.
pub open spec fn walk_spec(
    repo: Seq<char>,
    branch: Seq<char>,
    rules: Seq<Seq<char>>,
    commits: Seq<CommitSourceView>,
) -> Seq<CommitInfoView>
    decreases commits.len(),
{
    if commits.len() == 0 {
        Seq::empty()
    } else {
        match walk_one(repo, branch, rules, commits.last()) {
            Some(r) => walk_spec(repo, branch, rules, commits.drop_last()).push(r),
            None => walk_spec(repo, branch, rules, commits.drop_last()),
        }
    }
}

/// Per-file counts cannot be negative.
pub open spec fn files_nonneg(s: Seq<FileDiffView>) -> bool {
    forall|k: int| 0 <= k < s.len() ==> (#[trigger] s[k]).insertions >= 0 && s[k].deletions >= 0
}

pub proof fn lemma_files_sums_nonneg(s: Seq<FileDiffView>)
    requires
        files_nonneg(s),
    ensures
        files_ins(s) >= 0,
        files_del(s) >= 0,
    decreases s.len(),
{
    if s.len() > 0 {
        assert(files_nonneg(s.drop_last()));
        lemma_files_sums_nonneg(s.drop_last());
    }
}

pub proof fn lemma_kept_files_sub(rules: Seq<Seq<char>>, s: Seq<FileDiffView>)
    requires
        files_nonneg(s),
    ensures
        files_nonneg(kept_files(rules, s)),
        files_ins(kept_files(rules, s)) <= files_ins(s),
        files_del(kept_files(rules, s)) <= files_del(s),
    decreases s.len(),
{
    if s.len() > 0 {
        assert(files_nonneg(s.drop_last()));
        lemma_kept_files_sub(rules, s.drop_last());
        assert(s.last().insertions >= 0 && s.last().deletions >= 0);
        if path_retained(rules, s.last().path) {
            let kp = kept_files(rules, s.drop_last());
            assert(kp.push(s.last()).drop_last() =~= kp);
            assert(files_ins(kept_files(rules, s)) == files_ins(kp) + s.last().insertions);
            assert(files_del(kept_files(rules, s)) == files_del(kp) + s.last().deletions);
            assert forall|k: int| 0 <= k < kept_files(rules, s).len() implies (
            #[trigger] kept_files(rules, s)[k]).insertions >= 0 && kept_files(rules, s)[k].deletions
                >= 0 by {
                if k < kp.len() {
                    assert(kept_files(rules, s)[k] == kp[k]);
                } else {
                    assert(kept_files(rules, s)[k] == s.last());
                }
            }
        }
    }
}

pub proof fn lemma_files_prefix_le(s: Seq<FileDiffView>, i: int)
    requires
        files_nonneg(s),
        0 <= i <= s.len(),
    ensures
        files_ins(s.take(i)) <= files_ins(s),
        files_del(s.take(i)) <= files_del(s),
    decreases s.len(),
{
    if i == s.len() {
        assert(s.take(i) =~= s);
    } else {
        assert(files_nonneg(s.drop_last()));
        assert(s.drop_last().take(i) =~= s.take(i));
        lemma_files_prefix_le(s.drop_last(), i);
    }
}

/// The kept count and summed line counts of one commit's diff under
/// the rule list.
fn diff_totals(rules: &Vec<String>, files: &Vec<FileDiff>) -> (r: (usize, usize, usize))
    requires
        files_ins(file_views(files@)) <= usize::MAX,
        files_del(file_views(files@)) <= usize::MAX,
    ensures
        r.0 == kept_files(str_views(rules@), file_views(files@)).len(),
        r.1 == files_ins(kept_files(str_views(rules@), file_views(files@))),
        r.2 == files_del(kept_files(str_views(rules@), file_views(files@))),
{
    let ghost grules = str_views(rules@);
    let ghost gfiles = file_views(files@);
    proof {
        assert(forall|k: int| 0 <= k < gfiles.len() ==> gfiles[k] == #[trigger] files@[k]@);
        assert(files_nonneg(gfiles));
    }
    let mut count: usize = 0;
    let mut ins: usize = 0;
    let mut del: usize = 0;
    let mut i: usize = 0;
    proof {
        assert(kept_files(grules, gfiles.take(0)) =~= Seq::<FileDiffView>::empty());
    }
    while i < files.len()
        invariant
            i <= files.len(),
            grules == str_views(rules@),
            gfiles == file_views(files@),
            gfiles.len() == files@.len(),
            forall|k: int| 0 <= k < gfiles.len() ==> gfiles[k] == #[trigger] files@[k]@,
            files_nonneg(gfiles),
            files_ins(gfiles) <= usize::MAX,
            files_del(gfiles) <= usize::MAX,
            count <= i,
            count == kept_files(grules, gfiles.take(i as int)).len(),
            ins == files_ins(kept_files(grules, gfiles.take(i as int))),
            del == files_del(kept_files(grules, gfiles.take(i as int))),
        decreases files.len() - i,
    {
        let f = &files[i];
        proof {
            assert(gfiles.take(i + 1).drop_last() =~= gfiles.take(i as int));
            assert(gfiles.take(i + 1).last() == gfiles[i as int]);
        }
        if crate::pathspec::path_retained_exec(rules, f.path.as_str()) {
            proof {
                assert(files_nonneg(gfiles.take(i + 1)));
                assert(files_nonneg(gfiles.take(i as int)));
                lemma_kept_files_sub(grules, gfiles.take(i as int));
                lemma_kept_files_sub(grules, gfiles.take(i + 1));
                lemma_files_prefix_le(gfiles, i + 1);
                lemma_files_sums_nonneg(kept_files(grules, gfiles.take(i as int)));
                let kp = kept_files(grules, gfiles.take(i as int));
                assert(kept_files(grules, gfiles.take(i + 1)) == kp.push(gfiles[i as int]));
                assert(kp.push(gfiles[i as int]).drop_last() =~= kp);
                assert(files_ins(kept_files(grules, gfiles.take(i + 1))) == files_ins(kp)
                    + gfiles[i as int].insertions);
                assert(files_del(kept_files(grules, gfiles.take(i + 1))) == files_del(kp)
                    + gfiles[i as int].deletions);
                assert(files_ins(kept_files(grules, gfiles.take(i + 1))) <= files_ins(
                    gfiles.take(i + 1),
                ) <= files_ins(gfiles) <= usize::MAX);
                assert(files_del(kept_files(grules, gfiles.take(i + 1))) <= usize::MAX);
            }
            count = count + 1;
            ins = ins + f.insertions;
            del = del + f.deletions;
        }
        i = i + 1;
    }
    proof {
        assert(gfiles.take(files@.len() as int) =~= gfiles);
    }
    (count, ins, del)
}

/// Every commit's summed diff fits the machine's counters.
pub open spec fn commits_fit(commits: Seq<CommitSourceView>) -> bool {
    forall|j: int| 0 <= j < commits.len() ==> files_ins((#[trigger] commits[j]).files)
        <= usize::MAX && files_del(commits[j].files) <= usize::MAX
}

/// Walks one branch's commits, in their given order: merge commits
/// contribute nothing, the rule list restricts each diff, a commit
/// whose filtered diff is empty is dropped, and every other commit
/// yields one record with the summed counts of its kept files.
pub fn parse_commits(
    repo_name: &str,
    branch: &str,
    pathspec: &Vec<String>,
    commits: &Vec<CommitSource>,
) -> (out: Vec<CommitInfo>)
    requires
        commits_fit(commit_views(commits@)),
    ensures
        rec_views(out@) == walk_spec(
            repo_name@,
            branch@,
            str_views(pathspec@),
            commit_views(commits@),
        ),
{
    let ghost grules = str_views(pathspec@);
    let ghost gcommits = commit_views(commits@);
    let mut out: Vec<CommitInfo> = Vec::new();
    let mut i: usize = 0;
    proof {
        assert(rec_views(out@) =~= walk_spec(repo_name@, branch@, grules, gcommits.take(0)));
    }
    while i < commits.len()
        invariant
            i <= commits.len(),
            grules == str_views(pathspec@),
            gcommits == commit_views(commits@),
            gcommits.len() == commits@.len(),
            forall|k: int| 0 <= k < gcommits.len() ==> gcommits[k] == #[trigger] commits@[k]@,
            commits_fit(gcommits),
            rec_views(out@) == walk_spec(repo_name@, branch@, grules, gcommits.take(i as int)),
        decreases commits.len() - i,
    {
        let c = &commits[i];
        let ghost prev = out@;
        proof {
            assert(gcommits.take(i + 1).drop_last() =~= gcommits.take(i as int));
            assert(gcommits.take(i + 1).last() == gcommits[i as int]);
        }
        if c.parent_count <= 1 {
            let totals = diff_totals(pathspec, &c.files);
            if totals.0 > 0 {
                let rec = CommitInfo {
                    repo: String::from_str(repo_name),
                    date: Some(c.time),
                    branch: String::from_str(branch),
                    commit_id: c.commit_id.clone(),
                    author: c.author.clone(),
                    message: c.message.clone(),
                    insertions: totals.1,
                    deletions: totals.2,
                };
                proof {
                    assert(rec@ == walk_one(repo_name@, branch@, grules, gcommits[i as int])->Some_0);
                }
                out.push(rec);
                proof {
                    crate::record::lemma_rec_views_push(prev, out@.last());
                    assert(rec_views(out@) =~= walk_spec(
                        repo_name@,
                        branch@,
                        grules,
                        gcommits.take(i + 1),
                    ));
                }
            } else {
                proof {
                    assert(rec_views(out@) =~= walk_spec(
                        repo_name@,
                        branch@,
                        grules,
                        gcommits.take(i + 1),
                    ));
                }
            }
        } else {
            proof {
                assert(rec_views(out@) =~= walk_spec(
                    repo_name@,
                    branch@,
                    grules,
                    gcommits.take(i + 1),
                ));
            }
        }
        i = i + 1;
    }
    proof {
        assert(gcommits.take(commits@.len() as int) =~= gcommits);
    }
    out
}

/// Whether a record is what `walk_one` yields of some commit with at
/// most one parent in the list.
pub open spec fn from_unmerged_commit(
    repo: Seq<char>,
    branch: Seq<char>,
    rules: Seq<Seq<char>>,
    commits: Seq<CommitSourceView>,
    r: CommitInfoView,
) -> bool {
    exists|j: int|
        0 <= j < commits.len() && (#[trigger] commits[j]).parent_count <= 1 && walk_one(
            repo,
            branch,
            rules,
            commits[j],
        ) == Some(r)
}

/// No record comes of a merge commit: every record of a walk arises
/// from a commit with at most one parent, whose id and fields it
/// carries.
pub proof fn lemma_no_merge_records(
    repo: Seq<char>,
    branch: Seq<char>,
    rules: Seq<Seq<char>>,
    commits: Seq<CommitSourceView>,
)
    ensures
        forall|k: int| 0 <= k < walk_spec(repo, branch, rules, commits).len()
            ==> from_unmerged_commit(
            repo,
            branch,
            rules,
            commits,
            #[trigger] walk_spec(repo, branch, rules, commits)[k],
        ),
    decreases commits.len(),
{
    if commits.len() > 0 {
        lemma_no_merge_records(repo, branch, rules, commits.drop_last());
        let w = walk_spec(repo, branch, rules, commits);
        let wp = walk_spec(repo, branch, rules, commits.drop_last());
        assert forall|k: int| 0 <= k < w.len() implies from_unmerged_commit(
            repo,
            branch,
            rules,
            commits,
            w[k],
        ) by {
            if k < wp.len() {
                assert(from_unmerged_commit(repo, branch, rules, commits.drop_last(), wp[k]));
                let j = choose|j: int|
                    0 <= j < commits.drop_last().len() && (#[trigger] commits.drop_last()[j]).parent_count
                        <= 1 && walk_one(repo, branch, rules, commits.drop_last()[j]) == Some(
                        wp[k],
                    );
                assert(commits[j] == commits.drop_last()[j]);
                assert(w[k] == wp[k]);
                assert(commits[j].parent_count <= 1 && walk_one(repo, branch, rules, commits[j])
                    == Some(w[k]));
            } else {
                let j = commits.len() - 1;
                assert(walk_one(repo, branch, rules, commits[j]) is Some);
                assert(commits[j].parent_count <= 1);
                assert(walk_one(repo, branch, rules, commits[j]) == Some(w[k]));
            }
        }
    }
}

/// The commit ids a walk yields, as a set.
pub open spec fn record_ids(s: Seq<CommitInfoView>) -> Set<Seq<char>> {
    s.map_values(|r: CommitInfoView| r.commit_id).to_set()
}

/// Walking the same unchanged commit list twice yields the same set
/// of commit ids, whatever order the records are then read in.
pub proof fn lemma_walk_deterministic(
    repo: Seq<char>,
    branch: Seq<char>,
    rules: Seq<Seq<char>>,
    c1: Seq<CommitSourceView>,
    c2: Seq<CommitSourceView>,
)
    requires
        c1 == c2,
    ensures
        record_ids(walk_spec(repo, branch, rules, c1)) == record_ids(
            walk_spec(repo, branch, rules, c2),
        ),
{
}

pub proof fn lemma_kept_none(rules: Seq<Seq<char>>, files: Seq<FileDiffView>)
    requires
        forall|k: int| 0 <= k < files.len() ==> !path_retained(rules, (#[trigger] files[k]).path),
    ensures
        kept_files(rules, files).len() == 0,
    decreases files.len(),
{
    if files.len() > 0 {
        lemma_kept_none(rules, files.drop_last());
    }
}

/// A commit whose every changed file the rule list excludes is
/// dropped whole: it yields no record.
pub proof fn lemma_excluded_commit_dropped(
    repo: Seq<char>,
    branch: Seq<char>,
    rules: Seq<Seq<char>>,
    c: CommitSourceView,
)
    requires
        forall|k: int| 0 <= k < c.files.len() ==> !path_retained(rules, (#[trigger] c.files[k]).path),
    ensures
        walk_one(repo, branch, rules, c) is None,
{
    lemma_kept_none(rules, c.files);
}

/// Every record a walk yields counts insertions and deletions at or
/// above zero, as long as the per-file counts do.
pub proof fn lemma_record_counts_nonneg(
    repo: Seq<char>,
    branch: Seq<char>,
    rules: Seq<Seq<char>>,
    commits: Seq<CommitSourceView>,
)
    requires
        forall|j: int| 0 <= j < commits.len() ==> files_nonneg((#[trigger] commits[j]).files),
    ensures
        forall|k: int| 0 <= k < walk_spec(repo, branch, rules, commits).len() ==> (
        #[trigger] walk_spec(repo, branch, rules, commits)[k]).insertions >= 0 && walk_spec(
            repo,
            branch,
            rules,
            commits,
        )[k].deletions >= 0,
    decreases commits.len(),
{
    if commits.len() > 0 {
        assert(forall|j: int| 0 <= j < commits.drop_last().len() ==> files_nonneg(
            (#[trigger] commits.drop_last()[j]).files,
        ));
        lemma_record_counts_nonneg(repo, branch, rules, commits.drop_last());
        let c = commits.last();
        if walk_one(repo, branch, rules, c) is Some {
            lemma_kept_files_sub(rules, c.files);
            lemma_files_sums_nonneg(kept_files(rules, c.files));
        }
    }
}

} // verus!
