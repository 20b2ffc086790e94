use git_stat::config::Author;
use git_stat::record::{collect_records, CommitInfo, CommitInfoVec};
use git_stat::walk::{parse_commits, CommitSource, FileDiff};

fn file(path: &str, ins: usize, del: usize) -> FileDiff {
    FileDiff { path: path.to_string(), insertions: ins, deletions: del }
}

fn commit(id: &str, parents: usize, author: &str, time: i64, files: Vec<FileDiff>) -> CommitSource {
    CommitSource {
        commit_id: id.to_string(),
        parent_count: parents,
        author: author.to_string(),
        message: format!("commit {}", id),
        time,
        files,
    }
}

fn record(repo: &str, branch: &str, author: &str, ins: usize, del: usize) -> CommitInfo {
    CommitInfo {
        repo: repo.to_string(),
        date: Some(0),
        branch: branch.to_string(),
        commit_id: "x".to_string(),
        author: author.to_string(),
        message: String::new(),
        insertions: ins,
        deletions: del,
    }
}

#[test]
fn merge_commits_yield_no_record() {
    let commits = vec![
        commit("c1", 0, "alice", 10, vec![file("a.go", 5, 0)]),
        commit("m1", 2, "alice", 20, vec![file("a.go", 7, 7)]),
        commit("m2", 3, "bob", 30, vec![file("b.go", 1, 1)]),
    ];
    let recs = parse_commits("repo", "main", &vec![], &commits);
    assert_eq!(recs.len(), 1);
    assert_eq!(recs[0].commit_id, "c1");
}

#[test]
fn end_to_end_three_commits() {
    let commits = vec![
        commit("c1", 0, "alice", 100, vec![file("src/lib.rs", 10, 0)]),
        commit("c2", 1, "bob", 200, vec![file("src/lib.rs", 3, 2)]),
        commit("c3", 2, "alice", 300, vec![file("src/lib.rs", 9, 9)]),
    ];
    let recs = parse_commits("demo", "main", &vec![], &commits);
    assert_eq!(recs.len(), 2);
    assert_eq!(recs[0].commit_id, "c1");
    assert_eq!(recs[0].repo, "demo");
    assert_eq!(recs[0].branch, "main");
    assert_eq!(recs[0].author, "alice");
    assert_eq!(recs[0].date, Some(100));
    assert_eq!(recs[0].insertions, 10);
    assert_eq!(recs[0].deletions, 0);
    assert_eq!(recs[1].commit_id, "c2");
    assert_eq!(recs[1].insertions, 3);
    assert_eq!(recs[1].deletions, 2);
}

#[test]
fn record_counts_are_nonnegative() {
    let commits = vec![
        commit("c1", 0, "alice", 1, vec![file("a.go", 0, 0), file("b.go", 2, 1)]),
        commit("c2", 1, "bob", 2, vec![file("c.go", 1, 4)]),
    ];
    let recs = parse_commits("repo", "dev", &vec![], &commits);
    for r in &recs {
        assert!(r.insertions < usize::MAX && r.deletions < usize::MAX);
    }
    assert_eq!(recs[0].insertions, 2);
    assert_eq!(recs[0].deletions, 1);
    assert_eq!(recs[1].insertions, 1);
    assert_eq!(recs[1].deletions, 4);
}

#[test]
fn rewalking_gives_same_commit_ids() {
    let commits = vec![
        commit("c1", 0, "alice", 1, vec![file("a.go", 1, 0)]),
        commit("c2", 1, "bob", 2, vec![file("b.txt", 2, 2)]),
        commit("c3", 2, "eve", 3, vec![file("c.go", 3, 3)]),
    ];
    let spec = vec!["*.go".to_string()];
    let first = parse_commits("r", "main", &spec, &commits);
    let second = parse_commits("r", "main", &spec, &commits);
    let mut ids1: Vec<String> = first.iter().map(|r| r.commit_id.clone()).collect();
    let mut ids2: Vec<String> = second.iter().map(|r| r.commit_id.clone()).collect();
    ids1.sort();
    ids2.sort();
    assert_eq!(ids1, ids2);
}

#[test]
fn commit_with_empty_filtered_diff_is_dropped() {
    let spec = vec!["!framework".to_string(), "*.go".to_string()];
    let commits = vec![
        commit("kept", 1, "alice", 1, vec![file("pkg/main.go", 4, 1)]),
        commit("dropped", 1, "alice", 2, vec![file("framework/gen.go", 100, 50)]),
    ];
    let recs = parse_commits("r", "main", &spec, &commits);
    assert_eq!(recs.len(), 1);
    assert_eq!(recs[0].commit_id, "kept");
    assert_eq!(recs[0].insertions, 4);
}

#[test]
fn exclusion_after_inclusion_has_no_effect() {
    let spec = vec!["*.go".to_string(), "!framework".to_string()];
    let commits = vec![
        commit("c1", 1, "alice", 1, vec![file("framework/gen.go", 6, 0)]),
    ];
    let recs = parse_commits("r", "main", &spec, &commits);
    assert_eq!(recs.len(), 1);
    assert_eq!(recs[0].insertions, 6);
}

#[test]
fn pathspec_restricts_counted_files() {
    let spec = vec!["*.go".to_string()];
    let commits = vec![
        commit("c1", 1, "alice", 1, vec![file("a.go", 3, 1), file("README.md", 50, 10)]),
    ];
    let recs = parse_commits("r", "main", &spec, &commits);
    assert_eq!(recs.len(), 1);
    assert_eq!(recs[0].insertions, 3);
    assert_eq!(recs[0].deletions, 1);
}

#[test]
fn date_boundaries_are_inclusive() {
    let mut at = record("r", "b", "a", 1, 1);
    at.date = Some(100);
    let mut before = record("r", "b", "a", 1, 1);
    before.date = Some(99);
    let mut v = CommitInfoVec::new(vec![at, before]);
    v.filter_by_date(Some(100), None);
    assert_eq!(v.commit_info_vec.len(), 1);
    assert_eq!(v.commit_info_vec[0].date, Some(100));

    let mut upper = record("r", "b", "a", 1, 1);
    upper.date = Some(200);
    let mut after = record("r", "b", "a", 1, 1);
    after.date = Some(201);
    let mut v2 = CommitInfoVec::new(vec![upper, after]);
    v2.filter_by_date(None, Some(200));
    assert_eq!(v2.commit_info_vec.len(), 1);
    assert_eq!(v2.commit_info_vec[0].date, Some(200));
}

#[test]
fn records_without_date_are_dropped() {
    let mut dated = record("r", "b", "a", 1, 1);
    dated.date = Some(5);
    let mut undated = record("r", "b", "a", 1, 1);
    undated.date = None;
    let mut v = CommitInfoVec::new(vec![dated, undated]);
    v.filter_by_date(None, None);
    assert_eq!(v.commit_info_vec.len(), 1);
    assert_eq!(v.commit_info_vec[0].date, Some(5));
}

#[test]
fn aggregation_is_additive() {
    let a = record("R", "B", "A", 3, 1);
    let b = record("R", "B", "A", 5, 2);
    let mut v = CommitInfoVec::new(vec![a, b]);
    v.sum_insertions_deletions_by_branch_and_author();
    assert_eq!(v.sum_vec.len(), 1);
    assert_eq!(v.sum_vec[0].repo, "R");
    assert_eq!(v.sum_vec[0].branch, "B");
    assert_eq!(v.sum_vec[0].author, "A");
    assert_eq!(v.sum_vec[0].insertions, 8);
    assert_eq!(v.sum_vec[0].deletions, 3);
    assert_eq!(v.sum_vec[0].message, "Total lines: +8 -3");
    assert_eq!(v.sum_vec[0].date, None);
    assert_eq!(v.sum_vec[0].commit_id, "");
}

#[test]
fn aggregation_of_no_records_is_empty() {
    let mut v = CommitInfoVec::new(vec![]);
    v.sum_insertions_deletions_by_branch_and_author();
    assert_eq!(v.sum_vec.len(), 0);
}

#[test]
fn summary_rows_sorted_by_repo_then_branch() {
    let mut v = CommitInfoVec::new(vec![
        record("zeta", "main", "a", 1, 1),
        record("alpha", "main", "a", 2, 2),
        record("alpha", "dev", "b", 3, 3),
        record("zeta", "dev", "a", 4, 4),
    ]);
    v.sum_insertions_deletions_by_branch_and_author();
    let keys: Vec<(String, String)> = v
        .sum_vec
        .iter()
        .map(|r| (r.repo.clone(), r.branch.clone()))
        .collect();
    assert_eq!(
        keys,
        vec![
            ("alpha".to_string(), "dev".to_string()),
            ("alpha".to_string(), "main".to_string()),
            ("zeta".to_string(), "dev".to_string()),
            ("zeta".to_string(), "main".to_string()),
        ]
    );
}

#[test]
fn alias_resolution_merges_groups() {
    let authors = vec![Author {
        name: "26huitailang".to_string(),
        alias: vec!["peterChen".to_string()],
    }];
    let mut aliased = record("R", "B", "peterChen", 3, 1);
    aliased.date = Some(1);
    let mut native = record("R", "B", "26huitailang", 5, 2);
    native.date = Some(2);
    let mut v = CommitInfoVec::new(vec![aliased, native]);
    v.resolve_authors(&authors);
    assert_eq!(v.commit_info_vec[0].author, "26huitailang");
    assert_eq!(v.commit_info_vec[1].author, "26huitailang");
    assert_eq!(v.commit_info_vec.len(), 2);
    v.sum_insertions_deletions_by_branch_and_author();
    assert_eq!(v.sum_vec.len(), 1);
    assert_eq!(v.sum_vec[0].author, "26huitailang");
    assert_eq!(v.sum_vec[0].insertions, 8);
    assert_eq!(v.sum_vec[0].deletions, 3);
}

#[test]
fn unknown_author_is_kept_unchanged() {
    let authors = vec![Author {
        name: "26huitailang".to_string(),
        alias: vec!["peterChen".to_string()],
    }];
    let mut v = CommitInfoVec::new(vec![record("R", "B", "stranger", 1, 0)]);
    v.resolve_authors(&authors);
    assert_eq!(v.commit_info_vec.len(), 1);
    assert_eq!(v.commit_info_vec[0].author, "stranger");
}

#[test]
fn summary_pipeline_resolves_filters_and_sums() {
    let authors = vec![Author {
        name: "26huitailang".to_string(),
        alias: vec!["peterChen".to_string()],
    }];
    let mut early = record("R", "B", "peterChen", 3, 1);
    early.date = Some(50);
    let mut inside = record("R", "B", "26huitailang", 5, 2);
    inside.date = Some(150);
    let mut late = record("R", "B", "peterChen", 7, 7);
    late.date = Some(250);
    let mut v = CommitInfoVec::new(vec![early, inside, late]);
    v.summary(&authors, Some(100), Some(200));
    assert_eq!(v.commit_info_vec.len(), 1);
    assert_eq!(v.sum_vec.len(), 1);
    assert_eq!(v.sum_vec[0].author, "26huitailang");
    assert_eq!(v.sum_vec[0].insertions, 5);
    assert_eq!(v.sum_vec[0].deletions, 2);
}

#[test]
fn author_allow_list_drops_other_authors() {
    let mut v = CommitInfoVec::new(vec![
        record("R", "B", "alice", 1, 1),
        record("R", "B", "bob", 2, 2),
    ]);
    v.filter_by_authors(&vec!["alice".to_string()]);
    assert_eq!(v.commit_info_vec.len(), 1);
    assert_eq!(v.commit_info_vec[0].author, "alice");
}

#[test]
fn collect_records_keeps_every_worker_record() {
    let parts = vec![
        vec![record("a", "m", "x", 1, 1), record("a", "m", "y", 2, 2)],
        vec![],
        vec![record("b", "m", "z", 3, 3)],
    ];
    let all = collect_records(&parts);
    assert_eq!(all.len(), 3);
    assert_eq!(all[0].author, "x");
    assert_eq!(all[1].author, "y");
    assert_eq!(all[2].author, "z");
}
