use git_stat::csvenc::{csv_field_exec, csv_line_exec, csv_text};
use git_stat::data::{default_str, max_line_width, Data};
use git_stat::output::OutputType;
use git_stat::pathspec::{glob_match_exec, path_retained_exec};
use git_stat::record::{CommitInfo, CommitInfoVec};

fn data_row(repo: &str, date: &str, branch: &str, author: &str, ins: &str, del: &str) -> Data {
    Data {
        repo: repo.to_string(),
        date: date.to_string(),
        branch: branch.to_string(),
        author: author.to_string(),
        insertions: ins.to_string(),
        deletions: del.to_string(),
    }
}

#[test]
fn constraint_len_calculator() {
    let test_data = vec![
        data_row(
            "test-git-stats",
            "2024-07-05 10:17:01",
            "main",
            "Peter",
            "19",
            "123",
        ),
        data_row(
            "test-git-stats2",
            "2024-06-07 10:17:01",
            "dev",
            "26huitailang",
            "1191",
            "235",
        ),
    ];
    let (
        longest_repo_len,
        longest_date_len,
        longest_branch_len,
        longest_author_len,
        longest_insertions_len,
        longest_deletions_len,
    ) = git_stat::data::constraint_len_calculator(&test_data);

    assert_eq!(15, longest_repo_len);
    assert_eq!(19, longest_date_len);
    assert_eq!(4, longest_branch_len);
    assert_eq!(12, longest_author_len);
    assert_eq!(4, longest_insertions_len);
    assert_eq!(3, longest_deletions_len);
}

#[test]
fn widths_of_no_rows_are_zero() {
    let rows: Vec<Data> = vec![];
    assert_eq!(git_stat::data::constraint_len_calculator(&rows), (0, 0, 0, 0, 0, 0));
}

#[test]
fn branch_width_takes_the_widest_line() {
    let rows = vec![data_row("r", "d", "short\na-much-longer-line", "a", "1", "2")];
    let widths = git_stat::data::constraint_len_calculator(&rows);
    assert_eq!(widths.2, 18);
    assert_eq!(max_line_width("short\na-much-longer-line"), 18);
    assert_eq!(max_line_width(""), 0);
    assert_eq!(max_line_width("one"), 3);
    assert_eq!(max_line_width("crlf\r\nend"), 4);
}

#[test]
fn data_getters_hand_fields_back() {
    let d = data_row("r", "dt", "b", "a", "1", "2");
    assert_eq!(d.repo(), "r");
    assert_eq!(d.date(), "dt");
    assert_eq!(d.branch(), "b");
    assert_eq!(d.author(), "a");
    assert_eq!(d.insertions(), "1");
    assert_eq!(d.deletions(), "2");
    let arr = d.ref_array();
    assert_eq!(arr[0].as_str(), "r");
    assert_eq!(arr[5].as_str(), "2");
    assert_eq!(default_str(), "");
}

#[test]
fn csv_fields_are_quoted_only_when_needed() {
    assert_eq!(csv_field_exec("plain"), "plain");
    assert_eq!(csv_field_exec("a,b"), "\"a,b\"");
    assert_eq!(csv_field_exec("say \"hi\""), "\"say \"\"hi\"\"\"");
    assert_eq!(csv_field_exec("two\nlines"), "\"two\nlines\"");
    assert_eq!(csv_field_exec(""), "");
}

#[test]
fn csv_lines_join_fields_with_commas() {
    let fields = vec!["a".to_string(), "b,c".to_string(), "d".to_string()];
    assert_eq!(csv_line_exec(&fields), "a,\"b,c\",d");
    assert_eq!(csv_line_exec(&vec![]), "");
}

#[test]
fn csv_text_writes_header_then_rows() {
    let header = vec!["h1".to_string(), "h2".to_string()];
    let data = vec![
        vec!["a".to_string(), "b".to_string()],
        vec!["c".to_string(), "d,e".to_string()],
    ];
    assert_eq!(csv_text(&header, &data), "h1,h2\na,b\nc,\"d,e\"\n");
}

#[test]
fn detail_document_escapes_the_message() {
    let rec = CommitInfo {
        repo: "r".to_string(),
        date: None,
        branch: "b".to_string(),
        commit_id: "c".to_string(),
        author: "a".to_string(),
        message: "fix, \"quoted\"".to_string(),
        insertions: 1,
        deletions: 23,
    };
    let v = CommitInfoVec::new(vec![rec]);
    let doc = v.file_cursor();
    assert_eq!(
        doc,
        "repo,date,branch,commit_id,author,message,insertions,deletions\n\
         r,,b,c,a,\"fix, \"\"quoted\"\"\",1,23\n"
    );
}

#[test]
fn detail_row_holds_the_eight_columns() {
    let rec = CommitInfo {
        repo: "r".to_string(),
        date: None,
        branch: "b".to_string(),
        commit_id: "c".to_string(),
        author: "a".to_string(),
        message: "m".to_string(),
        insertions: 40,
        deletions: 5,
    };
    let row = rec.detail_row();
    assert_eq!(
        row,
        vec!["r", "", "b", "c", "a", "m", "40", "5"]
    );
}

#[test]
fn output_type_words_map_to_formats() {
    assert!(matches!(OutputType::from_str("csv"), Some(OutputType::CSV)));
    assert!(matches!(OutputType::from_str("table"), Some(OutputType::TABLE)));
    assert!(matches!(OutputType::from_str("polar"), Some(OutputType::POLAR)));
    assert!(OutputType::from_str("json").is_none());
    assert!(OutputType::from_str("").is_none());
}

#[test]
fn globs_match_as_written() {
    assert!(glob_match_exec("*.go", "main.go"));
    assert!(glob_match_exec("*.go", "pkg/deep/main.go"));
    assert!(!glob_match_exec("*.go", "main.rs"));
    assert!(glob_match_exec("a?c", "abc"));
    assert!(!glob_match_exec("a?c", "ac"));
    assert!(glob_match_exec("", ""));
    assert!(!glob_match_exec("", "x"));
}

#[test]
fn path_rules_decide_in_declared_order() {
    let early_exclusion = vec!["!framework".to_string(), "*.go".to_string()];
    assert!(!path_retained_exec(&early_exclusion, "framework/gen.go"));
    assert!(path_retained_exec(&early_exclusion, "pkg/main.go"));
    assert!(!path_retained_exec(&early_exclusion, "README.md"));

    let late_exclusion = vec!["*.go".to_string(), "!framework".to_string()];
    assert!(path_retained_exec(&late_exclusion, "framework/gen.go"));

    let no_rules: Vec<String> = vec![];
    assert!(path_retained_exec(&no_rules, "anything"));

    let only_exclusions = vec!["!vendor".to_string()];
    assert!(path_retained_exec(&only_exclusions, "src/app.rs"));
    assert!(!path_retained_exec(&only_exclusions, "vendor/lib.rs"));
}
