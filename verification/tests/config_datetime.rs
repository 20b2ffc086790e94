use git_stat::config::{Author, Config, Repo};
use git_stat::datetime::{detail_datetime_to_epoch, parse_since, parse_until, DateParseError};
use git_stat::record::CommitInfo;

fn repo_with_url(url: &str) -> Repo {
    Repo {
        url: url.to_string(),
        username: None,
        password: None,
        branches: vec!["main".to_string()],
        authors: vec![Author {
            name: "26huitailang".to_string(),
            alias: vec!["peterChen".to_string()],
        }],
        pathspec: vec!["*.go".to_string(), "!framework".to_string(), "!vendor".to_string()],
    }
}

#[test]
fn repo_name_comes_from_the_url() {
    let repo = repo_with_url("https://github.com/26huitailang/yogo.git");
    assert_eq!(repo.repo_name(), "yogo");
    assert_eq!(repo_with_url("a/b/c").repo_name(), "c");
    assert_eq!(repo_with_url("plain").repo_name(), "plain");
    assert_eq!(repo_with_url("x/name.tar.gz").repo_name(), "name");
    assert_eq!(repo_with_url("trailing/").repo_name(), "");
}

#[test]
fn config_fields_carry_over() {
    let repo = repo_with_url("https://github.com/26huitailang/yogo.git");
    let config = Config {
        output: "csv".to_string(),
        authors: repo.authors.clone(),
        repos: vec![repo],
    };
    assert_eq!(config.output, "csv");
    assert_eq!(config.repos[0].url, "https://github.com/26huitailang/yogo.git");
    assert_eq!(config.repos[0].branches[0], "main");
    assert_eq!(config.authors[0].name, "26huitailang");
    assert_eq!(config.authors[0].alias, &["peterChen"]);
    assert_eq!(config.repos[0].pathspec[0], "*.go");
    assert_eq!(config.repos[0].pathspec[1], "!framework");
    assert_eq!(config.repos[0].pathspec[2], "!vendor");
}

#[test]
fn missing_credentials_read_as_empty() {
    let repo = repo_with_url("u");
    assert_eq!(repo.username(), "");
    assert_eq!(repo.password(), "");
    let mut with = repo_with_url("u");
    with.username = Some("user".to_string());
    with.password = Some("SECRET-REDACTED".to_string());
    assert_eq!(with.username(), "user");
    assert_eq!(with.password(), "SECRET-REDACTED");
}

#[test]
fn get_authors_lists_names_and_aliases() {
    let repo = repo_with_url("u");
    assert_eq!(repo.get_authors(), vec!["26huitailang".to_string(), "peterChen".to_string()]);
}

#[test]
fn map_alias_to_name_finds_alias_and_name() {
    let repo = repo_with_url("u");
    assert_eq!(repo.map_alias_to_name("peterChen"), Some("26huitailang".to_string()));
    assert_eq!(repo.map_alias_to_name("26huitailang"), Some("26huitailang".to_string()));
    assert_eq!(repo.map_alias_to_name("nobody"), None);
}

#[test]
fn well_formed_dates_parse() {
    assert!(parse_since("2024-01-01").is_ok());
    assert!(parse_until("2024-03-31").is_ok());
    assert!(parse_since("2024-02-29").is_ok());
}

#[test]
fn malformed_dates_are_refused() {
    assert_eq!(parse_since("2024-1-1"), Err(DateParseError::Format));
    assert_eq!(parse_since("not a date"), Err(DateParseError::Format));
    assert_eq!(parse_since("2024-13-01"), Err(DateParseError::Format));
    assert_eq!(parse_since("2024-00-10"), Err(DateParseError::Format));
    assert_eq!(parse_since("2024-02-30"), Err(DateParseError::Format));
    assert_eq!(parse_since("2023-02-29"), Err(DateParseError::Format));
    assert_eq!(parse_since(""), Err(DateParseError::Format));
    assert_eq!(parse_until("2024/01/01"), Err(DateParseError::Format));
}

#[test]
fn until_lies_at_the_last_second_of_its_day() {
    let since = parse_since("2024-01-01").unwrap();
    let until = parse_until("2024-01-01").unwrap();
    assert_eq!(until - since, 24 * 3600 - 1);
}

#[test]
fn parsed_dates_format_back_to_their_text() {
    let since = parse_since("2024-01-01").unwrap();
    let mut rec = CommitInfo {
        repo: String::new(),
        date: Some(since),
        branch: String::new(),
        commit_id: String::new(),
        author: String::new(),
        message: String::new(),
        insertions: 0,
        deletions: 0,
    };
    assert_eq!(rec.format_datetime(), "2024-01-01 00:00:00");
    rec.date = Some(parse_until("2024-06-15").unwrap());
    assert_eq!(rec.format_datetime(), "2024-06-15 23:59:59");
    rec.date = None;
    assert_eq!(rec.format_datetime(), "");
}

#[test]
fn detail_date_text_parses_back() {
    let t = parse_since("2024-06-15").unwrap();
    let rec = CommitInfo {
        repo: String::new(),
        date: Some(t),
        branch: String::new(),
        commit_id: String::new(),
        author: String::new(),
        message: String::new(),
        insertions: 0,
        deletions: 0,
    };
    let text = rec.format_datetime();
    assert_eq!(detail_datetime_to_epoch(&text), Ok(t));
    assert_eq!(
        detail_datetime_to_epoch("2024-06-15 10:17"),
        Err(DateParseError::Format)
    );
    assert_eq!(
        detail_datetime_to_epoch("2024-06-15 24:00:00"),
        Err(DateParseError::Format)
    );
    assert_eq!(
        detail_datetime_to_epoch("2024-06-15T10:17:01"),
        Err(DateParseError::Format)
    );
}

#[test]
fn every_in_range_date_gets_a_text() {
    let mut rec = CommitInfo {
        repo: String::new(),
        date: Some(-62135596800),
        branch: String::new(),
        commit_id: String::new(),
        author: String::new(),
        message: String::new(),
        insertions: 0,
        deletions: 0,
    };
    assert!(!rec.format_datetime().is_empty());
    rec.date = Some(253402300799);
    assert!(!rec.format_datetime().is_empty());
    rec.date = Some(0);
    assert!(!rec.format_datetime().is_empty());
}
