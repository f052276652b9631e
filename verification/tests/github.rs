use chalk::github::{
    branch_commits_path, branches_path, commit_path, days_since_last_commit, fallback_commits_path,
    lookback_since, needs_fallback, repo_from_link, repo_name, HistoryError,
};
use chalk::parser::{Config, ConfigToml, InfoToml, Project, ProjectNames, ProjectToml};
use chalk::table::SortedTable;

fn project(link: &str) -> Project {
    let weights = SortedTable::from_entries(vec![("fun".to_string(), 10)]);
    let config = Config::parse(ConfigToml { weights }).unwrap();
    let names = ProjectNames::new(vec!["alpha".to_string()]);
    let raw = ProjectToml {
        info: InfoToml { description: String::new(), repo_link: link.to_string(), tags: vec![], builds_on: vec![] },
        attributes: SortedTable::from_entries(vec![("fun".to_string(), 5)]),
    };
    Project::parse(raw, "alpha", &config, &names).unwrap()
}

#[test]
fn repo_name_is_last_segment() {
    assert_eq!(repo_from_link("https://github.com/moleraat/chalk"), "chalk");
    assert_eq!(repo_from_link("chalk"), "chalk");
    assert_eq!(repo_from_link("https://github.com/moleraat/"), "");
    assert_eq!(repo_name(&project("https://github.com/moleraat/alpha")), Ok("alpha".to_string()));
    assert_eq!(repo_name(&project("")), Err(HistoryError::NoRepoLink));
    assert_eq!(HistoryError::NoRepoLink.message(), "No repo link");
}

#[test]
fn api_paths() {
    assert_eq!(branches_path("chalk"), "repos/moleraat/chalk/branches");
    assert_eq!(branch_commits_path("chalk", "main", "2024-01-01"), "repos/moleraat/chalk/commits?sha=main&since=2024-01-01");
    assert_eq!(fallback_commits_path("chalk"), "repos/moleraat/chalk/commits?per_page=10");
    assert_eq!(commit_path("chalk", "abc123"), "repos/moleraat/chalk/commits/abc123");
    assert!(needs_fallback(0));
    assert!(!needs_fallback(3));
}

#[test]
fn lookback_is_a_week_earlier() {
    // 2023-11-14T22:13:20Z
    assert_eq!(lookback_since(1_700_000_000), Ok("2023-11-07".to_string()));
    assert_eq!(lookback_since(0), Ok("1969-12-25".to_string()));
    assert_eq!(lookback_since(i64::MIN), Err(HistoryError::LookbackDate));
    assert_eq!(lookback_since(i64::MAX), Err(HistoryError::LookbackDate));
    assert_eq!(HistoryError::LookbackDate.message(), "Failed to compute lookback date");
}

#[test]
fn days_since_latest_commit() {
    let day = 86_400;
    assert_eq!(days_since_last_commit(&vec![], 0), None);
    assert_eq!(days_since_last_commit(&vec![0, 3 * day, day], 5 * day + 10), Some(2));
    assert_eq!(days_since_last_commit(&vec![10 * day], 10 * day + day - 1), Some(0));
    assert_eq!(days_since_last_commit(&vec![10 * day], 8 * day - 1), Some(-2));
    assert_eq!(days_since_last_commit(&vec![i64::MIN], i64::MAX), Some(((i64::MAX as i128 - i64::MIN as i128) / 86_400) as i64));
}
