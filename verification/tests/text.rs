use chalk::prompts::{priority_prompt, project_prompt, PromptSection};
use chalk::ranking::{rank_line, rank_projects};
use chalk::report::{report_title, PrioItem, PrioModelOutput};
use chalk::text::{chars_of, decimal_string};
use chalk::usage::{sum_usage, TokenUsage};

#[test]
fn decimals() {
    assert_eq!(decimal_string(0), "0");
    assert_eq!(decimal_string(7), "7");
    assert_eq!(decimal_string(1000), "1000");
    assert_eq!(decimal_string(u64::MAX), u64::MAX.to_string());
    assert_eq!(chars_of("hé!"), vec!['h', 'é', '!']);
}

#[test]
fn report_lists_projects_in_order() {
    let out = PrioModelOutput {
        order: vec![
            PrioItem { project_name: "alpha".to_string(), priority: 60, justification: "urgent".to_string() },
            PrioItem { project_name: "beta".to_string(), priority: 30, justification: "later".to_string() },
        ],
        notes: "fine".to_string(),
    };
    assert_eq!(
        out.render(),
        "## Priority order\n\n1. **alpha** (60) : urgent\n2. **beta** (30) : later\n\n**Notes:** fine"
    );
    let empty = PrioModelOutput { order: vec![], notes: String::new() };
    assert_eq!(empty.render(), "## Priority order\n\n\n**Notes:** ");
}

#[test]
fn report_title_has_date() {
    assert_eq!(report_title(1_700_000_000), Some("\u{2615}\u{FE0E} Chalk Priority Report \u{2014} 2023-11-14".to_string()));
    assert_eq!(report_title(i64::MAX), None);
}

#[test]
fn ranking_is_stable_ascending() {
    let input = vec![
        ("c".to_string(), 30),
        ("a".to_string(), 10),
        ("b".to_string(), 30),
        ("d".to_string(), 5),
        ("e".to_string(), 10),
    ];
    let ranked = rank_projects(input);
    let names: Vec<&str> = ranked.iter().map(|p| p.0.as_str()).collect();
    assert_eq!(names, vec!["d", "a", "e", "c", "b"]);
    assert_eq!(rank_line(0, "d", 5), "1 **d** (5)");
    assert_eq!(rank_line(9, "x", 1234), "10 **x** (1234)");
    assert!(rank_projects(vec![]).is_empty());
}

#[test]
fn usage_sums_saturate() {
    let u = vec![
        TokenUsage { prompt_tokens: 10, reasoning_tokens: 5, total_tokens: 40 },
        TokenUsage { prompt_tokens: 20, reasoning_tokens: 0, total_tokens: 30 },
    ];
    let s = sum_usage(&u);
    assert_eq!(s, TokenUsage { prompt_tokens: 30, reasoning_tokens: 5, total_tokens: 70 });
    assert_eq!(s.output_tokens(), 35);
    let big = vec![TokenUsage { prompt_tokens: u32::MAX, reasoning_tokens: 1, total_tokens: 2 }; 2];
    let s = sum_usage(&big);
    assert_eq!(s.prompt_tokens, u32::MAX);
    assert_eq!(s.output_tokens(), 0);
}

#[test]
fn project_prompt_quotes_window_and_project() {
    let p = project_prompt("PROJECT", "HISTORY");
    assert!(p.starts_with("You are an agent working on an assignment that synthesizes user scored attributes and commit history"));
    assert!(p.contains("activity from past 7 days, or the last 10 commits before that window"));
    assert!(p.contains("Project: PROJECT\n            History: HISTORY\n"));
    assert!(p.contains("{\n                \"opinions\": {"));
    assert!(p.ends_with("\"notes\": \"important notes to pass up to aggregator agent\"\n            }\n            "));
}

#[test]
fn priority_prompt_lists_sections() {
    let sections = vec![
        PromptSection { project: "P1".to_string(), days_since_last_commit: Some(3), opinions: "O1".to_string(), notes: "N1".to_string() },
        PromptSection { project: "P2".to_string(), days_since_last_commit: None, opinions: "O2".to_string(), notes: "N2".to_string() },
        PromptSection { project: "P3".to_string(), days_since_last_commit: Some(-2), opinions: "O3".to_string(), notes: "N3".to_string() },
    ];
    let p = priority_prompt("CONFIG", &sections);
    assert!(p.contains("next. If there is no history, then the project has not been started yet.\n\nAttribute weights (higher = more important to the user):\n            CONFIG\n\n"));
    assert!(p.contains("\n                Project: P1\nDays since last commit: Some(3)\nSubAgent Opinions: O1\nSubAgent Notes: N1\n\n"));
    assert!(p.contains("Days since last commit: None\n"));
    assert!(p.contains("Days since last commit: Some(-2)\n"));
    assert!(p.contains("There are exactly 3 projects listed above. Your `order` array MUST include all 3 of them"));
    assert!(p.contains("\"order\": [\n                    {\n"));
}
