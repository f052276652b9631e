use chalk::parser::{Config, ConfigToml, InfoToml, ParseError, Project, ProjectNames, ProjectToml};
use chalk::table::SortedTable;
use chalk::units::{mult_score_weight, Score, Weight};

fn table(entries: &[(&str, i64)]) -> SortedTable<i64> {
    SortedTable::from_entries(entries.iter().map(|(k, v)| (k.to_string(), *v)).collect())
}

fn config(entries: &[(&str, i64)]) -> Config {
    Config::parse(ConfigToml { weights: table(entries) }).unwrap()
}

fn names(list: &[&str]) -> ProjectNames {
    ProjectNames::new(list.iter().map(|s| s.to_string()).collect())
}

fn project_toml(link: &str, builds_on: &[&str], attrs: &[(&str, i64)]) -> ProjectToml {
    ProjectToml {
        info: InfoToml {
            description: "a tool".to_string(),
            repo_link: link.to_string(),
            tags: vec!["cli".to_string(), "rust".to_string()],
            builds_on: builds_on.iter().map(|s| s.to_string()).collect(),
        },
        attributes: table(attrs),
    }
}

#[test]
fn score_accepts_one_to_ten() {
    assert_eq!(Score::try_from(1).unwrap().value(), 1);
    assert_eq!(Score::try_from(10).unwrap().value(), 10);
    assert_eq!(Score::try_from(0), Err("value must be 1..=10"));
    assert_eq!(Score::try_from(11), Err("value must be 1..=10"));
    assert_eq!(Score::try_from(-3), Err("value must be 1..=10"));
    assert_eq!(Score::try_from(i64::MAX), Err("value must be 1..=10"));
}

#[test]
fn weight_accepts_zero_to_hundred() {
    assert_eq!(Weight::try_from(0).unwrap().value(), 0);
    assert_eq!(Weight::try_from(100).unwrap().value(), 100);
    assert_eq!(Weight::try_from(101), Err("value must be 0..=100"));
    assert_eq!(Weight::try_from(-1), Err("value must be 0..=100"));
    assert_eq!(Weight::try_from(i64::MIN), Err("value must be 0..=100"));
}

#[test]
fn mult_score_weight_multiplies() {
    let s = Score::try_from(7).unwrap();
    let w = Weight::try_from(30).unwrap();
    assert_eq!(mult_score_weight(s, w), 210);
    let top = mult_score_weight(Score::try_from(10).unwrap(), Weight::try_from(100).unwrap());
    assert_eq!(top, 1000);
    assert_eq!(mult_score_weight(Score::try_from(4).unwrap(), Weight::try_from(0).unwrap()), 0);
}

#[test]
fn config_parse_keeps_weights_in_name_order() {
    let c = config(&[("urgency", 80), ("fun", 20), ("impact", 50)]);
    let w = c.weights();
    assert_eq!(w.len(), 3);
    assert_eq!(w.key_at(0), "fun");
    assert_eq!(w.key_at(1), "impact");
    assert_eq!(w.key_at(2), "urgency");
    assert_eq!(w.value_at(0).value(), 20);
    assert_eq!(w.get("urgency").unwrap().value(), 80);
    assert!(w.get("speed").is_none());
}

#[test]
fn config_parse_refuses_weight_out_of_range() {
    let r = Config::parse(ConfigToml { weights: table(&[("fun", 20), ("impact", 101)]) });
    match r {
        Err(e) => {
            assert!(matches!(e, ParseError::WeightOutOfRange));
            assert_eq!(e.message(), "value must be 0..=100");
        }
        Ok(_) => panic!("weight 101 accepted"),
    }
    assert!(Config::parse(ConfigToml { weights: table(&[("fun", -1)]) }).is_err());
    assert!(Config::parse(ConfigToml { weights: table(&[]) }).is_ok());
}

#[test]
fn validate_compares_attribute_names() {
    let c = config(&[("fun", 20), ("impact", 50)]);
    assert_eq!(c.validate(&table(&[("impact", 3), ("fun", 9)])), Ok(()));
    assert_eq!(c.validate(&table(&[("fun", 9)])), Err("Attributes do not match"));
    assert_eq!(c.validate(&table(&[("fun", 9), ("impact", 3), ("zeal", 1)])), Err("Attributes do not match"));
    assert_eq!(c.validate(&table(&[("fun", 9), ("impacts", 3)])), Err("Attributes do not match"));
}

#[test]
fn mint_knows_only_listed_names() {
    let n = names(&["alpha", "beta"]);
    assert!(n.contains("alpha"));
    assert!(!n.contains("gamma"));
    assert_eq!(n.mint("beta").unwrap().as_str(), "beta");
    match n.mint("gamma") {
        Err(e) => assert_eq!(e.message(), "ProjectName gamma not found"),
        Ok(_) => panic!("unknown name minted"),
    }
}

#[test]
fn project_parse_scores_and_sums() {
    let c = config(&[("fun", 20), ("impact", 50)]);
    let n = names(&["alpha", "beta"]);
    let p = Project::parse(project_toml("https://github.com/moleraat/alpha", &["beta"], &[("impact", 4), ("fun", 7)]), "alpha", &c, &n).unwrap();
    assert_eq!(p.project_name(), "alpha");
    assert_eq!(p.total(), 7 * 20 + 4 * 50);
    assert_eq!(p.repo_link(), Some("https://github.com/moleraat/alpha"));
    assert_eq!(p.info().description(), "a tool");
    assert_eq!(p.info().tags().len(), 2);
    assert_eq!(p.info().builds_on()[0].as_str(), "beta");
    assert_eq!(p.attributes().key_at(0), "fun");
    assert_eq!(p.attributes().value_at(0).value(), 7);
    assert_eq!(p.attributes().value_at(1).value(), 4);
}

#[test]
fn project_parse_empty_link_is_none() {
    let c = config(&[("fun", 20)]);
    let n = names(&["alpha"]);
    let p = Project::parse(project_toml("", &[], &[("fun", 1)]), "alpha", &c, &n).unwrap();
    assert_eq!(p.repo_link(), None);
    assert_eq!(p.total(), 20);
}

#[test]
fn project_parse_unknown_name_first() {
    let c = config(&[("fun", 20)]);
    let n = names(&["alpha"]);
    let r = Project::parse(project_toml("", &["zeta"], &[("other", 99)]), "omega", &c, &n);
    match r {
        Err(ParseError::ProjectNotFound(s)) => assert_eq!(s, "omega"),
        _ => panic!("expected the project's own name to be refused"),
    }
}

#[test]
fn project_parse_unknown_dependency() {
    let c = config(&[("fun", 20)]);
    let n = names(&["alpha", "beta"]);
    let r = Project::parse(project_toml("", &["beta", "zeta", "eta"], &[("fun", 3)]), "alpha", &c, &n);
    match r {
        Err(e) => assert_eq!(e.message(), "ProjectName zeta not found"),
        Ok(_) => panic!("unknown dependency accepted"),
    }
}

#[test]
fn project_parse_attribute_mismatch() {
    let c = config(&[("fun", 20), ("impact", 10)]);
    let n = names(&["alpha"]);
    let r = Project::parse(project_toml("", &[], &[("fun", 3), ("zeal", 42)]), "alpha", &c, &n);
    match r {
        Err(e) => {
            assert!(matches!(e, ParseError::AttributesMismatch));
            assert_eq!(e.message(), "Attributes do not match");
        }
        Ok(_) => panic!("mismatched attributes accepted"),
    }
}

#[test]
fn project_parse_score_out_of_range() {
    let c = config(&[("fun", 20), ("impact", 10)]);
    let n = names(&["alpha"]);
    let r = Project::parse(project_toml("", &[], &[("fun", 3), ("impact", 11)]), "alpha", &c, &n);
    match r {
        Err(e) => assert_eq!(e.message(), "value must be 1..=10"),
        Ok(_) => panic!("score 11 accepted"),
    }
}

#[test]
fn project_score_reports_missing_weight() {
    let c = config(&[("fun", 20)]);
    let mut attrs: SortedTable<Score> = SortedTable::new();
    attrs.insert("fun".to_string(), Score::try_from(2).unwrap());
    assert_eq!(Project::score(&attrs, &c).unwrap(), 40);
    attrs.insert("zeal".to_string(), Score::try_from(2).unwrap());
    match Project::score(&attrs, &c) {
        Err(e) => assert_eq!(e.message(), "Should never happen: failed to get key"),
        Ok(_) => panic!("missing weight accepted"),
    }
}

#[test]
fn score_and_weight_roundtrip() {
    for v in 1..=10 {
        let s = Score::try_from(v).unwrap();
        assert_eq!(Score::try_from(s.value() as i64), Ok(s));
    }
    for v in 0..=100 {
        let w = Weight::try_from(v).unwrap();
        assert_eq!(Weight::try_from(w.value() as i64), Ok(w));
    }
}

#[test]
fn total_sums_many_attributes() {
    let entries: Vec<(String, i64)> = (0..2000).map(|i| (format!("attr{i:05}"), 100)).collect();
    let scores: Vec<(String, i64)> = (0..2000).map(|i| (format!("attr{i:05}"), 10)).collect();
    let c = Config::parse(ConfigToml { weights: SortedTable::from_entries(entries) }).unwrap();
    let n = names(&["big"]);
    let raw = ProjectToml {
        info: InfoToml { description: String::new(), repo_link: String::new(), tags: vec![], builds_on: vec![] },
        attributes: SortedTable::from_entries(scores),
    };
    let p = Project::parse(raw, "big", &c, &n).unwrap();
    assert_eq!(p.total(), 2_000_000);
}

#[test]
fn score_adds_over_disjoint_attributes() {
    let c = config(&[("fun", 20), ("impact", 50), ("urgency", 7)]);
    let scores = |entries: &[(&str, i64)]| -> SortedTable<Score> {
        let mut t = SortedTable::new();
        for (k, v) in entries {
            t.insert(k.to_string(), Score::try_from(*v).unwrap());
        }
        t
    };
    let a = scores(&[("fun", 3), ("urgency", 9)]);
    let b = scores(&[("impact", 4)]);
    let both = scores(&[("impact", 4), ("urgency", 9), ("fun", 3)]);
    let sa = Project::score(&a, &c).unwrap();
    let sb = Project::score(&b, &c).unwrap();
    assert_eq!(Project::score(&both, &c).unwrap(), sa + sb);
    let raised = scores(&[("fun", 4), ("urgency", 9)]);
    assert!(Project::score(&raised, &c).unwrap() >= sa);
}
