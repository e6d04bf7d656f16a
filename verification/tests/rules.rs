use mindns::config::RulesSettings;
use mindns::error::DnsError;
use mindns::rules::{
    ignore_line, is_rules_file, load_kind, match_rule, parse_rule, parse_rules,
    parse_rules_config, parse_rules_dir, LoadKind, Rule, RuleAction, RuleFile, RuleMode,
};

fn rule(action: RuleAction, mode: RuleMode, negate: bool, key: &str, value: Option<&str>) -> Rule {
    Rule { action, mode, negate, key: key.to_string(), value: value.map(|v| v.to_string()) }
}

#[test]
fn deny_rule_with_leading_star_matches_suffix() {
    assert_eq!(
        parse_rule("deny *.ads.example"),
        Ok(rule(RuleAction::Deny, RuleMode::EndsWith, false, ".ads.example", None))
    );
}

#[test]
fn append_rule_takes_the_fourth_word_as_value() {
    assert_eq!(
        parse_rule("apnd host.lan = 10.0.0.5"),
        Ok(rule(RuleAction::Append, RuleMode::Equal, false, "host.lan", Some("10.0.0.5")))
    );
    // The third word is not looked at.
    assert_eq!(
        parse_rule("apnd host.lan -> 10.0.0.5 extra"),
        Ok(rule(RuleAction::Append, RuleMode::Equal, false, "host.lan", Some("10.0.0.5")))
    );
    // Three words give no value.
    assert_eq!(
        parse_rule("apnd host.lan ="),
        Ok(rule(RuleAction::Append, RuleMode::Equal, false, "host.lan", None))
    );
}

#[test]
fn trailing_star_matches_prefix_and_leading_star_wins() {
    assert_eq!(
        parse_rule("deny track.*"),
        Ok(rule(RuleAction::Deny, RuleMode::StartsWith, false, "track.", None))
    );
    assert_eq!(
        parse_rule("deny *mid*"),
        Ok(rule(RuleAction::Deny, RuleMode::EndsWith, false, "mid", None))
    );
    assert_eq!(
        parse_rule("deny a*b"),
        Ok(rule(RuleAction::Deny, RuleMode::Equal, false, "ab", None))
    );
    assert_eq!(parse_rule("deny *"), Ok(rule(RuleAction::Deny, RuleMode::EndsWith, false, "", None)));
}

#[test]
fn one_leading_bang_negates() {
    assert_eq!(
        parse_rule("deny !*.corp.local"),
        Ok(rule(RuleAction::Deny, RuleMode::EndsWith, true, ".corp.local", None))
    );
    assert_eq!(
        parse_rule("deny !a!b"),
        Ok(rule(RuleAction::Deny, RuleMode::Equal, true, "a!b", None))
    );
    assert_eq!(
        parse_rule("deny a!"),
        Ok(rule(RuleAction::Deny, RuleMode::Equal, false, "a!", None))
    );
    assert_eq!(parse_rule("deny !"), Ok(rule(RuleAction::Deny, RuleMode::Equal, true, "", None)));
}

#[test]
fn malformed_lines_are_bad_rules() {
    assert_eq!(parse_rule("allow x"), Err(DnsError::BadRule));
    assert_eq!(parse_rule("!deny *.corp.local"), Err(DnsError::BadRule));
    assert_eq!(parse_rule("deny"), Err(DnsError::BadRule));
    assert_eq!(parse_rule(""), Err(DnsError::BadRule));
    assert_eq!(parse_rule("Deny x"), Err(DnsError::BadRule));
    assert_eq!(parse_rule(" deny x"), Err(DnsError::BadRule));
    assert_eq!(parse_rule("denyx y"), Err(DnsError::BadRule));
}

#[test]
fn words_are_split_at_single_spaces() {
    // Two spaces make an empty word, which is the pattern here.
    assert_eq!(
        parse_rule("deny  x"),
        Ok(rule(RuleAction::Deny, RuleMode::Equal, false, "", None))
    );
    assert_eq!(
        parse_rule("apnd a =  1.2.3.4"),
        Ok(rule(RuleAction::Append, RuleMode::Equal, false, "a", Some("")))
    );
}

#[test]
fn comments_and_blank_lines_are_ignored() {
    assert!(ignore_line("# a comment"));
    assert!(ignore_line("#"));
    assert!(ignore_line(""));
    assert!(ignore_line("   "));
    assert!(ignore_line(" \t\r"));
    assert!(ignore_line("\u{a0}\u{2003}\u{3000}"));
    assert!(!ignore_line(" # not at the start"));
    assert!(!ignore_line("deny x"));
    assert!(!ignore_line("\u{200b}"));
}

#[test]
fn rule_file_text_gives_its_rules_in_order() {
    let text = "# block ads\ndeny *.ads.example\n\napnd host.lan = 10.0.0.5\n   \ndeny !keep.*\n";
    let rules = parse_rules(text).unwrap();
    assert_eq!(
        rules,
        vec![
            rule(RuleAction::Deny, RuleMode::EndsWith, false, ".ads.example", None),
            rule(RuleAction::Append, RuleMode::Equal, false, "host.lan", Some("10.0.0.5")),
            rule(RuleAction::Deny, RuleMode::StartsWith, true, "keep.", None),
        ]
    );
    assert_eq!(parse_rules(""), Ok(vec![]));
}

#[test]
fn rule_file_with_a_bad_line_fails() {
    assert_eq!(parse_rules("deny a\nnope b\ndeny c"), Err(DnsError::BadRule));
    assert_eq!(parse_rules("deny"), Err(DnsError::BadRule));
}

#[test]
fn first_matching_rule_is_returned() {
    let rules = vec![
        rule(RuleAction::Deny, RuleMode::Equal, false, "exact.example", None),
        rule(RuleAction::Append, RuleMode::EndsWith, false, ".example", Some("1.1.1.1")),
        rule(RuleAction::Deny, RuleMode::StartsWith, false, "www.", None),
        rule(RuleAction::Append, RuleMode::EndsWith, false, "", Some("2.2.2.2")),
    ];
    assert_eq!(match_rule(&rules, "exact.example"), Some(rules[0].clone()));
    assert_eq!(match_rule(&rules, "www.example"), Some(rules[1].clone()));
    assert_eq!(match_rule(&rules, "www.other"), Some(rules[2].clone()));
    assert_eq!(match_rule(&rules, "other"), Some(rules[3].clone()));
    assert_eq!(match_rule(&rules[..3].to_vec(), "other"), None);
    assert_eq!(match_rule(&vec![], "anything"), None);
}

#[test]
fn negated_rule_matches_what_the_pattern_refuses() {
    let rules = vec![rule(RuleAction::Deny, RuleMode::EndsWith, true, ".corp.local", None)];
    assert_eq!(match_rule(&rules, "extern.com"), Some(rules[0].clone()));
    assert_eq!(match_rule(&rules, "pc.corp.local"), None);
}

#[test]
fn matching_is_case_sensitive() {
    let rules = vec![rule(RuleAction::Deny, RuleMode::Equal, false, "Host.lan", None)];
    assert_eq!(match_rule(&rules, "host.lan"), None);
    assert_eq!(match_rule(&rules, "Host.lan"), Some(rules[0].clone()));
}

#[test]
fn key_longer_than_name_does_not_match() {
    let rules = vec![
        rule(RuleAction::Deny, RuleMode::EndsWith, false, "long.example", None),
        rule(RuleAction::Deny, RuleMode::StartsWith, false, "long.example", None),
    ];
    assert_eq!(match_rule(&rules, "example"), None);
    assert_eq!(match_rule(&rules, "long"), None);
}

fn file(name: &str, text: &str) -> RuleFile {
    RuleFile { name: name.to_string(), text: text.to_string() }
}

#[test]
fn directory_reads_only_rule_files() {
    assert!(is_rules_file("ads.rules"));
    assert!(is_rules_file(".rules"));
    assert!(!is_rules_file("ads.rules.bak"));
    assert!(!is_rules_file("rules"));
    let files = vec![
        file("a.rules", "deny a"),
        file("notes.txt", "this is no rule"),
        file("b.rules", "deny b\ndeny c"),
    ];
    let rules = parse_rules_dir(&files).unwrap();
    let keys: Vec<&str> = rules.iter().map(|r| r.key.as_str()).collect();
    assert_eq!(keys, vec!["a", "b", "c"]);
    let bad = vec![file("a.rules", "deny a"), file("b.rules", "oops")];
    assert_eq!(parse_rules_dir(&bad), Err(DnsError::BadRule));
}

fn source(load_as: &str) -> RulesSettings {
    RulesSettings { load_as: load_as.to_string(), path: "./rules".to_string() }
}

#[test]
fn configured_sources_are_read_in_order() {
    assert_eq!(load_kind(&source("file")), LoadKind::File);
    assert_eq!(load_kind(&source("dir")), LoadKind::Dir);
    assert_eq!(load_kind(&source("url")), LoadKind::Skip);
    assert_eq!(load_kind(&source("")), LoadKind::Skip);
    let config = vec![source("file"), source("zip"), source("dir"), source("file")];
    let loaded = vec![
        // A single file is read whatever its name.
        vec![file("my.list", "deny one")],
        vec![file("x.rules", "deny skipped")],
        vec![file("readme", "nothing"), file("two.rules", "deny two")],
    ];
    let rules = parse_rules_config(&config, &loaded).unwrap();
    let keys: Vec<&str> = rules.iter().map(|r| r.key.as_str()).collect();
    assert_eq!(keys, vec!["one", "two"]);
    let broken = vec![vec![file("my.list", "bad line")]];
    assert_eq!(parse_rules_config(&config, &broken), Err(DnsError::BadRule));
    assert_eq!(parse_rules_config(&vec![], &loaded), Ok(vec![]));
}
