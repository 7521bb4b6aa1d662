use declutter::config::{parse_file_size, parse_yaml_ruleset, ConfigError, ConfigValue};
use declutter::rules::{extension_of, EntryKind, EntryMeta, EntryType, Rule, RuleSet};
use declutter::scan::{scan, Entry, IoErrorKind};

fn s(text: &str) -> String {
    text.to_string()
}

fn key(text: &str) -> ConfigValue {
    ConfigValue::Str(s(text))
}

fn mapping(pairs: Vec<(&str, ConfigValue)>) -> ConfigValue {
    ConfigValue::Mapping(pairs.into_iter().map(|(k, v)| (key(k), v)).collect())
}

fn file(name: &str, size: u64) -> Entry {
    Entry {
        name: s(name),
        meta: Some(EntryMeta { kind: EntryKind::File, size }),
        children: None,
    }
}

fn dir(name: &str, children: Vec<Entry>) -> Entry {
    Entry {
        name: s(name),
        meta: Some(EntryMeta { kind: EntryKind::Dir, size: 0 }),
        children: Some(children),
    }
}

fn run_scan(root: &Entry, ruleset: &RuleSet) -> (Result<bool, declutter::scan::IoError>, Vec<String>) {
    let mut out: Vec<String> = Vec::new();
    let r = scan(root, &s("."), ruleset, &mut out);
    (r, out)
}

#[test]
fn scenario_allow_name_recursive() {
    let cfg = mapping(vec![
        ("recursive", ConfigValue::Bool(true)),
        ("allow-name", ConfigValue::List(vec![key("README.md")])),
    ]);
    let ruleset = parse_yaml_ruleset(&cfg).unwrap();
    assert!(ruleset.recursive);
    let root = dir(
        "root",
        vec![
            file("README.md", 10),
            file("notes.txt", 20),
            dir("src", vec![file("a.rs", 30)]),
        ],
    );
    let (r, out) = run_scan(&root, &ruleset);
    assert_eq!(r.unwrap(), false);
    assert_eq!(out, vec![s("./notes.txt"), s("./src/a.rs")]);
}

#[test]
fn scenario_non_recursive_types() {
    let cfg = mapping(vec![
        ("recursive", ConfigValue::Bool(false)),
        ("allow-type", ConfigValue::List(vec![key("dir"), key(".txt")])),
    ]);
    let ruleset = parse_yaml_ruleset(&cfg).unwrap();
    assert!(!ruleset.recursive);
    let root = dir(
        "root",
        vec![
            dir("sub", vec![file("junk.bin", 5)]),
            file("a.txt", 1),
            file("b.md", 2),
        ],
    );
    let (r, out) = run_scan(&root, &ruleset);
    assert_eq!(r.unwrap(), false);
    // The subdirectory is allowed and never entered, so junk.bin is not seen.
    assert_eq!(out, vec![s("./b.md")]);
}

#[test]
fn scenario_rules_are_alternatives() {
    let cfg = mapping(vec![
        ("allow-type", ConfigValue::List(vec![key(".log")])),
        ("max-size", key("1KB")),
    ]);
    let ruleset = parse_yaml_ruleset(&cfg).unwrap();
    // Two separate rules from the two keys, plus the appended directory rule
    // (recursive defaults to true and no AllowType rule listed `dir`).
    assert_eq!(
        ruleset.rules,
        vec![
            Rule::AllowType(vec![EntryType::Ext(s("log"))]),
            Rule::MaxSize(1000),
            Rule::AllowType(vec![EntryType::Dir]),
        ]
    );
    // A .log file of 2000 bytes exceeds max-size but already matches the
    // AllowType rule: rules are OR'd, not AND'd.
    let root = dir("root", vec![file("big.log", 2000)]);
    let (r, out) = run_scan(&root, &ruleset);
    assert_eq!(r.unwrap(), true);
    assert!(out.is_empty());
}

#[test]
fn scenario_empty_mapping_rejected() {
    let cfg = ConfigValue::Mapping(vec![]);
    assert_eq!(parse_yaml_ruleset(&cfg), Err(ConfigError::EmptyRuleSet));
}

#[test]
fn no_rule_keys_rejected() {
    let cfg = mapping(vec![("recursive", ConfigValue::Bool(false))]);
    assert_eq!(parse_yaml_ruleset(&cfg), Err(ConfigError::EmptyRuleSet));
}

#[test]
fn recursive_ruleset_keeps_directories_traversable() {
    let cfg = mapping(vec![("allow-name", key("Makefile"))]);
    let ruleset = parse_yaml_ruleset(&cfg).unwrap();
    assert!(ruleset.recursive);
    assert!(ruleset.rules.iter().any(|rule| match rule {
        Rule::AllowType(ts) => ts.contains(&EntryType::Dir),
        _ => false,
    }));
}

#[test]
fn existing_dir_type_not_duplicated() {
    let cfg = mapping(vec![("allow-type", key("dir"))]);
    let ruleset = parse_yaml_ruleset(&cfg).unwrap();
    // The scalar stands for a one-element list, and the rule already allows
    // directories, so nothing is appended.
    assert_eq!(ruleset.rules, vec![Rule::AllowType(vec![EntryType::Dir])]);
}

#[test]
fn size_bounds_are_inclusive() {
    let meta = EntryMeta { kind: EntryKind::File, size: 100 };
    assert!(Rule::MinSize(100).check("f", &meta));
    assert!(Rule::MaxSize(100).check("f", &meta));
    assert!(!Rule::MinSize(101).check("f", &meta));
    assert!(!Rule::MaxSize(99).check("f", &meta));
}

#[test]
fn evaluation_is_idempotent() {
    let rule = Rule::AllowName(vec![s("a.txt")]);
    let meta = EntryMeta { kind: EntryKind::File, size: 1 };
    let first = rule.check("a.txt", &meta);
    let second = rule.check("a.txt", &meta);
    assert_eq!(first, second);
    assert!(first);
}

#[test]
fn size_literals_parse_exactly() {
    assert_eq!(parse_file_size(&key("1KB")), Ok(1000));
    assert_eq!(parse_file_size(&key("1KiB")), Ok(1024));
    assert_eq!(parse_file_size(&key("10MB")), Ok(10_000_000));
    assert_eq!(parse_file_size(&ConfigValue::Int(4096)), Ok(4096));
}

#[test]
fn bad_size_literals_rejected() {
    assert_eq!(parse_file_size(&key("wat")), Err(ConfigError::InvalidSizeLiteral));
    assert_eq!(
        parse_file_size(&ConfigValue::Int(-5)),
        Err(ConfigError::InvalidSizeLiteral)
    );
    // A size of any other shape names no byte count either.
    assert_eq!(
        parse_file_size(&ConfigValue::Bool(true)),
        Err(ConfigError::InvalidSizeLiteral)
    );
    assert_eq!(
        parse_file_size(&ConfigValue::List(vec![])),
        Err(ConfigError::InvalidSizeLiteral)
    );
}

#[test]
fn size_literals_at_the_u64_boundary() {
    // Exactly u64::MAX parses.
    assert_eq!(
        parse_file_size(&key("18446744073709551615")),
        Ok(u64::MAX)
    );
    // One more digit overflows inside the size parser's rounding when the
    // extra digit rounds up; such literals are rejected before the call.
    assert_eq!(
        parse_file_size(&key("184467440737095516155")),
        Err(ConfigError::InvalidSizeLiteral)
    );
    assert_eq!(
        parse_file_size(&key("18446744073709551615.5")),
        Err(ConfigError::InvalidSizeLiteral)
    );
    assert_eq!(
        parse_file_size(&key("18_446_744_073_709_551_615_5")),
        Err(ConfigError::InvalidSizeLiteral)
    );
    // With a low extra digit there is no rounding: the parser itself
    // reports the overflow.
    assert_eq!(
        parse_file_size(&key("184467440737095516154")),
        Err(ConfigError::InvalidSizeLiteral)
    );
}

#[test]
fn unknown_key_rejected() {
    let cfg = mapping(vec![("allow-names", key("x"))]);
    assert_eq!(
        parse_yaml_ruleset(&cfg),
        Err(ConfigError::UnknownKey(s("allow-names")))
    );
}

#[test]
fn invalid_extension_rejected() {
    let cfg = mapping(vec![("allow-type", key("log"))]);
    assert_eq!(
        parse_yaml_ruleset(&cfg),
        Err(ConfigError::InvalidExtension(s("log")))
    );
}

#[test]
fn wrong_value_types_rejected() {
    let cfg = mapping(vec![("recursive", ConfigValue::Int(1))]);
    assert_eq!(parse_yaml_ruleset(&cfg), Err(ConfigError::WrongValueType));
    assert_eq!(
        parse_yaml_ruleset(&key("not-a-mapping")),
        Err(ConfigError::WrongValueType)
    );
    let cfg = mapping(vec![("allow-name", ConfigValue::List(vec![ConfigValue::Int(3)]))]);
    assert_eq!(parse_yaml_ruleset(&cfg), Err(ConfigError::WrongValueType));
}

#[test]
fn extensions_follow_the_final_dot() {
    assert_eq!(extension_of("archive.tar.gz"), Some(s("gz")));
    assert_eq!(extension_of("a.txt"), Some(s("txt")));
    assert_eq!(extension_of("trailing."), Some(s("")));
    assert_eq!(extension_of(".gitignore"), None);
    assert_eq!(extension_of("noext"), None);
}

#[test]
fn type_checks_read_kind_and_extension() {
    let file_meta = EntryMeta { kind: EntryKind::File, size: 0 };
    let dir_meta = EntryMeta { kind: EntryKind::Dir, size: 0 };
    assert!(EntryType::Dir.check("x", &dir_meta));
    assert!(!EntryType::Dir.check("x", &file_meta));
    assert!(EntryType::File.check("x", &file_meta));
    assert!(EntryType::Ext(s("txt")).check("a.txt", &file_meta));
    assert!(!EntryType::Ext(s("txt")).check("a.md", &file_meta));
    assert!(!EntryType::Ext(s("txt")).check("a.TXT", &file_meta));
}

#[test]
fn name_matching_is_exact() {
    let meta = EntryMeta { kind: EntryKind::File, size: 0 };
    let rule = Rule::AllowName(vec![s("README.md")]);
    assert!(rule.check("README.md", &meta));
    assert!(!rule.check("readme.md", &meta));
    assert!(!rule.check("README.md.bak", &meta));
}

#[test]
fn scan_reports_every_violation_once() {
    let cfg = mapping(vec![("allow-type", ConfigValue::List(vec![key(".rs")]))]);
    let ruleset = parse_yaml_ruleset(&cfg).unwrap();
    let root = dir(
        "root",
        vec![
            file("a.rs", 1),
            file("b.txt", 1),
            dir("sub", vec![file("c.txt", 1), file("d.rs", 1), file("e.log", 1)]),
            file("f.md", 1),
        ],
    );
    let (r, out) = run_scan(&root, &ruleset);
    assert_eq!(r.unwrap(), false);
    assert_eq!(
        out,
        vec![s("./b.txt"), s("./sub/c.txt"), s("./sub/e.log"), s("./f.md")]
    );
}

#[test]
fn min_size_boundary_in_a_scan() {
    let cfg = mapping(vec![("min-size", ConfigValue::Int(100))]);
    let ruleset = parse_yaml_ruleset(&cfg).unwrap();
    let root = dir("root", vec![file("exact", 100), file("small", 99)]);
    let (r, out) = run_scan(&root, &ruleset);
    assert_eq!(r.unwrap(), false);
    assert_eq!(out, vec![s("./small")]);
}

#[test]
fn scan_root_must_be_a_directory() {
    let cfg = mapping(vec![("allow-type", key("dir"))]);
    let ruleset = parse_yaml_ruleset(&cfg).unwrap();
    let root = file("plain", 1);
    let (r, out) = run_scan(&root, &ruleset);
    assert_eq!(r.unwrap_err().kind, IoErrorKind::NotADirectory);
    assert!(out.is_empty());
}

#[test]
fn unreadable_listing_fails_the_scan() {
    let cfg = mapping(vec![("allow-type", key("dir"))]);
    let ruleset = parse_yaml_ruleset(&cfg).unwrap();
    let root = Entry {
        name: s("root"),
        meta: Some(EntryMeta { kind: EntryKind::Dir, size: 0 }),
        children: None,
    };
    let (r, out) = run_scan(&root, &ruleset);
    assert_eq!(r.unwrap_err().kind, IoErrorKind::ListFailed);
    assert!(out.is_empty());
}

#[test]
fn unreadable_metadata_fails_the_scan() {
    let cfg = mapping(vec![("allow-type", key("file"))]);
    let ruleset = parse_yaml_ruleset(&cfg).unwrap();
    let opaque = Entry { name: s("ghostly"), meta: None, children: None };
    let root = dir("root", vec![file("fine.txt", 1), opaque]);
    let (r, out) = run_scan(&root, &ruleset);
    let err = r.unwrap_err();
    assert_eq!(err.kind, IoErrorKind::MetadataUnavailable);
    assert_eq!(err.path, s("./ghostly"));
    assert!(out.is_empty());
}

#[test]
fn later_recursive_key_overrides_earlier() {
    let cfg = ConfigValue::Mapping(vec![
        (key("recursive"), ConfigValue::Bool(true)),
        (key("allow-type"), key(".txt")),
        (key("recursive"), ConfigValue::Bool(false)),
    ]);
    let ruleset = parse_yaml_ruleset(&cfg).unwrap();
    assert!(!ruleset.recursive);
    // Not recursive, so no directory rule is appended.
    assert_eq!(ruleset.rules, vec![Rule::AllowType(vec![EntryType::Ext(s("txt"))])]);
}

#[test]
fn violations_inside_allowed_directories_are_found() {
    let cfg = mapping(vec![("allow-type", ConfigValue::List(vec![key("dir")]))]);
    let ruleset = parse_yaml_ruleset(&cfg).unwrap();
    let root = dir("root", vec![dir("a", vec![dir("b", vec![file("deep.txt", 1)])])]);
    let (r, out) = run_scan(&root, &ruleset);
    assert_eq!(r.unwrap(), false);
    assert_eq!(out, vec![s("./a/b/deep.txt")]);
}
