use throttle::backend::rules::{
    config_dir, listing, load, log_path, remove_rule, rules_path, set_rule, RulesFile,
};
use throttle::table::Table;
use throttle::types::Rule;

#[test]
fn rule_defaults_are_unlimited_and_unblocked() {
    let r = Rule::default();
    assert!(r.down_limit.is_none());
    assert!(r.up_limit.is_none());
    assert!(!r.blocked);
}

fn rule(path: &str, down: Option<u64>) -> Rule {
    Rule { exe_path: path.to_string(), down_limit: down, ..Rule::default() }
}

#[test]
fn paths_stand_under_appdata_or_here() {
    let appdata = Some("C:\\Users\\me\\AppData\\Roaming".to_string());
    let base = "C:\\Users\\me\\AppData\\Roaming";
    assert_eq!(config_dir(appdata.clone()), vec![base, "Throttle"]);
    assert_eq!(rules_path(appdata.clone()), vec![base, "Throttle", "rules.json"]);
    assert_eq!(log_path(appdata), vec![base, "Throttle", "throttle.log"]);
    assert_eq!(config_dir(None), vec![".", "Throttle"]);
    assert_eq!(rules_path(None), vec![".", "Throttle", "rules.json"]);
    assert_eq!(log_path(None), vec![".", "throttle.log"]);
}

#[test]
fn anything_but_rules_loads_as_empty() {
    assert_eq!(load(RulesFile::Missing).len(), 0);
    assert_eq!(load(RulesFile::Unreadable).len(), 0);
    assert_eq!(load(RulesFile::Corrupt).len(), 0);
}

#[test]
fn loaded_keys_and_paths_are_in_lowercase() {
    let listed = vec![
        ("C:\\App\\ÄPFEL.exe".to_string(), rule("C:\\App\\ÄPFEL.exe", Some(1))),
        ("b.exe".to_string(), rule("B.EXE", Some(2))),
        ("B.exe".to_string(), rule("b.exe", Some(3))),
    ];
    let rules = load(RulesFile::Rules(listed));
    assert_eq!(rules.len(), 2);
    let apples = rules.get("c:\\app\\äpfel.exe").unwrap();
    assert_eq!(apples.exe_path, "c:\\app\\äpfel.exe");
    assert_eq!(apples.down_limit, Some(1));
    // Of two spellings of one key the later counts.
    assert_eq!(rules.get("b.exe").unwrap().down_limit, Some(3));
}

#[test]
fn rules_are_set_and_removed_under_their_lowercase_path() {
    let mut rules: Table<String, Rule> = Table::new();
    set_rule(&mut rules, rule("C:\\A.EXE", Some(10)));
    set_rule(&mut rules, rule("c:\\b.exe", Some(20)));
    assert_eq!(rules.get("c:\\a.exe").unwrap(), &rule("c:\\a.exe", Some(10)));
    set_rule(&mut rules, rule("c:\\a.EXE", None));
    assert_eq!(rules.get("c:\\a.exe").unwrap().down_limit, None);
    assert_eq!(rules.len(), 2);
    assert_eq!(remove_rule(&mut rules, "C:\\A.exe"), "c:\\a.exe");
    assert!(rules.get("c:\\a.exe").is_none());
    assert_eq!(rules.get("c:\\b.exe").unwrap().down_limit, Some(20));
    assert_eq!(remove_rule(&mut rules, "c:\\none.exe"), "c:\\none.exe");
    assert_eq!(rules.len(), 1);
}

#[test]
fn listed_rules_load_back() {
    let steam = Rule {
        exe_path: "c:\\program files\\steam\\steam.exe".to_string(),
        down_limit: Some(2 * 1024 * 1024),
        up_limit: None,
        blocked: false,
    };
    let curl = Rule {
        exe_path: "c:\\windows\\system32\\curl.exe".to_string(),
        down_limit: None,
        up_limit: Some(512 * 1024),
        blocked: true,
    };
    let mut rules: Table<String, Rule> = Table::new();
    set_rule(&mut rules, steam.clone());
    set_rule(&mut rules, curl.clone());
    let listed = listing(&rules);
    assert_eq!(listed.len(), 2);
    let back = load(RulesFile::Rules(listed));
    assert_eq!(back.len(), 2);
    assert_eq!(back.get("c:\\program files\\steam\\steam.exe"), Some(&steam));
    assert_eq!(back.get("c:\\windows\\system32\\curl.exe"), Some(&curl));
}

#[test]
fn no_rules_load_back_as_none() {
    let listed = listing(&Table::new());
    assert!(listed.is_empty());
    assert_eq!(load(RulesFile::Rules(listed)).len(), 0);
}
