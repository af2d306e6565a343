//! The rule set, and where it is kept: `%APPDATA%\Throttle\rules.json`.
//!
//! Rules are keyed by lowercase executable path (the same key the flow table
//! and the window use). A missing file is treated as an empty rule set; read
//! and parse errors also fall back to empty so a corrupt file never crashes the
//! backend.

use crate::table::{lemma_no_entries, lemma_take, to_map, unique_keys, Duplicate, Table};
use crate::text::{lowercase, to_lowercase};
use crate::types::{Rule, RuleView};
use vstd::prelude::*;
use vstd::string::*;

verus! {

broadcast use vstd::string::group_string_axioms;

/// The components of a path, outermost first.
pub open spec fn components(path: Seq<String>) -> Seq<Seq<char>> {
    Seq::new(path.len(), |i: int| path[i]@)
}

/// The directory under which state is kept: `%APPDATA%`, or the current
/// directory if that is not set.
pub open spec fn base_dir(appdata: Option<String>) -> Seq<char> {
    match appdata {
        Some(dir) => dir@,
        None => "."@,
    }
}

/// Directory that holds our persisted state: `%APPDATA%\Throttle`. APPDATA is
/// always set for interactive users on Windows. If it is somehow absent
/// (unusual service contexts), fall back to the current directory so we still
/// have somewhere to write.
pub fn config_dir(appdata: Option<String>) -> (path: Vec<String>)
    ensures
        components(path@) == seq![base_dir(appdata), "Throttle"@],
{
    let base = match appdata {
        Some(dir) => dir,
        None => ".".to_string(),
    };
    let mut path: Vec<String> = Vec::new();
    path.push(base);
    path.push("Throttle".to_string());
    assert(components(path@) =~= seq![base_dir(appdata), "Throttle"@]);
    path
}

/// Full path to the rules file.
pub fn rules_path(appdata: Option<String>) -> (path: Vec<String>)
    ensures
        components(path@) == seq![base_dir(appdata), "Throttle"@, "rules.json"@],
{
    let mut path = config_dir(appdata);
    let ghost dir = components(path@);
    path.push("rules.json".to_string());
    assert(components(path@) =~= dir.push("rules.json"@));
    assert(components(path@) =~= seq![base_dir(appdata), "Throttle"@, "rules.json"@]);
    path
}

/// Full path to the file that the program logs to. Without `%APPDATA%` it
/// stands in the current directory itself.
pub fn log_path(appdata: Option<String>) -> (path: Vec<String>)
    ensures
        components(path@) == (match appdata {
            Some(dir) => seq![dir@, "Throttle"@, "throttle.log"@],
            None => seq!["."@, "throttle.log"@],
        }),
{
    let mut path: Vec<String> = Vec::new();
    match appdata {
        Some(dir) => {
            path.push(dir);
            path.push("Throttle".to_string());
            path.push("throttle.log".to_string());
            assert(components(path@) =~= seq![dir@, "Throttle"@, "throttle.log"@]);
        },
        None => {
            path.push(".".to_string());
            path.push("throttle.log".to_string());
            assert(components(path@) =~= seq!["."@, "throttle.log"@]);
        },
    }
    path
}

/// A rule with its path in lowercase.
pub open spec fn normalized(rule: RuleView) -> RuleView {
    RuleView { exe_path: lowercase(rule.exe_path), ..rule }
}

/// The rule set after a rule was set.
pub open spec fn with_rule(
    rules: Map<Seq<char>, RuleView>,
    rule: RuleView,
) -> Map<Seq<char>, RuleView> {
    rules.insert(lowercase(rule.exe_path), normalized(rule))
}

/// Insert or replace the rule for `rule.exe_path`.
pub fn set_rule(rules: &mut Table<String, Rule>, rule: Rule)
    requires
        old(rules).wf(),
    ensures
        final(rules).wf(),
        final(rules)@ == with_rule(old(rules)@, rule@),
{
    let key = to_lowercase(rule.exe_path.as_str());
    let rule = Rule {
        exe_path: key.clone(),
        down_limit: rule.down_limit,
        up_limit: rule.up_limit,
        blocked: rule.blocked,
    };
    rules.insert(key, rule);
}

/// Remove any rule for `path`.
pub fn remove_rule(rules: &mut Table<String, Rule>, path: &str) -> (key: String)
    requires
        old(rules).wf(),
    ensures
        final(rules).wf(),
        key@ == lowercase(path@),
        final(rules)@ == old(rules)@.remove(lowercase(path@)),
{
    let key = to_lowercase(path);
    rules.remove(key.as_str());
    key
}

/// What came of reading the rules file.
pub enum RulesFile {
    /// There is no file yet.
    Missing,
    /// It could not be read.
    Unreadable,
    /// It holds something else than rules.
    Corrupt,
    /// The rules it holds, with the keys they stand under.
    Rules(Vec<(String, Rule)>),
}

/// The rule set that a list of rules amounts to, with keys and paths in
/// lowercase. Of two rules whose keys differ in case only, the later counts.
pub open spec fn rule_set(listed: Seq<(String, Rule)>) -> Map<Seq<char>, RuleView>
    decreases listed.len(),
{
    if listed.len() == 0 {
        Map::empty()
    } else {
        let (key, rule) = listed.last();
        rule_set(listed.drop_last()).insert(lowercase(key@), normalized(rule@))
    }
}

/// What a list of rules says.
pub open spec fn listed_views(listed: Seq<(String, Rule)>) -> Seq<(Seq<char>, RuleView)> {
    Seq::new(listed.len(), |i: int| (listed[i].0@, listed[i].1@))
}

/// The rules to persist, with the keys they stand under.
pub fn listing(rules: &Table<String, Rule>) -> (listed: Vec<(String, Rule)>)
    ensures
        listed_views(listed@) == rules.entries(),
{
    let mut listed: Vec<(String, Rule)> = Vec::new();
    let mut i: usize = 0;
    while i < rules.len()
        invariant
            i <= rules.entries().len(),
            listed_views(listed@) == rules.entries().take(i as int),
        decreases rules.entries().len() - i,
    {
        let ghost before = listed_views(listed@);
        listed.push((rules.key(i).clone(), rules.value(i).duplicate()));
        assert(listed_views(listed@) =~= before.push(rules.entries()[i as int]));
        assert(rules.entries().take(i + 1) =~= before.push(rules.entries()[i as int]));
        i = i + 1;
    }
    assert(rules.entries().take(i as int) =~= rules.entries());
    listed
}

/// The persisted rules. Missing file or any error => empty set. Keys are
/// normalised to lowercase so lookups by the engine match regardless of how the
/// file was written.
pub fn load(file: RulesFile) -> (rules: Table<String, Rule>)
    ensures
        rules.wf(),
        rules@ == (match file {
            RulesFile::Rules(listed) => rule_set(listed@),
            _ => Map::empty(),
        }),
{
    let mut rules: Table<String, Rule> = Table::new();
    match file {
        RulesFile::Rules(listed) => {
            let mut i: usize = 0;
            assert(listed@.take(0) =~= Seq::<(String, Rule)>::empty());
            while i < listed.len()
                invariant
                    i <= listed.len(),
                    rules.wf(),
                    rules@ == rule_set(listed@.take(i as int)),
                decreases listed.len() - i,
            {
                proof {
                    assert(listed@.take(i + 1).drop_last() =~= listed@.take(i as int));
                    assert(listed@.take(i + 1).last() == listed@[i as int]);
                }
                let key = to_lowercase(listed[i].0.as_str());
                let rule = &listed[i].1;
                let rule = Rule {
                    exe_path: to_lowercase(rule.exe_path.as_str()),
                    down_limit: rule.down_limit,
                    up_limit: rule.up_limit,
                    blocked: rule.blocked,
                };
                rules.insert(key, rule);
                i = i + 1;
            }
            assert(listed@.take(i as int) =~= listed@);
        },
        _ => {},
    }
    rules
}

/// A rule that was set is found under its path in lowercase, with its limits
/// as given; rules for other paths are as before.
pub proof fn law_set_rule_is_found(
    rules: Map<Seq<char>, RuleView>,
    rule: RuleView,
    other: Seq<char>,
)
    ensures
        with_rule(rules, rule).contains_key(lowercase(rule.exe_path)),
        with_rule(rules, rule)[lowercase(rule.exe_path)] == normalized(rule),
        other != lowercase(rule.exe_path) ==> with_rule(rules, rule).contains_key(other)
            == rules.contains_key(other) && with_rule(rules, rule)[other] == rules[other],
{
}

/// Removing a rule that was just set leaves the set as if it had never held a
/// rule for that path.
pub proof fn law_removing_undoes_setting(rules: Map<Seq<char>, RuleView>, rule: RuleView)
    ensures
        with_rule(rules, rule).remove(lowercase(rule.exe_path)) == rules.remove(
            lowercase(rule.exe_path),
        ),
{
    assert(with_rule(rules, rule).remove(lowercase(rule.exe_path)) =~= rules.remove(
        lowercase(rule.exe_path),
    ));
}

/// What is persisted is loaded again, provided that keys and paths are in
/// lowercase already.
pub proof fn law_persisted_rules_are_loaded_again(
    entries: Seq<(Seq<char>, RuleView)>,
    listed: Seq<(String, Rule)>,
)
    requires
        unique_keys(entries),
        listed_views(listed) == entries,
        forall|i: int|
            0 <= i < entries.len() ==> {
                let (key, rule) = #[trigger] entries[i];
                lowercase(key) == key && lowercase(rule.exe_path) == rule.exe_path
            },
    ensures
        rule_set(listed) == to_map(entries),
    decreases entries.len(),
{
    if entries.len() == 0 {
        lemma_no_entries(entries);
    } else {
        let n = entries.len() - 1;
        let (key, rule) = entries[n];
        assert(entries[n] == listed_views(listed)[n]);
        assert(listed_views(listed.drop_last()) =~= entries.drop_last());
        assert(entries.drop_last() =~= entries.take(n));
        lemma_take(entries, n);
        law_persisted_rules_are_loaded_again(entries.drop_last(), listed.drop_last());
        assert(normalized(rule) == rule);
        assert(entries.take(n + 1) =~= entries);
    }
}

/// Every key of a loaded rule set is in lowercase.
pub proof fn law_loaded_keys_are_lowercase(listed: Seq<(String, Rule)>, key: Seq<char>)
    requires
        rule_set(listed).contains_key(key),
    ensures
        exists|i: int| 0 <= i < listed.len() && key == lowercase((#[trigger] listed[i]).0@),
    decreases listed.len(),
{
    let (last, rule) = listed.last();
    if key == lowercase(last@) {
        assert(key == lowercase(listed[listed.len() - 1].0@));
    } else {
        let rest = listed.drop_last();
        law_loaded_keys_are_lowercase(rest, key);
        let i = choose|i: int| 0 <= i < rest.len() && key == lowercase((#[trigger] rest[i]).0@);
        assert(key == lowercase(listed[i].0@));
    }
}

/// A rule that was set says what it was given, limit for limit, under its path
/// in lowercase.
pub proof fn law_set_rule_says_the_same(rules: Map<Seq<char>, RuleView>, rule: RuleView)
    ensures
        ({
            let found = with_rule(rules, rule)[lowercase(rule.exe_path)];
            &&& with_rule(rules, rule).contains_key(lowercase(rule.exe_path))
            &&& found.exe_path == lowercase(rule.exe_path)
            &&& found.down_limit == rule.down_limit
            &&& found.up_limit == rule.up_limit
            &&& found.blocked == rule.blocked
        }),
{
}

/// Of the rules in a list that share a key but for case the last one counts, limit
/// for limit; every key in the list has a rule.
pub proof fn law_last_listed_rule_counts(listed: Seq<(String, Rule)>, i: int)
    requires
        0 <= i < listed.len(),
        forall|j: int|
            i < j < listed.len() ==> lowercase((#[trigger] listed[j]).0@) != lowercase(
                listed[i].0@,
            ),
    ensures
        ({
            let key = lowercase(listed[i].0@);
            let found = rule_set(listed)[key];
            &&& rule_set(listed).contains_key(key)
            &&& found.exe_path == lowercase(listed[i].1.exe_path@)
            &&& found.down_limit == listed[i].1.down_limit
            &&& found.up_limit == listed[i].1.up_limit
            &&& found.blocked == listed[i].1.blocked
        }),
    decreases listed.len(),
{
    let rest = listed.drop_last();
    if i < rest.len() {
        assert forall|j: int| i < j < rest.len() implies lowercase((#[trigger] rest[j]).0@)
            != lowercase(rest[i].0@) by {
            assert(rest[j] == listed[j]);
        }
        law_last_listed_rule_counts(rest, i);
        assert(lowercase(listed[listed.len() - 1].0@) != lowercase(listed[i].0@));
    }
}

/// State is kept under `%APPDATA%` where that is set, and else in the current
/// directory.
pub proof fn law_state_has_a_directory(dir: String)
    ensures
        base_dir(Some(dir)) == dir@,
        base_dir(None) == "."@,
{
}

} // verus!
