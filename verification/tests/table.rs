use std::collections::HashMap;
use throttle::table::{Duplicate, Table};
use throttle::text::{
    characters, decimal_text, is_whitespace, points_for_commas, same_text, text_digest, trim,
};
use throttle::types::{ProcessStats, Rule, Snapshot};

fn rule(down: u64) -> Rule {
    Rule { down_limit: Some(down), ..Rule::default() }
}

#[test]
fn entries_are_found_replaced_and_removed() {
    let mut table: Table<String, Rule> = Table::new();
    for n in 0..200 {
        table.insert(format!("p{n}"), rule(n));
    }
    table.insert("p7".to_string(), rule(1000));
    assert_eq!(table.len(), 200);
    assert_eq!(table.get("p7"), Some(&rule(1000)));
    for n in (0..200).step_by(2) {
        table.remove(format!("p{n}").as_str());
    }
    table.remove("nowhere");
    assert_eq!(table.len(), 100);
    for n in 0..200 {
        assert_eq!(table.contains_key(format!("p{n}").as_str()), n % 2 == 1);
    }
    assert_eq!(table.find("p0"), None);
    let at = table.find("p199").unwrap();
    assert_eq!(table.key(at), "p199");
    assert_eq!(table.replace(at, rule(5)), rule(199));
    assert_eq!(table.value(at), &rule(5));
}

#[test]
fn numbers_can_be_keys() {
    let mut table: Table<u32, Rule> = Table::new();
    table.insert(4, rule(1));
    table.insert(u32::MAX, rule(2));
    assert_eq!(table.get(&4), Some(&rule(1)));
    assert_eq!(table.get(&5), None);
}

#[test]
fn a_duplicate_stands_alone() {
    let mut table: Table<String, Rule> = Table::new();
    table.insert("a".to_string(), rule(1));
    let copy = table.duplicate();
    table.remove("a");
    assert_eq!(copy.get("a"), Some(&rule(1)));
    assert_eq!(table.len(), 0);
}

#[test]
fn texts_are_compared_and_cut() {
    assert!(same_text("größe", "größe"));
    assert!(!same_text("a", "b"));
    assert!(!same_text("a", "ab"));
    assert_eq!(characters("aß▼"), vec!['a', 'ß', '▼']);
    assert_eq!(decimal_text(0), "0");
    assert_eq!(decimal_text(u64::MAX), "18446744073709551615");
    for text in ["", "  ", " a b ", "\u{3000}x", "x\r\n"] {
        assert_eq!(trim(text), text.trim());
    }
    for c in '\0'..=char::MAX {
        assert_eq!(is_whitespace(c), c.is_whitespace(), "{c:?}");
    }
    assert_eq!(points_for_commas(",a,,"), ".a..");
    // The digest is the one known as FNV-1a.
    assert_eq!(text_digest(""), 0xcbf2_9ce4_8422_2325);
    assert_eq!(text_digest("a"), 0xaf63_dc4c_8601_ec8c);
}

#[test]
fn defaults_are_empty() {
    let stats = ProcessStats::default();
    assert_eq!((stats.pid, stats.name.as_str(), stats.flow_count), (0, "", 0));
    assert!(stats.down_history.is_empty());
    let snapshot = Snapshot::default();
    assert_eq!((snapshot.processes.len(), snapshot.rules.len()), (0, 0));
    assert_eq!((snapshot.total_down_rate, snapshot.total_up_rate), (0, 0));
}

#[test]
fn the_last_entry_takes_a_removed_ones_place() {
    let mut table: Table<String, Rule> = Table::new();
    for name in ["a", "b", "c", "d"] {
        table.insert(name.to_string(), rule(1));
    }
    table.remove("b");
    let keys: Vec<&str> = (0..table.len()).map(|i| table.key(i).as_str()).collect();
    assert_eq!(keys, vec!["a", "d", "c"]);
    table.remove("c");
    table.remove("a");
    assert_eq!((table.len(), table.find("d")), (1, Some(0)));
    table.remove("d");
    assert_eq!((table.len(), table.find("d")), (0, None));
}

#[test]
fn a_table_agrees_with_a_map() {
    let mut table: Table<u32, Rule> = Table::new();
    let mut map: HashMap<u32, u64> = HashMap::new();
    let mut n: u64 = 7;
    for step in 0..5_000u64 {
        n = n.wrapping_mul(6364136223846793005).wrapping_add(1442695040888963407);
        let key = (n >> 33) as u32 % 97;
        if n >> 63 == 0 {
            table.insert(key, rule(step));
            map.insert(key, step);
        } else {
            table.remove(&key);
            map.remove(&key);
        }
        assert_eq!(table.len(), map.len());
    }
    for key in 0..97 {
        let found = table.get(&key).map(|r| r.down_limit.unwrap());
        assert_eq!(found, map.get(&key).copied());
    }
}
