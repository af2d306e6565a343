use throttle::backend::synthetic::{SYSTEM_EXE, UNKNOWN_EXE};
use throttle::gui::format::{
    editable_text, humanize_bytes, humanize_rate, rule_summary, RateUnit,
};
use throttle::gui::sort::{sorted_rows, SortColumn};
use throttle::gui::{
    blue_of, green_of, red_of, Answer, Choice, Direction, ErrorApp, LimitModal, RowMenu,
    ThrottleApp, COLOR_DOWN, TOTAL_HISTORY_LEN,
};
use throttle::table::Table;
use throttle::types::{Command, ProcessStats, Rule, Snapshot};

const APP: &str = "c:\\app\\thing.exe";

#[test]
fn rates_read_in_base_1024_units() {
    assert_eq!(humanize_rate(0), "0 B/s");
    assert_eq!(humanize_rate(1023), "1023 B/s");
    assert_eq!(humanize_rate(1024), "1.0 KB/s");
    assert_eq!(humanize_rate(1536), "1.5 KB/s");
    assert_eq!(humanize_rate(1_048_575), "1024.0 KB/s");
    assert_eq!(humanize_rate(1_048_576), "1.00 MB/s");
    assert_eq!(humanize_rate(2_621_440), "2.50 MB/s");
    assert_eq!(humanize_rate(1_073_741_824), "1.00 GB/s");
    assert_eq!(humanize_rate(5 * 1_099_511_627_776), "5120.00 GB/s");
}

#[test]
fn totals_read_in_base_1024_units() {
    assert_eq!(humanize_bytes(512), "512 B");
    assert_eq!(humanize_bytes(2048), "2.0 KB");
    assert_eq!(humanize_bytes(3 * 1_048_576), "3.00 MB");
    assert_eq!(humanize_bytes(1_610_612_736), "1.50 GB");
    assert_eq!(humanize_bytes(1_099_511_627_776), "1.00 TB");
    assert_eq!(humanize_bytes(u64::MAX), "16777216.00 TB");
}

#[test]
fn texts_agree_with_double_arithmetic() {
    // Ties go to even, and beyond 53 bits an amount is the nearest double.
    assert_eq!(humanize_rate(1280), "1.2 KB/s");
    assert_eq!(humanize_rate(1792), "1.8 KB/s");
    let (kb, mb, gb) = (1024.0, 1_048_576.0, 1_073_741_824.0);
    let mut n: u64 = 1;
    for step in 0..4000u64 {
        let b = n as f64;
        let expected = if b >= gb {
            format!("{:.2} GB/s", b / gb)
        } else if b >= mb {
            format!("{:.2} MB/s", b / mb)
        } else if b >= kb {
            format!("{:.1} KB/s", b / kb)
        } else {
            format!("{n} B/s")
        };
        assert_eq!(humanize_rate(n), expected);
        n = n.wrapping_mul(6364136223846793005).wrapping_add(step) >> (step % 64);
    }
    for exponent in 53..64 {
        for offset in 0..9u64 {
            let n = (1u64 << exponent) + (1u64 << (exponent - 53)) * offset + offset;
            assert_eq!(humanize_rate(n), format!("{:.2} GB/s", n as f64 / gb));
        }
    }
}

#[test]
fn limits_are_split_into_the_largest_unit() {
    assert_eq!(RateUnit::decompose(0), (0, RateUnit::Bps));
    assert_eq!(RateUnit::decompose(1000), (100_000, RateUnit::Bps));
    assert_eq!(RateUnit::decompose(1536), (150, RateUnit::KBps));
    assert_eq!(RateUnit::decompose(2 * 1_048_576), (200, RateUnit::MBps));
    assert_eq!(RateUnit::decompose(u64::MAX), (1_717_986_918_400, RateUnit::GBps));
    let labels: Vec<&str> = RateUnit::all().iter().map(|u| u.label()).collect();
    assert_eq!(labels, vec!["B/s", "KB/s", "MB/s", "GB/s"]);
    let worth: Vec<u64> = RateUnit::all().iter().map(|u| u.multiplier()).collect();
    assert_eq!(worth, vec![1, 1024, 1_048_576, 1_073_741_824]);
}

#[test]
fn editable_numbers_have_no_trailing_zeros() {
    assert_eq!(editable_text(200), "2");
    assert_eq!(editable_text(1000), "10");
    assert_eq!(editable_text(0), "0");
    assert_eq!(editable_text(150), "1.5");
    assert_eq!(editable_text(5), "0.05");
    assert_eq!(editable_text(1234), "12.34");
}

fn rule(path: &str, down: Option<u64>, up: Option<u64>, blocked: bool) -> Rule {
    Rule { exe_path: path.to_string(), down_limit: down, up_limit: up, blocked }
}

#[test]
fn rules_read_in_one_line() {
    assert_eq!(rule_summary(None), "-");
    assert_eq!(rule_summary(Some(&rule(APP, None, None, false))), "-");
    assert_eq!(rule_summary(Some(&rule(APP, Some(1), Some(2), true))), "BLOCKED");
    assert_eq!(rule_summary(Some(&rule(APP, Some(2048), None, false))), "Dn 2.0 KB/s");
    assert_eq!(rule_summary(Some(&rule(APP, None, Some(7), false))), "Up 7 B/s");
    assert_eq!(
        rule_summary(Some(&rule(APP, Some(2048), Some(7), false))),
        "Dn 2.0 KB/s  Up 7 B/s"
    );
}

fn stats(name: &str, flows: usize, down: u64, up: u64) -> ProcessStats {
    ProcessStats {
        pid: 42,
        exe_path: format!("c:\\{}", name.to_lowercase()),
        name: name.to_string(),
        down_rate: down,
        up_rate: up,
        down_total: 10 * down,
        up_total: 20 * up,
        down_history: vec![down],
        up_history: vec![up],
        flow_count: flows,
    }
}

fn processes(list: Vec<ProcessStats>) -> Table<String, ProcessStats> {
    let mut table = Table::new();
    for s in list {
        table.insert(s.exe_path.clone(), s);
    }
    table
}

fn snapshot(list: Vec<ProcessStats>, rules: Vec<Rule>) -> Snapshot {
    let mut table = Table::new();
    for r in rules {
        table.insert(r.exe_path.clone(), r);
    }
    let (down, up) = (list.iter().map(|s| s.down_rate).sum(), list.iter().map(|s| s.up_rate).sum());
    Snapshot {
        processes: processes(list),
        total_down_rate: down,
        total_up_rate: up,
        rules: table,
    }
}

fn names(table: &Table<String, ProcessStats>, column: SortColumn, desc: bool) -> Vec<String> {
    sorted_rows(table, column, desc).iter().map(|&i| table.value(i).name.clone()).collect()
}

#[test]
fn rows_are_sorted_by_the_chosen_column() {
    let table = processes(vec![
        stats("beta.exe", 1, 30, 5),
        stats("Alpha.exe", 3, 10, 5),
        stats("gamma.exe", 2, 20, 9),
        stats("alphA", 2, 30, 1),
    ]);
    assert_eq!(
        names(&table, SortColumn::Name, false),
        vec!["alphA", "Alpha.exe", "beta.exe", "gamma.exe"]
    );
    assert_eq!(
        names(&table, SortColumn::Name, true),
        vec!["gamma.exe", "beta.exe", "Alpha.exe", "alphA"]
    );
    // Rows that compare equal keep their order, whichever way it is sorted.
    assert_eq!(
        names(&table, SortColumn::Down, true),
        vec!["beta.exe", "alphA", "gamma.exe", "Alpha.exe"]
    );
    assert_eq!(
        names(&table, SortColumn::Down, false),
        vec!["Alpha.exe", "gamma.exe", "beta.exe", "alphA"]
    );
    assert_eq!(
        names(&table, SortColumn::Flows, true),
        vec!["Alpha.exe", "gamma.exe", "alphA", "beta.exe"]
    );
    assert_eq!(names(&table, SortColumn::Up, true)[0], "gamma.exe");
    assert_eq!(names(&table, SortColumn::DownTotal, false)[0], "Alpha.exe");
    assert_eq!(names(&table, SortColumn::UpTotal, false)[0], "alphA");
    assert!(names(&processes(Vec::new()), SortColumn::Up, true).is_empty());
}

#[test]
fn many_rows_are_sorted_like_a_stable_sort() {
    let list: Vec<ProcessStats> =
        (0..137u64).map(|i| stats(&format!("p{i}"), 1, i * 7919 % 31, 0)).collect();
    let mut expected: Vec<usize> = (0..list.len()).collect();
    expected.sort_by_key(|&i| list[i].down_rate);
    assert_eq!(sorted_rows(&processes(list), SortColumn::Down, false), expected);
}

#[test]
fn a_header_click_sorts_and_a_second_turns_round() {
    let mut app = ThrottleApp::new();
    assert_eq!((app.sort_column, app.sort_desc), (SortColumn::Down, true));
    assert_eq!(app.sort_arrow(SortColumn::Down), "▼");
    assert_eq!(app.sort_arrow(SortColumn::Up), "");
    app.sort_header(SortColumn::Down);
    assert_eq!(app.sort_arrow(SortColumn::Down), "▲");
    app.sort_header(SortColumn::Name);
    assert_eq!((app.sort_column, app.sort_desc), (SortColumn::Name, true));
    app.sort_header(SortColumn::Name);
    app.sort_header(SortColumn::Name);
    assert_eq!((app.sort_column, app.sort_desc), (SortColumn::Name, true));
}

#[test]
fn the_header_graph_keeps_the_newest_samples() {
    let mut app = ThrottleApp::new();
    for i in 0..TOTAL_HISTORY_LEN as u64 + 5 {
        app.take_snapshot(snapshot(vec![stats("a", 1, i, 2 * i)], Vec::new()));
    }
    assert_eq!(app.total_down_hist.len(), TOTAL_HISTORY_LEN);
    assert_eq!((app.total_down_hist[0], app.total_up_hist[0]), (5, 10));
    assert_eq!(*app.total_down_hist.last().unwrap(), TOTAL_HISTORY_LEN as u64 + 4);
}

#[test]
fn the_header_tells_totals() {
    let mut app = ThrottleApp::new();
    let list = vec![stats("a", 1, 2048, 5), stats("b", 1, 0, 5)];
    app.take_snapshot(snapshot(list, Vec::new()));
    let (down, up, count) = app.headline();
    assert_eq!((down.as_str(), up.as_str(), count.as_str()), ("Down 2.0 KB/s", "Up 10 B/s", "2 processes"));
}

#[test]
fn rows_show_stats_and_rule() {
    let mut app = ThrottleApp::new();
    let list = vec![stats("A.exe", 3, 2048, 5), stats("b.exe", 1, 4096, 0)];
    app.take_snapshot(snapshot(list, vec![rule("c:\\a.exe", None, None, true)]));
    app.select("c:\\a.exe");
    assert_eq!(app.row_order(), vec![1, 0]);
    let row = app.row(0);
    assert_eq!((row.key.as_str(), row.name.as_str(), row.flows.as_str()), ("c:\\a.exe", "A.exe", "3"));
    assert_eq!((row.down.as_str(), row.up.as_str()), ("2.0 KB/s", "5 B/s"));
    assert_eq!((row.down_total.as_str(), row.up_total.as_str()), ("20.0 KB", "100 B"));
    assert_eq!((row.rule.as_str(), row.blocked, row.selected), ("BLOCKED", true, true));
    let row = app.row(1);
    assert_eq!((row.rule.as_str(), row.blocked, row.selected), ("-", false, false));
}

#[test]
fn details_follow_the_selection() {
    let mut app = ThrottleApp::new();
    assert!(app.detail().is_none());
    let limited = rule("c:\\a.exe", Some(1024), None, false);
    app.take_snapshot(snapshot(vec![stats("A.exe", 3, 2048, 5)], vec![limited]));
    app.select("c:\\a.exe");
    let detail = app.detail().unwrap();
    assert_eq!((detail.name.as_str(), detail.exe_path.as_str()), ("A.exe", "c:\\a.exe"));
    assert_eq!((detail.pid.as_str(), detail.flows.as_str()), ("42", "3"));
    assert_eq!((detail.download.as_str(), detail.upload.as_str()), ("2.0 KB/s", "5 B/s"));
    assert_eq!((detail.total_down.as_str(), detail.total_up.as_str()), ("20.0 KB", "100 B"));
    assert_eq!(detail.rule, "Dn 1.0 KB/s");
    assert_eq!((detail.down_history, detail.up_history), (vec![2048], vec![5]));
    app.drop_stale_selection();
    assert_eq!(app.selected.as_deref(), Some("c:\\a.exe"));
    app.take_snapshot(snapshot(vec![stats("b.exe", 1, 0, 0)], Vec::new()));
    assert!(app.detail().is_none());
    app.drop_stale_selection();
    assert_eq!(app.selected, None);
}

#[test]
fn shutdown_is_asked_for_once() {
    let mut app = ThrottleApp::new();
    assert_eq!(app.send_shutdown(), Some(Command::Shutdown));
    assert_eq!(app.send_shutdown(), None);
}

#[test]
fn blocking_keeps_the_limits() {
    let mut app = ThrottleApp::new();
    app.take_snapshot(snapshot(Vec::new(), vec![rule(APP, Some(5), Some(6), false)]));
    let blocked = rule(APP, Some(5), Some(6), true);
    assert_eq!(app.set_blocked(APP, true), Command::SetRule(blocked));
    assert_eq!(app.set_blocked("c:\\x.exe", true), Command::SetRule(rule("c:\\x.exe", None, None, true)));
    assert_eq!(app.base_rule("c:\\x.exe"), rule("c:\\x.exe", None, None, false));
}

#[test]
fn the_menu_knows_its_row() {
    let mut app = ThrottleApp::new();
    app.take_snapshot(snapshot(Vec::new(), vec![rule(APP, None, None, true)]));
    assert_eq!(app.row_menu(UNKNOWN_EXE), RowMenu::Unattributed);
    assert_eq!(app.row_menu(SYSTEM_EXE), RowMenu::Actions { system: true, blocked: false });
    assert_eq!(app.row_menu(APP), RowMenu::Actions { system: false, blocked: true });
}

#[test]
fn menu_choices_become_commands() {
    let mut app = ThrottleApp::new();
    assert_eq!(
        app.choose_action(APP, "thing.exe", Choice::RemoveRule),
        Some(Command::RemoveRule(APP.to_string()))
    );
    assert_eq!(
        app.choose_action(APP, "thing.exe", Choice::SetBlocked(false)),
        Some(Command::SetRule(rule(APP, None, None, false)))
    );
    assert!(app.limit_modal.is_none());
    assert_eq!(app.choose_action(APP, "thing.exe", Choice::SetLimit(Direction::Up)), None);
    let modal = app.limit_modal.as_ref().unwrap();
    assert_eq!((modal.exe_path.as_str(), modal.name.as_str()), (APP, "thing.exe"));
    assert_eq!((modal.value.as_str(), modal.unit), ("", RateUnit::MBps));
    assert_eq!(modal.title(), "Set upload limit");
}

#[test]
fn the_dialog_opens_with_the_limit_in_force() {
    let mut app = ThrottleApp::new();
    app.take_snapshot(snapshot(Vec::new(), vec![rule(APP, Some(1536), Some(3 << 20), false)]));
    app.open_limit_modal(APP, "thing.exe", Direction::Down);
    let modal = app.limit_modal.take().unwrap();
    assert_eq!((modal.value.as_str(), modal.unit), ("1.5", RateUnit::KBps));
    assert_eq!(modal.title(), "Set download limit");
    app.open_limit_modal(APP, "thing.exe", Direction::Up);
    let modal = app.limit_modal.take().unwrap();
    assert_eq!((modal.value.as_str(), modal.unit), ("3", RateUnit::MBps));
}

fn modal(value: &str) -> LimitModal {
    LimitModal {
        exe_path: APP.to_string(),
        name: "thing.exe".to_string(),
        direction: Direction::Down,
        value: value.to_string(),
        unit: RateUnit::KBps,
        error: None,
    }
}

#[test]
fn typed_numbers_are_trimmed_and_take_a_comma() {
    assert_eq!(modal(" \t2,5\u{2003}\n").number(), "2.5");
    assert_eq!(modal("1,000,5").number(), "1.000.5");
    assert_eq!(modal(" \u{a0} ").number(), "");
    assert_eq!(modal("\u{e4} b").number(), "\u{e4} b");
}

#[test]
fn the_dialog_sets_one_limit() {
    let mut app = ThrottleApp::new();
    app.take_snapshot(snapshot(Vec::new(), vec![rule(APP, Some(5), Some(6), true)]));
    assert_eq!(
        app.settle_limit(modal("2"), Answer::Apply(Some(2048))),
        Some(Command::SetRule(rule(APP, Some(2048), Some(6), true)))
    );
    assert!(app.limit_modal.is_none());
    // Nothing typed means no limit.
    assert_eq!(
        app.settle_limit(modal("  "), Answer::Apply(None)),
        Some(Command::SetRule(rule(APP, None, Some(6), true)))
    );
}

#[test]
fn the_dialog_refuses_what_is_no_number() {
    let mut app = ThrottleApp::new();
    assert_eq!(app.settle_limit(modal("fast"), Answer::Apply(None)), None);
    let kept = app.limit_modal.take().unwrap();
    assert_eq!(kept.error.as_deref(), Some("Enter a plain number, e.g. 2 or 0.5"));
    assert_eq!(kept.value, "fast");
    assert_eq!(app.settle_limit(kept, Answer::Cancel), None);
    assert!(app.limit_modal.is_none());
    assert_eq!(app.settle_limit(modal("1"), Answer::Open), None);
    assert_eq!(app.limit_modal.as_ref().unwrap().value, "1");
}

#[test]
fn colours_come_apart() {
    assert_eq!((red_of(COLOR_DOWN), green_of(COLOR_DOWN), blue_of(COLOR_DOWN)), (0x4c, 0xaf, 0x50));
}

#[test]
fn the_error_window_keeps_its_message() {
    assert_eq!(ErrorApp::new("no driver".to_string()).message, "no driver");
}
