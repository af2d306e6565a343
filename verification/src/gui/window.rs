//! What the window's rows, details, dialogs and graph say of what they are about.

use crate::gui::format::{amount, rate, size, summary, trimmed_hundredths, RateUnit};
use crate::gui::reading::{
    law_rounding_goes_to_the_nearest, law_trimming_takes_white_space_only, rounds_to,
};
use crate::gui::sort::SortColumn;
use crate::gui::{
    blocking_rule, blue, detail_of, entry, green, limit_of, limiting_rule, newest_totals,
    opened_modal, red, row_of, AppView, Direction,
};
use crate::text::{decimal, trimmed, whitespace};
use crate::types::{RuleView, StatsView};
use vstd::prelude::*;

verus! {

/// A row shows the numbers of its own process, each in its column, and the rule
/// that is kept under its key. The selected row is the one whose key is selected.
pub proof fn law_rows_show_their_process(
    key: Seq<char>,
    stats: StatsView,
    rules: Map<Seq<char>, RuleView>,
    selected: Option<Seq<char>>,
)
    ensures
        ({
            let row = row_of(key, stats, rules, selected);
            &&& row.key == key
            &&& row.name == stats.name
            &&& row.flows == decimal(stats.flow_count)
            &&& row.down == rate(stats.down_rate)
            &&& row.up == rate(stats.up_rate)
            &&& row.down_total == size(stats.down_total)
            &&& row.up_total == size(stats.up_total)
            &&& rules.contains_key(key) ==> row.rule == summary(Some(rules[key])) && row.blocked
                == rules[key].blocked
            &&& !rules.contains_key(key) ==> row.rule == "-"@ && !row.blocked
            &&& row.selected <==> selected == Some(key)
        }),
{
}

/// The details show the numbers of the selected process, each under its name, and
/// the rule that is kept under its path.
pub proof fn law_details_show_their_process(stats: StatsView, rules: Map<Seq<char>, RuleView>)
    ensures
        ({
            let detail = detail_of(stats, rules);
            &&& detail.name == stats.name
            &&& detail.exe_path == stats.exe_path
            &&& detail.pid == decimal(stats.pid as nat)
            &&& detail.flows == decimal(stats.flow_count)
            &&& detail.download == rate(stats.down_rate)
            &&& detail.upload == rate(stats.up_rate)
            &&& detail.total_down == size(stats.down_total)
            &&& detail.total_up == size(stats.up_total)
            &&& detail.down_history == stats.down_history
            &&& detail.up_history == stats.up_history
            &&& rules.contains_key(stats.exe_path) ==> detail.rule == summary(
                Some(rules[stats.exe_path]),
            )
            &&& !rules.contains_key(stats.exe_path) ==> detail.rule == "-"@
        }),
{
}

/// The limit that a rule sets in a direction.
pub open spec fn limit_in(rule: RuleView, direction: Direction) -> Option<u64> {
    if direction == Direction::Down {
        rule.down_limit
    } else {
        rule.up_limit
    }
}

/// The limit in force is that of the key's rule, in the direction asked for;
/// without a rule there is none.
pub proof fn law_limit_in_force(
    rules: Map<Seq<char>, RuleView>,
    key: Seq<char>,
    direction: Direction,
)
    ensures
        rules.contains_key(key) ==> limit_of(rules, key, direction) == limit_in(
            rules[key],
            direction,
        ),
        !rules.contains_key(key) ==> limit_of(rules, key, direction) is None,
{
}

/// A command to limit one direction asks for that limit and for what was in force
/// in the other, and leaves blocking as it was; one to block or to unblock asks for
/// both limits as they were.
pub proof fn law_commands_change_one_thing(
    rules: Map<Seq<char>, RuleView>,
    key: Seq<char>,
    limit: Option<u64>,
    blocked: bool,
)
    ensures
        ({
            let down = limiting_rule(rules, key, Direction::Down, limit);
            let up = limiting_rule(rules, key, Direction::Up, limit);
            let block = blocking_rule(rules, key, blocked);
            let had = rules.contains_key(key);
            let rule = rules[key];
            &&& down.exe_path == key && up.exe_path == key && block.exe_path == key
            &&& down.down_limit == limit && up.up_limit == limit && block.blocked == blocked
            &&& had ==> {
                &&& down.up_limit == rule.up_limit && down.blocked == rule.blocked
                &&& up.down_limit == rule.down_limit && up.blocked == rule.blocked
                &&& block.down_limit == rule.down_limit && block.up_limit == rule.up_limit
            }
            &&& !had ==> {
                &&& down.up_limit is None && !down.blocked
                &&& up.down_limit is None && !up.blocked
                &&& block.down_limit is None && block.up_limit is None
            }
        }),
{
}

/// The dialog opens for the row and the direction that were picked. Without a
/// limit in force it is empty, in megabytes; else it shows that limit, to the
/// nearest hundredth of the largest unit of which it holds at least one.
pub proof fn law_dialog_opens_with_the_limit(
    rules: Map<Seq<char>, RuleView>,
    key: Seq<char>,
    name: Seq<char>,
    direction: Direction,
    bps: u64,
)
    ensures
        ({
            let modal = opened_modal(rules, key, name, direction);
            let limited = rules.contains_key(key) && limit_in(rules[key], direction) is Some;
            &&& modal.exe_path == key
            &&& modal.name == name
            &&& modal.direction == direction
            &&& modal.error is None
            &&& !limited ==> modal.value.len() == 0 && modal.unit == RateUnit::MBps
            &&& limited && limit_in(rules[key], direction) == Some(bps) ==> {
                &&& modal.unit == RateUnit::largest(amount(bps))
                &&& exists|t: nat|
                    {
                        &&& #[trigger] rounds_to(100 * amount(bps), modal.unit.worth() as nat, t)
                        &&& modal.value == trimmed_hundredths(t)
                    }
            }
        }),
{
    let unit = RateUnit::largest(amount(bps));
    law_rounding_goes_to_the_nearest(100 * amount(bps), unit.worth() as nat);
}

/// What is read from the dialog has no white space at its ends and no comma, and
/// is otherwise what was typed.
pub proof fn law_entry_is_what_was_typed(value: Seq<char>, i: int)
    requires
        0 <= i < entry(value).len(),
    ensures
        entry(value).len() == trimmed(value).len(),
        entry(value)[i] != ',',
        trimmed(value)[i] == ',' ==> entry(value)[i] == '.',
        trimmed(value)[i] != ',' ==> entry(value)[i] == trimmed(value)[i],
        !whitespace(entry(value)[0]),
        !whitespace(entry(value).last()),
{
    let (from, to) = law_trimming_takes_white_space_only(value);
}

/// The header graph holds as many samples as came, up to 120, the newest at the
/// end, each behind the ones that came before it.
pub proof fn law_graph_appends(history: Seq<u64>, value: u64)
    requires
        history.len() <= 120,
    ensures
        ({
            let after = newest_totals(history.push(value));
            &&& after.len() == if history.len() < 120 {
                history.len() + 1
            } else {
                120
            }
            &&& after.last() == value
            &&& after.drop_last() == history.subrange(
                history.len() - after.len() + 1,
                history.len() as int,
            )
        }),
{
}

/// A click on another header sorts by its column, the greatest first; a click on
/// the same one turns the order round. Nothing else changes.
pub proof fn law_clicks_sort(app: AppView, column: SortColumn)
    ensures
        ({
            let after = app.sorted_by(column);
            &&& after.sort_column == column
            &&& app.sort_column != column ==> after.sort_desc
            &&& app.sort_column == column ==> after.sort_desc == !app.sort_desc
            &&& after.processes == app.processes && after.rules == app.rules
            &&& after.selected == app.selected && after.limit_modal == app.limit_modal
        }),
{
}

/// A colour is made of its three channels.
pub proof fn law_channels_make_the_colour(colour: u32)
    requires
        colour < 0x100_0000,
    ensures
        red(colour) * 0x1_0000 + green(colour) * 0x100 + blue(colour) == colour,
{
}

} // verus!
