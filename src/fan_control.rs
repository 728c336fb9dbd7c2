use vstd::prelude::*;
use crate::rules::{covers, read_config_file, rule_views, rules_of_config, text_view, RuleView, Temperature};
use crate::speed::{command_of, convert_fan_speed};
use crate::text::{chars_of, contains_chars, occurs_in};

verus! {

/// What a decision step reports.
#[derive(PartialEq, Eq, Structural, Clone, Copy, Debug)]
pub enum SetFanStatus {
    FanLevelNotSet,
    FanLevelSet,
    FanLevelInvalid,
    FanLevelError,
}

/// The controller: the rule last applied, `None` before the first one, and
/// the rule table.
#[derive(Debug)]
pub struct FanControl {
    pub current_rule: Option<Temperature>,
    pub temperature_configs: Vec<Temperature>,
}

/// The outcome of a decision step: the command to write to the control device,
/// if any, and the status to report once it is written.
#[derive(Debug)]
pub struct FanStep {
    pub command: Option<String>,
    pub status: SetFanStatus,
}

/// The value of the rule applied, if any.
pub open spec fn applied_view(rule: Option<Temperature>) -> Option<RuleView> {
    match rule {
        Some(r) => Some(r@),
        None => None,
    }
}

/// The command written when no valid temperature could be read.
pub open spec fn fallback_command() -> Seq<char> {
    "full-speed"@
}

/// Where a scan of `rules` from index `i` stops at temperature `t`: the first
/// rule that equals the applied rule, if there is one, or whose range holds `t`.
pub open spec fn scan(cur: Option<RuleView>, rules: Seq<RuleView>, t: int, i: int) -> Option<int>
    decreases rules.len() - i,
{
    if i < 0 || i >= rules.len() {
        None
    } else if Some(rules[i]) == cur || covers(rules[i], t) {
        Some(i)
    } else {
        scan(cur, rules, t, i + 1)
    }
}

/// The rule applied after a decision step.
pub open spec fn step_rule(cur: Option<RuleView>, rules: Seq<RuleView>, temp: Option<i64>) -> Option<
    RuleView,
> {
    match temp {
        None => cur,
        Some(t) => match scan(cur, rules, t as int, 0) {
            Some(i) => Some(rules[i]),
            None => cur,
        },
    }
}

/// The command a decision step writes, if any.
pub open spec fn step_command(cur: Option<RuleView>, rules: Seq<RuleView>, temp: Option<i64>) -> Option<
    Seq<char>,
> {
    match temp {
        None => Some(fallback_command()),
        Some(t) => match scan(cur, rules, t as int, 0) {
            Some(i) => if Some(rules[i]) == cur {
                None
            } else {
                Some(command_of(rules[i].speed))
            },
            None => None,
        },
    }
}

/// The status a decision step reports when its write, if any, succeeds.
pub open spec fn step_status(cur: Option<RuleView>, rules: Seq<RuleView>, temp: Option<i64>) -> SetFanStatus {
    match temp {
        None => SetFanStatus::FanLevelInvalid,
        Some(t) => match scan(cur, rules, t as int, 0) {
            Some(i) => SetFanStatus::FanLevelSet,
            None => SetFanStatus::FanLevelInvalid,
        },
    }
}

pub open spec fn command_view(command: Option<String>) -> Option<Seq<char>> {
    match command {
        Some(c) => Some(c@),
        None => None,
    }
}

/// Whether the control device's status text offers the full-speed level.
pub fn full_speed_listed(status: &str) -> (r: bool)
    ensures
        r == occurs_in("full-speed"@, status@),
{
    contains_chars(&chars_of(status), &chars_of("full-speed"))
}

impl FanStep {
    /// The status to report once the write this step asked for has been tried:
    /// an error when it failed.
    pub fn status_after_write(&self, written: bool) -> (r: SetFanStatus)
        ensures
            r == (if self.command is Some && !written {
                SetFanStatus::FanLevelError
            } else {
                self.status
            }),
    {
        if self.command.is_some() && !written {
            SetFanStatus::FanLevelError
        } else {
            self.status
        }
    }
}

impl FanControl {
    /// A controller with the rule table of the configuration text, if there is
    /// one, and no rule applied yet.
    pub fn new(config: Option<&str>) -> (r: FanControl)
        ensures
            r.current_rule is None,
            rule_views(r.temperature_configs@) == rules_of_config(text_view(config)),
    {
        FanControl {
            current_rule: None,
            temperature_configs: read_config_file(config),
        }
    }

    /// One decision step at temperature `max_temp` in whole degrees (`None`
    /// when no sensor gave a valid reading). Without a temperature the fallback
    /// command is asked for. Otherwise the table is scanned in order: a rule
    /// equal to the one applied ends the step with nothing to write; the first
    /// rule whose range holds the temperature is applied and its command asked
    /// for; when neither is found the temperature is reported invalid.
    pub fn set_fan_level(&mut self, max_temp: Option<i64>) -> (r: FanStep)
        ensures
            final(self).temperature_configs@ == old(self).temperature_configs@,
            applied_view(final(self).current_rule) == step_rule(
                applied_view(old(self).current_rule),
                rule_views(old(self).temperature_configs@),
                max_temp,
            ),
            command_view(r.command) == step_command(
                applied_view(old(self).current_rule),
                rule_views(old(self).temperature_configs@),
                max_temp,
            ),
            r.status == step_status(
                applied_view(old(self).current_rule),
                rule_views(old(self).temperature_configs@),
                max_temp,
            ),
    {
        let t = match max_temp {
            None => {
                return FanStep {
                    command: Some(String::from_str("full-speed")),
                    status: SetFanStatus::FanLevelInvalid,
                };
            },
            Some(t) => t,
        };
        let ghost cur = applied_view(self.current_rule);
        let ghost rules = rule_views(self.temperature_configs@);
        let mut i: usize = 0;
        while i < self.temperature_configs.len()
            invariant
                i <= self.temperature_configs.len(),
                applied_view(self.current_rule) == cur,
                rules == rule_views(self.temperature_configs@),
                self.temperature_configs@ == old(self).temperature_configs@,
                cur == applied_view(old(self).current_rule),
                max_temp == Some(t),
                scan(cur, rules, t as int, 0) == scan(cur, rules, t as int, i as int),
            decreases self.temperature_configs.len() - i,
        {
            let rule = &self.temperature_configs[i];
            assert(rules[i as int] == rule@);
            let same = match &self.current_rule {
                Some(current) => *rule == *current,
                None => false,
            };
            if same {
                return FanStep { command: None, status: SetFanStatus::FanLevelSet };
            }
            if rule.high >= t && rule.low <= t {
                let applied = rule.duplicate();
                let command = convert_fan_speed(applied.speed);
                self.current_rule = Some(applied);
                return FanStep { command: Some(command), status: SetFanStatus::FanLevelSet };
            }
            i = i + 1;
        }
        FanStep { command: None, status: SetFanStatus::FanLevelInvalid }
    }
}

proof fn lemma_scan_stops_at(cur: Option<RuleView>, rules: Seq<RuleView>, t: int, i: int, k: int)
    requires
        0 <= i <= k < rules.len(),
        Some(rules[k]) == cur || covers(rules[k], t),
        forall|j: int| i <= j < k ==> !covers(#[trigger] rules[j], t) && Some(rules[j]) != cur,
    ensures
        scan(cur, rules, t, i) == Some(k),
    decreases k - i,
{
    if i < k {
        lemma_scan_stops_at(cur, rules, t, i + 1, k);
    }
}

proof fn lemma_scan_result(cur: Option<RuleView>, rules: Seq<RuleView>, t: int, i: int)
    requires
        0 <= i,
    ensures
        scan(cur, rules, t, i) matches Some(k) ==> {
            &&& i <= k < rules.len()
            &&& Some(rules[k]) == cur || covers(rules[k], t)
            &&& forall|j: int| i <= j < k ==> !covers(#[trigger] rules[j], t) && Some(rules[j]) != cur
        },
        scan(cur, rules, t, i) is None ==> forall|j: int|
            i <= j < rules.len() ==> !covers(#[trigger] rules[j], t) && Some(rules[j]) != cur,
    decreases rules.len() - i,
{
    if i < rules.len() {
        lemma_scan_result(cur, rules, t, i + 1);
    }
}

/// The rule a step applies at a temperature is the first rule in table order
/// whose range holds it, whatever later rules overlap it, provided no rule up to
/// it equals the rule already applied.
pub proof fn lemma_first_covering_rule_wins(cur: Option<RuleView>, rules: Seq<RuleView>, t: i64, i: int)
    requires
        0 <= i < rules.len(),
        covers(rules[i], t as int),
        forall|j: int| 0 <= j < i ==> !covers(#[trigger] rules[j], t as int),
        forall|j: int| 0 <= j <= i ==> Some(#[trigger] rules[j]) != cur,
    ensures
        step_rule(cur, rules, Some(t)) == Some(rules[i]),
        step_command(cur, rules, Some(t)) == Some(command_of(rules[i].speed)),
        step_status(cur, rules, Some(t)) == SetFanStatus::FanLevelSet,
{
    lemma_scan_stops_at(cur, rules, t as int, 0, i);
}

/// Before any rule is applied, a step at a temperature applies the first rule
/// in table order whose range holds it and asks for its command.
pub proof fn lemma_first_step_applies_first_cover(rules: Seq<RuleView>, t: i64, i: int)
    requires
        0 <= i < rules.len(),
        covers(rules[i], t as int),
        forall|j: int| 0 <= j < i ==> !covers(#[trigger] rules[j], t as int),
    ensures
        step_rule(None, rules, Some(t)) == Some(rules[i]),
        step_command(None, rules, Some(t)) == Some(command_of(rules[i].speed)),
        step_status(None, rules, Some(t)) == SetFanStatus::FanLevelSet,
{
    lemma_first_covering_rule_wins(None, rules, t, i);
}

/// Whenever a step at a temperature writes a command, the rule it applies
/// holds the temperature and no rule before it in the table does.
pub proof fn lemma_written_rule_is_first_cover(cur: Option<RuleView>, rules: Seq<RuleView>, t: i64)
    requires
        step_command(cur, rules, Some(t)) is Some,
    ensures
        exists|i: int|
            0 <= i < rules.len() && step_rule(cur, rules, Some(t)) == Some(rules[i]) && covers(
                rules[i],
                t as int,
            ) && (forall|j: int| 0 <= j < i ==> !covers(#[trigger] rules[j], t as int)),
{
    lemma_scan_result(cur, rules, t as int, 0);
    let i = scan(cur, rules, t as int, 0)->0;
    assert(step_rule(cur, rules, Some(t)) == Some(rules[i]));
}

/// Two steps in a row at the same temperature write at most once: the second
/// writes nothing, keeps the applied rule, and reports the level set whenever
/// the first wrote or reported it set.
pub proof fn lemma_second_step_writes_nothing(cur: Option<RuleView>, rules: Seq<RuleView>, t: i64)
    ensures
        ({
            let cur1 = step_rule(cur, rules, Some(t));
            &&& step_command(cur1, rules, Some(t)) is None
            &&& step_rule(cur1, rules, Some(t)) == cur1
            &&& (step_command(cur, rules, Some(t)) is Some || step_status(cur, rules, Some(t))
                == SetFanStatus::FanLevelSet) ==> step_status(cur1, rules, Some(t))
                == SetFanStatus::FanLevelSet
        }),
{
    let ti = t as int;
    lemma_scan_result(cur, rules, ti, 0);
    match scan(cur, rules, ti, 0) {
        Some(k) => {
            if Some(rules[k]) != cur {
                let cur1 = Some(rules[k]);
                lemma_scan_result(cur1, rules, ti, 0);
                let m = scan(cur1, rules, ti, 0);
                if m is None {
                    assert(Some(rules[k]) == cur1);
                }
                let m = m->0;
                assert(m <= k) by {
                    if m > k {
                        assert(Some(rules[k]) == cur1);
                    }
                }
                if Some(rules[m]) != cur1 {
                    assert(covers(rules[m], ti));
                    if m < k {
                        assert(!covers(rules[m], ti));
                    }
                }
            }
        },
        None => {},
    }
}

} // verus!
