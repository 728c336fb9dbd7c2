use vstd::prelude::*;
use crate::speed::{speed_of_chars, speed_of_token, FanSpeed};
use crate::text::{
    chars_of, decimal, i64_of, lines_of, parse_i64, push_decimal, split_chars, split_on, strip_cr,
    views,
};

verus! {

/// A threshold rule: temperatures from `low` to `high` degrees, inclusive,
/// select `speed`.
#[derive(Debug)]
pub struct Temperature {
    pub name: String,
    pub low: i64,
    pub high: i64,
    pub speed: FanSpeed,
}

/// The value of a rule.
pub struct RuleView {
    pub name: Seq<char>,
    pub low: i64,
    pub high: i64,
    pub speed: FanSpeed,
}

impl View for Temperature {
    type V = RuleView;

    open spec fn view(&self) -> RuleView {
        RuleView { name: self.name@, low: self.low, high: self.high, speed: self.speed }
    }
}

impl PartialEq for Temperature {
    fn eq(&self, other: &Temperature) -> (r: bool) {
        self.name == other.name && self.low == other.low && self.high == other.high
            && self.speed == other.speed
    }
}

impl vstd::std_specs::cmp::PartialEqSpecImpl for Temperature {
    open spec fn obeys_eq_spec() -> bool {
        true
    }

    open spec fn eq_spec(&self, other: &Temperature) -> bool {
        self@ == other@
    }
}

impl Temperature {
    /// A rule with the same value.
    pub fn duplicate(&self) -> (r: Temperature)
        ensures
            r@ == self@,
    {
        Temperature { name: self.name.clone(), low: self.low, high: self.high, speed: self.speed }
    }
}

/// `true` when the rule's range holds `t`.
pub open spec fn covers(rule: RuleView, t: int) -> bool {
    rule.low <= t <= rule.high
}

pub open spec fn rule_views(rules: Seq<Temperature>) -> Seq<RuleView> {
    rules.map_values(|r: Temperature| r@)
}

/// The built-in table, hottest range first.
pub open spec fn default_rules() -> Seq<RuleView> {
    seq![
        RuleView { name: "level 7"@, low: 81, high: 100, speed: FanSpeed::Level7 },
        RuleView { name: "level 6"@, low: 76, high: 80, speed: FanSpeed::Level6 },
        RuleView { name: "level 5"@, low: 71, high: 75, speed: FanSpeed::Level5 },
        RuleView { name: "level auto"@, low: 0, high: 70, speed: FanSpeed::Auto },
    ]
}

/// The rule that line number `index` of a configuration gives, when it has three fields
/// whose first two are integers.
pub open spec fn rule_of_fields(index: nat, fields: Seq<Seq<char>>) -> RuleView {
    RuleView {
        name: "level "@ + decimal(index),
        low: i64_of(fields[0])->0,
        high: i64_of(fields[1])->0,
        speed: speed_of_token(fields[2]),
    }
}

/// The rules of the configuration lines `lines`; `None` when a line of three
/// fields has a bound that is not an integer. Lines of another field count give no rule.
pub open spec fn config_rules(lines: Seq<Seq<char>>) -> Option<Seq<RuleView>>
    decreases lines.len(),
{
    if lines.len() == 0 {
        Some(Seq::empty())
    } else {
        match config_rules(lines.drop_last()) {
            None => None,
            Some(rules) => {
                let fields = split_on(lines.last(), ',');
                if fields.len() != 3 {
                    Some(rules)
                } else if i64_of(fields[0]) is Some && i64_of(fields[1]) is Some {
                    Some(rules.push(rule_of_fields((lines.len() - 1) as nat, fields)))
                } else {
                    None
                }
            },
        }
    }
}

proof fn lemma_malformed_prefix(lines: Seq<Seq<char>>, k: int)
    requires
        0 <= k <= lines.len(),
        config_rules(lines.take(k)) is None,
    ensures
        config_rules(lines) is None,
    decreases lines.len() - k,
{
    if k == lines.len() {
        assert(lines.take(k) =~= lines);
    } else {
        assert(lines.take(k + 1).drop_last() =~= lines.take(k));
        lemma_malformed_prefix(lines, k + 1);
    }
}

/// The rule table given the configuration text, if there is one: the
/// configuration's rules, or the built-in table when there is none or it is malformed.
pub open spec fn rules_of_config(config: Option<Seq<char>>) -> Seq<RuleView> {
    match config {
        None => default_rules(),
        Some(text) => match config_rules(lines_of(text)) {
            Some(rules) => rules,
            None => default_rules(),
        },
    }
}

pub open spec fn text_view(config: Option<&str>) -> Option<Seq<char>> {
    match config {
        Some(text) => Some(text@),
        None => None,
    }
}

fn rule(name: &str, low: i64, high: i64, speed: FanSpeed) -> (r: Temperature)
    ensures
        r@ == (RuleView { name: name@, low, high, speed }),
{
    Temperature { name: String::from_str(name), low, high, speed }
}

/// The built-in rule table.
pub fn default_config() -> (r: Vec<Temperature>)
    ensures
        rule_views(r@) == default_rules(),
{
    let r = vec![
        rule("level 7", 81, 100, FanSpeed::Level7),
        rule("level 6", 76, 80, FanSpeed::Level6),
        rule("level 5", 71, 75, FanSpeed::Level5),
        rule("level auto", 0, 70, FanSpeed::Auto),
    ];
    assert(rule_views(r@) =~= default_rules());
    r
}

/// The lines of `text`.
pub fn lines_vec(text: &Vec<char>) -> (r: Vec<Vec<char>>)
    ensures
        views(r@) == lines_of(text@),
{
    let pieces = split_chars(text, '\n');
    proof {
        crate::text::lemma_split_on_nonempty(text@, '\n');
    }
    let count = pieces.len();
    let n: usize = if pieces[count - 1].len() == 0 { count - 1 } else { count };
    let ghost p = split_on(text@, '\n');
    assert(pieces[count - 1]@ == p.last());
    let mut r: Vec<Vec<char>> = Vec::new();
    let mut i: usize = 0;
    while i < n
        invariant
            n <= count == pieces.len(),
            views(pieces@) == p,
            p == split_on(text@, '\n'),
            i <= n,
            r.len() == i,
            forall|j: int|
                0 <= j < i ==> #[trigger] r@[j]@ == (if j < p.len() - 1 {
                    strip_cr(p[j])
                } else {
                    p[j]
                }),
        decreases n - i,
    {
        let mut line = pieces[i].clone();
        assert(line@ == p[i as int]);
        if i < count - 1 && line.len() > 0 && line[line.len() - 1] == '\r' {
            line.pop();
            assert(line@ =~= strip_cr(p[i as int]));
        }
        r.push(line);
        i = i + 1;
    }
    assert(views(r@) =~= lines_of(text@));
    r
}

/// The rule table from the configuration text, if there is one. Each line of three
/// comma-separated fields `low,high,speed` gives a rule named after its line
/// number; other lines are skipped. Without a configuration, or when a bound is not
/// an integer, the built-in table is used.
pub fn read_config_file(config: Option<&str>) -> (r: Vec<Temperature>)
    ensures
        rule_views(r@) == rules_of_config(text_view(config)),
{
    let text = match config {
        None => {
            return default_config();
        },
        Some(text) => text,
    };
    let lines = lines_vec(&chars_of(text));
    let ghost ls = lines_of(text@);
    let mut rules: Vec<Temperature> = Vec::new();
    let mut i: usize = 0;
    proof {
        assert(ls.take(0) =~= Seq::<Seq<char>>::empty());
        assert(rule_views(rules@) =~= Seq::<RuleView>::empty());
    }
    while i < lines.len()
        invariant
            views(lines@) == ls,
            ls == lines_of(text@),
            text_view(config) == Some(text@),
            i <= lines.len(),
            config_rules(ls.take(i as int)) == Some(rule_views(rules@)),
        decreases lines.len() - i,
    {
        let fields = split_chars(&lines[i], ',');
        proof {
            assert(ls.take(i + 1).drop_last() =~= ls.take(i as int));
            assert(ls.take(i + 1).last() == lines[i as int]@);
        }
        let ghost f = split_on(ls.take(i + 1).last(), ',');
        assert(f == views(fields@));
        if fields.len() == 3 {
            let low = parse_i64(&fields[0]);
            let high = parse_i64(&fields[1]);
            assert(f.len() == 3 && f[0] == fields[0]@ && f[1] == fields[1]@);
            match (low, high) {
                (Some(low), Some(high)) => {
                    let mut name = String::from_str("level ");
                    push_decimal(&mut name, i);
                    let speed = speed_of_chars(&fields[2]);
                    let ghost before = rule_views(rules@);
                    rules.push(Temperature { name, low, high, speed });
                    proof {
                        assert(rule_views(rules@) =~= before.push(
                            rule_of_fields(i as nat, split_on(lines[i as int]@, ',')),
                        ));
                    }
                },
                _ => {
                    proof {
                        lemma_malformed_prefix(ls, i + 1);
                    }
                    return default_config();
                },
            }
        }
        i = i + 1;
    }
    proof {
        assert(ls.take(lines.len() as int) =~= ls);
    }
    rules
}

} // verus!
