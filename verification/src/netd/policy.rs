//! The interface layer, as netd executes it.
//!
//! `Machine\System\Network\Rules\Interface` is a rules forest whose subject is
//! an interface: conditions over interface and network facts, verdicts
//! `JOIN(profile)`, `IGNORE` and `DOWN`. The rule engine builds the forest and
//! evaluates it; what is here is what goes into the engine (`prepare`), what
//! becomes of what it built (`build`), and what one evaluation means for an
//! interface (`Policy::judge`).
//!
//! A generation is refused as a whole, and the last good one kept, when a rule
//! is malformed, a `JOIN` names no profile, or a profile is malformed. A `JOIN`
//! that names a *disabled* profile is not a fault: the rule abstains, exactly
//! as if its action were `NULL`, and the forest answers without it.

use vstd::prelude::*;
use vstd::string::*;
use crate::netd::config::{RawKey, RawValue};
use crate::netd::config;
use crate::netd::profile::{Profile, Profiles};
use crate::netd::profile;
use crate::sorted;
use crate::text;

verus! {

// ---- what goes into the engine ---------------------------------------------

/// A value of a rule.
#[derive(Debug, PartialEq, Eq)]
pub enum RuleValue {
    Int(i64),
    Str(String),
    List(Vec<String>),
}

/// The same as values.
#[verifier::ext_equal]
pub enum RuleValueV {
    Int(i64),
    Str(Seq<char>),
    List(Seq<Seq<char>>),
}

impl View for RuleValue {
    type V = RuleValueV;

    open spec fn view(&self) -> RuleValueV {
        match self {
            RuleValue::Int(n) => RuleValueV::Int(*n),
            RuleValue::Str(s) => RuleValueV::Str(s@),
            RuleValue::List(v) => RuleValueV::List(text::list_view(v@)),
        }
    }
}

/// A rule as the engine takes it: its name, values and the rules under it.
#[derive(Debug, PartialEq, Eq)]
pub struct RuleInput {
    pub name: String,
    pub values: Vec<(String, RuleValue)>,
    pub children: Vec<RuleInput>,
}

/// Named rule values.
pub type RuleValuesV = Seq<(Seq<char>, RuleValueV)>;

/// The same as values.
#[verifier::ext_equal]
pub struct RuleInputV {
    pub name: Seq<char>,
    pub values: RuleValuesV,
    pub children: Seq<RuleInputV>,
}

/// Named rule values as values.
pub open spec fn rule_values_view(v: Seq<(String, RuleValue)>) -> RuleValuesV {
    Seq::new(v.len(), |i: int| (v[i].0@, v[i].1@))
}

/// A rule as values.
pub open spec fn rule_view(r: RuleInput) -> RuleInputV
    decreases r, 0nat,
{
    RuleInputV {
        name: r.name@,
        values: rule_values_view(r.values@),
        children: rules_view(r.children@, r.children@.len()),
    }
}

/// The first `n` rules of a list as values.
pub open spec fn rules_view(s: Seq<RuleInput>, n: nat) -> Seq<RuleInputV>
    decreases s, n,
{
    if n == 0 || n > s.len() {
        Seq::empty()
    } else {
        rules_view(s, (n - 1) as nat).push(rule_view(s[n - 1]))
    }
}

proof fn rules_view_push(s: Seq<RuleInput>, x: RuleInput, n: nat)
    requires
        n <= s.len(),
    ensures
        rules_view(s.push(x), n) == rules_view(s, n),
    decreases n,
{
    if n > 0 {
        rules_view_push(s, x, (n - 1) as nat);
    }
}

/// ASCII white space.
pub open spec fn ascii_space(c: char) -> bool {
    c == ' ' || c == '\t' || c == '\n' || c == '\u{c}' || c == '\r'
}

/// The text without its ASCII white space.
pub open spec fn compact(s: Seq<char>) -> Seq<char>
    decreases s.len(),
{
    if s.len() == 0 {
        Seq::empty()
    } else if ascii_space(s.last()) {
        compact(s.drop_last())
    } else {
        compact(s.drop_last()).push(s.last())
    }
}

/// The text with every `\` made `/`.
pub open spec fn slashed(s: Seq<char>) -> Seq<char> {
    s.map_values(|c: char| if c == '\\' { '/' } else { c })
}

/// What stands between the brackets of a `JOIN(...)` in compact text.
pub open spec fn join_inner(c: Seq<char>) -> Option<Seq<char>> {
    if c.len() >= 6 && text::lowered(c.take(5)) == "join("@ && c.last() == ')' {
        Some(c.subrange(5, c.len() - 1))
    } else {
        None
    }
}

/// The target of a `JOIN(...)`, as profiles are looked up.
pub open spec fn target_of(expr: Seq<char>) -> Option<Seq<char>> {
    match join_inner(compact(expr)) {
        Some(inner) => Some(text::lowered(slashed(inner))),
        None => None,
    }
}

fn without_space(s: &str) -> (out: Vec<char>)
    ensures
        out@ == compact(s@),
{
    let v: Vec<char> = text::chars(s);
    let mut out: Vec<char> = Vec::new();
    let mut i: usize = 0;
    while i < v.len()
        invariant
            i <= v@.len(),
            out@ == compact(v@.take(i as int)),
        decreases v@.len() - i,
    {
        let c: char = v[i];
        assert(v@.take(i + 1).drop_last() =~= v@.take(i as int));
        if !(c == ' ' || c == '\t' || c == '\n' || c == '\u{c}' || c == '\r') {
            out.push(c);
        }
        i = i + 1;
    }
    assert(v@.take(i as int) =~= v@);
    out
}

/// If `expr` is a `JOIN(...)`, its target path: white space stripped, `\`
/// folded to `/`, lower-cased for lookup.
pub fn join_target(expr: &str) -> (r: Option<String>)
    ensures
        text::opt_view(r) == target_of(expr@),
{
    let c: Vec<char> = without_space(expr);
    let n: usize = c.len();
    if n < 6 || c[n - 1] != ')' {
        return None;
    }
    let mut head: String = String::new();
    let mut i: usize = 0;
    while i < 5
        invariant
            i <= 5,
            n == c@.len(),
            n >= 6,
            head@ == c@.take(i as int),
        decreases 5 - i,
    {
        head.push(c[i]);
        i = i + 1;
        assert(head@ =~= c@.take(i as int));
    }
    if !text::same(text::lower(head.as_str()).as_str(), "join(") {
        return None;
    }
    let ghost inner = c@.subrange(5, n - 1);
    let mut s: String = String::new();
    i = 5;
    while i < n - 1
        invariant
            5 <= i <= n - 1,
            n == c@.len(),
            n >= 6,
            inner == c@.subrange(5, n - 1),
            s@ == slashed(inner.take(i - 5)),
        decreases n - i,
    {
        if c[i] == '\\' {
            s.push('/');
        } else {
            s.push(c[i]);
        }
        i = i + 1;
        assert(inner.take(i - 5).drop_last() =~= inner.take(i - 6));
        assert(s@ =~= slashed(inner.take(i - 5)));
    }
    assert(inner.take(i - 5) =~= inner);
    Some(text::lower(s.as_str()))
}

/// What an action goes to the engine as: `NULL` where it is a `JOIN` of a
/// disabled profile, itself otherwise.
pub open spec fn action_in(item: Seq<char>, profiles: profile::ProfilesV) -> Seq<char> {
    match target_of(item) {
        Some(target) => match sorted::get(profiles, target) {
            Some(p) => if p.enabled {
                item
            } else {
                "NULL"@
            },
            None => item,
        },
        None => item,
    }
}

/// The items of a list as they go to the engine.
pub open spec fn items_in(
    items: Seq<Seq<char>>,
    is_actions: bool,
    profiles: profile::ProfilesV,
) -> Seq<Seq<char>> {
    if is_actions {
        items.map_values(|i: Seq<char>| action_in(i, profiles))
    } else {
        items
    }
}

fn lower_items(items: &Vec<String>, is_actions: bool, profiles: &Profiles) -> (out: Vec<String>)
    ensures
        text::list_view(out@) == items_in(text::list_view(items@), is_actions, profiles@),
{
    if !is_actions {
        return text::copy_list(items);
    }
    let ghost all = text::list_view(items@);
    let mut out: Vec<String> = Vec::new();
    let mut i: usize = 0;
    while i < items.len()
        invariant
            i <= items@.len(),
            all == text::list_view(items@),
            out@.len() == i,
            forall|k: int| 0 <= k < i ==> (#[trigger] out@[k])@ == action_in(all[k], profiles@),
        decreases items@.len() - i,
    {
        assert(all[i as int] == items@[i as int]@);
        let disabled: bool = match join_target(items[i].as_str()) {
            Some(target) => match profiles.get(target.as_str()) {
                Some(p) => !p.enabled,
                None => false,
            },
            None => false,
        };
        if disabled {
            out.push(String::from_str("NULL"));
        } else {
            out.push(items[i].clone());
        }
        i = i + 1;
    }
    assert(text::list_view(out@) =~= items_in(all, true, profiles@));
    out
}

/// The complaint about a value of a type no rule has.
pub open spec fn unsupported(here: Seq<char>, name: Seq<char>) -> Seq<char> {
    "rule "@ + here + ": value "@ + name + " has an unsupported type"@
}

/// The values of a rule as they go to the engine, or the first that cannot.
pub open spec fn values_in(
    here: Seq<char>,
    values: config::ValuesV,
    profiles: profile::ProfilesV,
) -> Result<RuleValuesV, Seq<char>>
    decreases values.len(),
{
    if values.len() == 0 {
        Ok(Seq::empty())
    } else {
        match values_in(here, values.drop_last(), profiles) {
            Err(e) => Err(e),
            Ok(out) => {
                let name = values.last().0;
                match values.last().1 {
                    config::RawValueV::Int(n) => Ok(out.push((name, RuleValueV::Int(n)))),
                    config::RawValueV::Str(s) => Ok(out.push((name, RuleValueV::Str(s)))),
                    config::RawValueV::List(items) => Ok(
                        out.push(
                            (
                                name,
                                RuleValueV::List(
                                    items_in(
                                        items,
                                        text::lowered(name) == "actions"@,
                                        profiles,
                                    ),
                                ),
                            ),
                        ),
                    ),
                    config::RawValueV::Other => Err(unsupported(here, name)),
                }
            },
        }
    }
}

proof fn values_stop(here: Seq<char>, v: config::ValuesV, profiles: profile::ProfilesV, n: int)
    requires
        0 <= n <= v.len(),
        values_in(here, v.take(n), profiles) is Err,
    ensures
        values_in(here, v, profiles) == values_in(here, v.take(n), profiles),
    decreases v.len() - n,
{
    if n < v.len() {
        assert(v.take(n + 1).drop_last() =~= v.take(n));
        values_stop(here, v, profiles, n + 1);
    } else {
        assert(v.take(n) =~= v);
    }
}

fn lower_values(
    here: &str,
    values: &Vec<(String, RawValue)>,
    profiles: &Profiles,
) -> (r: Result<Vec<(String, RuleValue)>, String>)
    ensures
        match (r, values_in(here@, config::values_view(values@), profiles@)) {
            (Ok(x), Ok(y)) => rule_values_view(x@) == y,
            (Err(e), Err(f)) => e@ == f,
            _ => false,
        },
{
    let ghost all = config::values_view(values@);
    let mut out: Vec<(String, RuleValue)> = Vec::new();
    let mut i: usize = 0;
    assert(rule_values_view(out@) =~= Seq::empty());
    assert(all.take(0) =~= Seq::empty());
    while i < values.len()
        invariant
            i <= values@.len(),
            all == config::values_view(values@),
            values_in(here@, all.take(i as int), profiles@) == Ok::<RuleValuesV, Seq<char>>(
                rule_values_view(out@),
            ),
        decreases values@.len() - i,
    {
        let ghost before = rule_values_view(out@);
        assert(all.take(i + 1).drop_last() =~= all.take(i as int));
        assert(all[i as int] == (values@[i as int].0@, values@[i as int].1@));
        let value: RuleValue = match &values[i].1 {
            RawValue::Int(n) => RuleValue::Int(*n),
            RawValue::Str(s) => RuleValue::Str(s.clone()),
            RawValue::List(items) => {
                let is_actions: bool = text::same(
                    text::lower(values[i].0.as_str()).as_str(),
                    "actions",
                );
                RuleValue::List(lower_items(items, is_actions, profiles))
            },
            RawValue::Other => {
                proof {
                    values_stop(here@, all, profiles@, i + 1);
                }
                return Err(
                    text::cat5(
                        "rule ",
                        here,
                        ": value ",
                        values[i].0.as_str(),
                        " has an unsupported type",
                    ),
                );
            },
        };
        let ghost entry = (values@[i as int].0@, value@);
        out.push((values[i].0.clone(), value));
        assert(rule_values_view(out@) =~= before.push(entry));
        i = i + 1;
    }
    assert(all.take(i as int) =~= all);
    Ok(out)
}

/// A rule and everything under it as they go to the engine, or the first thing
/// wrong with them.
pub open spec fn lowered(key: RawKey, path: Seq<char>, profiles: profile::ProfilesV) -> Result<
    RuleInputV,
    Seq<char>,
>
    decreases key, 0nat,
{
    let here = profile::path_of(path, key.name@);
    match values_in(here, config::values_view(key.values@), profiles) {
        Err(e) => Err(e),
        Ok(values) => match lowered_all(key.children@, key.children@.len(), here, profiles) {
            Err(e) => Err(e),
            Ok(children) => Ok(RuleInputV { name: key.name@, values, children }),
        },
    }
}

/// The first `n` rules of a list as they go to the engine.
pub open spec fn lowered_all(
    keys: Seq<RawKey>,
    n: nat,
    path: Seq<char>,
    profiles: profile::ProfilesV,
) -> Result<Seq<RuleInputV>, Seq<char>>
    decreases keys, n,
{
    if n == 0 || n > keys.len() {
        Ok(Seq::empty())
    } else {
        match lowered_all(keys, (n - 1) as nat, path, profiles) {
            Err(e) => Err(e),
            Ok(before) => match lowered(keys[n - 1], path, profiles) {
                Err(e) => Err(e),
                Ok(rule) => Ok(before.push(rule)),
            },
        }
    }
}

proof fn lowered_stop(c: Seq<RawKey>, n: nat, path: Seq<char>, profiles: profile::ProfilesV)
    requires
        n <= c.len(),
        lowered_all(c, n, path, profiles) is Err,
    ensures
        lowered_all(c, c.len(), path, profiles) == lowered_all(c, n, path, profiles),
    decreases c.len() - n,
{
    if n < c.len() {
        lowered_stop(c, n + 1, path, profiles);
    }
}

fn lower(key: &RawKey, path: &str, profiles: &Profiles) -> (r: Result<RuleInput, String>)
    ensures
        match (r, lowered(*key, path@, profiles@)) {
            (Ok(x), Ok(y)) => rule_view(x) == y,
            (Err(e), Err(f)) => e@ == f,
            _ => false,
        },
    decreases *key, 0nat,
{
    let here: String = if path.unicode_len() == 0 {
        key.name.clone()
    } else {
        text::cat3(path, "/", key.name.as_str())
    };
    let values: Vec<(String, RuleValue)> = match lower_values(
        here.as_str(),
        &key.values,
        profiles,
    ) {
        Ok(v) => v,
        Err(e) => {
            return Err(e);
        },
    };
    let children: Vec<RuleInput> = match lower_all(&key.children, here.as_str(), profiles) {
        Ok(v) => v,
        Err(e) => {
            return Err(e);
        },
    };
    Ok(RuleInput { name: key.name.clone(), values, children })
}

fn lower_all(keys: &Vec<RawKey>, path: &str, profiles: &Profiles) -> (r: Result<
    Vec<RuleInput>,
    String,
>)
    ensures
        match (r, lowered_all(keys@, keys@.len(), path@, profiles@)) {
            (Ok(x), Ok(y)) => rules_view(x@, x@.len()) == y,
            (Err(e), Err(f)) => e@ == f,
            _ => false,
        },
    decreases keys@, keys@.len(),
{
    let mut out: Vec<RuleInput> = Vec::new();
    let mut i: usize = 0;
    while i < keys.len()
        invariant
            i <= keys@.len(),
            lowered_all(keys@, i as nat, path@, profiles@) == Ok::<Seq<RuleInputV>, Seq<char>>(
                rules_view(out@, out@.len()),
            ),
        decreases keys@.len() - i,
    {
        match lower(&keys[i], path, profiles) {
            Ok(rule) => {
                proof {
                    rules_view_push(out@, rule, out@.len());
                }
                out.push(rule);
            },
            Err(e) => {
                proof {
                    lowered_stop(keys@, (i + 1) as nat, path@, profiles@);
                }
                return Err(e);
            },
        }
        i = i + 1;
    }
    Ok(out)
}

/// What a generation brings before the engine has built it: the resolved
/// profiles, and the rules to build, if there are any to build.
#[derive(Debug, PartialEq, Eq)]
pub struct Prepared {
    pub profiles: Profiles,
    pub rules: Option<Vec<RuleInput>>,
}

/// The profiles of a generation.
pub open spec fn profiles_in(root: Option<RawKey>) -> Result<profile::ProfilesV, Seq<char>> {
    match root {
        Some(k) => profile::resolved(k),
        None => Ok(Seq::empty()),
    }
}

/// The rules of a generation as they go to the engine.
pub open spec fn rules_in(root: Option<RawKey>, profiles: profile::ProfilesV) -> Result<
    Option<Seq<RuleInputV>>,
    Seq<char>,
> {
    match root {
        None => Ok(None),
        Some(k) => match lowered_all(k.children@, k.children@.len(), Seq::empty(), profiles) {
            Err(e) => Err(e),
            Ok(rules) => Ok(Some(rules)),
        },
    }
}

/// The profiles of a generation, and its rules as they go to the engine.
pub open spec fn prepared(rules: Option<RawKey>, profiles: Option<RawKey>) -> Result<
    (profile::ProfilesV, Option<Seq<RuleInputV>>),
    Seq<char>,
> {
    match profiles_in(profiles) {
        Err(e) => Err(e),
        Ok(p) => match rules_in(rules, p) {
            Err(e) => Err(e),
            Ok(r) => Ok((p, r)),
        },
    }
}

/// A key behind a reference, if there is one.
pub open spec fn key_at(k: Option<&RawKey>) -> Option<RawKey> {
    match k {
        Some(k) => Some(*k),
        None => None,
    }
}

/// The rules of a list that may be absent, as values.
pub open spec fn opt_rules(v: Option<Vec<RuleInput>>) -> Option<Seq<RuleInputV>> {
    match v {
        Some(v) => Some(rules_view(v@, v@.len())),
        None => None,
    }
}

/// What a generation hands to the engine. `rules` is the `Rules\Interface` key
/// (its subkeys are the root rules); `profiles` is the `Profiles` key.
pub fn prepare(rules: Option<&RawKey>, profiles: Option<&RawKey>) -> (r: Result<Prepared, String>)
    ensures
        match (r, prepared(key_at(rules), key_at(profiles))) {
            (Ok(x), Ok(y)) => (x.profiles@, opt_rules(x.rules)) == y,
            (Err(e), Err(f)) => e@ == f,
            _ => false,
        },
{
    let resolved: Profiles = match profiles {
        Some(root) => match profile::resolve(root) {
            Ok(p) => p,
            Err(e) => {
                return Err(e);
            },
        },
        None => Profiles::new(),
    };
    match rules {
        None => Ok(Prepared { profiles: resolved, rules: None }),
        Some(root) => {
            assert(""@ =~= Seq::<char>::empty()) by {
                reveal_strlit("");
            }
            match lower_all(&root.children, "", &resolved) {
                Ok(v) => Ok(Prepared { profiles: resolved, rules: Some(v) }),
                Err(e) => Err(e),
            }
        },
    }
}

// ---- what the engine built -------------------------------------------------

/// Why the engine refused a generation.
#[derive(Debug, PartialEq, Eq)]
pub enum BuildError {
    Alloc,
    UnknownFact { rule: String, key: String },
    BadOperator { rule: String, key: String },
    BadPattern { rule: String, key: String },
    BadCounterView { rule: String, key: String },
    BadActionsValue { rule: String },
    /// `detail` is the engine's own words.
    BadAction { rule: String, detail: String },
    PromptChainTooDeep { rule: String },
    BadPriority { rule: String },
    BadEnabled { rule: String },
    BadRuleName { rule: String },
    TagHashCollision { a: String, b: String },
    StreamHashCollision { a: String, b: String },
    CounterNeverWritten { rule: String, key: String },
    TagDownwardRead { rule: String, name: String },
    PresentNeverAtLayer { rule: String, key: String },
    KeyNotAtLayer { rule: String, key: String },
    ActionNotAtLayer { rule: String },
}

/// A complaint about a rule.
pub open spec fn about(rule: Seq<char>, what: Seq<char>) -> Seq<char> {
    "rule "@ + rule + ": "@ + what
}

fn say(rule: &str, what: &str) -> (s: String)
    ensures
        s@ == about(rule@, what@),
{
    text::cat4("rule ", rule, ": ", what)
}

fn say3(rule: &str, a: &str, b: &str, c: &str) -> (s: String)
    ensures
        s@ == about(rule@, a@ + b@ + c@),
{
    let what: String = text::cat3(a, b, c);
    say(rule, what.as_str())
}

/// A refusal in words.
pub open spec fn described(e: BuildError) -> Seq<char> {
    match e {
        BuildError::Alloc => "out of memory"@,
        BuildError::UnknownFact { rule, key } => about(rule@, "unknown fact "@ + key@),
        BuildError::BadOperator { rule, key } => about(rule@, "bad operator in "@ + key@),
        BuildError::BadPattern { rule, key } => about(rule@, "bad pattern in "@ + key@),
        BuildError::BadCounterView { rule, key } => about(rule@, "bad counter view "@ + key@),
        BuildError::BadActionsValue { rule } => about(rule@, "Actions is not a list"@),
        BuildError::BadAction { rule, detail } => about(
            rule@,
            "bad action ("@ + detail@ + ")"@,
        ),
        BuildError::PromptChainTooDeep { rule } => about(rule@, "PROMPT chain too deep"@),
        BuildError::BadPriority { rule } => about(rule@, "Priority is not an integer"@),
        BuildError::BadEnabled { rule } => about(rule@, "Enabled is not 0 or 1"@),
        BuildError::BadRuleName { rule } => about(rule@, "bad name"@),
        BuildError::TagHashCollision { a, b } => "names "@ + a@ + " and "@ + b@ + " collide"@,
        BuildError::StreamHashCollision { a, b } => "names "@ + a@ + " and "@ + b@ + " collide"@,
        BuildError::CounterNeverWritten { rule, key } => about(
            rule@,
            ""@ + key@ + " reads a stream nobody writes"@,
        ),
        BuildError::TagDownwardRead { rule, name } => about(rule@, "downward read of "@ + name@),
        BuildError::PresentNeverAtLayer { rule, key } => about(
            rule@,
            ""@ + key@ + " on a fact that never exists at this layer"@,
        ),
        BuildError::KeyNotAtLayer { rule, key } => about(
            rule@,
            ""@ + key@ + " does not exist at the interface layer"@,
        ),
        BuildError::ActionNotAtLayer { rule } => about(
            rule@,
            "an action the interface layer does not speak"@,
        ),
    }
}

fn say2(rule: &str, a: &str, b: &str) -> (s: String)
    ensures
        s@ == about(rule@, a@ + b@),
{
    let what: String = text::cat2(a, b);
    say(rule, what.as_str())
}

/// Puts a refusal in words.
pub fn describe(e: &BuildError) -> (s: String)
    ensures
        s@ == described(*e),
{
    match e {
        BuildError::Alloc => String::from_str("out of memory"),
        BuildError::UnknownFact { rule, key } => say2(rule, "unknown fact ", key),
        BuildError::BadOperator { rule, key } => say2(rule, "bad operator in ", key),
        BuildError::BadPattern { rule, key } => say2(rule, "bad pattern in ", key),
        BuildError::BadCounterView { rule, key } => say2(rule, "bad counter view ", key),
        BuildError::BadActionsValue { rule } => say(rule, "Actions is not a list"),
        BuildError::BadAction { rule, detail } => say3(rule, "bad action (", detail, ")"),
        BuildError::PromptChainTooDeep { rule } => say(rule, "PROMPT chain too deep"),
        BuildError::BadPriority { rule } => say(rule, "Priority is not an integer"),
        BuildError::BadEnabled { rule } => say(rule, "Enabled is not 0 or 1"),
        BuildError::BadRuleName { rule } => say(rule, "bad name"),
        BuildError::TagHashCollision { a, b } => text::cat5("names ", a, " and ", b, " collide"),
        BuildError::StreamHashCollision { a, b } => text::cat5("names ", a, " and ", b, " collide"),
        BuildError::CounterNeverWritten { rule, key } => say3(
            rule,
            "",
            key,
            " reads a stream nobody writes",
        ),
        BuildError::TagDownwardRead { rule, name } => say2(rule, "downward read of ", name),
        BuildError::PresentNeverAtLayer { rule, key } => say3(
            rule,
            "",
            key,
            " on a fact that never exists at this layer",
        ),
        BuildError::KeyNotAtLayer { rule, key } => say3(
            rule,
            "",
            key,
            " does not exist at the interface layer",
        ),
        BuildError::ActionNotAtLayer { rule } => say(
            rule,
            "an action the interface layer does not speak",
        ),
    }
}

/// A condition the engine found that can never hold.
#[derive(Debug, PartialEq, Eq)]
pub struct Lint {
    pub rule: String,
    pub key: String,
}

/// What is read of a forest the engine built: the profiles its `JOIN`s name,
/// in the order in which verdicts number them.
#[derive(Debug, PartialEq, Eq)]
pub struct Forest {
    pub profiles: Vec<String>,
}

/// What the engine built.
#[derive(Debug, PartialEq, Eq)]
pub struct Built {
    pub forest: Forest,
    pub lints: Vec<Lint>,
}

/// A built generation: the forest and the profiles it may name.
#[derive(Debug, PartialEq, Eq)]
pub struct Policy {
    /// `None` when `Rules\Interface` is absent: the backstop answers for every
    /// interface.
    pub forest: Option<Forest>,
    /// Resolved profiles by lower-cased path.
    pub profiles: Profiles,
    /// Non-fatal findings (a condition that can never hold at this layer).
    pub lints: Vec<String>,
}

/// The same as values.
#[verifier::ext_equal]
pub struct PolicyV {
    pub forest: Option<Seq<Seq<char>>>,
    pub profiles: profile::ProfilesV,
    pub lints: Seq<Seq<char>>,
}

impl View for Policy {
    type V = PolicyV;

    open spec fn view(&self) -> PolicyV {
        PolicyV {
            forest: match self.forest {
                Some(f) => Some(text::list_view(f.profiles@)),
                None => None,
            },
            profiles: self.profiles@,
            lints: text::list_view(self.lints@),
        }
    }
}

impl Default for Policy {
    fn default() -> (p: Policy)
        ensures
            p@ == (PolicyV { forest: None, profiles: Seq::empty(), lints: Seq::empty() }),
    {
        let p: Policy = Policy { forest: None, profiles: Profiles::new(), lints: Vec::new() };
        assert(text::list_view(p.lints@) =~= Seq::empty());
        p
    }
}

/// The first of these paths that names no profile.
pub open spec fn nameless(paths: Seq<Seq<char>>, profiles: profile::ProfilesV) -> Option<Seq<char>>
    decreases paths.len(),
{
    if paths.len() == 0 {
        None
    } else {
        match nameless(paths.drop_last(), profiles) {
            Some(p) => Some(p),
            None => if sorted::has(profiles, text::lowered(paths.last())) {
                None
            } else {
                Some(paths.last())
            },
        }
    }
}

proof fn nameless_from(paths: Seq<Seq<char>>, profiles: profile::ProfilesV, n: int)
    requires
        0 <= n < paths.len(),
        nameless(paths.take(n), profiles) is None,
        !sorted::has(profiles, text::lowered(paths[n])),
    ensures
        nameless(paths, profiles) == Some(paths[n]),
    decreases paths.len() - n,
{
    assert(paths.take(n + 1).drop_last() =~= paths.take(n));
    nameless_stays(paths, profiles, n + 1);
}

proof fn nameless_stays(paths: Seq<Seq<char>>, profiles: profile::ProfilesV, n: int)
    requires
        0 <= n <= paths.len(),
        nameless(paths.take(n), profiles) is Some,
    ensures
        nameless(paths, profiles) == nameless(paths.take(n), profiles),
    decreases paths.len() - n,
{
    if n < paths.len() {
        assert(paths.take(n + 1).drop_last() =~= paths.take(n));
        nameless_stays(paths, profiles, n + 1);
    } else {
        assert(paths.take(n) =~= paths);
    }
}

fn first_nameless(paths: &Vec<String>, profiles: &Profiles) -> (r: Option<usize>)
    ensures
        match r {
            Some(i) => i < paths@.len() && nameless(text::list_view(paths@), profiles@) == Some(
                paths@[i as int]@,
            ),
            None => nameless(text::list_view(paths@), profiles@) is None,
        },
{
    let ghost all = text::list_view(paths@);
    let mut i: usize = 0;
    while i < paths.len()
        invariant
            i <= paths@.len(),
            all == text::list_view(paths@),
            nameless(all.take(i as int), profiles@) is None,
        decreases paths@.len() - i,
    {
        assert(all[i as int] == paths@[i as int]@);
        assert(all.take(i + 1).drop_last() =~= all.take(i as int));
        let key: String = text::lower(paths[i].as_str());
        match profiles.get(key.as_str()) {
            Some(_) => {},
            None => {
                proof {
                    nameless_from(all, profiles@, i as int);
                }
                return Some(i);
            },
        }
        i = i + 1;
    }
    assert(all.take(i as int) =~= all);
    None
}

/// A finding in words.
pub open spec fn lint_text(l: Lint) -> Seq<char> {
    "rule "@ + l.rule@ + ": "@ + l.key@ + " can never hold at the interface layer"@
}

/// The findings in words.
pub open spec fn lint_texts(s: Seq<Lint>) -> Seq<Seq<char>> {
    s.map_values(|l: Lint| lint_text(l))
}

fn say_lints(lints: &Vec<Lint>) -> (out: Vec<String>)
    ensures
        text::list_view(out@) == lint_texts(lints@),
{
    let mut out: Vec<String> = Vec::new();
    let mut i: usize = 0;
    while i < lints.len()
        invariant
            i <= lints@.len(),
            out@.len() == i,
            forall|k: int| 0 <= k < i ==> (#[trigger] out@[k])@ == lint_text(lints@[k]),
        decreases lints@.len() - i,
    {
        out.push(
            text::cat5(
                "rule ",
                lints[i].rule.as_str(),
                ": ",
                lints[i].key.as_str(),
                " can never hold at the interface layer",
            ),
        );
        i = i + 1;
    }
    assert(text::list_view(out@) =~= lint_texts(lints@));
    out
}

/// A generation from its profiles and what the engine made of its rules, or
/// why it is refused. `None` stands for a generation without rules.
pub open spec fn built(
    profiles: profile::ProfilesV,
    engine: Option<Result<Built, BuildError>>,
) -> Result<PolicyV, Seq<char>> {
    match engine {
        None => Ok(PolicyV { forest: None, profiles, lints: Seq::empty() }),
        Some(Err(e)) => Err(described(e)),
        Some(Ok(b)) => {
            let paths = text::list_view(b.forest.profiles@);
            match nameless(paths, profiles) {
                Some(path) => Err("JOIN("@ + path + ") names no profile"@),
                None => Ok(
                    PolicyV { forest: Some(paths), profiles, lints: lint_texts(b.lints@) },
                ),
            }
        },
    }
}

/// Builds a generation from its resolved profiles and what the engine made of
/// its rules.
pub fn build(profiles: Profiles, engine: Option<Result<Built, BuildError>>) -> (r: Result<
    Policy,
    String,
>)
    ensures
        match (r, built(profiles@, engine)) {
            (Ok(p), Ok(q)) => p@ == q,
            (Err(e), Err(f)) => e@ == f,
            _ => false,
        },
{
    match engine {
        None => {
            let lints: Vec<String> = Vec::new();
            assert(text::list_view(lints@) =~= Seq::empty());
            Ok(Policy { forest: None, profiles, lints })
        },
        Some(Err(e)) => Err(describe(&e)),
        Some(Ok(b)) => {
            match first_nameless(&b.forest.profiles, &profiles) {
                Some(i) => Err(
                    text::cat3("JOIN(", b.forest.profiles[i].as_str(), ") names no profile"),
                ),
                None => {
                    let lints: Vec<String> = say_lints(&b.lints);
                    Ok(Policy { forest: Some(b.forest), profiles, lints })
                },
            }
        },
    }
}

/// A generation from its keys and what the engine made of its rules, or why it
/// is refused.
pub open spec fn generation(
    rules: Option<RawKey>,
    profiles: Option<RawKey>,
    engine: Option<Result<Built, BuildError>>,
) -> Result<PolicyV, Seq<char>> {
    match prepared(rules, profiles) {
        Ok(given) => built(given.0, engine),
        Err(e) => Err(e),
    }
}

/// The generation that stands once another was built or refused: a refused one
/// leaves the last good one.
pub open spec fn standing(last: PolicyV, fresh: Result<PolicyV, Seq<char>>) -> PolicyV {
    match fresh {
        Ok(p) => p,
        Err(_) => last,
    }
}

/// What came of building a generation, as a value.
pub open spec fn fresh_view(fresh: Result<Policy, String>) -> Result<PolicyV, Seq<char>> {
    match fresh {
        Ok(p) => Ok(p@),
        Err(e) => Err(e@),
    }
}

impl Policy {
    /// Takes in a generation that was built, or keeps the last good one and
    /// hands back why the new one was refused.
    pub fn adopt(&mut self, fresh: Result<Policy, String>) -> (refused: Option<String>)
        ensures
            final(self)@ == standing(old(self)@, fresh_view(fresh)),
            text::opt_view(refused) == fresh_view(fresh).err(),
    {
        match fresh {
            Ok(p) => {
                *self = p;
                None
            },
            Err(e) => Some(e),
        }
    }
}

// ---- what an evaluation means ----------------------------------------------

/// What the layer said about one interface.
#[derive(Debug, PartialEq, Eq)]
pub enum Outcome {
    /// Stand in this profile.
    Join(Profile),
    /// Never touch the interface.
    Ignore,
    /// Keep it administratively down.
    Down,
}

/// The same as values.
#[verifier::ext_equal]
pub enum OutcomeV {
    Join(profile::ProfileV),
    Ignore,
    Down,
}

impl View for Outcome {
    type V = OutcomeV;

    open spec fn view(&self) -> OutcomeV {
        match self {
            Outcome::Join(p) => OutcomeV::Join(p@),
            Outcome::Ignore => OutcomeV::Ignore,
            Outcome::Down => OutcomeV::Down,
        }
    }
}

impl Clone for Outcome {
    fn clone(&self) -> (r: Outcome)
        ensures
            r@ == self@,
    {
        match self {
            Outcome::Join(p) => Outcome::Join(p.clone()),
            Outcome::Ignore => Outcome::Ignore,
            Outcome::Down => Outcome::Down,
        }
    }
}

impl Outcome {
    /// The verdict's own word.
    pub fn as_str(&self) -> (s: &'static str)
        ensures
            s@ == match self@ {
                OutcomeV::Join(_) => "JOIN"@,
                OutcomeV::Ignore => "IGNORE"@,
                OutcomeV::Down => "DOWN"@,
            },
    {
        match self {
            Outcome::Join(_) => "JOIN",
            Outcome::Ignore => "IGNORE",
            Outcome::Down => "DOWN",
        }
    }

    /// The profile to stand in, if there is one.
    pub fn profile(&self) -> (r: Option<&Profile>)
        ensures
            match (r, self@) {
                (Some(p), OutcomeV::Join(q)) => p@ == q,
                (None, OutcomeV::Ignore) => true,
                (None, OutcomeV::Down) => true,
                _ => false,
            },
    {
        match self {
            Outcome::Join(p) => Some(p),
            _ => None,
        }
    }
}

/// One judgment, with its attribution.
#[derive(Debug, PartialEq, Eq)]
pub struct Judgment {
    pub outcome: Outcome,
    /// The rule path that spoke, or `backstop`.
    pub rule: String,
    pub backstop: bool,
    /// Two rules tied on priority named different profiles. The outcome is
    /// `Ignore` — no answer is the honest answer — and `rule` names the two,
    /// for `net status`.
    pub conflict: bool,
}

/// The same as values.
#[verifier::ext_equal]
pub struct JudgmentV {
    pub outcome: OutcomeV,
    pub rule: Seq<char>,
    pub backstop: bool,
    pub conflict: bool,
}

impl View for Judgment {
    type V = JudgmentV;

    open spec fn view(&self) -> JudgmentV {
        JudgmentV {
            outcome: self.outcome@,
            rule: self.rule@,
            backstop: self.backstop,
            conflict: self.conflict,
        }
    }
}

/// What is said of an interface no rule speaks of.
pub open spec fn backstop() -> JudgmentV {
    JudgmentV {
        outcome: OutcomeV::Ignore,
        rule: "backstop"@,
        backstop: true,
        conflict: false,
    }
}

impl Default for Judgment {
    fn default() -> (j: Judgment)
        ensures
            j@ == self::backstop(),
    {
        Judgment {
            outcome: Outcome::Ignore,
            rule: String::from_str("backstop"),
            backstop: true,
            conflict: false,
        }
    }
}

impl Clone for Judgment {
    fn clone(&self) -> (r: Judgment)
        ensures
            r@ == self@,
    {
        Judgment {
            outcome: self.outcome.clone(),
            rule: self.rule.clone(),
            backstop: self.backstop,
            conflict: self.conflict,
        }
    }
}

/// A rule that spoke.
#[derive(Debug, PartialEq, Eq)]
pub struct Candidate {
    pub priority: i64,
    pub rule: String,
}

/// A verdict of the engine.
#[derive(Debug, Clone, Copy, PartialEq, Eq)]
pub enum Verdict {
    /// `JOIN` of the profile with this number in the forest.
    Join(u32),
    Down,
    /// Anything else.
    Other,
}

/// What the engine said of one interface.
#[derive(Debug, PartialEq, Eq)]
pub struct Evaluation {
    pub conflict: bool,
    pub candidates: Vec<Candidate>,
    pub verdict: Verdict,
    pub attributed_to: String,
    pub backstop: bool,
}

/// The highest priority of these rules.
pub open spec fn highest(c: Seq<Candidate>) -> int
    decreases c.len(),
{
    if c.len() == 0 {
        0
    } else if c.len() == 1 {
        c[0].priority as int
    } else {
        let rest = highest(c.drop_last());
        if c.last().priority > rest {
            c.last().priority as int
        } else {
            rest
        }
    }
}

/// A text put into a list that is in order, unless it is there.
pub open spec fn into(s: Seq<Seq<char>>, k: Seq<char>) -> Seq<Seq<char>> {
    let n = sorted::key_place(s, k);
    if n < s.len() && s[n] == k {
        s
    } else {
        s.insert(n, k)
    }
}

/// The names of the rules with this priority, in order and once each.
pub open spec fn rivals(c: Seq<Candidate>, priority: int) -> Seq<Seq<char>>
    decreases c.len(),
{
    if c.len() == 0 {
        Seq::empty()
    } else if c.last().priority == priority {
        into(rivals(c.drop_last(), priority), c.last().rule@)
    } else {
        rivals(c.drop_last(), priority)
    }
}

/// What a verdict comes to.
pub open spec fn outcome_of(
    verdict: Verdict,
    paths: Seq<Seq<char>>,
    profiles: profile::ProfilesV,
) -> OutcomeV {
    match verdict {
        Verdict::Join(i) => if i < paths.len() {
            match sorted::get(profiles, text::lowered(paths[i as int])) {
                Some(p) => OutcomeV::Join(p),
                None => OutcomeV::Ignore,
            }
        } else {
            OutcomeV::Ignore
        },
        Verdict::Down => OutcomeV::Down,
        Verdict::Other => OutcomeV::Ignore,
    }
}

/// What an evaluation means. `None` stands for one that failed.
pub open spec fn judged(policy: PolicyV, evaluation: Option<Evaluation>) -> JudgmentV {
    match (policy.forest, evaluation) {
        (Some(paths), Some(e)) => if e.conflict {
            JudgmentV {
                outcome: OutcomeV::Ignore,
                rule: text::joined(
                    rivals(e.candidates@, highest(e.candidates@)),
                    " vs "@,
                ),
                backstop: false,
                conflict: true,
            }
        } else {
            JudgmentV {
                outcome: outcome_of(e.verdict, paths, policy.profiles),
                rule: e.attributed_to@,
                backstop: e.backstop,
                conflict: false,
            }
        },
        _ => backstop(),
    }
}

fn top_priority(c: &Vec<Candidate>) -> (r: i64)
    ensures
        r == highest(c@),
{
    if c.len() == 0 {
        return 0;
    }
    let mut top: i64 = c[0].priority;
    let mut i: usize = 1;
    assert(c@.take(1) =~= seq![c@[0]]);
    while i < c.len()
        invariant
            1 <= i <= c@.len(),
            top == highest(c@.take(i as int)),
        decreases c@.len() - i,
    {
        assert(c@.take(i + 1).drop_last() =~= c@.take(i as int));
        if c[i].priority > top {
            top = c[i].priority;
        }
        i = i + 1;
    }
    assert(c@.take(i as int) =~= c@);
    top
}

fn put_name(names: &mut Vec<String>, k: &String)
    ensures
        text::list_view(final(names)@) == into(text::list_view(old(names)@), k@),
{
    let ghost all = text::list_view(names@);
    let mut n: usize = 0;
    while n < names.len() && text::comes_before(names[n].as_str(), k.as_str())
        invariant
            n <= names@.len(),
            names@ == old(names)@,
            all == text::list_view(names@),
            forall|i: int| 0 <= i < n ==> text::before(#[trigger] all[i], k@),
        decreases names@.len() - n,
    {
        assert(all[n as int] == names@[n as int]@);
        n = n + 1;
    }
    proof {
        if n < names@.len() {
            assert(all[n as int] == names@[n as int]@);
        }
        sorted::key_place_found(all, k@, n as int);
    }
    if n < names.len() && text::same(names[n].as_str(), k.as_str()) {
        return;
    }
    names.insert(n, k.clone());
    assert(text::list_view(names@) =~= all.insert(n as int, k@));
}

fn rival_names(c: &Vec<Candidate>, priority: i64) -> (out: Vec<String>)
    ensures
        text::list_view(out@) == rivals(c@, priority as int),
{
    let mut out: Vec<String> = Vec::new();
    let mut i: usize = 0;
    assert(text::list_view(out@) =~= Seq::empty());
    while i < c.len()
        invariant
            i <= c@.len(),
            text::list_view(out@) == rivals(c@.take(i as int), priority as int),
        decreases c@.len() - i,
    {
        assert(c@.take(i + 1).drop_last() =~= c@.take(i as int));
        if c[i].priority == priority {
            put_name(&mut out, &c[i].rule);
        }
        i = i + 1;
    }
    assert(c@.take(i as int) =~= c@);
    out
}

impl Policy {
    /// Judges one interface by what the engine said of it; `None` where the
    /// evaluation failed.
    pub fn judge(&self, evaluation: Option<&Evaluation>) -> (j: Judgment)
        ensures
            j@ == judged(
                self@,
                match evaluation {
                    Some(e) => Some(*e),
                    None => None,
                },
            ),
    {
        let forest: &Forest = match &self.forest {
            Some(f) => f,
            None => {
                return Judgment::default();
            },
        };
        let e: &Evaluation = match evaluation {
            Some(e) => e,
            None => {
                return Judgment::default();
            },
        };
        if e.conflict {
            let names: Vec<String> = rival_names(&e.candidates, top_priority(&e.candidates));
            return Judgment {
                outcome: Outcome::Ignore,
                rule: text::join(&names, " vs "),
                backstop: false,
                conflict: true,
            };
        }
        let outcome: Outcome = match e.verdict {
            Verdict::Join(i) => {
                let at: usize = i as usize;
                if at < forest.profiles.len() {
                    let path: String = text::lower(forest.profiles[at].as_str());
                    match self.profiles.get(path.as_str()) {
                        Some(p) => Outcome::Join(p.clone()),
                        None => Outcome::Ignore,
                    }
                } else {
                    Outcome::Ignore
                }
            },
            Verdict::Down => Outcome::Down,
            Verdict::Other => Outcome::Ignore,
        };
        Judgment {
            outcome,
            rule: e.attributed_to.clone(),
            backstop: e.backstop,
            conflict: false,
        }
    }
}

// ---- laws ------------------------------------------------------------------

/// Of the items of a list, only an action that is a `JOIN` of a disabled
/// profile goes to the engine as anything but itself, and that one goes as
/// `NULL`.
pub proof fn a_join_of_a_disabled_profile_abstains(
    items: Seq<Seq<char>>,
    is_actions: bool,
    profiles: profile::ProfilesV,
    i: int,
)
    requires
        0 <= i < items.len(),
    ensures
        ({
            let disabled = is_actions && (target_of(items[i]) matches Some(t) && (sorted::get(
                profiles,
                t,
            ) matches Some(p) && !p.enabled));
            items_in(items, is_actions, profiles)[i] == if disabled {
                "NULL"@
            } else {
                items[i]
            }
        }),
        items_in(items, is_actions, profiles).len() == items.len(),
{
}

/// A generation is refused as a whole, and the last good one kept, when a
/// profile is malformed, a rule is malformed, or a `JOIN` names no profile; in
/// every other case the new one stands.
pub proof fn a_refused_generation_leaves_the_last(
    last: PolicyV,
    rules: Option<RawKey>,
    profiles: Option<RawKey>,
    engine: Option<Result<Built, BuildError>>,
)
    ensures
        ({
            let given = prepared(rules, profiles);
            let fresh = generation(rules, profiles, engine);
            let faulty = {
                ||| given is Err
                ||| engine matches Some(Err(_))
                ||| engine matches Some(Ok(b)) && nameless(
                    text::list_view(b.forest.profiles@),
                    given->Ok_0.0,
                ) is Some
            };
            &&& fresh is Err <==> faulty
            &&& standing(last, fresh) == if faulty {
                last
            } else {
                fresh->Ok_0
            }
            &&& !faulty ==> fresh->Ok_0.profiles == given->Ok_0.0
        }),
{
}

/// Every `JOIN` of a generation that was built names a profile.
pub proof fn every_join_names_a_profile(
    profiles: profile::ProfilesV,
    engine: Option<Result<Built, BuildError>>,
    i: int,
)
    requires
        built(profiles, engine) matches Ok(p) && (p.forest matches Some(paths) && 0 <= i
            < paths.len()),
    ensures
        sorted::has(
            built(profiles, engine)->Ok_0.profiles,
            text::lowered(built(profiles, engine)->Ok_0.forest->Some_0[i]),
        ),
{
    let paths = built(profiles, engine)->Ok_0.forest->Some_0;
    nameless_at(paths, profiles, i);
}

proof fn nameless_at(paths: Seq<Seq<char>>, profiles: profile::ProfilesV, i: int)
    requires
        nameless(paths, profiles) is None,
        0 <= i < paths.len(),
    ensures
        sorted::has(profiles, text::lowered(paths[i])),
    decreases paths.len(),
{
    if i < paths.len() - 1 {
        nameless_at(paths.drop_last(), profiles, i);
    }
}

/// In a generation that was built, a `JOIN` verdict of its own forest puts the
/// interface in the profile it names.
pub proof fn a_join_is_carried_out(
    profiles: profile::ProfilesV,
    engine: Option<Result<Built, BuildError>>,
    e: Evaluation,
    i: u32,
)
    requires
        built(profiles, engine) matches Ok(p) && (p.forest matches Some(paths) && i
            < paths.len()),
        !e.conflict,
        e.verdict == Verdict::Join(i),
    ensures
        ({
            let p = built(profiles, engine)->Ok_0;
            judged(p, Some(e)).outcome == OutcomeV::Join(
                sorted::get(p.profiles, text::lowered(p.forest->Some_0[i as int]))->Some_0,
            )
        }),
{
    every_join_names_a_profile(profiles, engine, i as int);
}

/// An interface stands in a profile only where a rule's verdict put it there:
/// a conflict, a failed evaluation and a machine without rules all leave the
/// interface alone.
pub proof fn no_answer_is_no_profile(policy: PolicyV, evaluation: Option<Evaluation>)
    ensures
        policy.forest is None ==> judged(policy, evaluation) == backstop(),
        evaluation is None ==> judged(policy, evaluation) == backstop(),
        evaluation matches Some(e) ==> (e.conflict ==> judged(policy, evaluation).outcome
            == OutcomeV::Ignore),
        judged(policy, evaluation).outcome is Join ==> (evaluation matches Some(e)
            && e.verdict is Join && !e.conflict && policy.forest is Some),
{
}

} // verus!
