//! What rules say of a profile, and what is made of a verdict.

use vstd::prelude::*;
use vstd::string::*;
use crate::sorted;
use crate::text;
use super::config;
use super::policy;
use super::policy::{Candidate, Evaluation, OutcomeV, PolicyV, RuleValueV, Verdict};
use super::profile;

verus! {

// ---- rules ------------------------------------------------------------------

/// Spaces, tabs and line ends do not count in an expression.
pub proof fn blanks_do_not_count(s: Seq<char>, c: char)
    ensures
        policy::compact(Seq::empty()).len() == 0,
        policy::compact(s.push(c)) == if c == ' ' || c == '\t' || c == '\n' || c == '\r' || c
            == '\u{c}' {
            policy::compact(s)
        } else {
            policy::compact(s).push(c)
        },
{
    assert(s.push(c).drop_last() =~= s);
}

proof fn already_compact(s: Seq<char>)
    requires
        forall|i: int| 0 <= i < s.len() ==> !policy::ascii_space(#[trigger] s[i]),
    ensures
        policy::compact(s) == s,
    decreases s.len(),
{
    if s.len() > 0 {
        let t = s.drop_last();
        assert forall|i: int| 0 <= i < t.len() implies !policy::ascii_space(#[trigger] t[i]) by {
            assert(t[i] == s[i]);
        }
        assert(!policy::ascii_space(s[s.len() - 1]));
        already_compact(t);
        assert(t.push(s.last()) =~= s);
    }
}

/// `JOIN(..)`, in any case, names the profile between its brackets, in small letters
/// and with every backslash a slash.
pub proof fn a_join_names_a_profile(inner: Seq<char>)
    requires
        forall|i: int|
            0 <= i < inner.len() ==> {
                let c = #[trigger] inner[i];
                c != ' ' && c != '\t' && c != '\n' && c != '\r' && c != '\u{c}'
            },
    ensures
        policy::target_of(seq!['J', 'O', 'I', 'N', '('] + inner + seq![')']) is Some,
        ({
            let t = policy::target_of(seq!['J', 'O', 'I', 'N', '('] + inner + seq![')'])->0;
            &&& t.len() == inner.len()
            &&& forall|i: int|
                0 <= i < inner.len() ==> #[trigger] t[i] == text::lower_char(
                    if inner[i] == '\\' {
                        '/'
                    } else {
                        inner[i]
                    },
                )
        }),
{
    reveal_strlit("join(");
    let s = seq!['J', 'O', 'I', 'N', '('] + inner + seq![')'];
    assert forall|i: int| 0 <= i < s.len() implies !policy::ascii_space(#[trigger] s[i]) by {
        if 5 <= i < 5 + inner.len() {
            assert(s[i] == inner[i - 5]);
        }
    }
    already_compact(s);
    let head = text::lowered(s.take(5));
    assert(head =~= "join("@);
    assert(s.last() == ')');
    assert(s.subrange(5, s.len() - 1) =~= inner);
}

/// A rule's values are numbers, texts and lists. In a list called `Actions` a join of
/// a profile that is disabled says nothing; a value of any other sort is refused, and
/// the first such is the one that is named.
pub proof fn a_rules_values_are_taken_one_by_one(
    here: Seq<char>,
    values: config::ValuesV,
    name: Seq<char>,
    value: config::RawValueV,
    profiles: profile::ProfilesV,
)
    ensures
        ({
            let before = policy::values_in(here, values, profiles);
            let after = policy::values_in(here, values.push((name, value)), profiles);
            match (before, value) {
                (Err(e), _) => after == Err::<policy::RuleValuesV, Seq<char>>(e),
                (Ok(v), config::RawValueV::Int(n)) => after == Ok::<
                    policy::RuleValuesV,
                    Seq<char>,
                >(v.push((name, RuleValueV::Int(n)))),
                (Ok(v), config::RawValueV::Str(s)) => after == Ok::<
                    policy::RuleValuesV,
                    Seq<char>,
                >(v.push((name, RuleValueV::Str(s)))),
                (Ok(v), config::RawValueV::List(l)) => after is Ok && after->Ok_0.len() == v.len()
                    + 1 && after->Ok_0.drop_last() == v && after->Ok_0.last().0 == name && (
                after->Ok_0.last().1 matches RuleValueV::List(k) && k.len() == l.len() && (
                text::lowered(name) != "actions"@ ==> k == l)),
                (Ok(_), config::RawValueV::Other) => after == Err::<policy::RuleValuesV, Seq<char>>(
                    "rule "@ + here + ": value "@ + name + " has an unsupported type"@,
                ),
            }
        }),
        policy::values_in(here, Seq::empty(), profiles) == Ok::<policy::RuleValuesV, Seq<char>>(
            Seq::empty(),
        ),
{
    let all = values.push((name, value));
    assert(all.drop_last() =~= values);
    let before = policy::values_in(here, values, profiles);
    let after = policy::values_in(here, all, profiles);
    if before is Ok && value is List {
        assert(after->Ok_0.drop_last() =~= before->Ok_0);
    }
}

// ---- verdicts ---------------------------------------------------------------

/// A verdict without a conflict stands: the profile it joins with, by its number among
/// those the rules name, in small letters; down; or nothing. Who gave it is told.
pub proof fn a_verdict_stands(p: PolicyV, e: Evaluation)
    requires
        p.forest is Some,
        !e.conflict,
    ensures
        ({
            let j = policy::judged(p, Some(e));
            let paths = p.forest->0;
            &&& j.rule == e.attributed_to@ && j.backstop == e.backstop && !j.conflict
            &&& e.verdict is Down ==> j.outcome == OutcomeV::Down
            &&& e.verdict is Other ==> j.outcome == OutcomeV::Ignore
            &&& e.verdict matches Verdict::Join(i) ==> {
                &&& i >= paths.len() ==> j.outcome == OutcomeV::Ignore
                &&& i < paths.len() ==> match sorted::get(
                    p.profiles,
                    text::lowered(paths[i as int]),
                ) {
                    Some(x) => j.outcome == OutcomeV::Join(x),
                    None => j.outcome == OutcomeV::Ignore,
                }
            }
        }),
{
}

/// Without rules, or without an evaluation, nothing is done, and the backstop is who
/// said so.
pub proof fn the_backstop_does_nothing(p: PolicyV, e: Option<Evaluation>)
    requires
        p.forest is None || e is None,
    ensures
        ({
            let j = policy::judged(p, e);
            j.outcome == OutcomeV::Ignore && j.rule == "backstop"@ && j.backstop && !j.conflict
        }),
{
}

/// In a conflict nothing is done, and the rules of the highest priority are named.
pub proof fn a_conflict_does_nothing(p: PolicyV, e: Evaluation)
    requires
        p.forest is Some,
        e.conflict,
    ensures
        ({
            let j = policy::judged(p, Some(e));
            let c = e.candidates@;
            &&& j.outcome == OutcomeV::Ignore && j.conflict && !j.backstop
            &&& j.rule == text::joined(policy::rivals(c, policy::highest(c)), " vs "@)
        }),
{
}

/// The highest priority is that of a candidate, and none has a higher one.
pub proof fn the_highest_is_the_highest(c: Seq<Candidate>)
    requires
        c.len() > 0,
    ensures
        forall|i: int| 0 <= i < c.len() ==> (#[trigger] c[i]).priority <= policy::highest(c),
        exists|i: int| 0 <= i < c.len() && (#[trigger] c[i]).priority == policy::highest(c),
    decreases c.len(),
{
    let n = c.len() - 1;
    if n == 0 {
        assert(c[0].priority == policy::highest(c));
    } else {
        let t = c.drop_last();
        the_highest_is_the_highest(t);
        let k = choose|k: int| 0 <= k < t.len() && (#[trigger] t[k]).priority == policy::highest(t);
        assert(c[k] == t[k]);
        assert(c[n] == c.last());
        assert forall|i: int| 0 <= i < c.len() implies (#[trigger] c[i]).priority
            <= policy::highest(c) by {
            if i < n {
                assert(t[i] == c[i]);
            }
        }
    }
}

/// The rivals are the rules of the candidates with that priority.
pub proof fn rivals_have_the_priority(c: Seq<Candidate>, priority: int, r: Seq<char>)
    ensures
        policy::rivals(c, priority).contains(r) <==> exists|i: int|
            0 <= i < c.len() && (#[trigger] c[i]).priority == priority && c[i].rule@ == r,
    decreases c.len(),
{
    if c.len() > 0 {
        let t = c.drop_last();
        let n = c.len() - 1;
        rivals_have_the_priority(t, priority, r);
        let before = policy::rivals(t, priority);
        let all = policy::rivals(c, priority);
        let x = c.last();
        assert(c[n] == x);
        if exists|i: int| 0 <= i < t.len() && (#[trigger] t[i]).priority == priority && t[i].rule@ == r {
            let i = choose|i: int|
                0 <= i < t.len() && (#[trigger] t[i]).priority == priority && t[i].rule@ == r;
            assert(c[i] == t[i]);
        }
        if exists|i: int| 0 <= i < c.len() && (#[trigger] c[i]).priority == priority && c[i].rule@ == r {
            let i = choose|i: int|
                0 <= i < c.len() && (#[trigger] c[i]).priority == priority && c[i].rule@ == r;
            if i < n {
                assert(t[i] == c[i]);
            }
        }
        if x.priority == priority {
            let k = x.rule@;
            let m = sorted::key_place(before, k);
            sorted::key_place_bound(before, k);
            if m < before.len() && before[m] == k {
                assert(before.contains(k));
            } else {
                assert(all[m] == k);
                if before.contains(r) {
                    let i = choose|i: int| 0 <= i < before.len() && before[i] == r;
                    if i < m {
                        assert(all[i] == r);
                    } else {
                        assert(all[i + 1] == r);
                    }
                }
                if all.contains(r) && r != k {
                    let i = choose|i: int| 0 <= i < all.len() && all[i] == r;
                    if i < m {
                        assert(before[i] == r);
                    } else {
                        assert(before[i - 1] == r);
                    }
                }
            }
        }
    }
}

} // verus!
