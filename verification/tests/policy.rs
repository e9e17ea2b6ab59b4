use netd::netd::config::{RawKey, RawValue};
use netd::netd::policy::{
    build, describe, join_target, prepare, BuildError, Built, Candidate, Evaluation, Forest, Outcome,
    Policy, Prepared, RuleValue, Verdict,
};

fn key(name: &str, values: &[(&str, RawValue)], children: Vec<RawKey>) -> RawKey {
    RawKey {
        name: name.into(),
        values: values.iter().map(|(n, v)| ((*n).to_owned(), v.clone())).collect(),
        children,
    }
}

fn s(v: &str) -> RawValue {
    RawValue::Str(v.into())
}

fn actions(items: &[&str]) -> RawValue {
    RawValue::List(items.iter().map(|s| (*s).to_owned()).collect())
}

fn profiles() -> RawKey {
    key(
        "Profiles",
        &[],
        vec![
            key(
                "default",
                &[("Address.Offered", RawValue::Int(1))],
                vec![key("dark", &[("Enabled", RawValue::Int(0))], vec![])],
            ),
            key("office", &[("Address.Static", s("10.0.0.5/24"))], vec![]),
        ],
    )
}

/// What the rule at a place in the tree goes to the engine with.
fn actions_of(given: &Prepared, at: &[usize]) -> Vec<String> {
    let mut rule = &given.rules.as_ref().unwrap()[at[0]];
    for i in &at[1..] {
        rule = &rule.children[*i];
    }
    match &rule.values.iter().find(|(n, _)| n == "Actions").unwrap().1 {
        RuleValue::List(v) => v.iter().map(|s| s.to_string()).collect(),
        other => panic!("{other:?}"),
    }
}

fn engine(profiles: &[&str]) -> Option<Result<Built, BuildError>> {
    let profiles = profiles.iter().map(|s| s.to_string()).collect();
    Some(Ok(Built { forest: Forest { profiles }, lints: vec![] }))
}

fn said(verdict: Verdict, rule: &str) -> Evaluation {
    Evaluation {
        conflict: false,
        candidates: vec![],
        verdict,
        attributed_to: rule.into(),
        backstop: false,
    }
}

#[test]
fn the_shipped_baseline_joins_wired_interfaces_in_default() {
    let rules = key(
        "Interface",
        &[],
        vec![key(
            "wired",
            &[
                ("Interface.Kind.Equal", s("wired")),
                ("Priority", RawValue::Int(10)),
                ("Actions", actions(&["JOIN(default)"])),
            ],
            vec![],
        )],
    );
    let given = prepare(Some(&rules), Some(&profiles())).unwrap();
    assert_eq!(actions_of(&given, &[0]), ["JOIN(default)"]);
    let policy = build(given.profiles, engine(&["default"])).unwrap();
    let j = policy.judge(Some(&said(Verdict::Join(0), "wired")));
    assert_eq!(j.rule, "wired");
    let p = j.outcome.profile().expect("joined");
    assert_eq!(p.path, "default");
    assert!(p.address.dhcp4());
}

#[test]
fn no_rules_means_the_backstop_ignores_everything() {
    let given = prepare(None, Some(&profiles())).unwrap();
    assert!(given.rules.is_none());
    let policy = build(given.profiles, None).unwrap();
    let j = policy.judge(None);
    assert_eq!(j.outcome, Outcome::Ignore);
    assert!(j.backstop);
    assert_eq!(policy.profiles.0.len(), 3);
}

#[test]
fn a_join_of_a_disabled_profile_abstains_and_the_parent_speaks() {
    let rules = key(
        "Interface",
        &[],
        vec![key(
            "wired",
            &[
                ("Interface.Kind.Equal", s("wired")),
                ("Actions", actions(&["JOIN(default)"])),
            ],
            vec![key(
                "slot3",
                &[
                    ("Interface.Path.Equal", s("pci-0000:00:03.0")),
                    ("Actions", actions(&["JOIN(default\\dark)"])),
                ],
                vec![],
            )],
        )],
    );
    let given = prepare(Some(&rules), Some(&profiles())).unwrap();
    assert_eq!(actions_of(&given, &[0]), ["JOIN(default)"]);
    // The disabled profile's rule says nothing, so the one above it speaks.
    assert_eq!(actions_of(&given, &[0, 0]), ["NULL"]);
    let policy = build(given.profiles, engine(&["default"])).unwrap();
    let j = policy.judge(Some(&said(Verdict::Join(0), "wired")));
    assert_eq!(j.rule, "wired");
    assert_eq!(j.outcome.profile().unwrap().path, "default");
}

#[test]
fn a_join_of_no_profile_refuses_the_generation() {
    let rules = key(
        "Interface",
        &[],
        vec![key("r", &[("Actions", actions(&["JOIN(nope)"]))], vec![])],
    );
    let given = prepare(Some(&rules), Some(&profiles())).unwrap();
    assert_eq!(actions_of(&given, &[0]), ["JOIN(nope)"]);
    let err = build(given.profiles, engine(&["nope"])).unwrap_err();
    assert!(err.contains("names no profile"), "{err}");
}

#[test]
fn a_malformed_rule_or_profile_refuses_the_generation() {
    let rules = key(
        "Interface",
        &[],
        vec![key("r", &[("Actions", actions(&["PASS"]))], vec![])],
    );
    let given = prepare(Some(&rules), Some(&profiles())).unwrap();
    assert_eq!(actions_of(&given, &[0]), ["PASS"]);
    let refused = Some(Err(BuildError::ActionNotAtLayer { rule: "r".into() }));
    let err = build(given.profiles, refused).unwrap_err();
    assert!(err.contains("does not speak"), "{err}");
    let bad = key("Profiles", &[], vec![key("x", &[("Nope", RawValue::Int(1))], vec![])]);
    let err = prepare(None, Some(&bad)).unwrap_err();
    assert!(err.contains("unknown value"), "{err}");
}

#[test]
fn a_tie_between_two_joins_is_reported_as_a_conflict() {
    let rules = key(
        "Interface",
        &[],
        vec![
            key("a", &[("Actions", actions(&["JOIN(default)"]))], vec![]),
            key("b", &[("Actions", actions(&["JOIN(office)"]))], vec![]),
        ],
    );
    let given = prepare(Some(&rules), Some(&profiles())).unwrap();
    let policy = build(given.profiles, engine(&["default", "office"])).unwrap();
    let tied = Evaluation {
        conflict: true,
        candidates: vec![
            Candidate { priority: 0, rule: "b".into() },
            Candidate { priority: 0, rule: "a".into() },
            Candidate { priority: -1, rule: "c".into() },
        ],
        verdict: Verdict::Other,
        attributed_to: String::new(),
        backstop: false,
    };
    let j = policy.judge(Some(&tied));
    assert!(j.conflict);
    assert_eq!(j.outcome, Outcome::Ignore);
    assert_eq!(j.rule, "a vs b");
}

#[test]
fn down_and_ignore_carry_no_profile() {
    let rules = key(
        "Interface",
        &[],
        vec![
            key("all", &[("Actions", actions(&["JOIN(office)"]))], vec![]),
            key(
                "this",
                &[
                    ("Interface.Id.Equal", s("id-1")),
                    ("Priority", RawValue::Int(100)),
                    ("Actions", actions(&["DOWN"])),
                ],
                vec![],
            ),
        ],
    );
    let given = prepare(Some(&rules), Some(&profiles())).unwrap();
    let policy = build(given.profiles, engine(&["office"])).unwrap();
    let j = policy.judge(Some(&said(Verdict::Down, "this")));
    assert_eq!(j.outcome, Outcome::Down);
    assert_eq!(j.rule, "this");
}

#[test]
fn join_targets_are_recognised_loosely() {
    assert_eq!(join_target(" join ( Office\\London ) "), Some("office/london".into()));
    assert_eq!(join_target("JOIN(x)"), Some("x".into()));
    assert_eq!(join_target("IGNORE"), None);
    assert_eq!(join_target("JOIN("), None);
}

#[test]
fn outcomes_have_their_words() {
    assert_eq!(Outcome::Ignore.as_str(), "IGNORE");
    assert_eq!(Outcome::Down.as_str(), "DOWN");
    assert!(Outcome::Down.profile().is_none());
}

#[test]
fn a_failed_evaluation_leaves_the_backstop() {
    let given = prepare(None, Some(&profiles())).unwrap();
    let policy = build(given.profiles, engine(&["default"])).unwrap();
    let j = policy.judge(None);
    assert!(j.backstop && !j.conflict);
    assert_eq!(j.outcome, Outcome::Ignore);
}

#[test]
fn a_binary_value_in_a_rule_is_refused() {
    let rules = key("Interface", &[], vec![key("r", &[("Priority", RawValue::Other)], vec![])]);
    assert!(prepare(Some(&rules), None).is_err());
}

#[test]
fn build_errors_are_described() {
    let e = BuildError::BadOperator { rule: "r".into(), key: "k".into() };
    let said = describe(&e);
    assert!(said.contains('r') && said.contains('k'), "{said}");
    assert_ne!(describe(&BuildError::Alloc), said);
}

#[test]
fn a_refused_generation_leaves_the_last_good_one() {
    let mut standing = Policy::default();
    assert!(standing.forest.is_none());
    let given = prepare(None, Some(&profiles())).unwrap();
    assert_eq!(standing.adopt(build(given.profiles, engine(&["office"]))), None);
    let j = standing.judge(Some(&said(Verdict::Join(0), "r")));
    assert_eq!(j.outcome.profile().unwrap().path, "office");

    let given = prepare(None, Some(&profiles())).unwrap();
    let refused = standing.adopt(build(given.profiles, engine(&["nope"])));
    assert_eq!(refused.as_deref(), Some("JOIN(nope) names no profile"));
    let bad = key("Profiles", &[], vec![key("p", &[("Address.Offred", RawValue::Int(1))], vec![])]);
    let refused = standing.adopt(match prepare(None, Some(&bad)) {
        Ok(given) => build(given.profiles, None),
        Err(e) => Err(e),
    });
    assert!(refused.is_some());
    let j = standing.judge(Some(&said(Verdict::Join(0), "r")));
    assert_eq!(j.outcome.profile().unwrap().path, "office");

    assert_eq!(standing.adopt(build(prepare(None, None).unwrap().profiles, None)), None);
    assert_eq!(standing, Policy::default());
}
