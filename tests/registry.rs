use graph_runtime_wasm::version::{pick_highest, versions, ApiVersion, Comparator, FeatureFlag, Op, SemVer, VersionReq};

fn req(op: Op, major: u64, minor: Option<u64>, patch: Option<u64>) -> VersionReq {
    VersionReq { comparators: vec![Comparator { op, major, minor, patch }] }
}

#[test]
fn star_resolves_to_highest_version() {
    let a = ApiVersion::default();
    assert_eq!(a.version, SemVer::new(1, 1, 0));
    assert!(a.supports(FeatureFlag::BasicOrdering));
}

#[test]
fn caret_prefers_highest_match() {
    let a = ApiVersion::new(&req(Op::Caret, 1, Some(0), Some(0))).unwrap();
    assert_eq!(a.version, SemVer::new(1, 1, 0));
}

#[test]
fn less_than_selects_baseline() {
    let a = ApiVersion::new(&req(Op::Less, 1, Some(1), Some(0))).unwrap();
    assert_eq!(a.version, SemVer::new(1, 0, 0));
    assert!(!a.supports(FeatureFlag::BasicOrdering));
}

#[test]
fn exact_baseline_has_no_flags() {
    let a = ApiVersion::new(&req(Op::Exact, 1, Some(0), Some(0))).unwrap();
    assert_eq!(a.version, SemVer::new(1, 0, 0));
    assert!(!a.supports(FeatureFlag::BasicOrdering));
}

#[test]
fn unmatched_requirement_is_an_error() {
    let e = ApiVersion::new(&req(Op::Exact, 2, Some(0), Some(0))).unwrap_err();
    assert_eq!(e, "No versions found");
    let e = ApiVersion::new(&req(Op::Greater, 1, Some(1), Some(0))).unwrap_err();
    assert_eq!(e, "No versions found");
}

#[test]
fn resolves_iff_some_registered_version_matches() {
    let reqs = vec![
        req(Op::Caret, 1, None, None),
        req(Op::Tilde, 1, Some(0), None),
        req(Op::GreaterEq, 1, Some(1), None),
        req(Op::Wildcard, 1, Some(1), None),
        req(Op::LessEq, 0, Some(9), None),
        req(Op::Caret, 2, None, None),
    ];
    let expected = vec![
        Some(SemVer::new(1, 1, 0)),
        Some(SemVer::new(1, 0, 0)),
        Some(SemVer::new(1, 1, 0)),
        Some(SemVer::new(1, 1, 0)),
        None,
        None,
    ];
    for (r, e) in reqs.iter().zip(expected) {
        assert_eq!(ApiVersion::new(r).ok().map(|a| a.version), e);
    }
}

#[test]
fn two_comparators_must_both_hold() {
    let r = VersionReq {
        comparators: vec![
            Comparator { op: Op::GreaterEq, major: 1, minor: Some(0), patch: None },
            Comparator { op: Op::Less, major: 1, minor: Some(1), patch: None },
        ],
    };
    assert_eq!(ApiVersion::new(&r).unwrap().version, SemVer::new(1, 0, 0));
}

#[test]
fn flags_by_enumeration_of_the_table() {
    let table = versions();
    assert_eq!(table.len(), 2);
    assert_eq!(table[0].0, SemVer::new(1, 0, 0));
    assert!(table[0].1.is_empty());
    assert_eq!(table[1].0, SemVer::new(1, 1, 0));
    assert_eq!(table[1].1, vec![FeatureFlag::BasicOrdering]);
    for (v1, f1) in table.iter() {
        for (v2, f2) in table.iter() {
            if v1.le(v2) {
                // a flag of a lower version stays in a higher one
                for f in f1.iter() {
                    assert!(f2.contains(f));
                }
                // a baseline flag of a higher version is in the lower one
                for f in f2.iter() {
                    if table[0].1.contains(f) {
                        assert!(f1.contains(f));
                    }
                }
            }
        }
    }
}

#[test]
fn semver_order_is_lexicographic() {
    assert!(SemVer::new(0, 0, 2).le(&SemVer::new(0, 0, 2)));
    assert!(SemVer::new(0, 0, 9).le(&SemVer::new(0, 1, 0)));
    assert!(!SemVer::new(1, 0, 0).le(&SemVer::new(0, 9, 9)));
}

#[test]
fn highest_satisfied_position_is_picked() {
    assert_eq!(pick_highest(&vec![true, true, false]), Some(1));
    assert_eq!(pick_highest(&vec![false, false]), None);
    assert_eq!(pick_highest(&vec![]), None);
    assert_eq!(pick_highest(&vec![false, true]), Some(1));
}

#[test]
fn resolve_gives_the_version_without_flags() {
    assert_eq!(ApiVersion::resolve(&VersionReq::star()), Some(SemVer::new(1, 1, 0)));
    assert_eq!(ApiVersion::resolve(&req(Op::Tilde, 1, Some(0), Some(0))), Some(SemVer::new(1, 0, 0)));
    assert_eq!(ApiVersion::resolve(&req(Op::Exact, 0, None, None)), None);
}
