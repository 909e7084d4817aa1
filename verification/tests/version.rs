use addon_manager::addon::version::{AddonVersion, VersionOrdering};

fn v(s: &str) -> AddonVersion {
    AddonVersion::parse(s).unwrap_or_else(|_| panic!("should parse: {}", s))
}

#[test]
fn parse_plain_triple() {
    let x = v("1.2.3");
    assert_eq!(x.major, 1);
    assert_eq!(x.minor, 2);
    assert_eq!(x.patch, 3);
    assert!(x.pre.is_empty());
    assert!(x.build.is_empty());
}

#[test]
fn parse_pre_release_and_build() {
    let x = v("1.0.0-alpha.1+build.5");
    assert_eq!(x.major, 1);
    assert_eq!(x.pre.len(), 2);
    assert_eq!(x.pre[0], vec!['a', 'l', 'p', 'h', 'a']);
    assert_eq!(x.pre[1], vec!['1']);
    assert_eq!(x.build.len(), 2);
    assert_eq!(x.build[0], vec!['b', 'u', 'i', 'l', 'd']);
    assert_eq!(x.build[1], vec!['5']);
}

#[test]
fn parse_rejects_bad_strings() {
    for bad in [
        "", "1", "1.2", "1.2.", "01.2.3", "1.02.3", "1.2.3.4", "1.2.3-", "1.2.3+", "1.2.3-01",
        "1.2.3-a..b", "v1.2.3", " 1.2.3", "1.2.3 ", "1.2.3-é", "18446744073709551616.0.0",
    ] {
        assert!(AddonVersion::parse(bad).is_err(), "should reject: {:?}", bad);
    }
}

#[test]
fn parse_accepts_edge_strings() {
    // leading zeros are legal in build identifiers, and numeric pre-release
    // identifiers may be arbitrarily large (they are not read as numbers)
    for good in [
        "0.0.0",
        "1.2.3+01",
        "1.2.3-0",
        "1.2.3--",
        "1.2.3-a-b.c",
        "1.2.3-99999999999999999999999",
        "18446744073709551615.0.0",
    ] {
        assert!(AddonVersion::parse(good).is_ok(), "should accept: {:?}", good);
    }
}

#[test]
fn canonical_string_round_trip() {
    // the first testable property on concrete values
    for (a, b, c) in [(0, 0, 0), (1, 2, 3), (10, 0, 7), (u64::MAX, 1, 0)] {
        let x = AddonVersion::from_triplet(a, b, c);
        let s = x.to_canonical_string();
        let y = AddonVersion::parse(&s).unwrap();
        assert_eq!(x.compare(&y), VersionOrdering::Equal);
    }
    assert_eq!(AddonVersion::from_triplet(1, 2, 3).to_canonical_string(), "1.2.3");
    assert_eq!(
        v("1.0.0-alpha.1+build.5").to_canonical_string(),
        "1.0.0-alpha.1+build.5"
    );
}

#[test]
fn triplet_equals_equivalent_string() {
    let arr = AddonVersion::from_triplet(1, 2, 3);
    let s = v("1.2.3");
    assert_eq!(arr.compare(&s), VersionOrdering::Equal);
    assert_eq!(s.compare(&arr), VersionOrdering::Equal);
    let with_pre = v("1.2.3-alpha");
    assert_eq!(arr.compare(&with_pre), VersionOrdering::Greater);
}

#[test]
fn compare_reflexive_on_samples() {
    for s in ["0.0.0", "1.2.3", "1.0.0-alpha.1", "2.0.0+exp.sha.5114f85"] {
        let x = v(s);
        assert_eq!(x.compare(&x), VersionOrdering::Equal);
    }
}

#[test]
fn semver_precedence_chain() {
    // the ordering chain of the semantic-versioning specification
    let chain = [
        "1.0.0-alpha",
        "1.0.0-alpha.1",
        "1.0.0-alpha.beta",
        "1.0.0-beta",
        "1.0.0-beta.2",
        "1.0.0-beta.11",
        "1.0.0-rc.1",
        "1.0.0",
        "1.0.1",
        "1.1.0",
        "2.0.0",
    ];
    for i in 0..chain.len() {
        for j in 0..chain.len() {
            let expect = match i.cmp(&j) {
                std::cmp::Ordering::Less => VersionOrdering::Less,
                std::cmp::Ordering::Equal => VersionOrdering::Equal,
                std::cmp::Ordering::Greater => VersionOrdering::Greater,
            };
            assert_eq!(
                v(chain[i]).compare(&v(chain[j])),
                expect,
                "{} vs {}",
                chain[i],
                chain[j]
            );
        }
    }
}

#[test]
fn numeric_identifiers_compare_numerically() {
    assert_eq!(v("1.0.0-99").compare(&v("1.0.0-100")), VersionOrdering::Less);
    assert_eq!(v("1.0.0-2").compare(&v("1.0.0-10")), VersionOrdering::Less);
}

#[test]
fn agrees_with_semver_crate() {
    let samples = [
        "0.0.0",
        "1.2.3",
        "1.0.0-alpha",
        "1.0.0-alpha.1",
        "1.0.0-alpha.beta",
        "1.0.0-beta.11",
        "1.0.0-rc.1",
        "1.0.0",
        "1.0.0+a",
        "1.0.0+b.2",
        "1.0.0+b.10",
        "1.0.0+0",
        "1.0.0+00",
        "1.0.0+1",
        "1.0.0-alpha+001",
        "2.1.0",
    ];
    for a in samples {
        for b in samples {
            let sa: semver::Version = a.parse().unwrap();
            let sb: semver::Version = b.parse().unwrap();
            let expect = match sa.cmp(&sb) {
                std::cmp::Ordering::Less => VersionOrdering::Less,
                std::cmp::Ordering::Equal => VersionOrdering::Equal,
                std::cmp::Ordering::Greater => VersionOrdering::Greater,
            };
            assert_eq!(v(a).compare(&v(b)), expect, "{} vs {}", a, b);
        }
    }
}

#[test]
fn parse_agrees_with_semver_crate_on_validity() {
    for s in [
        "1.2.3",
        "1.2.3-a.b.c",
        "01.2.3",
        "1.2.3-01",
        "1.2.3+01",
        "1.2.3-",
        "",
        "1.2",
        "1.2.3-a..b",
        "1.2.3-a_b",
    ] {
        assert_eq!(
            AddonVersion::parse(s).is_ok(),
            s.parse::<semver::Version>().is_ok(),
            "validity disagreement on {:?}",
            s
        );
    }
}
