//! Tests for the structured version model: lenient parsing, canonical
//! rendering, round trips, and ordering.

use nixman::versioning::{Epoch, FullVersion, Release, Version};

fn fv(epoch: Option<u32>, major: u32, minor: u32, patch: u32, release: u32) -> FullVersion {
    FullVersion {
        epoch: Epoch(epoch),
        version: Version { major, minor, patch },
        release: Release(release),
    }
}

#[test]
fn parse_full_form() {
    let v = FullVersion::from("1:2.3.4-5");
    assert_eq!(v, fv(Some(1), 2, 3, 4, 5));
}

#[test]
fn parse_empty_defaults() {
    let v = FullVersion::from("");
    assert_eq!(v, fv(None, 0, 0, 0, 0));
}

#[test]
fn parse_bare_major() {
    let v = FullVersion::from("5");
    assert_eq!(v, fv(None, 5, 0, 0, 0));
}

#[test]
fn parse_two_components_with_release() {
    let v = FullVersion::from("1.2-3");
    assert_eq!(v, fv(None, 1, 2, 0, 3));
}

#[test]
fn parse_missing_release_defaults_to_zero() {
    assert_eq!(FullVersion::from("3.0.16"), fv(None, 3, 0, 16, 0));
}

#[test]
fn parse_malformed_fragments_degrade() {
    // unparsable epoch stays absent, unparsable components become zero
    assert_eq!(FullVersion::from("x:1.0-2"), fv(None, 1, 0, 0, 2));
    assert_eq!(FullVersion::from("abc"), fv(None, 0, 0, 0, 0));
    assert_eq!(FullVersion::from("1.y.3-z"), fv(None, 1, 0, 3, 0));
}

#[test]
fn parse_oversized_component_degrades_to_zero() {
    // 2^32 does not fit a 32-bit component
    assert_eq!(FullVersion::from("4294967296"), fv(None, 0, 0, 0, 0));
    assert_eq!(FullVersion::from("4294967295"), fv(None, 4294967295, 0, 0, 0));
}

#[test]
fn parse_splits_on_last_dash() {
    assert_eq!(FullVersion::from("1.0-rc1-2"), fv(None, 1, 0, 0, 2));
}

#[test]
fn render_canonical_forms() {
    assert_eq!(fv(Some(1), 2, 3, 4, 5).render(), "1:2.3.4-5");
    assert_eq!(fv(None, 0, 0, 0, 0).render(), "0.0.0-0");
    assert_eq!(fv(None, 3, 0, 16, 2).render(), "3.0.16-2");
}

#[test]
fn roundtrip_examples() {
    for text in ["1:2.3.4-5", "0.0.0-0", "5", "1.2-3", "", "10:0.1.0", "x:y.z-w"] {
        let v = FullVersion::from(text);
        let rendered = v.render();
        assert_eq!(FullVersion::from(&rendered), v);
        // the rendering is canonical: rendering again changes nothing
        assert_eq!(FullVersion::from(&rendered).render(), rendered);
    }
}

#[test]
fn epoch_dominates_version_dominates_release() {
    let a = FullVersion::from("2:1.0-1");
    let b = FullVersion::from("1:99.99.99-99");
    assert!(b.lt(&a));
    assert!(!a.lt(&b));
    // an absent epoch sorts below any present epoch
    let c = FullVersion::from("1:1.0.0-1");
    let d = FullVersion::from("2.0.0-9");
    assert!(d.lt(&c));
    // version decides when epochs agree, release only as the last resort
    assert!(FullVersion::from("1.2.3-9").lt(&FullVersion::from("1.2.4-0")));
    assert!(FullVersion::from("1.2.3-1").lt(&FullVersion::from("1.2.3-2")));
}

#[test]
fn ordering_is_trichotomous_on_samples() {
    let samples = [
        FullVersion::from(""),
        FullVersion::from("1:0.0.0-0"),
        FullVersion::from("1:2.3.4-5"),
        FullVersion::from("2.3.4-5"),
        FullVersion::from("2.3.4-6"),
        FullVersion::from("2.3.5-0"),
    ];
    for a in &samples {
        for b in &samples {
            let lt = a.lt(b);
            let gt = b.lt(a);
            let eq = a == b;
            assert_eq!(1, lt as u32 + gt as u32 + eq as u32);
        }
    }
}

#[test]
fn component_parsers() {
    assert_eq!(Epoch::from(""), Epoch(None));
    assert_eq!(Epoch::from("7"), Epoch(Some(7)));
    assert_eq!(Epoch::from("bad"), Epoch(None));
    assert_eq!(Version::from("1.2.3"), Version { major: 1, minor: 2, patch: 3 });
    assert_eq!(Version::from(""), Version { major: 0, minor: 0, patch: 0 });
    assert_eq!(Version::from("1.2.3.4"), Version { major: 1, minor: 2, patch: 3 });
    assert_eq!(Release::from("9"), Release(9));
    assert_eq!(Release::from(""), Release(0));
}
