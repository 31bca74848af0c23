use std::cmp::Ordering::{Equal, Greater, Less};

use tagver::version::{DigitStr, Version, VersionPart};

#[test]
fn version_empty() {
    assert_eq!(Version::from("").parts(), &Vec::<VersionPart>::new());
}

#[test]
fn version_from_latest() {
    assert_eq!(
        Version::from("latest").parts(),
        &vec![VersionPart::Str(String::from("latest"))]
    );
}

#[test]
fn version_from_unix() {
    assert_eq!(
        Version::from("1759807235").parts(),
        &vec![VersionPart::Num(DigitStr::new("1759807235"))]
    );
}

#[test]
fn version_from_v_semver() {
    assert_eq!(
        Version::from("v1.2.3").parts(),
        &vec![
            VersionPart::Str(String::from("v")),
            VersionPart::Num(DigitStr::new("1")),
            VersionPart::Str(String::from(".")),
            VersionPart::Num(DigitStr::new("2")),
            VersionPart::Str(String::from(".")),
            VersionPart::Num(DigitStr::new("3")),
        ]
    );
}

#[test]
fn version_display() {
    assert_eq!(
        Version::from("v1.2-beta.13a").to_text().as_str(),
        "v1.2-beta.13a"
    );
}

#[test]
fn round_trip_mixed_strings() {
    for s in [
        "",
        "latest",
        "v15.010-rc.1",
        "2025-11-12T13-14-15Z",
        "00042",
        "snowman\u{2603}7",
    ] {
        assert_eq!(Version::from(s).to_text().as_str(), s);
    }
}

#[test]
fn alternation_of_parts() {
    for s in ["v1.2.3", "1a2b3c", "--7--", "42latest42"] {
        let version = Version::from(s);
        let parts = version.parts();
        for pair in parts.windows(2) {
            let both_num = matches!(
                (&pair[0], &pair[1]),
                (VersionPart::Num(_), VersionPart::Num(_))
            );
            let both_str = matches!(
                (&pair[0], &pair[1]),
                (VersionPart::Str(_), VersionPart::Str(_))
            );
            assert!(!both_num && !both_str, "adjacent parts share a kind in {s}");
        }
    }
}

#[test]
fn pattern_reflexive() {
    for s in ["", "latest", "v1.2.3", "2025-11-12T13-14-15Z"] {
        assert!(Version::from(s).is_same_pattern(&Version::from(s)), "{s}");
    }
}

#[test]
fn pattern_same_versions() {
    for (a, b) in [
        ("v1.0.10", "v3.44.247"),
        ("2.1", "10.0"),
        ("1.0.0-rc.1", "2.0.0-rc.3"),
        ("", ""),
        ("latest", "latest"),
        ("1.0.0", "13.5.3"),
        ("1970-01-01T00-00-00Z", "2025-11-12T13-14-15Z"),
    ] {
        assert!(
            Version::from(a).is_same_pattern(&Version::from(b)),
            "{a} =~ {b}"
        );
    }
}

#[test]
fn pattern_different_versions() {
    for (a, b) in [
        ("latest", "2025-11-12T13-14-15Z"),
        (".34", "0.34"),
        ("1.1.0", "v1.1.0"),
        ("2.0.0-alpha.1", "2.0.0-beta.1"),
        ("latest", "v3.5.6"),
    ] {
        assert!(
            !Version::from(a).is_same_pattern(&Version::from(b)),
            "{a} !~ {b}"
        );
    }
}

#[test]
fn version_ordering() {
    for (a, ord, b) in [
        ("v1.99.99", Less, "v2.0.0"),
        ("v1.050", Equal, "v1.50"),
        ("v1.00", Less, "v1.0-beta.1"),
        ("2.0.0", Less, "v1.0.0"),
        ("", Less, "1.0.0"),
        ("", Less, "latest"),
        ("2.0.0", Equal, "2.0.0"),
        ("ver 2.0.0", Greater, "ver 1.99.99"),
        ("latest", Less, "main"),
        ("00042", Equal, "42"),
        ("00123", Less, "12300"),
    ] {
        assert_eq!(ord, Version::from(a).cmp(&Version::from(b)), "{a} ~ {b}");
    }
}

#[test]
fn digitstr_numeric_comparison() {
    assert_eq!(Equal, DigitStr::new("00042").cmp(&DigitStr::new("42")));
    assert_eq!(Less, DigitStr::new("00123").cmp(&DigitStr::new("12300")));
    assert_eq!(Greater, DigitStr::new("10").cmp(&DigitStr::new("9")));
    assert_eq!("00042", DigitStr::new("00042").as_str());
}

#[test]
fn ordering_laws_on_samples() {
    let tags = ["v1.2.0", "v1.10.0", "v1.050", "v1.50", "latest", "", "2.0.0"];
    for a in tags {
        let va = Version::from(a);
        assert_eq!(Equal, va.cmp(&Version::from(a)), "{a} reflexive");
        for b in tags {
            let vb = Version::from(b);
            assert_eq!(va.cmp(&vb), vb.cmp(&va).reverse(), "{a} / {b} antisymmetric");
            for c in tags {
                let vc = Version::from(c);
                if va.cmp(&vb) != Greater && vb.cmp(&vc) != Greater {
                    assert_ne!(Greater, va.cmp(&vc), "{a} / {b} / {c} transitive");
                }
            }
        }
    }
}
