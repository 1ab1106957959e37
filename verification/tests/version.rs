//! Version tags, their order, and the texts and numbers that they are made of.

use hato::numbers::{decimal, parse_u32, to_hex};
use hato::order::{order_texts, sorted_positions};
use hato::version::{cmp_semver, current_version, is_newer, parse_ver, unreleased};

#[test]
fn semver_newer() {
    assert!(is_newer("v0.2.0", "0.1.0"));
    assert!(!is_newer("v0.1.0", "0.1.0"));
    assert!(!is_newer("v0.1.0", "0.2.0"));
    assert!(!is_newer("v1.0.0", "dev"));
    assert!(is_newer("v1.0.0", "1.0.0-beta"));
}

#[test]
fn versions_are_read_leniently() {
    assert_eq!(parse_ver("1.2.3"), ([1, 2, 3], String::new()));
    assert_eq!(parse_ver("1.2"), ([1, 2, 0], String::new()));
    assert_eq!(parse_ver("1.2.3.4"), ([1, 2, 3], String::new()));
    assert_eq!(parse_ver("1.x.3"), ([1, 0, 3], String::new()));
    assert_eq!(parse_ver(" 1 .\t2. 3 "), ([1, 2, 3], String::new()));
    assert_eq!(parse_ver("+1.2.3"), ([0, 0, 0], String::new()));
    assert_eq!(parse_ver(""), ([0, 0, 0], String::new()));
    assert_eq!(parse_ver("1.2.4294967296"), ([1, 2, 0], String::new()));
    assert_eq!(parse_ver("1.2.4294967295"), ([1, 2, 4294967295], String::new()));
    assert_eq!(parse_ver("1.2.3-rc-1"), ([1, 2, 3], "rc-1".to_string()));
    assert_eq!(parse_ver("1.2.3-rc+build-7"), ([1, 2, 3], "rc".to_string()));
    assert_eq!(parse_ver("1.2.3+build-7"), ([1, 2, 3], String::new()));
}

#[test]
fn order_of_versions() {
    assert_eq!(cmp_semver("1.2.3", "1.2.3"), 0);
    assert_eq!(cmp_semver("2.0.0", "1.9.9"), 1);
    assert_eq!(cmp_semver("1.9.9", "2.0.0"), -1);
    assert_eq!(cmp_semver("1.10.0", "1.9.0"), 1);
    assert_eq!(cmp_semver("1.0.1", "1.0.2"), -1);
    assert_eq!(cmp_semver("1.0.0", "1.0.0-rc"), 1);
    assert_eq!(cmp_semver("1.0.0-rc", "1.0.0"), -1);
    assert_eq!(cmp_semver("1.0.0-alpha", "1.0.0-beta"), -1);
    assert_eq!(cmp_semver("1.0.0-beta", "1.0.0-alpha"), 1);
    assert_eq!(cmp_semver("1.0.0-rc", "1.0.0-rc.1"), -1);
    assert_eq!(cmp_semver("1.0.0-rc", "1.0.0-rc"), 0);
}

#[test]
fn swapping_turns_the_order_round() {
    let all = ["", "1", "1.0.0", "1.0.0-a", "1.0.0-b", "1.0.1", "2", "x.1"];
    for a in all {
        for b in all {
            assert_eq!(cmp_semver(a, b), -cmp_semver(b, a));
        }
    }
}

#[test]
fn newer_is_transitive_on_a_chain() {
    let chain = ["0.1.0-a", "0.1.0-b", "v0.1.0", "0.1.1", "v0.2.0", "1.0.0"];
    for i in 0..chain.len() {
        for j in 0..chain.len() {
            assert_eq!(is_newer(chain[j], chain[i]), i < j);
        }
    }
}

#[test]
fn no_version_is_newer_than_itself() {
    for v in ["1.0.0", "v1.0.0", "vv1.0.0", "1.0.0-rc"] {
        assert!(!is_newer(v, v));
    }
    assert!(!is_newer("vvv1.0.0", "1.0.0"));
}

#[test]
fn build_metadata_plays_no_part() {
    assert_eq!(cmp_semver("1.0.0+5", "1.0.0"), 0);
    assert_eq!(cmp_semver("1.0.0-rc+5", "1.0.0-rc+6"), 0);
    assert!(!is_newer("v1.0.0+6", "1.0.0+5"));
    assert_eq!(parse_ver("1.0.0+5+6"), parse_ver("1.0.0+5"));
    assert!(is_newer("v1.0.1+a", "1.0.0"));
    assert!(is_newer("v1.0.1", "1.0.0+a"));
}

#[test]
fn unreleased_builds_never_update() {
    assert!(unreleased(""));
    assert!(unreleased("dev"));
    assert!(!unreleased("vdev"));
    assert!(!unreleased("0.0.0"));
    assert!(!is_newer("v9.9.9", ""));
    assert!(!is_newer("v9.9.9", &current_version(true, "1.0.0")));
}

#[test]
fn running_version() {
    assert_eq!(current_version(true, "0.2.0"), "dev");
    assert_eq!(current_version(false, "0.2.0"), "0.2.0");
}

#[test]
fn numerals_are_read_as_std_reads_them() {
    let all = [
        "", "0", "7", "+7", "-7", "++7", "+", "007", "4294967295", "4294967296", "99999999999", "1a", "a1",
        " 1", "1 ", "1_0", "\u{661}", "00000000000000000000042",
    ];
    for s in all {
        assert_eq!(parse_u32(s), s.parse::<u32>().ok(), "{s:?}");
    }
}

#[test]
fn numbers_are_written_as_std_writes_them() {
    for n in [0u128, 1, 9, 10, 42, 100, 4294967295, u64::MAX as u128, u128::MAX] {
        assert_eq!(decimal(n), n.to_string());
    }
    assert_eq!(to_hex(&[]), "");
    assert_eq!(to_hex(&[0, 15, 16, 255]), "000f10ff");
}

#[test]
fn texts_are_ordered_as_std_orders_them() {
    let all = ["", "a", "A", "aa", "ab", "b", "a/b", "a.b", "é", "\u{ffff}", "\u{10000}", "z"];
    for a in all {
        for b in all {
            let std_order = match a.cmp(b) {
                std::cmp::Ordering::Less => -1,
                std::cmp::Ordering::Equal => 0,
                std::cmp::Ordering::Greater => 1,
            };
            assert_eq!(order_texts(a, b), std_order, "{a:?} {b:?}");
        }
    }
}

#[test]
fn sorting_is_stable() {
    let keys: Vec<Vec<char>> =
        ["b", "a", "b", "", "c", "a"].iter().map(|s| s.chars().collect()).collect();
    assert_eq!(sorted_positions(&keys), vec![3, 1, 5, 0, 2, 4]);
    assert_eq!(sorted_positions(&Vec::new()), Vec::<usize>::new());
}
