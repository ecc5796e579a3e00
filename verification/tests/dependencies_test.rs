use opm::dependencies::{check_version, get_version, parse_name, dependency_alternatives};

#[test]
fn parse_name_test() {
    assert_eq!(parse_name("demo_pkg (>= 1.33.7)"), "demo_pkg");
    assert_eq!(parse_name("demo_pkg (<= 1.33.7)"), "demo_pkg");
    assert_eq!(parse_name("demo_pkg (<< 1.33.7)"), "demo_pkg");
    assert_eq!(parse_name("demo_pkg (>> 1.33.7)"), "demo_pkg");
    assert_eq!(parse_name("demo_pkg (= 1.33.7)"), "demo_pkg");

    assert_eq!(parse_name("demo_pkg (>= 1.33.7("), "demo_pkg");
    assert_eq!(parse_name("demo_pkg (<= 1.33.7("), "demo_pkg");
    assert_eq!(parse_name("demo_pkg (<< 1.33.7("), "demo_pkg");
    assert_eq!(parse_name("demo_pkg (>> 1.33.7("), "demo_pkg");
    assert_eq!(parse_name("demo_pkg (= 1.33.7("), "demo_pkg");

    assert!(parse_name("demo_pkg )>= 1.33.7)") != "demo_pkg");
    assert!(parse_name("demo_pkg )<= 1.33.7)") != "demo_pkg");
    assert!(parse_name("demo_pkg )<< 1.33.7)") != "demo_pkg");
    assert!(parse_name("demo_pkg )>> 1.33.7)") != "demo_pkg");
    assert!(parse_name("demo_pkg )= 1.33.7)") != "demo_pkg");

    assert!(parse_name("demo_pkg )>= 1.33.7(") != "demo_pkg");
    assert!(parse_name("demo_pkg )<= 1.33.7(") != "demo_pkg");
    assert!(parse_name("demo_pkg )<< 1.33.7(") != "demo_pkg");
    assert!(parse_name("demo_pkg )>> 1.33.7(") != "demo_pkg");
    assert!(parse_name("demo_pkg )= 1.33.7(") != "demo_pkg");
}

#[test]
fn get_version_test() {
    assert_eq!(get_version("demo_pkg"), None);

    assert_eq!(get_version("demo_pkg (>= 1.33.7)").unwrap(), ">= 1.33.7");
    assert_eq!(get_version("demo_pkg (<= 1.33.7)").unwrap(), "<= 1.33.7");
    assert_eq!(get_version("demo_pkg (<< 1.33.7)").unwrap(), "<< 1.33.7");
    assert_eq!(get_version("demo_pkg (>> 1.33.7)").unwrap(), ">> 1.33.7");
    assert_eq!(get_version("demo_pkg (= 1.33.7)").unwrap(), "= 1.33.7");

    assert_eq!(get_version("demo_pkg (>= 1.33.7("), None);
    assert_eq!(get_version("demo_pkg (<= 1.33.7("), None);
    assert_eq!(get_version("demo_pkg (<< 1.33.7("), None);
    assert_eq!(get_version("demo_pkg (>> 1.33.7("), None);
    assert_eq!(get_version("demo_pkg (= 1.33.7("), None);
}

#[test]
#[should_panic]
fn get_version_test_panic() {
    get_version("demo_pkg )>= 1.33.7)").unwrap();
    get_version("demo_pkg )<= 1.33.7)").unwrap();
    get_version("demo_pkg )<< 1.33.7)").unwrap();
    get_version("demo_pkg )>> 1.33.7)").unwrap();
    get_version("demo_pkg )= 1.33.7)").unwrap();

    get_version("demo_pkg )>= 1.33.7(").unwrap();
    get_version("demo_pkg )<= 1.33.7(").unwrap();
    get_version("demo_pkg )<< 1.33.7(").unwrap();
    get_version("demo_pkg )>> 1.33.7(").unwrap();
    get_version("demo_pkg )= 1.33.7(").unwrap();
}

#[test]
fn check_version_test() {
    assert!(check_version("1.33.7", "<= 1.33.8"));
    assert!(check_version("1.33.7", ">= 1.33.7"));
    assert!(check_version("1.33.7", "= 1.33.7"));
    assert!(!check_version("1.33.7", "<< 1.33.7"));
    assert!(!check_version("1.33.7", ">> 1.33.7"));
}

#[test]
fn check_version_epochs_and_tildes() {
    assert!(check_version("1:0.1", ">> 2.0"));
    assert!(check_version("1.0~rc1", "<< 1.0"));
    assert!(check_version("2.0-1", ">= 2.0"));
    assert!(!check_version("2.0", "~= 2.0"));
}

#[test]
fn alternatives_are_split() {
    assert_eq!(
        dependency_alternatives(" default-mta (>= 1) | mail-transport-agent "),
        vec!["default-mta".to_string()]
    );
    assert_eq!(
        dependency_alternatives("exim4 | postfix | sendmail"),
        vec!["exim4".to_string(), "postfix".to_string(), "sendmail".to_string()]
    );
}

#[test]
fn opposite_constraints_disagree() {
    for v in ["0.9", "1.0", "1.0~rc1", "1:0.5", "1.0-2"] {
        assert_eq!(check_version(v, ">= 1.0"), !check_version(v, "<< 1.0"));
        assert_eq!(check_version(v, "<= 1.0"), !check_version(v, ">> 1.0"));
        assert_eq!(check_version(v, "= 1.0"), check_version(v, ">= 1.0") && check_version(v, "<= 1.0"));
    }
}

#[test]
fn a_version_meets_itself() {
    assert!(check_version("2:1.4-3", "= 2:1.4-3"));
    assert!(check_version("2:1.4-3", ">= 2:1.4-3"));
    assert!(check_version("2:1.4-3", "<= 2:1.4-3"));
    assert!(!check_version("2:1.4-3", ">> 2:1.4-3"));
}

#[test]
fn entries_come_apart() {
    let entry = format!("{} ({})", "libglib2.0-0", ">= 2.44");
    assert_eq!(parse_name(&entry), "libglib2.0-0");
    assert_eq!(get_version(&entry), Some(">= 2.44"));
}

#[test]
fn versions_beyond_ascii_compare() {
    assert!(check_version("1é", ">> 1"));
    assert!(!check_version("1é", "<= 1"));
    assert!(check_version("1é", "= 1é"));
}
