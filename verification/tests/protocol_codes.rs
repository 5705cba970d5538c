use vibesurfer::codes::{ErrorCode, Op, Role, WarningCode};
use vibesurfer::version;

#[test]
fn roles_round_trip() {
    for c in Role::all() {
        let s = c.to_string();
        assert_eq!(Role::parse(&s).expect("known code"), c);
    }
}

#[test]
fn ops_round_trip() {
    for c in Op::all() {
        let s = c.to_string();
        assert_eq!(Op::parse(&s).expect("known code"), c);
    }
}

#[test]
fn error_codes_round_trip() {
    for c in ErrorCode::all() {
        let s = c.to_string();
        assert_eq!(ErrorCode::parse(&s).expect("known code"), c);
    }
}

#[test]
fn warning_codes_round_trip() {
    for c in WarningCode::all() {
        let s = c.to_string();
        assert_eq!(WarningCode::parse(&s).expect("known code"), c);
    }
}

#[test]
fn unknown_role_rejected() {
    let err = Role::parse("xx").unwrap_err();
    assert_eq!(err.kind, "role");
    assert_eq!(err.value, "xx");
}

#[test]
fn unknown_error_rejected() {
    let err = ErrorCode::parse("WHATEVER").unwrap_err();
    assert_eq!(err.kind, "error");
}

#[test]
fn role_display_matches_wire() {
    assert_eq!(Role::Btn.to_string(), "btn");
    assert_eq!(Role::Lnk.as_str(), "lnk");
}

#[test]
fn role_count() {
    assert_eq!(Role::all().len(), 25);
    assert_eq!(Op::all().len(), 7);
}

#[test]
fn lib_version_matches_cargo_pkg_version() {
    assert_eq!(version(), "0.1.0");
}

#[test]
fn codes_parse_is_case_sensitive() {
    assert!(Role::parse("BTN").is_err());
    assert!(Op::parse("Click").is_err());
    assert_eq!(Op::parse("focus").unwrap(), Op::Focus);
}
