use vibesurfer::codes::{ErrorCode, WarningCode};
use vibesurfer::envelope::{Envelope, ResponseHead, StateToken, Warning};
use vibesurfer::error::ParseError;
use vibesurfer::request::Request;

#[test]
fn token_round_trip() {
    let t = StateToken([0xa3, 0xf9, 0xb2, 0xc1, 0xd4, 0xe6, 0xf7, 0x0a]);
    assert_eq!(t.to_string(), "a3f9b2c1d4e6f70a");
    assert_eq!(StateToken::parse("a3f9b2c1d4e6f70a").unwrap(), t);
}

#[test]
fn token_zero() {
    assert_eq!(StateToken::zero().to_string(), "0000000000000000");
}

#[test]
fn token_rejects_uppercase() {
    let err = StateToken::parse("A3F9B2C1D4E6F70A").unwrap_err();
    assert!(matches!(err, ParseError::InvalidToken { .. }));
}

#[test]
fn token_rejects_short() {
    let err = StateToken::parse("abc").unwrap_err();
    assert!(matches!(err, ParseError::InvalidToken { .. }));
}

#[test]
fn warning_round_trip_no_args() {
    let w = Warning::new(WarningCode::CaptchaVisible);
    let s = w.encode();
    assert_eq!(s, "? captcha_visible\n");
    assert_eq!(Warning::parse(&s).unwrap(), w);
}

#[test]
fn warning_round_trip_with_args() {
    let w = Warning::with_args(WarningCode::Nav, vec!["https://example.com".into()]);
    let s = w.encode();
    assert_eq!(s, "? nav https://example.com\n");
    assert_eq!(Warning::parse(&s).unwrap(), w);
}

#[test]
fn warning_arg_with_spaces_quoted() {
    let w = Warning::with_args(WarningCode::Nav, vec!["with spaces".into()]);
    let s = w.encode();
    assert_eq!(s, "? nav \"with spaces\"\n");
    assert_eq!(Warning::parse(&s).unwrap(), w);
}

#[test]
fn envelope_success_round_trip() {
    let env = Envelope::Success(StateToken([0x12; 8]));
    let s = env.encode();
    assert_eq!(s, "@1212121212121212\n");
    assert_eq!(Envelope::parse(&s).unwrap(), env);
}

#[test]
fn envelope_error_round_trip() {
    let env = Envelope::Error {
        code: ErrorCode::StaleToken,
        args: vec!["abcdef0123456789".into(), "nav".into()],
    };
    let s = env.encode();
    assert_eq!(s, "! STALE_TOKEN abcdef0123456789 nav\n");
    assert_eq!(Envelope::parse(&s).unwrap(), env);
}

#[test]
fn response_head_with_warnings_round_trip() {
    let head = ResponseHead::ok(StateToken([0xab; 8]))
        .with_warning(Warning::with_args(WarningCode::Nav, vec!["https://example.com".into()]))
        .with_warning(Warning::new(WarningCode::CaptchaVisible));
    let s = head.encode();
    let parsed = ResponseHead::parse(&s).unwrap();
    assert_eq!(parsed, head);
}

#[test]
fn response_head_error() {
    let head = ResponseHead::err(ErrorCode::Timeout, vec!["5000ms".into(), "vs_wait".into()]);
    let s = head.encode();
    assert_eq!(s, "! TIMEOUT 5000ms vs_wait\n");
    assert_eq!(ResponseHead::parse(&s).unwrap(), head);
}

#[test]
fn envelope_rejects_unknown_sigil() {
    assert!(Envelope::parse("# nope\n").is_err());
    assert!(Envelope::parse("").is_err());
}

#[test]
fn primitive_only() {
    let r = Request::new("vs_view");
    let s = r.encode();
    assert_eq!(s, "vs_view\n");
    assert_eq!(Request::parse(&s).unwrap(), r);
}

#[test]
fn with_arg() {
    let r = Request::new("vs_open").arg("https://example.com");
    let s = r.encode();
    assert_eq!(s, "vs_open https://example.com\n");
    assert_eq!(Request::parse(&s).unwrap(), r);
}

#[test]
fn with_quoted_arg() {
    let r = Request::new("vs_act").arg("2").arg("fill").arg("frane@example.com");
    let s = r.encode();
    assert_eq!(s, "vs_act 2 fill frane@example.com\n");
    assert_eq!(Request::parse(&s).unwrap(), r);
}

#[test]
fn arg_with_spaces_quoted() {
    let r = Request::new("vs_act").arg("2").arg("fill").arg("with spaces");
    let s = r.encode();
    assert_eq!(s, "vs_act 2 fill \"with spaces\"\n");
    assert_eq!(Request::parse(&s).unwrap(), r);
}

#[test]
fn bare_flag() {
    let r = Request::new("vs_capture").flag("full-page");
    let s = r.encode();
    assert_eq!(s, "vs_capture --full-page\n");
    assert_eq!(Request::parse(&s).unwrap(), r);
}

#[test]
fn flag_with_value() {
    let r = Request::new("vs_capture").flag_value("viewport", "mobile");
    let s = r.encode();
    assert_eq!(s, "vs_capture --viewport=mobile\n");
    assert_eq!(Request::parse(&s).unwrap(), r);
}

#[test]
fn flag_value_with_spaces_quoted() {
    let r = Request::new("vs_session_open").flag_value("policy", "strict mode");
    let s = r.encode();
    assert_eq!(s, "vs_session_open --policy=\"strict mode\"\n");
    assert_eq!(Request::parse(&s).unwrap(), r);
}

#[test]
fn full_request() {
    let r = Request::new("vs_capture").arg("7").flag("full-page").flag_value("viewport", "mobile");
    let s = r.encode();
    assert_eq!(s, "vs_capture 7 --full-page --viewport=mobile\n");
    assert_eq!(Request::parse(&s).unwrap(), r);
}

#[test]
fn multiline_arg_survives_framing() {
    let expr = "const x = 1;\nconst y = 2;\nx + y";
    let r = Request::new("vs_inspect").arg("eval").arg("3").arg(expr);
    let s = r.encode();
    assert_eq!(s.matches('\n').count(), 1, "encoded request must be a single wire line; got {s:?}");
    assert_eq!(Request::parse(&s).unwrap(), r);
}

#[test]
fn backslash_and_tab_round_trip() {
    let expr = "a\tb /\\d+/ c\\nd";
    let r = Request::new("vs_inspect").arg("eval").arg("1").arg(expr);
    let s = r.encode();
    assert_eq!(s.matches('\n').count(), 1);
    assert_eq!(Request::parse(&s).unwrap(), r);
}

#[test]
fn double_quotes_in_arg_round_trip() {
    for expr in [
        r#"document.querySelector("a").href"#,
        r#"x === "with space" && y"#,
        r#"JSON.parse("{\"k\":1}")"#,
    ] {
        let r = Request::new("vs_inspect").arg("eval").arg("1").arg(expr);
        let s = r.encode();
        assert_eq!(s.matches('\n').count(), 1, "single wire line expected for {expr:?}; got {s:?}");
        assert_eq!(Request::parse(&s).unwrap(), r, "round-trip failed for {expr:?} (encoded {s:?})");
    }
}

#[test]
fn multiline_flag_value_round_trips() {
    let r = Request::new("vs_act").flag_value("text", "line1\nline2");
    let s = r.encode();
    assert_eq!(s.matches('\n').count(), 1);
    assert_eq!(Request::parse(&s).unwrap(), r);
}

#[test]
fn rejects_invalid_primitive() {
    for bad in ["", "VS_VIEW", "--vs", "vs!", "vs-cli"] {
        assert!(Request::parse(bad).is_err(), "{bad} should fail");
    }
}

#[test]
fn request_display_is_the_line_without_terminator() {
    let r = Request::new("vs_open").arg("https://example.com");
    assert_eq!(r.to_string(), "vs_open https://example.com");
}

#[test]
fn head_followed_by_a_body_reads_back() {
    let head = ResponseHead::ok(StateToken([0x01; 8]))
        .with_warning(Warning::with_args(WarningCode::Nav, vec!["https://example.com".into()]));
    let mut s = head.encode();
    s.push_str("body line one\n@ not an envelope\n");
    assert_eq!(ResponseHead::parse(&s).unwrap(), head);
}

#[test]
fn warnings_without_envelope_are_refused() {
    let w = Warning::with_args(WarningCode::Nav, vec!["https://example.com".into()]).encode();
    let input = format!("\n{w}\n{w}");
    match ResponseHead::parse(&input) {
        Err(ParseError::InvalidEnvelope { detail }) => assert_eq!(detail, "no envelope line found"),
        _ => panic!("expected InvalidEnvelope"),
    }
}

#[test]
fn request_with_tab_and_newline_in_args_round_trips() {
    let r = Request::new("vs_act").arg("a\tb").arg("x\ny").flag_value("name", "v w\r");
    assert_eq!(Request::parse(&r.encode()).unwrap(), r);
}

#[test]
fn token_text_parses_back_through_from_str() {
    let t = StateToken([0xa3, 0xf9, 0xb2, 0xc1, 0xd4, 0xe6, 0xf7, 0x0a]);
    let back: StateToken = t.to_string().parse().unwrap();
    assert_eq!(back, t);
    assert_eq!("a3f9b2c1d4e6f70a".parse::<StateToken>().unwrap(), t);
    assert!("A3F9B2C1D4E6F70A".parse::<StateToken>().is_err());
    assert!("a3f9".parse::<StateToken>().is_err());
}
