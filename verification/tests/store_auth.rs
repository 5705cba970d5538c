use vibesurfer::backend::auth::{from_v1, parse_document_cookie_string, AuthBlobV1};
use vibesurfer::backend::common::{ops_for_role, parse_role};
use vibesurfer::backend::wpe_input::{button_code, clamp_i16, linux_button_code, Button};
use vibesurfer::codes::{Op, Role};
use vibesurfer::store::auth::{decode_hex_key, decrypt, encrypt, MasterKey};
use vibesurfer::store::clock::{epoch_secs, epoch_secs_from};
use vibesurfer::store::error::StoreError;
use vibesurfer::store::types::{AnnotationTarget, SessionStatus};

use vibesurfer::backend::common::build_act_js;
use vibesurfer::engine::Action;
use vibesurfer::tree::Ref;
use vibesurfer::backend::common::build_wait_predicate;
use vibesurfer::engine::WaitCondition;
use vibesurfer::backend::auth::CookieData;
use vibesurfer::backend::common::cookie_to_storage_entry;

fn fixed_key() -> MasterKey {
    MasterKey::from_bytes([7u8; 32])
}

#[test]
fn round_trip_empty() {
    let k = fixed_key();
    let blob = encrypt(&k, &[]).unwrap();
    assert_eq!(decrypt(&k, &blob).unwrap(), Vec::<u8>::new());
}

#[test]
fn round_trip_payload() {
    let k = fixed_key();
    let plain = b"cookies=session=abc123; theme=dark";
    let blob = encrypt(&k, plain).unwrap();
    assert_ne!(blob.ciphertext, plain);
    assert_eq!(decrypt(&k, &blob).unwrap(), plain.to_vec());
}

#[test]
fn nonces_are_unique() {
    let k = fixed_key();
    let a = encrypt(&k, b"hello").unwrap();
    let b = encrypt(&k, b"hello").unwrap();
    assert_ne!(a.nonce, b.nonce);
    assert_ne!(a.ciphertext, b.ciphertext);
}

#[test]
fn wrong_key_rejected() {
    let k1 = MasterKey::from_bytes([1u8; 32]);
    let k2 = MasterKey::from_bytes([2u8; 32]);
    let blob = encrypt(&k1, b"secret").unwrap();
    assert!(decrypt(&k2, &blob).is_err());
}

#[test]
fn tamper_rejected() {
    let k = fixed_key();
    let mut blob = encrypt(&k, b"secret").unwrap();
    blob.ciphertext[0] ^= 0xff;
    let err = decrypt(&k, &blob).unwrap_err();
    assert!(matches!(err, StoreError::Crypto(_)));
}

#[test]
fn key_file_wrong_size_rejected() {
    assert!(matches!(MasterKey::from_key_file_bytes(b"too short"), Err(StoreError::KeyFileSize(9))));
    assert!(MasterKey::from_key_file_bytes(&[3u8; 32]).is_ok());
}

#[test]
fn hex_key_decodes_either_case() {
    let lower = "00ff".repeat(16);
    let upper = "00FF".repeat(16);
    let a = decode_hex_key(&lower).unwrap();
    let b = decode_hex_key(&upper).unwrap();
    let blob = encrypt(&a, b"x").unwrap();
    assert_eq!(decrypt(&b, &blob).unwrap(), b"x".to_vec());
    assert!(matches!(decode_hex_key("abc"), Err(StoreError::Crypto("hex key shape"))));
    let bad = format!("{}zz", "0".repeat(62));
    assert!(matches!(decode_hex_key(&bad), Err(StoreError::Crypto("hex key shape"))));
}

#[test]
fn session_status_and_annotation_targets() {
    assert_eq!(SessionStatus::Open.as_str(), "open");
    assert_eq!("closed".parse::<SessionStatus>().unwrap(), SessionStatus::Closed);
    assert!(matches!("shut".parse::<SessionStatus>(), Err(StoreError::Invalid("session.status"))));
    let t = AnnotationTarget::parse("ref", "42").unwrap();
    assert_eq!(t, AnnotationTarget::Ref(42));
    assert_eq!(t.kind(), "ref");
    assert_eq!(t.id(), "42");
    assert_eq!(AnnotationTarget::parse("mark", "login").unwrap().id(), "login");
    assert_eq!(AnnotationTarget::parse("page", "").unwrap(), AnnotationTarget::Page);
    assert!(matches!(AnnotationTarget::parse("ref", "x"), Err(StoreError::Invalid("annotation.target_id (ref)"))));
    assert!(matches!(AnnotationTarget::parse("node", "1"), Err(StoreError::Invalid("annotation.target_kind"))));
}

#[test]
fn clock_saturates() {
    assert_eq!(epoch_secs_from(Some(5)), 5);
    assert_eq!(epoch_secs_from(Some(u64::MAX)), i64::MAX);
    assert_eq!(epoch_secs_from(None), 0);
    assert!(epoch_secs() > 1_600_000_000);
}

#[test]
fn document_cookie_string_parses_pairs() {
    let cookies = parse_document_cookie_string("session=xyz; pref=dark ;; flag ; a=b=c");
    let pairs: Vec<(String, String)> = cookies.iter().map(|c| (c.name.clone(), c.value.clone())).collect();
    assert_eq!(
        pairs,
        vec![
            ("session".to_string(), "xyz".to_string()),
            ("pref".to_string(), "dark".to_string()),
            ("flag".to_string(), String::new()),
            ("a".to_string(), "b=c".to_string()),
        ]
    );
    assert!(cookies.iter().all(|c| c.path == "/" && c.domain.is_empty() && !c.http_only));
    assert!(parse_document_cookie_string("").is_empty());
}

#[test]
fn v1_blob_decodes_into_v2_shape() {
    let mut local = std::collections::BTreeMap::new();
    local.insert("theme".to_string(), "dark".to_string());
    let v1 = AuthBlobV1 {
        cookies: "session=xyz; pref=dark".into(),
        local_storage: local,
        session_storage: Default::default(),
        url: "https://example.com/".into(),
        origin: "https://example.com".into(),
    };
    let v2 = from_v1(v1);
    assert_eq!(v2.version, 2);
    assert_eq!(v2.cookies.len(), 2);
    assert_eq!(v2.cookies[0].name, "session");
    assert_eq!(v2.cookies[0].value, "xyz");
    assert!(!v2.cookies[0].http_only, "v1 had no notion of HttpOnly");
    assert_eq!(v2.local_storage.get("theme").unwrap(), "dark");
}

#[test]
fn v1_with_empty_cookies_decodes() {
    let v2 = from_v1(AuthBlobV1::default());
    assert!(v2.cookies.is_empty());
}

#[test]
fn roles_and_ops_from_snapshot_codes() {
    assert_eq!(parse_role("btn"), Role::Btn);
    assert_eq!(parse_role("nope"), Role::El);
    let ops = ops_for_role(Role::Tf);
    assert!(ops.contains(Op::Fill) && ops.contains(Op::Focus) && !ops.contains(Op::Click));
    assert!(ops_for_role(Role::P).is_empty());
    assert!(ops_for_role(Role::Frm).contains(Op::Submit));
}

#[test]
fn input_codes() {
    assert_eq!(clamp_i16(40_000), i16::MAX);
    assert_eq!(clamp_i16(-40_000), i16::MIN);
    assert_eq!(clamp_i16(12), 12);
    assert_eq!(button_code(Button::Right), 3);
    assert_eq!(linux_button_code(Button::Middle), 0x112);
}

#[test]
fn act_script_targets_ref_and_action() {
    let js = build_act_js(Ref(3), &Action::Focus);
    assert_eq!(
        js,
        "(function() { const el = (window.__vsFindRef ? window.__vsFindRef(3) : null) || document.querySelector('[data-vs-ref=\"3\"]'); if (!el) return 'err:not_found'; el.focus(); return 'ok'; })()"
    );
    let fill = build_act_js(Ref(12), &Action::Fill { value: "a\"b".into() });
    assert!(fill.contains("var want = \"a\\\"b\";"));
    assert!(fill.contains("__vsFindRef(12)"));
    let key = build_act_js(Ref(1), &Action::Key { chord: "Enter".into() });
    assert!(key.contains("{key: \"Enter\", bubbles: true}"));
    assert!(build_act_js(Ref(1), &Action::Click).contains("new PointerEvent('pointerdown', mkp(1))"));
}

#[test]
fn wait_predicates() {
    assert_eq!(
        build_wait_predicate(&WaitCondition::Stable),
        "(function() { return document.readyState === 'complete' ? '1' : '0'; })()"
    );
    let t = build_wait_predicate(&WaitCondition::Text("Sign in".into()));
    assert!(t.contains("indexOf(\"Sign in\") >= 0"));
    let gone = build_wait_predicate(&WaitCondition::RefGone(Ref(8)));
    assert!(gone.contains("window.__vsFindRef(8)") && gone.ends_with("return el ? '0' : '1'; })()"));
    assert!(build_wait_predicate(&WaitCondition::NetIdle).contains("__vsNetWatch"));
}

#[test]
fn cookie_storage_entry_flags() {
    let c = CookieData {
        name: "Auth_Token".into(),
        value: "v".into(),
        domain: "example.com".into(),
        path: "/".into(),
        expires_unix: Some(-5),
        secure: true,
        http_only: true,
        same_site: Some("Lax".into()),
    };
    let e = cookie_to_storage_entry(&c);
    assert!(e.sensitive);
    assert_eq!(e.key, "Auth_Token");
    assert_eq!(e.flags, vec!["secure", "httponly", "samesite=lax", "expires=-5"]);
    let plain = CookieData { name: "theme".into(), expires_unix: None, secure: false, http_only: false, same_site: None, ..c };
    let e = cookie_to_storage_entry(&plain);
    assert!(!e.sensitive);
    assert!(e.flags.is_empty());
}

use vibesurfer::backend::wpe_input::{humanize_seed_of_bits, keysym_for};

#[test]
fn keysyms_of_typed_characters() {
    assert_eq!(keysym_for('\u{8}'), 0xff08);
    assert_eq!(keysym_for('\t'), 0xff09);
    assert_eq!(keysym_for('\n'), 0xff0d);
    assert_eq!(keysym_for('\r'), 0xff0d);
    assert_eq!(keysym_for('\u{1b}'), 0xff1b);
    assert_eq!(keysym_for('a'), 0x61);
    assert_eq!(keysym_for('~'), 0x7e);
    assert_eq!(keysym_for('\u{e9}'), 0xe9);
    assert_eq!(keysym_for('\u{7f}'), 0x0100_007f);
    assert_eq!(keysym_for('\u{20ac}'), 0x0100_20ac);
}

#[test]
fn cursor_path_seed_mixes_coordinate_bits() {
    assert_eq!(humanize_seed_of_bits(10.0f64.to_bits(), 20.0f64.to_bits(), 0, 0), 0x5b60_0000_0000_0000);
    assert_eq!(humanize_seed_of_bits(1, 2, 3, 4), 0x5ef7_2a52_7f10_82a2);
    assert_eq!(humanize_seed_of_bits(0, 0, 0, 9), 9);
}

#[test]
fn keyring_secret_is_lower_hex_and_reads_back() {
    let mut bytes = [0u8; 32];
    for (i, b) in bytes.iter_mut().enumerate() {
        *b = (i as u8).wrapping_mul(37).wrapping_add(0xa5);
    }
    let k = MasterKey::from_bytes(bytes);
    let hex = k.keyring_secret();
    assert_eq!(hex.len(), 64);
    assert!(hex.starts_with("a5ca"), "{hex}");
    assert!(hex.chars().all(|c| c.is_ascii_digit() || ('a'..='f').contains(&c)));
    let back = decode_hex_key(&hex).ok().unwrap();
    assert_eq!(back.raw(), &bytes);
    assert_eq!(MasterKey::from_bytes([0u8; 32]).keyring_secret(), "0".repeat(64));
}

#[test]
fn generated_keys_encrypt_and_decrypt() {
    let k = MasterKey::generate().ok().unwrap();
    let blob = encrypt(&k, b"fresh").ok().unwrap();
    assert_eq!(decrypt(&k, &blob).ok().unwrap(), b"fresh".to_vec());
    let other = MasterKey::generate().ok().unwrap();
    assert_ne!(k.raw(), other.raw());
}
