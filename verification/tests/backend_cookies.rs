use vibesurfer::backend::auth::CookieData;
use vibesurfer::backend::common::{diff_cookies, diff_cookies_at, CookieAction};

fn cookie(name: &str, domain: &str, path: &str) -> CookieData {
    CookieData {
        name: name.to_string(),
        value: "v".to_string(),
        domain: domain.to_string(),
        path: path.to_string(),
        expires_unix: None,
        secure: false,
        http_only: false,
        same_site: None,
    }
}

#[test]
fn first_read_reports_every_cookie_as_added() {
    let mut seq = 10;
    let cur = vec![cookie("a", "x.com", "/"), cookie("b", "x.com", "/")];
    let ev = diff_cookies_at(None, &cur, &mut seq, 1234);
    assert_eq!(ev.len(), 2);
    assert_eq!(ev[0].seq, 11);
    assert_eq!(ev[1].seq, 12);
    assert_eq!(ev[0].name, "a");
    assert_eq!(ev[1].name, "b");
    assert!(ev.iter().all(|e| e.action == CookieAction::Added && e.ts_ms == 1234));
    assert_eq!(seq, 12);
}

#[test]
fn changes_are_added_then_removed_by_name_domain_and_path() {
    let mut seq = 0;
    let prev = vec![cookie("a", "x.com", "/"), cookie("gone", "x.com", "/"), cookie("p", "x.com", "/a")];
    let mut changed = cookie("a", "x.com", "/");
    changed.value = "new".to_string();
    let mut fresh = cookie("n", "y.com", "/");
    fresh.secure = true;
    fresh.http_only = true;
    fresh.same_site = Some("Lax".to_string());
    fresh.expires_unix = Some(-5);
    let cur = vec![changed, fresh, cookie("p", "x.com", "/b")];
    let ev = diff_cookies_at(Some(&prev), &cur, &mut seq, 7);
    let got: Vec<(u64, CookieAction, String, String)> =
        ev.iter().map(|e| (e.seq, e.action, e.name.clone(), e.path.clone())).collect();
    assert_eq!(
        got,
        vec![
            (1, CookieAction::Added, "n".to_string(), "/".to_string()),
            (2, CookieAction::Added, "p".to_string(), "/b".to_string()),
            (3, CookieAction::Removed, "gone".to_string(), "/".to_string()),
            (4, CookieAction::Removed, "p".to_string(), "/a".to_string()),
        ]
    );
    assert_eq!(ev[0].flags, vec!["secure", "httponly", "samesite=lax", "expires=-5"]);
    assert_eq!(ev[0].domain, "y.com");
    assert_eq!(seq, 4);
}

#[test]
fn unchanged_reads_give_no_events() {
    let mut seq = 3;
    let cur = vec![cookie("a", "x.com", "/")];
    let ev = diff_cookies(Some(&cur), &cur, &mut seq);
    assert!(ev.is_empty());
    assert_eq!(seq, 3);
}
