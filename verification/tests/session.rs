use ronaldos_core::authentication_service::{AuthenticationService, RonaldoAuthentication, Verdict};
use ronaldos_core::redirect_service::RedirectScheme;
use ronaldos_core::session_manager::{allow_list, Login, PermissionResult, SessionMananger};

fn manager() -> SessionMananger {
    SessionMananger::new(&Login { username: "sven".to_string(), password: "secret".to_string() })
}

#[test]
fn session_is_the_url_safe_base64_of_the_credentials() {
    assert_eq!(manager().session_text(), "dXNlcm5hbWU9c3ZlbiZwYXNzd29yZD1zZWNyZXQ=");
    let other = SessionMananger::new(&Login { username: "a".to_string(), password: "b".to_string() });
    assert_eq!(other.session_text(), "dXNlcm5hbWU9YSZwYXNzd29yZD1i");
}

#[test]
fn encoding_uses_the_url_safe_alphabet() {
    let manager = SessionMananger::with_session("Pz4_Pg==".to_string());
    assert_eq!(manager.create_session("?>?>"), Some("Pz4_Pg==".to_string()));
    assert_eq!(manager.has_permission("/index.html", Some("?>?>")), PermissionResult::Allowed);
}

#[test]
fn open_paths_need_no_session() {
    assert!(allow_list("/favicon.ico"));
    assert!(allow_list("/login.html"));
    assert!(allow_list("/dologin"));
    assert!(allow_list("/.well-known/acme-challenge/token"));
    assert!(!allow_list("/"));
    assert!(!allow_list("/index.html"));
    assert!(!allow_list("/login.htm"));
    assert_eq!(manager().has_permission("/login.html", None), PermissionResult::Allowed);
    assert_eq!(manager().has_permission("/dologin", Some("junk")), PermissionResult::Allowed);
}

#[test]
fn permission_follows_the_cookie() {
    let manager = manager();
    assert_eq!(
        manager.has_permission("/streams/all", Some("username=sven&password=secret")),
        PermissionResult::Allowed
    );
    assert_eq!(
        manager.has_permission("/streams/all", Some("username=sven&password=wrong")),
        PermissionResult::AuthenticationNeeded
    );
    assert_eq!(manager.has_permission("/streams/all", None), PermissionResult::Denied);
    assert_eq!(manager.has_permission("/", None), PermissionResult::AuthenticationNeeded);
    assert_eq!(
        manager.permission_for("/x", Some("dXNlcm5hbWU9c3ZlbiZwYXNzd29yZD1zZWNyZXQ=")),
        PermissionResult::Allowed
    );
    assert_eq!(
        manager.permission_for("/x", Some("username=sven&password=secret")),
        PermissionResult::AuthenticationNeeded
    );
}

#[test]
fn cookie_header_is_searched_for_the_session() {
    let manager = manager();
    let session = "dXNlcm5hbWU9c3ZlbiZwYXNzd29yZD1zZWNyZXQ=";
    assert!(manager.cookie_contains_valid_session(&format!("Session_id={}", session)));
    assert!(manager.cookie_contains_valid_session(&format!("theme=dark;Session_id={}", session)));
    assert!(manager.cookie_contains_valid_session(&format!("Session_id={};theme=dark", session)));
    assert!(manager.cookie_contains_valid_session(&format!("novalue;;Session_id={};", session)));
    assert!(!manager.cookie_contains_valid_session(&format!("theme=dark; Session_id={}", session)));
    assert!(!manager.cookie_contains_valid_session(&format!(
        "Session_id=wrong;Session_id={}",
        session
    )));
    assert!(!manager.cookie_contains_valid_session("Session_id=dXNlcm5hbWU9c3ZlbiZwYXNzd29yZD1zZWNyZXQ"));
    assert!(!manager.cookie_contains_valid_session("theme=dark"));
    assert!(!manager.cookie_contains_valid_session(""));
    assert!(!manager.cookie_contains_valid_session("Session_id"));
}

#[test]
fn create_session_wants_the_credentials() {
    let manager = manager();
    assert_eq!(
        manager.create_session("username=sven&password=secret"),
        Some("dXNlcm5hbWU9c3ZlbiZwYXNzd29yZD1zZWNyZXQ=".to_string())
    );
    assert_eq!(manager.create_session("username=sven&password=nope"), None);
    assert_eq!(manager.session_if_valid("nope".to_string()), None);
}

#[test]
fn guard_without_session_manager_forwards_everything() {
    let guard = RonaldoAuthentication::new(None).new_transform(5u8);
    assert_eq!(guard.call("/streams/all", None), Verdict::Forward);
    assert_eq!(*guard.service(), 5);
}

#[test]
fn guard_follows_the_session_manager() {
    let guard = RonaldoAuthentication::new(Some(manager())).new_transform(());
    assert_eq!(guard.call("/streams/all", Some("username=sven&password=secret")), Verdict::Forward);
    assert_eq!(guard.call("/streams/all", Some("someone else")), Verdict::RedirectToLogin);
    assert_eq!(guard.call("/", None), Verdict::RedirectToLogin);
    assert_eq!(guard.call("/streams/all", None), Verdict::Forbidden);
    assert_eq!(guard.call("/login.html", None), Verdict::Forward);
    assert_eq!(
        AuthenticationService::<()>::decide(PermissionResult::Denied),
        Verdict::Forbidden
    );
}

#[test]
fn plain_http_is_sent_to_https() {
    let redirect = RedirectScheme::new(true).new_transform(());
    assert_eq!(
        redirect.call("http", "example.org", "/streams/all?x=1"),
        Some("https://example.org/streams/all?x=1".to_string())
    );
    assert_eq!(redirect.call("https", "example.org", "/"), None);
    let disabled = RedirectScheme::new(false).new_transform(7u8);
    assert_eq!(disabled.call("http", "example.org", "/"), None);
    assert_eq!(*disabled.service(), 7);
}
