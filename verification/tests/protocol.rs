use drawer_core::text::{split_lines, split_on, str_eq};
use drawer_core::rights::Right;
use drawer_core::identity::{parse_jwt_from_cookies, find_access_token, trim_spaces, AuthError};
use drawer_core::control::{
    can_change_right, removes_right, can_set_moderated, login_outcome, session_cookie,
    logout_cookie, visible_rights, register_status, AccountRow, RegisterOutcome, UserRight,
};
use drawer_core::bus::CanvasDataEvent;
use argon2::{Argon2, PasswordHasher};

#[test]
fn split_lines_keeps_order_and_drops_empties() {
    let parts = split_lines("a\nb\n\nc\n");
    let view: Vec<&str> = parts.iter().map(|s| s.as_str()).collect();
    assert_eq!(view, vec!["a", "b", "c"]);
    assert!(split_lines("").is_empty());
    assert!(split_lines("\n\n").is_empty());
    let one = split_lines("single");
    assert_eq!(one.len(), 1);
    assert_eq!(one[0], "single");
}

#[test]
fn split_on_semicolons() {
    let parts = split_on("a=1; b=2;; c=3", ';');
    let view: Vec<&str> = parts.iter().map(|s| s.as_str()).collect();
    assert_eq!(view, vec!["a=1", " b=2", " c=3"]);
}

#[test]
fn str_eq_is_exact() {
    assert!(str_eq("abc", "abc"));
    assert!(!str_eq("abc", "abd"));
    assert!(!str_eq("abc", "ab"));
    assert!(str_eq("", ""));
}

#[test]
fn trim_strips_spaces() {
    assert_eq!(trim_spaces("  a b\t"), "a b");
    assert_eq!(trim_spaces(""), "");
    assert_eq!(trim_spaces("   "), "");
    assert_eq!(trim_spaces("x"), "x");
}

#[test]
fn cookie_scan_finds_token() {
    assert_eq!(
        find_access_token("foo=1; access_token=abc.def.ghi; bar=2").as_deref(),
        Some("abc.def.ghi")
    );
    assert_eq!(find_access_token("access_token=t").as_deref(), Some("t"));
    assert!(find_access_token("foo=1; bar=2").is_none());
    assert!(find_access_token("").is_none());
}

#[test]
fn jwt_round_trip_through_cookie() {
    let mut m = serde_json::Map::new();
    m.insert("id".to_string(), serde_json::Value::String("u1".to_string()));
    m.insert("email".to_string(), serde_json::Value::String("a@b.c".to_string()));
    m.insert("exp".to_string(), serde_json::Value::from(2000000000u64));
    m.insert("display_name".to_string(), serde_json::Value::String("Al".to_string()));
    let token = jsonwebtoken::encode(
        &jsonwebtoken::Header::default(),
        &serde_json::Value::Object(m),
        &jsonwebtoken::EncodingKey::from_secret(b"s3cret"),
    )
    .unwrap();
    let cookie = format!("theme=dark; access_token={}; lang=en", token);
    let claims = parse_jwt_from_cookies(&cookie, b"s3cret").unwrap();
    assert_eq!(claims.id, "u1");
    assert_eq!(claims.email, "a@b.c");
    assert_eq!(claims.exp, 2000000000);
    assert_eq!(claims.display_name, "Al");
}

#[test]
fn jwt_wrong_secret_is_rejected() {
    let mut m = serde_json::Map::new();
    m.insert("id".to_string(), serde_json::Value::String("u1".to_string()));
    m.insert("email".to_string(), serde_json::Value::String("a@b.c".to_string()));
    m.insert("exp".to_string(), serde_json::Value::from(2000000000u64));
    m.insert("display_name".to_string(), serde_json::Value::String("Al".to_string()));
    let token = jsonwebtoken::encode(
        &jsonwebtoken::Header::default(),
        &serde_json::Value::Object(m),
        &jsonwebtoken::EncodingKey::from_secret(b"s3cret"),
    )
    .unwrap();
    let cookie = format!("access_token={}", token);
    assert_eq!(
        parse_jwt_from_cookies(&cookie, b"other").unwrap_err(),
        AuthError::InvalidToken
    );
    assert_eq!(
        parse_jwt_from_cookies("no=token", b"s3cret").unwrap_err(),
        AuthError::InvalidToken
    );
}

#[test]
fn right_letters_round_trip() {
    for (r, l) in [
        (Right::R, "R"),
        (Right::W, "W"),
        (Right::V, "V"),
        (Right::M, "M"),
        (Right::O, "O"),
    ] {
        assert_eq!(r.letter(), l);
        assert_eq!(Right::of_letter(l), Some(r));
    }
    assert_eq!(Right::of_letter("X"), None);
    assert_eq!(Right::of_letter(""), None);
}

#[test]
fn write_policy_table() {
    let may_write = drawer_core::rights::may_write;
    assert!(!may_write(Right::R, false));
    assert!(!may_write(Right::R, true));
    assert!(may_write(Right::W, false));
    assert!(!may_write(Right::W, true));
    for r in [Right::V, Right::M, Right::O] {
        assert!(may_write(r, false));
        assert!(may_write(r, true));
    }
}

#[test]
fn right_assignment_rules() {
    assert!(can_change_right(Some(Right::O), &Some(String::from("O"))));
    assert!(can_change_right(Some(Right::O), &None));
    assert!(can_change_right(Some(Right::M), &Some(String::from("W"))));
    assert!(!can_change_right(Some(Right::M), &Some(String::from("O"))));
    assert!(can_change_right(Some(Right::M), &None));
    assert!(!can_change_right(Some(Right::W), &Some(String::from("R"))));
    assert!(!can_change_right(None, &Some(String::from("R"))));
}

#[test]
fn right_removal_forms() {
    assert!(removes_right(&None));
    assert!(removes_right(&Some(String::from(""))));
    assert!(removes_right(&Some(String::from("null"))));
    assert!(!removes_right(&Some(String::from("W"))));
}

#[test]
fn moderation_toggle_permission() {
    assert!(can_set_moderated(Some(Right::M)));
    assert!(can_set_moderated(Some(Right::O)));
    assert!(!can_set_moderated(Some(Right::W)));
    assert!(!can_set_moderated(Some(Right::V)));
    assert!(!can_set_moderated(Some(Right::R)));
    assert!(!can_set_moderated(None));
}

#[test]
fn login_verifies_password() {
    let hash = Argon2::default().hash_password(b"hunter2").unwrap().to_string();
    let row = AccountRow {
        id: String::from("u9"),
        password_hash: hash.clone(),
        display_name: String::from("Neo"),
    };
    let claims = login_outcome(Some(row), "n@e.o", "hunter2").unwrap();
    assert_eq!(claims.id, "u9");
    assert_eq!(claims.email, "n@e.o");
    assert_eq!(claims.display_name, "Neo");
    assert_eq!(claims.exp, 2000000000);

    let row2 = AccountRow {
        id: String::from("u9"),
        password_hash: hash,
        display_name: String::from("Neo"),
    };
    assert_eq!(
        login_outcome(Some(row2), "n@e.o", "wrong").unwrap_err(),
        AuthError::WrongCredentials
    );
    assert_eq!(
        login_outcome(None, "n@e.o", "hunter2").unwrap_err(),
        AuthError::WrongCredentials
    );
}

#[test]
fn issued_session_round_trips() {
    let claims = drawer_core::identity::Claims {
        id: String::from("u7"),
        email: String::from("x@y.z"),
        exp: 2000000000,
        display_name: String::from("Xan"),
    };
    let cookie = drawer_core::control::issue_session(&claims, b"s3cret").unwrap();
    assert!(cookie.starts_with("access_token="));
    assert!(cookie.ends_with("; HttpOnly; Path=/; SameSite=Lax"));
    let back = parse_jwt_from_cookies(&cookie, b"s3cret").unwrap();
    assert_eq!(back.id, "u7");
    assert_eq!(back.email, "x@y.z");
    assert_eq!(back.exp, 2000000000);
    assert_eq!(back.display_name, "Xan");
}

#[test]
fn session_cookie_shapes() {
    assert_eq!(
        session_cookie("tok"),
        "access_token=tok; HttpOnly; Path=/; SameSite=Lax"
    );
    assert_eq!(
        logout_cookie(),
        "access_token=; HttpOnly; Path=/; SameSite=Lax; Max-Age=0"
    );
}

#[test]
fn rights_listing_gated_by_role() {
    let hidden = vec![UserRight { email: String::from("a@b.c"), right: String::from("W") }];
    assert!(visible_rights(Right::W, hidden).is_none());
    let all = vec![UserRight { email: String::from("a@b.c"), right: String::from("W") }];
    let shown = visible_rights(Right::M, all).unwrap();
    assert_eq!(shown.len(), 1);
    assert_eq!(shown[0].email, "a@b.c");
    assert_eq!(shown[0].right, "W");
}

#[test]
fn register_status_codes() {
    assert_eq!(register_status(RegisterOutcome::Inserted), 201);
    assert_eq!(register_status(RegisterOutcome::Refused), 400);
    assert_eq!(register_status(RegisterOutcome::Failed), 500);
}

#[test]
fn auth_error_responses() {
    assert_eq!(AuthError::WrongCredentials.status_and_message(), (401, "Wrong credentials"));
    assert_eq!(AuthError::MissingCredentials.status_and_message(), (400, "Missing credentials"));
    assert_eq!(AuthError::TokenCreation.status_and_message(), (500, "Token creation error"));
    assert_eq!(AuthError::InvalidToken.status_and_message(), (400, "Invalid token"));
}

#[test]
fn bus_event_builders() {
    let ev = drawer_core::control::right_change_event(
        &String::from("cX"),
        &String::from("u1"),
        &Some(String::from("null")),
    );
    match ev {
        CanvasDataEvent::RightChanged(c, u, nr) => {
            assert_eq!(c, "cX");
            assert_eq!(u, "u1");
            assert!(nr.is_none());
        }
        _ => panic!("wrong event kind"),
    }
    let ev2 = drawer_core::control::right_change_event(
        &String::from("cX"),
        &String::from("u1"),
        &Some(String::from("V")),
    );
    match ev2 {
        CanvasDataEvent::RightChanged(_, _, nr) => assert_eq!(nr.as_deref(), Some("V")),
        _ => panic!("wrong event kind"),
    }
    match drawer_core::control::moderated_change_event(&String::from("cX"), true) {
        CanvasDataEvent::ModeratedChanged(c, m) => {
            assert_eq!(c, "cX");
            assert!(m);
        }
        _ => panic!("wrong event kind"),
    }
}
