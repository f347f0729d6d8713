use rocket_crud::crud::tree::Tree;
use rocket_crud::crud::session::SessionCookie;
use rocket_crud::crud::{Crud, CrudError};
use rocket_crud::ids::new_nid;
use rocket_crud::password::hash_password;
use rocket_crud::users::users::{
    User, Users, csrf_matches, get_token, get_user, get_users, post_user, register_user,
};

fn s(x: &str) -> String {
    x.to_string()
}

fn create(nickname: &str, email: &str, password: &str) -> Users {
    Users::UserCreate { nickname: s(nickname), email: s(email), password: s(password) }
}

fn login(email: &str, password: &str) -> Users {
    Users::UserLogin { email: s(email), password: s(password) }
}

fn update(
    email: Option<&str>,
    password: Option<&str>,
    new_password: Option<&str>,
    token: &str,
) -> Users {
    Users::UserUpdate {
        nickname: Some(s("renamed")),
        name: None,
        surname: Some(s("Smith")),
        email: email.map(s),
        password: password.map(s),
        new_password: new_password.map(s),
        auth_token: s(token),
    }
}

fn resp_nickname(r: &Users) -> String {
    match r {
        Users::UserResp { nickname, .. } => nickname.clone(),
        _ => panic!("not a public form"),
    }
}

const TOKEN: &str = "tok";

/// A tree with one signed-up user, and that user signed in.
fn signed_in(email: &str, password: &str) -> (Tree<User>, Tree<SessionCookie>, String) {
    let mut users: Tree<User> = Tree::new();
    let mut cookies: Tree<SessionCookie> = Tree::new();
    assert!(post_user(create("bob", email, password), &mut users, &mut cookies, &s(TOKEN)).is_ok());
    assert!(post_user(login(email, password), &mut users, &mut cookies, &s(TOKEN)).is_ok());
    let nid = cookies.get(&s("user")).unwrap().value.clone();
    (users, cookies, nid)
}

#[test]
fn signup_then_login() {
    let mut users: Tree<User> = Tree::new();
    let mut cookies: Tree<SessionCookie> = Tree::new();
    let r = post_user(create("bob", "bob@x", "pw"), &mut users, &mut cookies, &s(TOKEN)).unwrap();
    assert_eq!(resp_nickname(&r), s("bob"));
    assert_eq!(users.len(), 1);
    let stored = users.value_at(0).clone_for_test();
    assert_eq!(stored.nid.len(), 21);
    assert_eq!(users.key_at(0), &stored.nid);
    assert_ne!(stored.password, s("pw"));
    assert_eq!(stored.name, None);
    assert_eq!(cookies.len(), 0);
    let r = post_user(login("bob@x", "pw"), &mut users, &mut cookies, &s(TOKEN)).unwrap();
    assert_eq!(resp_nickname(&r), s("bob"));
    assert_eq!(cookies.get(&s("user")).unwrap().value, stored.nid);
}

trait CloneForTest {
    fn clone_for_test(&self) -> Self;
}

impl CloneForTest for User {
    fn clone_for_test(&self) -> Self {
        rocket_crud::crud::tree::Duplicate::duplicate(self)
    }
}

#[test]
fn signup_taken_email_refused() {
    let mut users: Tree<User> = Tree::new();
    let mut cookies: Tree<SessionCookie> = Tree::new();
    assert!(post_user(create("bob", "bob@x", "pw"), &mut users, &mut cookies, &s(TOKEN)).is_ok());
    let r = post_user(create("other", "bob@x", "pw2"), &mut users, &mut cookies, &s(TOKEN));
    assert_eq!(r.err(), Some(CrudError::ExistsError));
    assert_eq!(users.len(), 1);
    assert_eq!(users.writes().len(), 1);
}

#[test]
fn register_user_exact() {
    let mut users: Tree<User> = Tree::new();
    let r = register_user(s("ann"), s("ann@x"), s("H"), s("id1"), &mut users).unwrap();
    assert_eq!(resp_nickname(&r), s("ann"));
    let u = User::get(&users, &s("id1")).unwrap();
    assert_eq!(u.password, s("H"));
    assert_eq!(u.email, s("ann@x"));
    let r = register_user(s("zed"), s("zed@x"), s("H2"), s("id1"), &mut users);
    assert_eq!(r.err(), Some(CrudError::ExistsError));
}

#[test]
fn login_wrong_password_forbidden() {
    let mut users: Tree<User> = Tree::new();
    let mut cookies: Tree<SessionCookie> = Tree::new();
    assert!(post_user(create("bob", "bob@x", "pw"), &mut users, &mut cookies, &s(TOKEN)).is_ok());
    let r = post_user(login("bob@x", "nope"), &mut users, &mut cookies, &s(TOKEN));
    assert_eq!(r.err(), Some(CrudError::ForbiddenError));
    assert_eq!(cookies.len(), 0);
}

#[test]
fn login_unknown_email_not_found() {
    let mut users: Tree<User> = Tree::new();
    let mut cookies: Tree<SessionCookie> = Tree::new();
    let r = post_user(login("nobody@x", "pw"), &mut users, &mut cookies, &s(TOKEN));
    assert_eq!(r.err(), Some(CrudError::NotFoundError));
}

#[test]
fn login_user_stored_under_other_key() {
    // The user is found by email, but no record is stored under its id.
    let mut users: Tree<User> = Tree::new();
    let mut cookies: Tree<SessionCookie> = Tree::new();
    let u = User {
        nid: s("id9"),
        nickname: s("x"),
        name: None,
        surname: None,
        email: s("x@x"),
        password: hash_password(&s("pw")),
    };
    assert!(u.new(&mut users, &s("other-key")).is_ok());
    let r = post_user(login("x@x", "pw"), &mut users, &mut cookies, &s(TOKEN));
    assert_eq!(r.err(), Some(CrudError::NotFoundError));
    assert_eq!(cookies.len(), 0);
}

#[test]
fn logout_cases() {
    let (mut users, mut cookies, _) = signed_in("bob@x", "pw");
    let r = post_user(Users::UserLogout(s("bad")), &mut users, &mut cookies, &s(TOKEN));
    assert_eq!(r.err(), Some(CrudError::TokenError));
    assert!(cookies.contains_key(&s("user")));
    let r = post_user(Users::UserLogout(s(TOKEN)), &mut users, &mut cookies, &s(TOKEN)).unwrap();
    match r {
        Users::UserLogout(t) => assert_eq!(t, s(TOKEN)),
        _ => panic!("wrong answer"),
    }
    assert!(!cookies.contains_key(&s("user")));
    let r = post_user(Users::UserLogout(s(TOKEN)), &mut users, &mut cookies, &s(TOKEN));
    assert_eq!(r.err(), Some(CrudError::ForbiddenError));
    let r = post_user(update(None, None, None, TOKEN), &mut users, &mut cookies, &s(TOKEN));
    assert_eq!(r.err(), Some(CrudError::ForbiddenError));
    assert_eq!(get_token(&users, &cookies, &s(TOKEN)).unwrap(), s("a"));
}

#[test]
fn update_profile_fields() {
    let (mut users, mut cookies, nid) = signed_in("bob@x", "pw");
    let r = post_user(update(None, None, None, TOKEN), &mut users, &mut cookies, &s(TOKEN)).unwrap();
    match r {
        Users::UserResp { nickname, name, surname } => {
            assert_eq!(nickname, s("renamed"));
            assert_eq!(name, None);
            assert_eq!(surname, Some(s("Smith")));
        }
        _ => panic!("wrong answer"),
    }
    let u = User::get(&users, &nid).unwrap();
    assert_eq!(u.email, s("bob@x"));
    assert_eq!(u.nickname, s("renamed"));
}

#[test]
fn update_token_mismatch() {
    let (mut users, mut cookies, _) = signed_in("bob@x", "pw");
    let r = post_user(update(None, None, None, "bad"), &mut users, &mut cookies, &s(TOKEN));
    assert_eq!(r.err(), Some(CrudError::TokenError));
}

#[test]
fn update_email_needs_password() {
    let (mut users, mut cookies, nid) = signed_in("bob@x", "pw");
    let r = post_user(update(Some("new@x"), None, None, TOKEN), &mut users, &mut cookies, &s(TOKEN));
    assert_eq!(r.err(), Some(CrudError::ForbiddenError));
    let r = post_user(
        update(Some("new@x"), Some("pw"), None, TOKEN),
        &mut users,
        &mut cookies,
        &s(TOKEN),
    );
    assert!(r.is_ok());
    assert_eq!(User::get(&users, &nid).unwrap().email, s("new@x"));
}

#[test]
fn update_password() {
    let (mut users, mut cookies, _) = signed_in("bob@x", "pw");
    let r = post_user(update(None, Some("wrong"), Some("pw2"), TOKEN), &mut users, &mut cookies, &s(TOKEN));
    assert_eq!(r.err(), Some(CrudError::ForbiddenError));
    let r = post_user(update(None, Some("pw"), Some("pw"), TOKEN), &mut users, &mut cookies, &s(TOKEN));
    assert_eq!(r.err(), Some(CrudError::ExistsError));
    let r = post_user(update(None, Some("pw"), Some("pw2"), TOKEN), &mut users, &mut cookies, &s(TOKEN));
    assert!(r.is_ok());
    let r = post_user(login("bob@x", "pw"), &mut users, &mut cookies, &s(TOKEN));
    assert_eq!(r.err(), Some(CrudError::ForbiddenError));
    let r = post_user(login("bob@x", "pw2"), &mut users, &mut cookies, &s(TOKEN));
    assert!(r.is_ok());
}

#[test]
fn update_user_gone() {
    let mut users: Tree<User> = Tree::new();
    let mut cookies: Tree<SessionCookie> = Tree::new();
    cookies.put(s("user"), SessionCookie::received(s("ghost")));
    let r = post_user(update(None, None, None, TOKEN), &mut users, &mut cookies, &s(TOKEN));
    assert_eq!(r.err(), Some(CrudError::NotFoundError));
    assert_eq!(get_token(&users, &cookies, &s(TOKEN)).unwrap(), s("b"));
}

#[test]
fn other_requests_not_found() {
    let mut users: Tree<User> = Tree::new();
    let mut cookies: Tree<SessionCookie> = Tree::new();
    let r = post_user(Users::UserDelete(s(TOKEN)), &mut users, &mut cookies, &s(TOKEN));
    assert_eq!(r.err(), Some(CrudError::NotFoundError));
    let r = post_user(
        Users::UserResp { nickname: s("n"), name: None, surname: None },
        &mut users,
        &mut cookies,
        &s(TOKEN),
    );
    assert_eq!(r.err(), Some(CrudError::NotFoundError));
}

#[test]
fn token_for_signed_in_user() {
    let (users, cookies, _) = signed_in("bob@x", "pw");
    assert_eq!(get_token(&users, &cookies, &s("secret")).unwrap(), s("secret"));
    let empty: Tree<SessionCookie> = Tree::new();
    assert_eq!(get_token(&users, &empty, &s("secret")).unwrap(), s("a"));
}

#[test]
fn get_user_by_id_or_email() {
    let mut users: Tree<User> = Tree::new();
    assert!(register_user(s("ann"), s("ann@x"), s("H"), s("id1"), &mut users).is_ok());
    assert!(register_user(s("bob"), s("bob@x"), s("H"), s("id2"), &mut users).is_ok());
    let r = get_user(Some(s("bob@x")), Some(s("id1")), &users).unwrap();
    assert_eq!(resp_nickname(&r), s("ann"));
    let r = get_user(Some(s("bob@x")), None, &users).unwrap();
    assert_eq!(resp_nickname(&r), s("bob"));
    assert_eq!(get_user(None, Some(s("id3")), &users).err(), Some(CrudError::NotFoundError));
    assert_eq!(get_user(Some(s("c@x")), None, &users).err(), Some(CrudError::NotFoundError));
    assert_eq!(get_user(None, None, &users).err(), Some(CrudError::NotFoundError));
    let all = get_users(&users).unwrap();
    let names: Vec<String> = all.iter().map(resp_nickname).collect();
    assert_eq!(names, vec![s("ann"), s("bob")]);
}

#[test]
fn get_by_email_first_match() {
    let mut users: Tree<User> = Tree::new();
    assert!(register_user(s("first"), s("same@x"), s("H"), s("id1"), &mut users).is_ok());
    // A profile change may give a second user the same email.
    let u = User {
        nid: s("id2"),
        nickname: s("second"),
        name: None,
        surname: None,
        email: s("same@x"),
        password: s("H"),
    };
    assert!(u.new(&mut users, &s("id2")).is_ok());
    assert_eq!(User::get_by_email(&users, &s("same@x")).unwrap().nickname, s("first"));
    assert_eq!(User::get_by_email(&users, &s("none@x")).err(), Some(CrudError::NotFoundError));
}

#[test]
fn public_form_hides_email_and_password() {
    let u = User {
        nid: s("id1"),
        nickname: s("nick"),
        name: Some(s("Ann")),
        surname: None,
        email: s("ann@x"),
        password: s("H"),
    };
    match u.resp() {
        Users::UserResp { nickname, name, surname } => {
            assert_eq!(nickname, s("nick"));
            assert_eq!(name, Some(s("Ann")));
            assert_eq!(surname, None);
        }
        _ => panic!("wrong form"),
    }
    let mut users: Tree<User> = Tree::new();
    assert!(u.new(&mut users, &s("id1")).is_ok());
    assert_eq!(User::get_all(&users).unwrap().len(), 1);
}

#[test]
fn csrf_tokens_compare() {
    assert!(csrf_matches(&s("abc"), &s("abc")));
    assert!(!csrf_matches(&s("abc"), &s("abd")));
}

#[test]
fn fresh_ids() {
    let a = new_nid();
    let b = new_nid();
    assert_eq!(a.chars().count(), 21);
    assert!(a.chars().all(|c| c == '_' || c == '-' || c.is_ascii_alphanumeric()));
    assert_ne!(a, b);
}

#[test]
fn password_hashes_verify() {
    let h = hash_password(&s("secret"));
    assert_ne!(h, s("secret"));
    assert!(h.starts_with("$2b$10$"));
    assert_eq!(h.len(), 60);
    let h2 = hash_password(&s("secret"));
    assert_ne!(h, h2);
}

#[test]
fn empty_profile_change_keeps_user() {
    let (mut users, mut cookies, nid) = signed_in("bob@x", "pw");
    let before = User::get(&users, &nid).unwrap();
    let req = Users::UserUpdate {
        nickname: None,
        name: None,
        surname: None,
        email: None,
        password: None,
        new_password: None,
        auth_token: s(TOKEN),
    };
    let r = post_user(req, &mut users, &mut cookies, &s(TOKEN)).unwrap();
    assert_eq!(resp_nickname(&r), s("bob"));
    let after = User::get(&users, &nid).unwrap();
    assert!(before.same(&after));
    assert_eq!(users.len(), 1);
}

#[test]
fn malformed_stored_hash_refused() {
    let mut users: Tree<User> = Tree::new();
    let mut cookies: Tree<SessionCookie> = Tree::new();
    let bad = format!("$2b$10${}{}", '\u{80}', "a".repeat(52));
    assert!(register_user(s("x"), s("x@x"), bad, s("id1"), &mut users).is_ok());
    let r = post_user(login("x@x", "pw"), &mut users, &mut cookies, &s(TOKEN));
    assert_eq!(r.err(), Some(CrudError::ForbiddenError));
    assert_eq!(cookies.len(), 0);
    cookies.put(s("user"), SessionCookie::received(s("id1")));
    let r = post_user(update(Some("y@x"), Some("pw"), None, TOKEN), &mut users, &mut cookies, &s(TOKEN));
    assert_eq!(r.err(), Some(CrudError::ForbiddenError));
    let low = format!("$2b$10${}{}", '\u{1}', "a".repeat(52));
    let u = User { nid: s("id2"), nickname: s("y"), name: None, surname: None, email: s("y@x"), password: low };
    assert!(u.new(&mut users, &s("id2")).is_ok());
    let r = post_user(login("y@x", "pw"), &mut users, &mut cookies, &s(TOKEN));
    assert_eq!(r.err(), Some(CrudError::ForbiddenError));
}

#[test]
fn printable_check() {
    assert!(rocket_crud::password::is_printable_ascii(&s("$2b$10$abc ~")));
    assert!(!rocket_crud::password::is_printable_ascii(&format!("a{}", '\u{80}')));
    assert!(!rocket_crud::password::is_printable_ascii(&s("a\tb")));
}
