use rocket_crud::crud::tree::{Tree, Write};
use rocket_crud::crud::session::{SameSite, SessionCookie};
use rocket_crud::crud::{Crud, CrudError};
use rocket_crud::users::auths::{Auth, Authorizations};
use rocket_crud::users::users::User;

fn s(x: &str) -> String {
    x.to_string()
}

fn user(nid: &str, email: &str) -> User {
    User {
        nid: s(nid),
        nickname: s("nick"),
        name: None,
        surname: Some(s("Doe")),
        email: s(email),
        password: s("hash"),
    }
}

fn keys<V: vstd::prelude::View>(t: &Tree<V>) -> Vec<String> {
    (0..t.len()).map(|i| t.key_at(i).clone()).collect()
}

#[test]
fn tree_put_then_get() {
    let mut t: Tree<String> = Tree::new();
    t.put(s("a"), s("1"));
    t.put(s("b"), s("2"));
    assert_eq!(t.get(&s("a")), Some(&s("1")));
    assert_eq!(t.get(&s("b")), Some(&s("2")));
    assert_eq!(t.get(&s("c")), None);
    t.put(s("a"), s("3"));
    assert_eq!(t.get(&s("a")), Some(&s("3")));
    assert_eq!(keys(&t), vec![s("a"), s("b")]);
    assert_eq!(t.len(), 2);
}

#[test]
fn tree_remove_then_get() {
    let mut t: Tree<String> = Tree::new();
    t.put(s("a"), s("1"));
    t.put(s("b"), s("2"));
    t.remove(&s("a"));
    assert!(!t.contains_key(&s("a")));
    assert!(t.contains_key(&s("b")));
    t.remove(&s("zzz"));
    assert_eq!(t.len(), 1);
    assert_eq!(t.writes().len(), 4);
}

#[test]
fn tree_restore_rejects_duplicate_keys() {
    assert!(Tree::restore(vec![(s("a"), s("1")), (s("a"), s("2"))]).is_none());
    assert!(Tree::restore(vec![(s("b"), s("1")), (s("a"), s("2"))]).is_none());
    let t = Tree::restore(vec![(s("a"), s("1")), (s("b"), s("2"))]).unwrap();
    assert_eq!(t.len(), 2);
    assert!(t.writes().is_empty());
    assert_eq!(t.value_at(1), &s("2"));
}

#[test]
fn tree_writes_replay_to_state() {
    let mut t = Tree::restore(vec![(s("a"), s("1")), (s("b"), s("2"))]).unwrap();
    t.put(s("c"), s("3"));
    t.remove(&s("a"));
    t.put(s("b"), s("4"));
    t.put(s("aa"), s("5"));
    // Replaying the writes on the loaded entries, the way a sorted store
    // applies them, gives the present entries.
    let mut store: std::collections::BTreeMap<String, String> =
        vec![(s("a"), s("1")), (s("b"), s("2"))].into_iter().collect();
    for w in t.writes() {
        match w {
            Write::Create(k, v) => {
                store.entry(k.clone()).or_insert(v.clone());
            }
            Write::Put(k, v) => {
                store.insert(k.clone(), v.clone());
            }
            Write::Remove(k) => {
                store.remove(k);
            }
            Write::RemoveIf(k, v) => {
                if store.get(k) == Some(v) {
                    store.remove(k);
                }
            }
        }
    }
    let replayed: Vec<(String, String)> = store.into_iter().collect();
    let present: Vec<(String, String)> =
        (0..t.len()).map(|i| (t.key_at(i).clone(), t.value_at(i).clone())).collect();
    assert_eq!(replayed, present);
    assert_eq!(present, vec![(s("aa"), s("5")), (s("b"), s("4")), (s("c"), s("3"))]);
}

#[test]
fn crud_new_then_get() {
    let mut t: Tree<User> = Tree::new();
    let r = user("n1", "a@x").new(&mut t, &s("n1"));
    assert_eq!(r.unwrap().email, s("a@x"));
    let g = User::get(&t, &s("n1")).unwrap();
    assert_eq!(g.nid, s("n1"));
    assert_eq!(g.surname, Some(s("Doe")));
    assert!(User::key_exists(&t, &s("n1")));
    assert!(!User::key_exists(&t, &s("n2")));
}

#[test]
fn crud_new_twice_refused() {
    let mut t: Tree<User> = Tree::new();
    assert!(user("n1", "a@x").new(&mut t, &s("n1")).is_ok());
    let r = user("n1", "b@x").new(&mut t, &s("n1"));
    assert_eq!(r.err(), Some(CrudError::ExistsError));
    assert_eq!(User::get(&t, &s("n1")).unwrap().email, s("a@x"));
    assert_eq!(t.writes().len(), 1);
}

#[test]
fn crud_get_missing() {
    let t: Tree<User> = Tree::new();
    assert_eq!(User::get(&t, &s("n1")).err(), Some(CrudError::NotFoundError));
}

#[test]
fn crud_update() {
    let mut t: Tree<User> = Tree::new();
    let r = user("n1", "b@x").update(&mut t, &s("n1"));
    assert_eq!(r.err(), Some(CrudError::NotFoundError));
    assert_eq!(t.len(), 0);
    assert!(user("n1", "a@x").new(&mut t, &s("n1")).is_ok());
    match &t.writes()[0] {
        Write::Create(k, _) => assert_eq!(k, &s("n1")),
        _ => panic!("a creation is recorded as one"),
    }
    assert!(user("n1", "b@x").update(&mut t, &s("n1")).is_ok());
    assert_eq!(User::get(&t, &s("n1")).unwrap().email, s("b@x"));
    assert_eq!(t.len(), 1);
}

#[test]
fn crud_delete() {
    let mut t: Tree<User> = Tree::new();
    assert_eq!(user("n1", "a@x").delete(&mut t, &s("n1")).err(), Some(CrudError::NotFoundError));
    assert!(user("n1", "a@x").new(&mut t, &s("n1")).is_ok());
    // A record other than the stored one leaves the entry in place.
    assert!(user("n1", "other@x").delete(&mut t, &s("n1")).is_ok());
    assert!(User::key_exists(&t, &s("n1")));
    // The stored record removes it.
    assert!(user("n1", "a@x").delete(&mut t, &s("n1")).is_ok());
    assert_eq!(User::get(&t, &s("n1")).err(), Some(CrudError::NotFoundError));
    match t.writes().last().unwrap() {
        Write::RemoveIf(k, v) => {
            assert_eq!(k, &s("n1"));
            assert_eq!(v.email, s("a@x"));
        }
        _ => panic!("a deletion is recorded as a conditional removal"),
    }
}

#[test]
fn crud_obj_iter_in_order() {
    let mut t: Tree<User> = Tree::new();
    assert!(user("k2", "b@x").new(&mut t, &s("k2")).is_ok());
    assert!(user("k1", "a@x").new(&mut t, &s("k1")).is_ok());
    let all = User::obj_iter(&t).unwrap();
    let pairs: Vec<(String, String)> = all.iter().map(|(k, u)| (k.clone(), u.email.clone())).collect();
    assert_eq!(pairs, vec![(s("k1"), s("a@x")), (s("k2"), s("b@x"))]);
}

#[test]
fn crud_add_private() {
    let mut t: Tree<User> = Tree::new();
    let mut cookies: Tree<SessionCookie> = Tree::new();
    let r = User::add_private(&t, &mut cookies, &s("user"), &s("n1"), s("n1"));
    assert_eq!(r.err(), Some(CrudError::NotFoundError));
    assert_eq!(cookies.len(), 0);
    assert!(user("n1", "a@x").new(&mut t, &s("n1")).is_ok());
    let r = User::add_private(&t, &mut cookies, &s("user"), &s("n1"), s("n1"));
    assert_eq!(r.unwrap().email, s("a@x"));
    let c = cookies.get(&s("user")).unwrap();
    assert_eq!(c.value, s("n1"));
    assert!(c.secure && c.http_only);
    assert_eq!(c.same_site, SameSite::Lax);
}

#[test]
fn crud_on_grants() {
    let mut t: Tree<Auth> = Tree::new();
    let a = Auth::AssetAuth {
        tree: s("group"),
        asset_nid: s("g1"),
        auths: Authorizations { create: false, read: true, update: false, delete: false },
    };
    let b = Auth::TypeAuth {
        user_nids: vec![s("u1")],
        group_nids: vec![],
        tree: s("group"),
        auths: Authorizations { create: true, read: true, update: true, delete: true },
    };
    assert!(a.new(&mut t, &s("a1")).is_ok());
    assert!(b.same(&b.duplicate_for_test()));
    assert!(b.new(&mut t, &s("a2")).is_ok());
    match Auth::get(&t, &s("a2")).unwrap() {
        Auth::TypeAuth { user_nids, auths, .. } => {
            assert_eq!(user_nids, vec![s("u1")]);
            assert!(auths.delete);
        }
        _ => panic!("wrong variant"),
    }
}

trait DupForTest {
    fn duplicate_for_test(&self) -> Self;
}

impl DupForTest for Auth {
    fn duplicate_for_test(&self) -> Self {
        rocket_crud::crud::tree::Duplicate::duplicate(self)
    }
}

#[test]
fn crud_update_same_value_keeps_tree() {
    let mut t: Tree<User> = Tree::new();
    assert!(user("n1", "a@x").new(&mut t, &s("n1")).is_ok());
    assert!(user("n2", "b@x").new(&mut t, &s("n2")).is_ok());
    let stored = User::get(&t, &s("n1")).unwrap();
    assert!(stored.update(&mut t, &s("n1")).is_ok());
    assert_eq!(keys(&t), vec![s("n1"), s("n2")]);
    assert!(User::get(&t, &s("n1")).unwrap().same(&user("n1", "a@x")));
}
