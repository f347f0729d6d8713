use rocket_crud::crud::tree::Tree;
use rocket_crud::crud::session::SessionCookie;
use rocket_crud::crud::{Crud, CrudError};
use rocket_crud::users::groups::{
    Group, Groups, create_group, get_group, get_groups, post_group,
};

fn s(x: &str) -> String {
    x.to_string()
}

fn session(user: &str) -> Tree<SessionCookie> {
    let mut c: Tree<SessionCookie> = Tree::new();
    c.put(s("user"), SessionCookie::received(s(user)));
    c
}

fn members(r: &Groups) -> Vec<String> {
    match r {
        Groups::GroupResp { members, .. } => members.clone(),
        _ => panic!("not a public form"),
    }
}

#[test]
fn create_group_needs_session() {
    let mut groups: Tree<Group> = Tree::new();
    let cookies: Tree<SessionCookie> = Tree::new();
    let req = Groups::GroupCreate { name: s("g"), description: None };
    assert_eq!(post_group(req, &mut groups, &cookies).err(), Some(CrudError::ForbiddenError));
    assert_eq!(groups.len(), 0);
}

#[test]
fn create_group_owner_is_member() {
    let mut groups: Tree<Group> = Tree::new();
    let cookies = session("u1");
    let req = Groups::GroupCreate { name: s("g"), description: Some(s("d")) };
    let r = post_group(req, &mut groups, &cookies).unwrap();
    assert_eq!(members(&r), vec![s("u1")]);
    let g = groups.value_at(0);
    assert_eq!(g.user_nid, s("u1"));
    assert_eq!(g.nid.len(), 21);
    assert_eq!(groups.key_at(0), &g.nid);
    assert!(g.is_member(s("u1")));
    assert!(!g.is_member(s("u2")));
}

#[test]
fn create_group_exact() {
    let mut groups: Tree<Group> = Tree::new();
    let cookies = session("u1");
    let r = create_group(s("g"), None, s("g1"), &mut groups, &cookies).unwrap();
    match r {
        Groups::GroupResp { name, description, members } => {
            assert_eq!(name, s("g"));
            assert_eq!(description, None);
            assert_eq!(members, vec![s("u1")]);
        }
        _ => panic!("wrong answer"),
    }
    let r = create_group(s("h"), None, s("g1"), &mut groups, &cookies);
    assert_eq!(r.err(), Some(CrudError::ExistsError));
    let r = get_group(s("g1"), &groups).unwrap();
    assert_eq!(members(&r), vec![s("u1")]);
    assert_eq!(get_group(s("g2"), &groups).err(), Some(CrudError::NotFoundError));
}

#[test]
fn add_user_cases() {
    let mut groups: Tree<Group> = Tree::new();
    let cookies = session("u1");
    assert!(create_group(s("g"), None, s("g1"), &mut groups, &cookies).is_ok());
    // Unknown group.
    let req = Groups::AddUser { group_nid: s("nope"), user_nid: s("u2") };
    assert_eq!(post_group(req, &mut groups, &cookies).err(), Some(CrudError::NotFoundError));
    // Already a member.
    let req = Groups::AddUser { group_nid: s("g1"), user_nid: s("u1") };
    assert_eq!(post_group(req, &mut groups, &cookies).err(), Some(CrudError::ExistsError));
    // The group is written back under the new member's id, which is no key.
    let req = Groups::AddUser { group_nid: s("g1"), user_nid: s("u2") };
    assert_eq!(post_group(req, &mut groups, &cookies).err(), Some(CrudError::NotFoundError));
    // Where the new member's id is a key, the group is written there.
    assert!(create_group(s("other"), None, s("u2"), &mut groups, &cookies).is_ok());
    let req = Groups::AddUser { group_nid: s("g1"), user_nid: s("u2") };
    let r = post_group(req, &mut groups, &cookies).unwrap();
    assert_eq!(members(&r), vec![s("u1"), s("u2")]);
    let written = Group::get(&groups, &s("u2")).unwrap();
    assert_eq!(written.name, s("g"));
    assert_eq!(written.nid, s("g1"));
    assert_eq!(Group::get(&groups, &s("g1")).unwrap().members, vec![s("u1")]);
}

#[test]
fn other_group_requests_not_found() {
    let mut groups: Tree<Group> = Tree::new();
    let cookies = session("u1");
    assert_eq!(
        post_group(Groups::GroupDelete, &mut groups, &cookies).err(),
        Some(CrudError::NotFoundError)
    );
    let req = Groups::GroupResp { name: s("g"), description: None, members: vec![] };
    assert_eq!(post_group(req, &mut groups, &cookies).err(), Some(CrudError::NotFoundError));
}

#[test]
fn list_groups_in_order() {
    let mut groups: Tree<Group> = Tree::new();
    let cookies = session("u1");
    assert!(create_group(s("b"), None, s("k2"), &mut groups, &cookies).is_ok());
    assert!(create_group(s("a"), None, s("k1"), &mut groups, &cookies).is_ok());
    let all = get_groups(&groups).unwrap();
    let names: Vec<String> = all
        .iter()
        .map(|g| match g {
            Groups::GroupResp { name, .. } => name.clone(),
            _ => panic!("not a public form"),
        })
        .collect();
    assert_eq!(names, vec![s("a"), s("b")]);
    assert_eq!(Group::get_all(&groups).unwrap().len(), 2);
}
