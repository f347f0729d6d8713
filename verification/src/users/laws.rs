use vstd::prelude::*;
use crate::crud::session::{SessionCookieView, private_cookie};
use crate::crud::CrudError;
use crate::crud::keys::key_lt;
use crate::crud::tree::{
    has_key, ins_pos, key_pos, lemma_ins_pos_range, lemma_put, lemma_put_preserves, lemma_remove,
    lookup, seq_put, sorted_keys,
};
use crate::password::{bcrypt_verifies, lemma_bcrypt_shape_printable};
use super::user_cookie;
use super::users::{
    UserView, UsersView, create_spec, draws_ok, find_by_email, new_user_view, post_user_spec,
    resp_view, token_spec,
};
use super::groups::{GroupView, GroupsView, post_group_spec, with_member};

verus! {

/// Every user of `s` has an email no other user of `s` has.
pub open spec fn unique_emails(s: Seq<(Seq<char>, UserView)>) -> bool {
    forall|i: int, j: int|
        #![trigger s[i], s[j]]
        0 <= i < s.len() && 0 <= j < s.len() && i != j ==> s[i].1.email != s[j].1.email
}

/// Where only the user at `i` has email `e`, looking `e` up finds it.
pub proof fn lemma_find_by_email_only(s: Seq<(Seq<char>, UserView)>, i: int, e: Seq<char>)
    requires
        0 <= i < s.len(),
        s[i].1.email == e,
        forall|j: int| 0 <= j < i ==> #[trigger] s[j].1.email != e,
    ensures
        find_by_email(s, e) == Some(s[i].1),
    decreases i,
{
    if i > 0 {
        let t = s.drop_first();
        assert(s[0].1.email != e);
        assert forall|j: int| 0 <= j < i - 1 implies #[trigger] t[j].1.email != e by {
            assert(t[j] == s[j + 1]);
        }
        lemma_find_by_email_only(t, i - 1, e);
    }
}

/// Looking up by email finds the user with the least key among those with
/// that email, the keys being ascending.
pub proof fn lemma_find_by_email_least_key(s: Seq<(Seq<char>, UserView)>, e: Seq<char>)
    requires
        sorted_keys(s),
        find_by_email(s, e) is Some,
    ensures
        exists|i: int|
            #![trigger s[i]]
            0 <= i < s.len() && s[i].1 == find_by_email(s, e)->0 && s[i].1.email == e && forall|
                j: int,
            | 0 <= j < s.len() && s[j].1.email == e ==> !key_lt(s[j].0, s[i].0),
    decreases s.len(),
{
    if s[0].1.email == e {
        assert forall|j: int| 0 <= j < s.len() && s[j].1.email == e implies !key_lt(
            s[j].0,
            s[0].0,
        ) by {
            if j > 0 {
                assert(key_lt(s[0].0, s[j].0));
                crate::crud::keys::lemma_key_lt_asymmetric(s[0].0, s[j].0);
            } else {
                crate::crud::keys::lemma_key_lt_irreflexive(s[0].0);
            }
        }
        assert(s[0].1 == find_by_email(s, e)->0);
    } else {
        let t = s.drop_first();
        assert forall|a: int, b: int| #![trigger t[a], t[b]] 0 <= a < b < t.len() implies key_lt(
            t[a].0,
            t[b].0,
        ) by {
            assert(t[a] == s[a + 1] && t[b] == s[b + 1]);
        }
        lemma_find_by_email_least_key(t, e);
        let i = choose|i: int|
            #![trigger t[i]]
            0 <= i < t.len() && t[i].1 == find_by_email(t, e)->0 && t[i].1.email == e && forall|
                j: int,
            | 0 <= j < t.len() && t[j].1.email == e ==> !key_lt(t[j].0, t[i].0);
        assert(s[i + 1] == t[i]);
        assert forall|j: int| 0 <= j < s.len() && s[j].1.email == e implies !key_lt(
            s[j].0,
            s[i + 1].0,
        ) by {
            assert(j > 0);
            assert(s[j] == t[j - 1]);
        }
    }
}

/// The key of every user is its id.
pub open spec fn ids_match(s: Seq<(Seq<char>, UserView)>) -> bool {
    forall|i: int| 0 <= i < s.len() ==> (#[trigger] s[i]).1.nid == s[i].0
}

/// Where no user has email `e`, looking it up finds nothing.
pub proof fn lemma_find_by_email_none(s: Seq<(Seq<char>, UserView)>, e: Seq<char>)
    requires
        find_by_email(s, e) is None,
    ensures
        forall|i: int| 0 <= i < s.len() ==> #[trigger] s[i].1.email != e,
    decreases s.len(),
{
    if s.len() > 0 {
        lemma_find_by_email_none(s.drop_first(), e);
        assert forall|i: int| 0 <= i < s.len() implies #[trigger] s[i].1.email != e by {
            if i > 0 {
                assert(s[i] == s.drop_first()[i - 1]);
            }
        }
    }
}

/// Sign-up refuses an email some user already has, and changes nothing.
pub proof fn lemma_signup_taken_email(
    users: Seq<(Seq<char>, UserView)>,
    cookies: Seq<(Seq<char>, SessionCookieView)>,
    csrf: Seq<char>,
    nickname: Seq<char>,
    email: Seq<char>,
    password: Seq<char>,
    nid: Seq<char>,
    hashed: Seq<char>,
)
    requires
        exists|i: int| 0 <= i < users.len() && #[trigger] users[i].1.email == email,
    ensures
        post_user_spec(
            UsersView::UserCreate { nickname, email, password },
            users,
            cookies,
            csrf,
            nid,
            hashed,
        ) == (Err::<UsersView, CrudError>(CrudError::ExistsError), users, cookies),
{
    if find_by_email(users, email) is None {
        lemma_find_by_email_none(users, email);
    }
}

/// A successful sign-up keeps emails unique.
pub proof fn lemma_signup_keeps_emails_unique(
    users: Seq<(Seq<char>, UserView)>,
    nickname: Seq<char>,
    email: Seq<char>,
    hashed: Seq<char>,
    nid: Seq<char>,
)
    requires
        unique_emails(users),
        create_spec(users, nickname, email, hashed, nid).0 is Ok,
    ensures
        unique_emails(create_spec(users, nickname, email, hashed, nid).1),
{
    lemma_find_by_email_none(users, email);
    let x = (nid, new_user_view(nid, nickname, email, hashed));
    let t = create_spec(users, nickname, email, hashed, nid).1;
    assert(!has_key(users, nid));
    let p = ins_pos(users, nid);
    lemma_ins_pos_range(users, nid);
    users.insert_ensures(p, x);
    assert(t == users.insert(p, x));
    assert forall|i: int| 0 <= i < t.len() implies #[trigger] t[i] == (if i < p {
        users[i]
    } else if i == p {
        x
    } else {
        users[i - 1]
    }) by {
        if i > p {
            assert(t[(i - 1) + 1] == users[i - 1]);
        }
    }
    assert forall|i: int, j: int|
        #![trigger t[i], t[j]]
        0 <= i < t.len() && 0 <= j < t.len() && i != j implies t[i].1.email != t[j].1.email by {
        let si = if i < p { i } else { i - 1 };
        let sj = if j < p { j } else { j - 1 };
        if i != p && j != p {
            assert(users[si] == t[i] && users[sj] == t[j]);
        } else if i == p {
            assert(users[sj] == t[j]);
        } else {
            assert(users[si] == t[i]);
        }
    }
}

/// After a successful sign-up, signing in with the same email and password
/// succeeds: it answers with the new user's public form and the session
/// cookie then holds the new user's id.
pub proof fn lemma_signup_then_login(
    users: Seq<(Seq<char>, UserView)>,
    cookies: Seq<(Seq<char>, SessionCookieView)>,
    csrf: Seq<char>,
    nickname: Seq<char>,
    email: Seq<char>,
    password: Seq<char>,
    nid: Seq<char>,
    hashed: Seq<char>,
    nid2: Seq<char>,
    hashed2: Seq<char>,
)
    requires
        sorted_keys(users),
        sorted_keys(cookies),
        draws_ok(
            UsersView::UserCreate { nickname, email, password },
            users,
            cookies,
            csrf,
            nid,
            hashed,
        ),
        post_user_spec(
            UsersView::UserCreate { nickname, email, password },
            users,
            cookies,
            csrf,
            nid,
            hashed,
        ).0 is Ok,
    ensures
        ({
            let (_, users1, cookies1) = post_user_spec(
                UsersView::UserCreate { nickname, email, password },
                users,
                cookies,
                csrf,
                nid,
                hashed,
            );
            let (r, users2, cookies2) = post_user_spec(
                UsersView::UserLogin { email, password },
                users1,
                cookies1,
                csrf,
                nid2,
                hashed2,
            );
            &&& r == Ok::<UsersView, CrudError>(
                resp_view(new_user_view(nid, nickname, email, hashed)),
            )
            &&& users2 == users1
            &&& has_key(cookies2, user_cookie())
            &&& lookup(cookies2, user_cookie()).value == nid
        }),
{
    let u = new_user_view(nid, nickname, email, hashed);
    assert(find_by_email(users, email) is None);
    assert(!has_key(users, nid));
    lemma_find_by_email_none(users, email);
    let users1 = seq_put(users, nid, u);
    let p = ins_pos(users, nid);
    lemma_ins_pos_range(users, nid);
    users.insert_ensures(p, (nid, u));
    assert forall|j: int| 0 <= j < p implies #[trigger] users1[j].1.email != email by {
        assert(users1[j] == users[j]);
    }
    lemma_find_by_email_only(users1, p, email);
    lemma_put(users, nid, u);
    lemma_bcrypt_shape_printable(hashed);
    lemma_put(cookies, user_cookie(), private_cookie(nid));
}

/// While the session cookie names a stored user, the token handed out is the
/// session's anti-forgery token.
pub proof fn lemma_session_gets_token(
    users: Seq<(Seq<char>, UserView)>,
    cookies: Seq<(Seq<char>, SessionCookieView)>,
    csrf: Seq<char>,
)
    requires
        has_key(cookies, user_cookie()),
        has_key(users, lookup(cookies, user_cookie()).value),
    ensures
        token_spec(users, cookies, csrf) == csrf,
{
}

/// After a successful sign-in the token handed out is the session's
/// anti-forgery token.
pub proof fn lemma_login_then_token(
    users: Seq<(Seq<char>, UserView)>,
    cookies: Seq<(Seq<char>, SessionCookieView)>,
    csrf: Seq<char>,
    email: Seq<char>,
    password: Seq<char>,
    nid: Seq<char>,
    hashed: Seq<char>,
)
    requires
        sorted_keys(cookies),
        post_user_spec(UsersView::UserLogin { email, password }, users, cookies, csrf, nid, hashed).0 is Ok,
    ensures
        ({
            let (_, users1, cookies1) = post_user_spec(
                UsersView::UserLogin { email, password },
                users,
                cookies,
                csrf,
                nid,
                hashed,
            );
            token_spec(users1, cookies1, csrf) == csrf
        }),
{
    let udb = find_by_email(users, email)->0;
    lemma_put(cookies, user_cookie(), private_cookie(udb.nid));
}

/// After a successful sign-out there is no session: the token handed out is
/// `"a"`, and a profile change is refused with `ForbiddenError`.
pub proof fn lemma_logout_ends_session(
    users: Seq<(Seq<char>, UserView)>,
    cookies: Seq<(Seq<char>, SessionCookieView)>,
    csrf: Seq<char>,
    token: Seq<char>,
    nid: Seq<char>,
    hashed: Seq<char>,
    nickname: Option<Seq<char>>,
    name: Option<Seq<char>>,
    surname: Option<Seq<char>>,
    email: Option<Seq<char>>,
    password: Option<Seq<char>>,
    new_password: Option<Seq<char>>,
)
    requires
        sorted_keys(cookies),
        post_user_spec(UsersView::UserLogout(token), users, cookies, csrf, nid, hashed).0 is Ok,
    ensures
        ({
            let (_, users1, cookies1) = post_user_spec(
                UsersView::UserLogout(token),
                users,
                cookies,
                csrf,
                nid,
                hashed,
            );
            &&& users1 == users
            &&& !has_key(cookies1, user_cookie())
            &&& token_spec(users1, cookies1, csrf) == "a"@
            &&& post_user_spec(
                UsersView::UserUpdate {
                    nickname,
                    name,
                    surname,
                    email,
                    password,
                    new_password,
                    auth_token: csrf,
                },
                users1,
                cookies1,
                csrf,
                nid,
                hashed,
            ) == (Err::<UsersView, CrudError>(CrudError::ForbiddenError), users1, cookies1)
        }),
{
    lemma_remove(cookies, user_cookie());
}

/// A refused request on users changes neither the user tree nor the cookies.
pub proof fn lemma_refused_user_request_changes_nothing(
    req: UsersView,
    users: Seq<(Seq<char>, UserView)>,
    cookies: Seq<(Seq<char>, SessionCookieView)>,
    csrf: Seq<char>,
    nid: Seq<char>,
    hashed: Seq<char>,
)
    requires
        post_user_spec(req, users, cookies, csrf, nid, hashed).0 is Err,
    ensures
        post_user_spec(req, users, cookies, csrf, nid, hashed).1 == users,
        post_user_spec(req, users, cookies, csrf, nid, hashed).2 == cookies,
{
}

/// A refused request on groups leaves the group tree as it was.
pub proof fn lemma_refused_group_request_changes_nothing(
    req: GroupsView,
    groups: Seq<(Seq<char>, GroupView)>,
    cookies: Seq<(Seq<char>, SessionCookieView)>,
    nid: Seq<char>,
)
    requires
        post_group_spec(req, groups, cookies, nid).0 is Err,
    ensures
        post_group_spec(req, groups, cookies, nid).1 == groups,
{
}

/// A profile change that sets no field, made by a signed-in user stored
/// under its own id, keeps the user tree as it was and answers with the
/// user's public form.
pub proof fn lemma_empty_profile_change(
    users: Seq<(Seq<char>, UserView)>,
    cookies: Seq<(Seq<char>, SessionCookieView)>,
    csrf: Seq<char>,
    password: Option<Seq<char>>,
    nid: Seq<char>,
    hashed: Seq<char>,
)
    requires
        has_key(cookies, user_cookie()),
        has_key(users, lookup(cookies, user_cookie()).value),
        lookup(users, lookup(cookies, user_cookie()).value).nid == lookup(cookies, user_cookie()).value,
    ensures
        post_user_spec(
            UsersView::UserUpdate {
                nickname: None,
                name: None,
                surname: None,
                email: None,
                password,
                new_password: None,
                auth_token: csrf,
            },
            users,
            cookies,
            csrf,
            nid,
            hashed,
        ) == (
            Ok::<UsersView, CrudError>(resp_view(lookup(users, lookup(cookies, user_cookie()).value))),
            users,
            cookies,
        ),
{
    let k = lookup(cookies, user_cookie()).value;
    let udb = lookup(users, k);
    let p = key_pos(users, k);
    assert(users[p].0 == k);
    let u = UserView {
        nid: udb.nid,
        nickname: udb.nickname,
        name: udb.name,
        surname: udb.surname,
        email: udb.email,
        password: udb.password,
    };
    assert(u == udb);
    crate::crud::lemma_update_same(users, k);
}

/// After a successful profile change that sets a new password `w`, the user
/// stored under the changed id holds a hash that bcrypt accepts for `w`.
pub proof fn lemma_new_password_takes(
    users: Seq<(Seq<char>, UserView)>,
    cookies: Seq<(Seq<char>, SessionCookieView)>,
    csrf: Seq<char>,
    nickname: Option<Seq<char>>,
    name: Option<Seq<char>>,
    surname: Option<Seq<char>>,
    email: Option<Seq<char>>,
    password: Option<Seq<char>>,
    w: Seq<char>,
    auth_token: Seq<char>,
    nid: Seq<char>,
    hashed: Seq<char>,
)
    requires
        sorted_keys(users),
        draws_ok(
            UsersView::UserUpdate {
                nickname,
                name,
                surname,
                email,
                password,
                new_password: Some(w),
                auth_token,
            },
            users,
            cookies,
            csrf,
            nid,
            hashed,
        ),
        post_user_spec(
            UsersView::UserUpdate {
                nickname,
                name,
                surname,
                email,
                password,
                new_password: Some(w),
                auth_token,
            },
            users,
            cookies,
            csrf,
            nid,
            hashed,
        ).0 is Ok,
    ensures
        ({
            let udb = lookup(users, lookup(cookies, user_cookie()).value);
            let users1 = post_user_spec(
                UsersView::UserUpdate {
                    nickname,
                    name,
                    surname,
                    email,
                    password,
                    new_password: Some(w),
                    auth_token,
                },
                users,
                cookies,
                csrf,
                nid,
                hashed,
            ).1;
            &&& has_key(users1, udb.nid)
            &&& bcrypt_verifies(w, lookup(users1, udb.nid).password)
        }),
{
    let udb = lookup(users, lookup(cookies, user_cookie()).value);
    let u = UserView {
        nid: udb.nid,
        nickname: crate::users::users::or_else(nickname, udb.nickname),
        name: crate::users::users::or_opt(name, udb.name),
        surname: crate::users::users::or_opt(surname, udb.surname),
        email: crate::users::users::or_else(email, udb.email),
        password: hashed,
    };
    lemma_put(users, udb.nid, u);
}

/// A successful group creation stores, under the drawn id, a group owned by
/// the signed-in user whose only member is that user.
pub proof fn lemma_create_group_owner(
    groups: Seq<(Seq<char>, GroupView)>,
    cookies: Seq<(Seq<char>, SessionCookieView)>,
    name: Seq<char>,
    description: Option<Seq<char>>,
    nid: Seq<char>,
)
    requires
        sorted_keys(groups),
        post_group_spec(GroupsView::GroupCreate { name, description }, groups, cookies, nid).0 is Ok,
    ensures
        ({
            let groups1 = post_group_spec(
                GroupsView::GroupCreate { name, description },
                groups,
                cookies,
                nid,
            ).1;
            let owner = lookup(cookies, user_cookie()).value;
            &&& has_key(groups1, nid)
            &&& lookup(groups1, nid).user_nid == owner
            &&& lookup(groups1, nid).members == seq![owner]
            &&& lookup(groups1, nid).members.contains(owner)
        }),
{
    let owner = lookup(cookies, user_cookie()).value;
    let g = GroupView { nid, user_nid: owner, members: seq![owner], name, description };
    assert(!has_key(groups, nid));
    lemma_put(groups, nid, g);
    assert(g.members[0] == owner);
}

/// A successful member addition writes, under the new member's id, the group
/// read from `group_nid` with the new member appended to its members.
pub proof fn lemma_add_user_appends(
    groups: Seq<(Seq<char>, GroupView)>,
    cookies: Seq<(Seq<char>, SessionCookieView)>,
    group_nid: Seq<char>,
    user_nid: Seq<char>,
    nid: Seq<char>,
)
    requires
        sorted_keys(groups),
        post_group_spec(GroupsView::AddUser { group_nid, user_nid }, groups, cookies, nid).0 is Ok,
    ensures
        ({
            let groups1 = post_group_spec(
                GroupsView::AddUser { group_nid, user_nid },
                groups,
                cookies,
                nid,
            ).1;
            let g = lookup(groups, group_nid);
            &&& !g.members.contains(user_nid)
            &&& has_key(groups1, user_nid)
            &&& lookup(groups1, user_nid) == with_member(g, user_nid)
            &&& lookup(groups1, user_nid).members.contains(user_nid)
        }),
{
    let g = lookup(groups, group_nid);
    lemma_put(groups, user_nid, with_member(g, user_nid));
    assert(with_member(g, user_nid).members[g.members.len() as int] == user_nid);
}

/// Every request on users keeps each user stored under its own id; a
/// sign-up also keeps emails unique.
pub proof fn lemma_post_user_keeps_ids_and_emails(
    req: UsersView,
    users: Seq<(Seq<char>, UserView)>,
    cookies: Seq<(Seq<char>, SessionCookieView)>,
    csrf: Seq<char>,
    nid: Seq<char>,
    hashed: Seq<char>,
)
    requires
        ids_match(users),
    ensures
        ids_match(post_user_spec(req, users, cookies, csrf, nid, hashed).1),
        req is UserCreate && unique_emails(users) ==> unique_emails(
            post_user_spec(req, users, cookies, csrf, nid, hashed).1,
        ),
{
    let t = post_user_spec(req, users, cookies, csrf, nid, hashed).1;
    let pred = |e: (Seq<char>, UserView)| e.1.nid == e.0;
    assert forall|i: int| 0 <= i < users.len() implies pred(#[trigger] users[i]) by {}
    match req {
        UsersView::UserCreate { nickname, email, password } => {
            if create_spec(users, nickname, email, hashed, nid).0 is Ok {
                let u = new_user_view(nid, nickname, email, hashed);
                lemma_put_preserves(users, nid, u, pred);
                if unique_emails(users) {
                    lemma_signup_keeps_emails_unique(users, nickname, email, hashed, nid);
                }
            }
        },
        UsersView::UserUpdate {
            nickname,
            name,
            surname,
            email,
            password,
            new_password,
            auth_token,
        } => {
            if t != users {
                let udb = lookup(users, lookup(cookies, user_cookie()).value);
                let u = UserView {
                    nid: udb.nid,
                    nickname: crate::users::users::or_else(nickname, udb.nickname),
                    name: crate::users::users::or_opt(name, udb.name),
                    surname: crate::users::users::or_opt(surname, udb.surname),
                    email: crate::users::users::or_else(email, udb.email),
                    password: if new_password is Some {
                        hashed
                    } else {
                        udb.password
                    },
                };
                lemma_put_preserves(users, udb.nid, u, pred);
            }
        },
        _ => {},
    }
    assert forall|i: int| 0 <= i < t.len() implies (#[trigger] t[i]).1.nid == t[i].0 by {
        assert(pred(t[i]));
    }
}

} // verus!
