use vstd::prelude::*;
use crate::crud::session::{SameSite, SessionCookieView};
use crate::crud::keys::key_lt;
use crate::password::{bcrypt_verifies, printable_ascii};
use crate::crud::{CrudError, get_spec};
use crate::crud::tree::{has_key, lemma_put, lemma_remove, lookup, sorted_keys};
use super::user_cookie;
use super::users::{
    UserView, UsersView, find_by_email, get_user_spec, post_user_spec, token_spec,
};
use super::groups::{GroupView, GroupsView, group_resp_result, post_group_spec};

verus! {

/// Where no user has email `e`, looking `e` up finds nothing.
pub proof fn lemma_find_by_email_absent(s: Seq<(Seq<char>, UserView)>, e: Seq<char>)
    requires
        forall|i: int| 0 <= i < s.len() ==> #[trigger] s[i].1.email != e,
    ensures
        find_by_email(s, e) is None,
    decreases s.len(),
{
    if s.len() > 0 {
        let t = s.drop_first();
        assert(s[0].1.email != e);
        assert forall|i: int| 0 <= i < t.len() implies #[trigger] t[i].1.email != e by {
            assert(t[i] == s[i + 1]);
        }
        lemma_find_by_email_absent(t, e);
    }
}

/// Where looking `e` up finds a user, some user has email `e`.
pub proof fn lemma_find_by_email_found(s: Seq<(Seq<char>, UserView)>, e: Seq<char>)
    requires
        find_by_email(s, e) is Some,
    ensures
        exists|i: int| 0 <= i < s.len() && #[trigger] s[i].1.email == e,
    decreases s.len(),
{
    if s[0].1.email != e {
        let t = s.drop_first();
        lemma_find_by_email_found(t, e);
        let i = choose|i: int| 0 <= i < t.len() && #[trigger] t[i].1.email == e;
        assert(s[i + 1] == t[i]);
    }
}

/// Sign-up with an email no stored user has, under a free id, succeeds
/// whatever the nickname: it answers with the nickname and no name or
/// surname, and stores under the id a user with that id, nickname and email,
/// no name or surname, and the drawn hash as password. Every other key keeps
/// its user, and the cookies are untouched.
pub proof fn lemma_signup_stores_request(
    users: Seq<(Seq<char>, UserView)>,
    cookies: Seq<(Seq<char>, SessionCookieView)>,
    csrf: Seq<char>,
    nickname: Seq<char>,
    email: Seq<char>,
    password: Seq<char>,
    nid: Seq<char>,
    hashed: Seq<char>,
)
    requires
        sorted_keys(users),
        forall|i: int| 0 <= i < users.len() ==> #[trigger] users[i].1.email != email,
        !has_key(users, nid),
    ensures
        ({
            let (r, users1, cookies1) = post_user_spec(
                UsersView::UserCreate { nickname, email, password },
                users,
                cookies,
                csrf,
                nid,
                hashed,
            );
            &&& r == Ok::<UsersView, CrudError>(
                UsersView::UserResp { nickname: nickname, name: None, surname: None },
            )
            &&& has_key(users1, nid)
            &&& lookup(users1, nid).nid == nid
            &&& lookup(users1, nid).nickname == nickname
            &&& lookup(users1, nid).name is None
            &&& lookup(users1, nid).surname is None
            &&& lookup(users1, nid).email == email
            &&& lookup(users1, nid).password == hashed
            &&& forall|k: Seq<char>|
                k != nid ==> has_key(users1, k) == has_key(users, k) && (has_key(users, k)
                    ==> lookup(users1, k) == lookup(users, k))
            &&& cookies1 == cookies
        }),
{
    lemma_find_by_email_absent(users, email);
    let u = UserView { nid, nickname, name: None, surname: None, email, password: hashed };
    lemma_put(users, nid, u);
}

/// Sign-up is refused only with `ExistsError`, and only where a stored user
/// has the email or the drawn id is taken.
pub proof fn lemma_signup_refused_only_when_taken(
    users: Seq<(Seq<char>, UserView)>,
    cookies: Seq<(Seq<char>, SessionCookieView)>,
    csrf: Seq<char>,
    nickname: Seq<char>,
    email: Seq<char>,
    password: Seq<char>,
    nid: Seq<char>,
    hashed: Seq<char>,
)
    requires
        post_user_spec(
            UsersView::UserCreate { nickname, email, password },
            users,
            cookies,
            csrf,
            nid,
            hashed,
        ).0 is Err,
    ensures
        post_user_spec(
            UsersView::UserCreate { nickname, email, password },
            users,
            cookies,
            csrf,
            nid,
            hashed,
        ).0 == Err::<UsersView, CrudError>(CrudError::ExistsError),
        (exists|i: int| 0 <= i < users.len() && #[trigger] users[i].1.email == email) || has_key(
            users,
            nid,
        ),
{
    if find_by_email(users, email) is Some {
        lemma_find_by_email_found(users, email);
    }
}

/// A successful profile change stores, under the signed-in user's id, that
/// user with each field the request gives replaced by the given value and
/// each field it leaves out kept; a new password is stored as the drawn
/// hash. The answer is the public form of the stored user, and the cookies
/// are untouched.
pub proof fn lemma_profile_change_stores_request(
    users: Seq<(Seq<char>, UserView)>,
    cookies: Seq<(Seq<char>, SessionCookieView)>,
    csrf: Seq<char>,
    nickname: Option<Seq<char>>,
    name: Option<Seq<char>>,
    surname: Option<Seq<char>>,
    email: Option<Seq<char>>,
    password: Option<Seq<char>>,
    new_password: Option<Seq<char>>,
    auth_token: Seq<char>,
    nid: Seq<char>,
    hashed: Seq<char>,
)
    requires
        sorted_keys(users),
        post_user_spec(
            UsersView::UserUpdate {
                nickname,
                name,
                surname,
                email,
                password,
                new_password,
                auth_token,
            },
            users,
            cookies,
            csrf,
            nid,
            hashed,
        ).0 is Ok,
    ensures
        ({
            let old_u = lookup(users, lookup(cookies, user_cookie()).value);
            let (r, users1, cookies1) = post_user_spec(
                UsersView::UserUpdate {
                    nickname,
                    name,
                    surname,
                    email,
                    password,
                    new_password,
                    auth_token,
                },
                users,
                cookies,
                csrf,
                nid,
                hashed,
            );
            let u = lookup(users1, old_u.nid);
            &&& auth_token == csrf
            &&& has_key(cookies, user_cookie())
            &&& has_key(users, lookup(cookies, user_cookie()).value)
            &&& has_key(users1, old_u.nid)
            &&& u.nid == old_u.nid
            &&& (nickname matches Some(x) ==> u.nickname == x)
            &&& (nickname is None ==> u.nickname == old_u.nickname)
            &&& (name matches Some(x) ==> u.name == Some(x))
            &&& (name is None ==> u.name == old_u.name)
            &&& (surname matches Some(x) ==> u.surname == Some(x))
            &&& (surname is None ==> u.surname == old_u.surname)
            &&& (email matches Some(x) ==> u.email == x)
            &&& (email is None ==> u.email == old_u.email)
            &&& (new_password is Some ==> u.password == hashed)
            &&& (new_password is None ==> u.password == old_u.password)
            &&& r == Ok::<UsersView, CrudError>(
                UsersView::UserResp { nickname: u.nickname, name: u.name, surname: u.surname },
            )
            &&& forall|k: Seq<char>|
                k != old_u.nid ==> has_key(users1, k) == has_key(users, k) && (has_key(users, k)
                    ==> lookup(users1, k) == lookup(users, k))
            &&& cookies1 == cookies
        }),
{
    let old_u = lookup(users, lookup(cookies, user_cookie()).value);
    let u = UserView {
        nid: old_u.nid,
        nickname: crate::users::users::or_else(nickname, old_u.nickname),
        name: crate::users::users::or_opt(name, old_u.name),
        surname: crate::users::users::or_opt(surname, old_u.surname),
        email: crate::users::users::or_else(email, old_u.email),
        password: if new_password is Some {
            hashed
        } else {
            old_u.password
        },
    };
    lemma_put(users, old_u.nid, u);
}

/// Reading a stored user by id answers with its stored nickname, name and
/// surname.
pub proof fn lemma_get_user_answers_stored(users: Seq<(Seq<char>, UserView)>, k: Seq<char>)
    requires
        has_key(users, k),
    ensures
        get_user_spec(users, None, Some(k)) == Ok::<UsersView, CrudError>(
            UsersView::UserResp {
                nickname: lookup(users, k).nickname,
                name: lookup(users, k).name,
                surname: lookup(users, k).surname,
            },
        ),
{
}

/// Group creation with a session cookie, under a free id, succeeds: it
/// answers with the requested name and description and the signed-in user as
/// only member, and stores under the id a group with that id, owned by the
/// signed-in user, with the requested name and description and the owner as
/// only member. Every other key keeps its group.
pub proof fn lemma_create_group_stores_request(
    groups: Seq<(Seq<char>, GroupView)>,
    cookies: Seq<(Seq<char>, SessionCookieView)>,
    name: Seq<char>,
    description: Option<Seq<char>>,
    nid: Seq<char>,
)
    requires
        sorted_keys(groups),
        has_key(cookies, user_cookie()),
        !has_key(groups, nid),
    ensures
        ({
            let owner = lookup(cookies, user_cookie()).value;
            let (r, groups1) = post_group_spec(
                GroupsView::GroupCreate { name, description },
                groups,
                cookies,
                nid,
            );
            let g = lookup(groups1, nid);
            &&& r == Ok::<GroupsView, CrudError>(
                GroupsView::GroupResp { name: name, description: description, members: seq![owner] },
            )
            &&& has_key(groups1, nid)
            &&& g.nid == nid
            &&& g.user_nid == owner
            &&& g.members == seq![owner]
            &&& g.name == name
            &&& g.description == description
            &&& forall|k: Seq<char>|
                k != nid ==> has_key(groups1, k) == has_key(groups, k) && (has_key(groups, k)
                    ==> lookup(groups1, k) == lookup(groups, k))
        }),
{
    let owner = lookup(cookies, user_cookie()).value;
    let g = GroupView { nid, user_nid: owner, members: seq![owner], name, description };
    lemma_put(groups, nid, g);
}

/// Group creation is refused only with `ForbiddenError` where there is no
/// session cookie, or with `ExistsError` where the drawn id is taken.
pub proof fn lemma_create_group_refused_only(
    groups: Seq<(Seq<char>, GroupView)>,
    cookies: Seq<(Seq<char>, SessionCookieView)>,
    name: Seq<char>,
    description: Option<Seq<char>>,
    nid: Seq<char>,
)
    requires
        post_group_spec(GroupsView::GroupCreate { name, description }, groups, cookies, nid).0 is Err,
    ensures
        ({
            let r = post_group_spec(
                GroupsView::GroupCreate { name, description },
                groups,
                cookies,
                nid,
            ).0;
            ||| (r == Err::<GroupsView, CrudError>(CrudError::ForbiddenError) && !has_key(
                cookies,
                user_cookie(),
            ))
            ||| (r == Err::<GroupsView, CrudError>(CrudError::ExistsError) && has_key(groups, nid))
        }),
{
}

/// A successful member addition writes back, under the new member's id, the
/// group read from `group_nid` with every field kept but the members, which
/// gain the new member at the end; the answer is that group's public form.
pub proof fn lemma_add_user_keeps_group(
    groups: Seq<(Seq<char>, GroupView)>,
    cookies: Seq<(Seq<char>, SessionCookieView)>,
    group_nid: Seq<char>,
    user_nid: Seq<char>,
    nid: Seq<char>,
)
    requires
        sorted_keys(groups),
        post_group_spec(GroupsView::AddUser { group_nid, user_nid }, groups, cookies, nid).0 is Ok,
    ensures
        ({
            let (r, groups1) = post_group_spec(
                GroupsView::AddUser { group_nid, user_nid },
                groups,
                cookies,
                nid,
            );
            let g = lookup(groups, group_nid);
            let w = lookup(groups1, user_nid);
            &&& has_key(groups, group_nid)
            &&& !g.members.contains(user_nid)
            &&& has_key(groups1, user_nid)
            &&& w.nid == g.nid
            &&& w.user_nid == g.user_nid
            &&& w.name == g.name
            &&& w.description == g.description
            &&& w.members == g.members.push(user_nid)
            &&& r == Ok::<GroupsView, CrudError>(
                GroupsView::GroupResp {
                    name: g.name,
                    description: g.description,
                    members: g.members.push(user_nid),
                },
            )
            &&& forall|k: Seq<char>|
                k != user_nid ==> has_key(groups1, k) == has_key(groups, k) && (has_key(groups, k)
                    ==> lookup(groups1, k) == lookup(groups, k))
        }),
{
    let g = lookup(groups, group_nid);
    let w = GroupView { members: g.members.push(user_nid), ..g };
    lemma_put(groups, user_nid, w);
}

/// Reading a stored group by id answers with its stored name, description
/// and members.
pub proof fn lemma_get_group_answers_stored(groups: Seq<(Seq<char>, GroupView)>, k: Seq<char>)
    requires
        has_key(groups, k),
    ensures
        group_resp_result(get_spec(groups, k)) == Ok::<GroupsView, CrudError>(
            GroupsView::GroupResp {
                name: lookup(groups, k).name,
                description: lookup(groups, k).description,
                members: lookup(groups, k).members,
            },
        ),
{
}

/// After a successful group creation, reading the group by its id answers
/// with the requested name and description and the owner as only member.
pub proof fn lemma_create_then_get_group(
    groups: Seq<(Seq<char>, GroupView)>,
    cookies: Seq<(Seq<char>, SessionCookieView)>,
    name: Seq<char>,
    description: Option<Seq<char>>,
    nid: Seq<char>,
)
    requires
        sorted_keys(groups),
        post_group_spec(GroupsView::GroupCreate { name, description }, groups, cookies, nid).0 is Ok,
    ensures
        group_resp_result(
            get_spec(
                post_group_spec(
                    GroupsView::GroupCreate { name, description },
                    groups,
                    cookies,
                    nid,
                ).1,
                nid,
            ),
        ) == Ok::<GroupsView, CrudError>(
            GroupsView::GroupResp {
                name: name,
                description: description,
                members: seq![lookup(cookies, user_cookie()).value],
            },
        ),
{
    lemma_create_group_stores_request(groups, cookies, name, description, nid);
}

/// Sign-in with the email of a stored user and a password its hash accepts
/// succeeds: the user is the one with the least key among those with the
/// email; where a user is stored under its id, the answer is that stored
/// user's nickname, name and surname, and the session cookie then holds its
/// id, secure, http-only and same-site lax. The users are untouched.
pub proof fn lemma_login_succeeds(
    users: Seq<(Seq<char>, UserView)>,
    cookies: Seq<(Seq<char>, SessionCookieView)>,
    csrf: Seq<char>,
    email: Seq<char>,
    password: Seq<char>,
    nid: Seq<char>,
    hashed: Seq<char>,
    i: int,
)
    requires
        sorted_keys(cookies),
        0 <= i < users.len(),
        users[i].1.email == email,
        forall|j: int| 0 <= j < i ==> #[trigger] users[j].1.email != email,
        printable_ascii(users[i].1.password),
        bcrypt_verifies(password, users[i].1.password),
        has_key(users, users[i].1.nid),
    ensures
        ({
            let u = lookup(users, users[i].1.nid);
            let (r, users1, cookies1) = post_user_spec(
                UsersView::UserLogin { email, password },
                users,
                cookies,
                csrf,
                nid,
                hashed,
            );
            &&& r == Ok::<UsersView, CrudError>(
                UsersView::UserResp { nickname: u.nickname, name: u.name, surname: u.surname },
            )
            &&& users1 == users
            &&& has_key(cookies1, user_cookie())
            &&& lookup(cookies1, user_cookie()).value == users[i].1.nid
            &&& lookup(cookies1, user_cookie()).secure
            &&& lookup(cookies1, user_cookie()).http_only
            &&& lookup(cookies1, user_cookie()).same_site == SameSite::Lax
        }),
{
    crate::users::laws::lemma_find_by_email_only(users, i, email);
    lemma_put(cookies, user_cookie(), crate::crud::session::private_cookie(users[i].1.nid));
}

/// Sign-in where no stored user has the email is refused with
/// `NotFoundError`; where the password does not match the stored hash, with
/// `ForbiddenError`. Neither changes the cookies.
pub proof fn lemma_login_refused(
    users: Seq<(Seq<char>, UserView)>,
    cookies: Seq<(Seq<char>, SessionCookieView)>,
    csrf: Seq<char>,
    email: Seq<char>,
    password: Seq<char>,
    nid: Seq<char>,
    hashed: Seq<char>,
)
    ensures
        (forall|i: int| 0 <= i < users.len() ==> #[trigger] users[i].1.email != email)
            ==> post_user_spec(
            UsersView::UserLogin { email, password },
            users,
            cookies,
            csrf,
            nid,
            hashed,
        ) == (Err::<UsersView, CrudError>(CrudError::NotFoundError), users, cookies),
        (find_by_email(users, email) matches Some(u) && !bcrypt_verifies(password, u.password))
            ==> post_user_spec(
            UsersView::UserLogin { email, password },
            users,
            cookies,
            csrf,
            nid,
            hashed,
        ) == (Err::<UsersView, CrudError>(CrudError::ForbiddenError), users, cookies),
{
    if forall|i: int| 0 <= i < users.len() ==> #[trigger] users[i].1.email != email {
        lemma_find_by_email_absent(users, email);
    }
}

/// Sign-out with the session's token while a session cookie is there
/// answers with the token and removes the cookie; with another token it is
/// refused with `TokenError`; without a session cookie, with
/// `ForbiddenError`. The users are untouched.
pub proof fn lemma_logout_outcomes(
    users: Seq<(Seq<char>, UserView)>,
    cookies: Seq<(Seq<char>, SessionCookieView)>,
    csrf: Seq<char>,
    token: Seq<char>,
    nid: Seq<char>,
    hashed: Seq<char>,
)
    requires
        sorted_keys(cookies),
    ensures
        ({
            let (r, users1, cookies1) = post_user_spec(
                UsersView::UserLogout(token),
                users,
                cookies,
                csrf,
                nid,
                hashed,
            );
            &&& users1 == users
            &&& token != csrf ==> r == Err::<UsersView, CrudError>(CrudError::TokenError)
                && cookies1 == cookies
            &&& token == csrf && !has_key(cookies, user_cookie()) ==> r == Err::<
                UsersView,
                CrudError,
            >(CrudError::ForbiddenError) && cookies1 == cookies
            &&& token == csrf && has_key(cookies, user_cookie()) ==> r == Ok::<UsersView, CrudError>(
                UsersView::UserLogout(token),
            ) && !has_key(cookies1, user_cookie()) && forall|k: Seq<char>|
                k != user_cookie() ==> has_key(cookies1, k) == has_key(cookies, k)
        }),
{
    lemma_remove(cookies, user_cookie());
}

/// The token handed out: `"a"` without a session cookie, `"b"` where the
/// cookie names no stored user, the session's anti-forgery token otherwise.
pub proof fn lemma_token_outcomes(
    users: Seq<(Seq<char>, UserView)>,
    cookies: Seq<(Seq<char>, SessionCookieView)>,
    csrf: Seq<char>,
)
    ensures
        !has_key(cookies, user_cookie()) ==> token_spec(users, cookies, csrf) == "a"@,
        has_key(cookies, user_cookie()) && !has_key(users, lookup(cookies, user_cookie()).value)
            ==> token_spec(users, cookies, csrf) == "b"@,
        has_key(cookies, user_cookie()) && has_key(users, lookup(cookies, user_cookie()).value)
            ==> token_spec(users, cookies, csrf) == csrf,
{
}

/// A profile change succeeds where the token is the session's, the session
/// cookie names a stored user whose id is a key and whose hash is printable
/// ASCII, the current password matches where a new email or password is
/// given, and a new password is not the current one.
pub proof fn lemma_profile_change_succeeds(
    users: Seq<(Seq<char>, UserView)>,
    cookies: Seq<(Seq<char>, SessionCookieView)>,
    csrf: Seq<char>,
    nickname: Option<Seq<char>>,
    name: Option<Seq<char>>,
    surname: Option<Seq<char>>,
    email: Option<Seq<char>>,
    password: Option<Seq<char>>,
    new_password: Option<Seq<char>>,
    nid: Seq<char>,
    hashed: Seq<char>,
)
    requires
        has_key(cookies, user_cookie()),
        has_key(users, lookup(cookies, user_cookie()).value),
        has_key(users, lookup(users, lookup(cookies, user_cookie()).value).nid),
        (email is Some || new_password is Some) ==> {
            let old_u = lookup(users, lookup(cookies, user_cookie()).value);
            &&& printable_ascii(old_u.password)
            &&& bcrypt_verifies(
                match password {
                    Some(p) => p,
                    None => Seq::<char>::empty(),
                },
                old_u.password,
            )
        },
        new_password matches Some(w) ==> !bcrypt_verifies(
            w,
            lookup(users, lookup(cookies, user_cookie()).value).password,
        ),
    ensures
        post_user_spec(
            UsersView::UserUpdate {
                nickname,
                name,
                surname,
                email,
                password,
                new_password,
                auth_token: csrf,
            },
            users,
            cookies,
            csrf,
            nid,
            hashed,
        ).0 is Ok,
{
}

/// Reading a user by email answers with the public form of the user with the
/// least key among those with the email, or `NotFoundError` where no user
/// has it.
pub proof fn lemma_get_user_by_email(
    users: Seq<(Seq<char>, UserView)>,
    email: Seq<char>,
    i: int,
)
    requires
        sorted_keys(users),
        0 <= i < users.len(),
        users[i].1.email == email,
        forall|j: int| 0 <= j < users.len() && users[j].1.email == email ==> !key_lt(
            #[trigger] users[j].0,
            users[i].0,
        ),
    ensures
        get_user_spec(users, Some(email), None) == Ok::<UsersView, CrudError>(
            UsersView::UserResp {
                nickname: users[i].1.nickname,
                name: users[i].1.name,
                surname: users[i].1.surname,
            },
        ),
{
    assert forall|j: int| 0 <= j < i implies #[trigger] users[j].1.email != email by {
        if users[j].1.email == email {
            assert(key_lt(users[j].0, users[i].0));
        }
    }
    crate::users::laws::lemma_find_by_email_only(users, i, email);
}

/// Without a user of that email, reading by email is refused.
pub proof fn lemma_get_user_by_email_absent(users: Seq<(Seq<char>, UserView)>, email: Seq<char>)
    requires
        forall|i: int| 0 <= i < users.len() ==> #[trigger] users[i].1.email != email,
    ensures
        get_user_spec(users, Some(email), None) == Err::<UsersView, CrudError>(
            CrudError::NotFoundError,
        ),
{
    lemma_find_by_email_absent(users, email);
}

/// Adding a member succeeds where the group exists, the user is not yet a
/// member, and the user's id is a key of the group tree; it is refused with
/// `NotFoundError` where the group does not exist, and with `ExistsError`
/// where the user is a member already.
pub proof fn lemma_add_user_outcomes(
    groups: Seq<(Seq<char>, GroupView)>,
    cookies: Seq<(Seq<char>, SessionCookieView)>,
    group_nid: Seq<char>,
    user_nid: Seq<char>,
    nid: Seq<char>,
)
    ensures
        ({
            let (r, groups1) = post_group_spec(
                GroupsView::AddUser { group_nid, user_nid },
                groups,
                cookies,
                nid,
            );
            &&& !has_key(groups, group_nid) ==> r == Err::<GroupsView, CrudError>(
                CrudError::NotFoundError,
            ) && groups1 == groups
            &&& has_key(groups, group_nid) && lookup(groups, group_nid).members.contains(user_nid)
                ==> r == Err::<GroupsView, CrudError>(CrudError::ExistsError) && groups1 == groups
            &&& has_key(groups, group_nid) && !lookup(groups, group_nid).members.contains(user_nid)
                && has_key(groups, user_nid) ==> r is Ok
        }),
{
}

} // verus!
