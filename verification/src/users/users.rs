use vstd::prelude::*;
use crate::crud::session::{SessionCookie, SessionCookieView};
use crate::crud::{
    Crud, CrudError, CrudResult, add_private_spec, get_spec, new_spec, res_view, update_spec,
};
use crate::crud::keys::key_lt;
use crate::crud::tree::{
    Duplicate, Tree, extends, has_key, lemma_extends_refl, lookup, seq_remove, sorted_keys,
};
use crate::ids::{NID_LEN, new_nid, nid_shape};
use crate::password::{
    bcrypt_shape, bcrypt_verifies, hash_password, is_printable_ascii, printable_ascii, verify_password,
};
use super::{dup_opt, same_opt, user_cookie, user_cookie_name};

verus! {

pub type AuthToken = String;

/// A request on users, or the public form of a user.
#[allow(inconsistent_fields)]
pub enum Users {
    UserCreate { nickname: String, email: String, password: String },
    UserUpdate {
        nickname: Option<String>,
        name: Option<String>,
        surname: Option<String>,
        email: Option<String>,
        password: Option<String>,
        new_password: Option<String>,
        auth_token: AuthToken,
    },
    UserDelete(AuthToken),
    UserLogin { email: String, password: String },
    UserLogout(AuthToken),
    UserResp { nickname: String, name: Option<String>, surname: Option<String> },
}

/// The abstract form of `Users`.
#[allow(inconsistent_fields)]
pub enum UsersView {
    UserCreate { nickname: Seq<char>, email: Seq<char>, password: Seq<char> },
    UserUpdate {
        nickname: Option<Seq<char>>,
        name: Option<Seq<char>>,
        surname: Option<Seq<char>>,
        email: Option<Seq<char>>,
        password: Option<Seq<char>>,
        new_password: Option<Seq<char>>,
        auth_token: Seq<char>,
    },
    UserDelete(Seq<char>),
    UserLogin { email: Seq<char>, password: Seq<char> },
    UserLogout(Seq<char>),
    UserResp { nickname: Seq<char>, name: Option<Seq<char>>, surname: Option<Seq<char>> },
}

impl View for Users {
    type V = UsersView;

    open spec fn view(&self) -> UsersView {
        match self {
            Users::UserCreate { nickname, email, password } => UsersView::UserCreate {
                nickname: nickname@,
                email: email@,
                password: password@,
            },
            Users::UserUpdate {
                nickname,
                name,
                surname,
                email,
                password,
                new_password,
                auth_token,
            } => UsersView::UserUpdate {
                nickname: nickname.deep_view(),
                name: name.deep_view(),
                surname: surname.deep_view(),
                email: email.deep_view(),
                password: password.deep_view(),
                new_password: new_password.deep_view(),
                auth_token: auth_token@,
            },
            Users::UserDelete(t) => UsersView::UserDelete(t@),
            Users::UserLogin { email, password } => UsersView::UserLogin {
                email: email@,
                password: password@,
            },
            Users::UserLogout(t) => UsersView::UserLogout(t@),
            Users::UserResp { nickname, name, surname } => UsersView::UserResp {
                nickname: nickname@,
                name: name.deep_view(),
                surname: surname.deep_view(),
            },
        }
    }
}

/// A stored user. `password` holds a bcrypt hash.
pub struct User {
    pub nid: String,
    pub nickname: String,
    pub name: Option<String>,
    pub surname: Option<String>,
    pub email: String,
    pub password: String,
}

/// The abstract form of `User`.
#[verifier::ext_equal]
pub struct UserView {
    pub nid: Seq<char>,
    pub nickname: Seq<char>,
    pub name: Option<Seq<char>>,
    pub surname: Option<Seq<char>>,
    pub email: Seq<char>,
    pub password: Seq<char>,
}

impl View for User {
    type V = UserView;

    open spec fn view(&self) -> UserView {
        UserView {
            nid: self.nid@,
            nickname: self.nickname@,
            name: self.name.deep_view(),
            surname: self.surname.deep_view(),
            email: self.email@,
            password: self.password@,
        }
    }
}

impl Duplicate for User {
    fn duplicate(&self) -> (r: User) {
        User {
            nid: self.nid.clone(),
            nickname: self.nickname.clone(),
            name: dup_opt(&self.name),
            surname: dup_opt(&self.surname),
            email: self.email.clone(),
            password: self.password.clone(),
        }
    }
}

impl Crud for User {
    fn same(&self, other: &Self) -> (b: bool) {
        let b = self.nid == other.nid && self.nickname == other.nickname && same_opt(
            &self.name,
            &other.name,
        ) && same_opt(&self.surname, &other.surname) && self.email == other.email
            && self.password == other.password;
        proof {
            if b {
                assert(self@ =~= other@);
            }
        }
        b
    }
}

/// The public form of a user: nickname, name and surname, never the email or
/// the password.
pub open spec fn resp_view(u: UserView) -> UsersView {
    UsersView::UserResp { nickname: u.nickname, name: u.name, surname: u.surname }
}

/// A result carrying a user, with the user turned into its public form.
pub open spec fn resp_result(r: Result<UserView, CrudError>) -> Result<UsersView, CrudError> {
    match r {
        Ok(u) => Ok(resp_view(u)),
        Err(e) => Err(e),
    }
}

/// The first user, in the order of the entries, whose email is `email`.
pub open spec fn find_by_email(s: Seq<(Seq<char>, UserView)>, email: Seq<char>) -> Option<
    UserView,
>
    decreases s.len(),
{
    if s.len() == 0 {
        None
    } else if s[0].1.email == email {
        Some(s[0].1)
    } else {
        find_by_email(s.drop_first(), email)
    }
}

/// Looking a user up by email.
pub open spec fn by_email_spec(s: Seq<(Seq<char>, UserView)>, email: Seq<char>) -> Result<
    UserView,
    CrudError,
> {
    match find_by_email(s, email) {
        Some(u) => Ok(u),
        None => Err(CrudError::NotFoundError),
    }
}

impl User {
    /// The public form of this user.
    pub fn resp(&self) -> (r: Users)
        ensures
            r@ == resp_view(self@),
    {
        Users::UserResp {
            nickname: self.nickname.clone(),
            name: dup_opt(&self.name),
            surname: dup_opt(&self.surname),
        }
    }

    /// The public forms of all users, in ascending key order.
    pub fn get_all(users: &Tree<User>) -> (r: CrudResult<Vec<Users>>)
        requires
            users.wf(),
        ensures
            sorted_keys(users.order()),
            r matches Ok(v) && v@.map_values(|x: Users| x@) == users.order().map_values(
                |e: (Seq<char>, UserView)| resp_view(e.1),
            ),
    {
        proof {
            users.lemma_wf();
        }
        let n = users.len();
        let mut out: Vec<Users> = Vec::new();
        let mut i: usize = 0;
        while i < n
            invariant
                n == users.order().len(),
                i <= n,
                out@.len() == i,
                forall|j: int| 0 <= j < i ==> #[trigger] out@[j]@ == resp_view(users.order()[j].1),
            decreases n - i,
        {
            out.push(users.value_at(i).resp());
            i = i + 1;
        }
        assert(out@.map_values(|x: Users| x@) =~= users.order().map_values(
            |e: (Seq<char>, UserView)| resp_view(e.1),
        ));
        Ok(out)
    }

    /// The user with the least key among those whose email is `email`.
    pub fn get_by_email(users: &Tree<User>, email: &String) -> (r: CrudResult<User>)
        requires
            users.wf(),
        ensures
            res_view(r) == by_email_spec(users.order(), email@),
            r is Err ==> forall|i: int|
                0 <= i < users.order().len() ==> #[trigger] users.order()[i].1.email != email@,
            r matches Ok(u) ==> exists|i: int|
                #![trigger users.order()[i]]
                0 <= i < users.order().len() && users.order()[i].1 == u@
                    && u@.email == email@ && forall|j: int|
                    0 <= j < users.order().len() && users.order()[j].1.email == email@
                        ==> !key_lt(users.order()[j].0, users.order()[i].0),
    {
        proof {
            users.lemma_wf();
            if find_by_email(users.order(), email@) is None {
                crate::users::laws::lemma_find_by_email_none(users.order(), email@);
            }
        }
        let ghost s = users.order();
        let n = users.len();
        let mut i: usize = 0;
        assert(s.skip(0) =~= s);
        while i < n
            invariant
                s == users.order(),
                n == s.len(),
                i <= n,
                sorted_keys(s),
                find_by_email(s, email@) == find_by_email(s.skip(i as int), email@),
            decreases n - i,
        {
            let u = users.value_at(i);
            assert(s.skip(i as int)[0] == s[i as int]);
            if u.email == *email {
                let found = u.duplicate();
                proof {
                    assert(find_by_email(s, email@) == Some(s[i as int].1));
                    crate::users::laws::lemma_find_by_email_least_key(s, email@);
                    let w = choose|w: int|
                        #![trigger s[w]]
                        0 <= w < s.len() && s[w].1 == find_by_email(s, email@)->0 && s[w].1.email
                            == email@ && forall|j: int|
                            0 <= j < s.len() && s[j].1.email == email@ ==> !key_lt(s[j].0, s[w].0);
                    assert(users.order()[w].1 == found@);
                }
                return Ok(found);
            }
            assert(s.skip(i as int).drop_first() =~= s.skip(i + 1));
            i = i + 1;
        }
        assert(s.skip(n as int).len() == 0);
        Err(CrudError::NotFoundError)
    }
}

/// A new user: id `nid`, no name or surname, the given hash as password.
pub open spec fn new_user_view(
    nid: Seq<char>,
    nickname: Seq<char>,
    email: Seq<char>,
    hashed: Seq<char>,
) -> UserView {
    UserView { nid, nickname, name: None, surname: None, email, password: hashed }
}

/// Storing a new user under `nid`; answered with its public form.
pub open spec fn register_spec(
    users: Seq<(Seq<char>, UserView)>,
    nickname: Seq<char>,
    email: Seq<char>,
    hashed: Seq<char>,
    nid: Seq<char>,
) -> (Result<UsersView, CrudError>, Seq<(Seq<char>, UserView)>) {
    let (r, s) = new_spec(users, nid, new_user_view(nid, nickname, email, hashed));
    (resp_result(r), s)
}

/// Signing up: refused with `ExistsError` where some user has the email.
pub open spec fn create_spec(
    users: Seq<(Seq<char>, UserView)>,
    nickname: Seq<char>,
    email: Seq<char>,
    hashed: Seq<char>,
    nid: Seq<char>,
) -> (Result<UsersView, CrudError>, Seq<(Seq<char>, UserView)>) {
    if find_by_email(users, email) is Some {
        (Err(CrudError::ExistsError), users)
    } else {
        register_spec(users, nickname, email, hashed, nid)
    }
}

/// Signing in: the user with the email must exist and the password must
/// match its hash; then the session cookie holds the user's id.
pub open spec fn login_spec(
    users: Seq<(Seq<char>, UserView)>,
    cookies: Seq<(Seq<char>, SessionCookieView)>,
    email: Seq<char>,
    password: Seq<char>,
) -> (Result<UsersView, CrudError>, Seq<(Seq<char>, SessionCookieView)>) {
    match find_by_email(users, email) {
        None => (Err(CrudError::NotFoundError), cookies),
        Some(udb) => if printable_ascii(udb.password) && bcrypt_verifies(password, udb.password) {
            let (r, c) = add_private_spec(users, cookies, user_cookie(), udb.nid, udb.nid);
            (resp_result(r), c)
        } else {
            (Err(CrudError::ForbiddenError), cookies)
        },
    }
}

/// Signing out: the form token must match the session's, and a session
/// cookie must be there; it is removed.
pub open spec fn logout_spec(
    cookies: Seq<(Seq<char>, SessionCookieView)>,
    csrf: Seq<char>,
    token: Seq<char>,
) -> (Result<UsersView, CrudError>, Seq<(Seq<char>, SessionCookieView)>) {
    if token != csrf {
        (Err(CrudError::TokenError), cookies)
    } else if has_key(cookies, user_cookie()) {
        (Ok(UsersView::UserLogout(token)), seq_remove(cookies, user_cookie()))
    } else {
        (Err(CrudError::ForbiddenError), cookies)
    }
}

pub open spec fn or_else(o: Option<Seq<char>>, d: Seq<char>) -> Seq<char> {
    match o {
        Some(x) => x,
        None => d,
    }
}

pub open spec fn or_opt(o: Option<Seq<char>>, d: Option<Seq<char>>) -> Option<Seq<char>> {
    match o {
        Some(x) => Some(x),
        None => d,
    }
}

/// The signed-in user, by the session cookie, where both are there.
pub open spec fn session_user(
    users: Seq<(Seq<char>, UserView)>,
    cookies: Seq<(Seq<char>, SessionCookieView)>,
) -> Option<UserView> {
    if has_key(cookies, user_cookie()) && has_key(users, lookup(cookies, user_cookie()).value) {
        Some(lookup(users, lookup(cookies, user_cookie()).value))
    } else {
        None
    }
}

/// A profile change hashes the new password: the token matches, the
/// signed-in user exists, the current password matches, and the new password
/// is not the current one.
pub open spec fn update_rehashes(
    req: UsersView,
    users: Seq<(Seq<char>, UserView)>,
    cookies: Seq<(Seq<char>, SessionCookieView)>,
    csrf: Seq<char>,
) -> bool {
    match req {
        UsersView::UserUpdate { password, new_password, auth_token, .. } => {
            &&& auth_token == csrf
            &&& session_user(users, cookies) is Some
            &&& new_password is Some
            &&& printable_ascii(session_user(users, cookies)->0.password)
            &&& bcrypt_verifies(or_else(password, Seq::empty()), session_user(users, cookies)->0.password)
            &&& !bcrypt_verifies(new_password->0, session_user(users, cookies)->0.password)
        },
        _ => false,
    }
}

/// Changing the signed-in user's profile. Fields left out keep their value;
/// a new email or password needs the current password; a new password must
/// differ from the current one and is stored as `hashed`.
pub open spec fn update_user_spec(
    users: Seq<(Seq<char>, UserView)>,
    cookies: Seq<(Seq<char>, SessionCookieView)>,
    csrf: Seq<char>,
    nickname: Option<Seq<char>>,
    name: Option<Seq<char>>,
    surname: Option<Seq<char>>,
    email: Option<Seq<char>>,
    password: Option<Seq<char>>,
    new_password: Option<Seq<char>>,
    auth_token: Seq<char>,
    hashed: Seq<char>,
) -> (Result<UsersView, CrudError>, Seq<(Seq<char>, UserView)>) {
    if auth_token != csrf {
        (Err(CrudError::TokenError), users)
    } else if !has_key(cookies, user_cookie()) {
        (Err(CrudError::ForbiddenError), users)
    } else if !has_key(users, lookup(cookies, user_cookie()).value) {
        (Err(CrudError::NotFoundError), users)
    } else {
        let udb = lookup(users, lookup(cookies, user_cookie()).value);
        let ok = printable_ascii(udb.password) && bcrypt_verifies(
            or_else(password, Seq::empty()),
            udb.password,
        );
        if email is Some && !ok {
            (Err(CrudError::ForbiddenError), users)
        } else if new_password is Some && !ok {
            (Err(CrudError::ForbiddenError), users)
        } else if new_password is Some && bcrypt_verifies(new_password->0, udb.password) {
            (Err(CrudError::ExistsError), users)
        } else {
            let u = UserView {
                nid: udb.nid,
                nickname: or_else(nickname, udb.nickname),
                name: or_opt(name, udb.name),
                surname: or_opt(surname, udb.surname),
                email: or_else(email, udb.email),
                password: if new_password is Some {
                    hashed
                } else {
                    udb.password
                },
            };
            let (r, s) = update_spec(users, udb.nid, u);
            (resp_result(r), s)
        }
    }
}

/// What a request on users answers and leaves in the user tree and the
/// cookie jar, given the id `nid` and the hash `hashed` it draws.
pub open spec fn post_user_spec(
    req: UsersView,
    users: Seq<(Seq<char>, UserView)>,
    cookies: Seq<(Seq<char>, SessionCookieView)>,
    csrf: Seq<char>,
    nid: Seq<char>,
    hashed: Seq<char>,
) -> (Result<UsersView, CrudError>, Seq<(Seq<char>, UserView)>, Seq<(Seq<char>, SessionCookieView)>) {
    match req {
        UsersView::UserCreate { nickname, email, password } => {
            let (r, s) = create_spec(users, nickname, email, hashed, nid);
            (r, s, cookies)
        },
        UsersView::UserLogin { email, password } => {
            let (r, c) = login_spec(users, cookies, email, password);
            (r, users, c)
        },
        UsersView::UserLogout(token) => {
            let (r, c) = logout_spec(cookies, csrf, token);
            (r, users, c)
        },
        UsersView::UserUpdate {
            nickname,
            name,
            surname,
            email,
            password,
            new_password,
            auth_token,
        } => {
            let (r, s) = update_user_spec(
                users,
                cookies,
                csrf,
                nickname,
                name,
                surname,
                email,
                password,
                new_password,
                auth_token,
                hashed,
            );
            (r, s, cookies)
        },
        _ => (Err(CrudError::NotFoundError), users, cookies),
    }
}

/// The random values a request on users draws have the properties their
/// sources give: a fresh id of `NID_LEN` characters of nanoid's alphabet,
/// and a hash that bcrypt accepts for the password it was made from.
pub open spec fn draws_ok(
    req: UsersView,
    users: Seq<(Seq<char>, UserView)>,
    cookies: Seq<(Seq<char>, SessionCookieView)>,
    csrf: Seq<char>,
    nid: Seq<char>,
    hashed: Seq<char>,
) -> bool {
    match req {
        UsersView::UserCreate { nickname, email, password } => find_by_email(users, email) is None
            ==> nid_shape(nid, NID_LEN as nat) && bcrypt_shape(hashed) && bcrypt_verifies(
            password,
            hashed,
        ),
        UsersView::UserUpdate { new_password, .. } => update_rehashes(req, users, cookies, csrf)
            ==> bcrypt_shape(hashed) && bcrypt_verifies(new_password->0, hashed),
        _ => true,
    }
}

/// Whether the token sent with a form is the session's token.
pub fn csrf_matches(session_token: &String, form_token: &String) -> (b: bool)
    ensures
        b == (session_token@ == form_token@),
{
    *session_token == *form_token
}

/// Stores a new user under `nid` with `hashed` as its password, and answers
/// with its public form.
pub fn register_user(
    nickname: String,
    email: String,
    hashed: String,
    nid: String,
    users: &mut Tree<User>,
) -> (r: CrudResult<Users>)
    requires
        old(users).wf(),
    ensures
        extends(*old(users), *final(users)),
        (res_view(r), final(users).order()) == register_spec(
            old(users).order(),
            nickname@,
            email@,
            hashed@,
            nid@,
        ),
{
    let key = nid.clone();
    let u = User { nid, nickname, name: None, surname: None, email, password: hashed };
    match u.new(users, &key) {
        Ok(u) => Ok(u.resp()),
        Err(e) => Err(e),
    }
}

fn create_user(
    nickname: String,
    email: String,
    password: String,
    users: &mut Tree<User>,
) -> (out: (CrudResult<Users>, Ghost<Seq<char>>, Ghost<Seq<char>>))
    requires
        old(users).wf(),
    ensures
        extends(*old(users), *final(users)),
        find_by_email(old(users).order(), email@) is None ==> nid_shape(out.1@, NID_LEN as nat)
            && bcrypt_shape(out.2@) && bcrypt_verifies(password@, out.2@),
        (res_view(out.0), final(users).order()) == create_spec(
            old(users).order(),
            nickname@,
            email@,
            out.2@,
            out.1@,
        ),
{
    proof {
        lemma_extends_refl(*users);
    }
    match User::get_by_email(users, &email) {
        Ok(_) => (Err(CrudError::ExistsError), Ghost(Seq::empty()), Ghost(Seq::empty())),
        Err(_) => {
            let nid = new_nid();
            let hashed = hash_password(&password);
            let ghost g = (nid@, hashed@);
            let r = register_user(nickname, email, hashed, nid, users);
            (r, Ghost(g.0), Ghost(g.1))
        },
    }
}

fn login(email: String, password: String, users: &Tree<User>, cookies: &mut Tree<SessionCookie>) -> (r:
    CrudResult<Users>)
    requires
        users.wf(),
        old(cookies).wf(),
    ensures
        extends(*old(cookies), *final(cookies)),
        (res_view(r), final(cookies).order()) == login_spec(
            users.order(),
            old(cookies).order(),
            email@,
            password@,
        ),
{
    proof {
        lemma_extends_refl(*cookies);
    }
    let udb = match User::get_by_email(users, &email) {
        Ok(u) => u,
        Err(e) => return Err(e),
    };
    if is_printable_ascii(&udb.password) && verify_password(&password, &udb.password) {
        let name = user_cookie_name();
        match User::add_private(users, cookies, &name, &udb.nid, udb.nid.clone()) {
            Ok(u) => Ok(u.resp()),
            Err(e) => Err(e),
        }
    } else {
        Err(CrudError::ForbiddenError)
    }
}

fn logout(auth_token: AuthToken, cookies: &mut Tree<SessionCookie>, csrf_token: &String) -> (r:
    CrudResult<Users>)
    requires
        old(cookies).wf(),
    ensures
        extends(*old(cookies), *final(cookies)),
        (res_view(r), final(cookies).order()) == logout_spec(
            old(cookies).order(),
            csrf_token@,
            auth_token@,
        ),
{
    proof {
        lemma_extends_refl(*cookies);
    }
    if !csrf_matches(csrf_token, &auth_token) {
        return Err(CrudError::TokenError);
    }
    let name = user_cookie_name();
    if cookies.contains_key(&name) {
        cookies.remove(&name);
        Ok(Users::UserLogout(auth_token))
    } else {
        Err(CrudError::ForbiddenError)
    }
}

fn update_profile(
    nickname: Option<String>,
    name: Option<String>,
    surname: Option<String>,
    email: Option<String>,
    password: Option<String>,
    new_password: Option<String>,
    auth_token: AuthToken,
    users: &mut Tree<User>,
    cookies: &Tree<SessionCookie>,
    csrf_token: &String,
) -> (out: (CrudResult<Users>, Ghost<Seq<char>>))
    requires
        old(users).wf(),
        cookies.wf(),
    ensures
        extends(*old(users), *final(users)),
        update_rehashes(
            UsersView::UserUpdate {
                nickname: nickname.deep_view(),
                name: name.deep_view(),
                surname: surname.deep_view(),
                email: email.deep_view(),
                password: password.deep_view(),
                new_password: new_password.deep_view(),
                auth_token: auth_token@,
            },
            old(users).order(),
            cookies.order(),
            csrf_token@,
        ) ==> bcrypt_shape(out.1@) && bcrypt_verifies(new_password.deep_view()->0, out.1@),
        (res_view(out.0), final(users).order()) == update_user_spec(
            old(users).order(),
            cookies.order(),
            csrf_token@,
            nickname.deep_view(),
            name.deep_view(),
            surname.deep_view(),
            email.deep_view(),
            password.deep_view(),
            new_password.deep_view(),
            auth_token@,
            out.1@,
        ),
{
    proof {
        lemma_extends_refl(*users);
    }
    let none = Ghost(Seq::<char>::empty());
    if !csrf_matches(csrf_token, &auth_token) {
        return (Err(CrudError::TokenError), none);
    }
    let cookie_name = user_cookie_name();
    let cookie = match cookies.get(&cookie_name) {
        Some(c) => c.value.clone(),
        None => return (Err(CrudError::ForbiddenError), none),
    };
    let udb = match User::get(users, &cookie) {
        Ok(u) => u,
        Err(e) => return (Err(e), none),
    };
    let nn = match nickname {
        Some(w) => w,
        None => udb.nickname.clone(),
    };
    let n = match name {
        Some(w) => Some(w),
        None => dup_opt(&udb.name),
    };
    let sn = match surname {
        Some(w) => Some(w),
        None => dup_opt(&udb.surname),
    };
    let p = match password {
        Some(w) => w,
        None => String::new(),
    };
    let e = match email {
        Some(w) => {
            if is_printable_ascii(&udb.password) && verify_password(&p, &udb.password) {
                w
            } else {
                return (Err(CrudError::ForbiddenError), none);
            }
        },
        None => udb.email.clone(),
    };
    let mut drawn = none;
    let np = match new_password {
        Some(w) => {
            if is_printable_ascii(&udb.password) && verify_password(&p, &udb.password) {
                if !verify_password(&w, &udb.password) {
                    let h = hash_password(&w);
                    drawn = Ghost(h@);
                    h
                } else {
                    return (Err(CrudError::ExistsError), none);
                }
            } else {
                return (Err(CrudError::ForbiddenError), none);
            }
        },
        None => udb.password.clone(),
    };
    let key = udb.nid.clone();
    let u = User { nid: udb.nid.clone(), nickname: nn, name: n, surname: sn, email: e, password: np };
    match u.update(users, &key) {
        Ok(u) => (Ok(u.resp()), drawn),
        Err(e) => (Err(e), drawn),
    }
}

/// Handles a request on users: signing up, in and out, and changing the
/// signed-in user's profile. `cookies` is the session's private cookie jar,
/// `csrf_token` the session's anti-forgery token. Sign-up draws a fresh id
/// and hashes the password; a new password is hashed too. Whatever those
/// draws give, the answer and the trees are those of `post_user_spec` for
/// some id and hash with the properties `draws_ok` states.
pub fn post_user(
    user: Users,
    users: &mut Tree<User>,
    cookies: &mut Tree<SessionCookie>,
    csrf_token: &String,
) -> (r: CrudResult<Users>)
    requires
        old(users).wf(),
        old(cookies).wf(),
    ensures
        extends(*old(users), *final(users)),
        extends(*old(cookies), *final(cookies)),
        exists|nid: Seq<char>, hashed: Seq<char>|
            #![trigger post_user_spec(user@, old(users).order(), old(cookies).order(), csrf_token@, nid, hashed)]
            draws_ok(user@, old(users).order(), old(cookies).order(), csrf_token@, nid, hashed)
                && (res_view(r), final(users).order(), final(cookies).order()) == post_user_spec(
                user@,
                old(users).order(),
                old(cookies).order(),
                csrf_token@,
                nid,
                hashed,
            ),
{
    proof {
        lemma_extends_refl(*users);
        lemma_extends_refl(*cookies);
    }
    let ghost req = user@;
    let ghost u0 = users.order();
    let ghost c0 = cookies.order();
    let ghost empty = Seq::<char>::empty();
    match user {
        Users::UserCreate { nickname, email, password } => {
            let (r, nid, hashed) = create_user(nickname, email, password, users);
            assert(post_user_spec(req, u0, c0, csrf_token@, nid@, hashed@).0 == res_view(r));
            r
        },
        Users::UserLogin { email, password } => {
            let r = login(email, password, users, cookies);
            assert(post_user_spec(req, u0, c0, csrf_token@, empty, empty).0 == res_view(r));
            r
        },
        Users::UserLogout(auth_token) => {
            let r = logout(auth_token, cookies, csrf_token);
            assert(post_user_spec(req, u0, c0, csrf_token@, empty, empty).0 == res_view(r));
            r
        },
        Users::UserUpdate {
            nickname,
            name,
            surname,
            email,
            password,
            new_password,
            auth_token,
        } => {
            let (r, hashed) = update_profile(
                nickname,
                name,
                surname,
                email,
                password,
                new_password,
                auth_token,
                users,
                cookies,
                csrf_token,
            );
            assert(post_user_spec(req, u0, c0, csrf_token@, empty, hashed@).0 == res_view(r));
            r
        },
        _ => {
            assert(post_user_spec(req, u0, c0, csrf_token@, empty, empty).0 == res_view(
                Err::<Users, CrudError>(CrudError::NotFoundError),
            ));
            Err(CrudError::NotFoundError)
        },
    }
}

/// The token handed to a client: the session's anti-forgery token where the
/// session cookie names a stored user, `"b"` where it names no stored user,
/// `"a"` where there is no session cookie.
pub open spec fn token_spec(
    users: Seq<(Seq<char>, UserView)>,
    cookies: Seq<(Seq<char>, SessionCookieView)>,
    csrf: Seq<char>,
) -> Seq<char> {
    if has_key(cookies, user_cookie()) {
        if has_key(users, lookup(cookies, user_cookie()).value) {
            csrf
        } else {
            "b"@
        }
    } else {
        "a"@
    }
}

/// Hands the session's anti-forgery token to a signed-in client.
pub fn get_token(users: &Tree<User>, cookies: &Tree<SessionCookie>, csrf_token: &String) -> (r:
    CrudResult<String>)
    requires
        users.wf(),
        cookies.wf(),
    ensures
        r matches Ok(t) && t@ == token_spec(users.order(), cookies.order(), csrf_token@),
{
    let name = user_cookie_name();
    let auth_token = match cookies.get(&name) {
        Some(cookie) => {
            if User::key_exists(users, &cookie.value) {
                csrf_token.clone()
            } else {
                String::from_str("b")
            }
        },
        None => String::from_str("a"),
    };
    Ok(auth_token)
}

/// Looking a user up by id, else by email.
pub open spec fn get_user_spec(
    users: Seq<(Seq<char>, UserView)>,
    email: Option<Seq<char>>,
    nid: Option<Seq<char>>,
) -> Result<UsersView, CrudError> {
    match (nid, email) {
        (Some(n), _) => resp_result(get_spec(users, n)),
        (None, Some(e)) => resp_result(by_email_spec(users, e)),
        (None, None) => Err(CrudError::NotFoundError),
    }
}

/// The public form of the user with id `nid`, or else of the first user with
/// email `email`.
pub fn get_user(email: Option<String>, nid: Option<String>, users: &Tree<User>) -> (r:
    CrudResult<Users>)
    requires
        users.wf(),
    ensures
        res_view(r) == get_user_spec(users.order(), email.deep_view(), nid.deep_view()),
{
    match (nid, email) {
        (Some(n), _) => match User::get(users, &n) {
            Ok(u) => Ok(u.resp()),
            Err(e) => Err(e),
        },
        (_, Some(e)) => match User::get_by_email(users, &e) {
            Ok(u) => Ok(u.resp()),
            Err(err) => Err(err),
        },
        (_, _) => Err(CrudError::NotFoundError),
    }
}

/// The public forms of all users, in ascending key order.
pub fn get_users(users: &Tree<User>) -> (r: CrudResult<Vec<Users>>)
    requires
        users.wf(),
    ensures
        sorted_keys(users.order()),
        r matches Ok(v) && v@.map_values(|x: Users| x@) == users.order().map_values(
            |e: (Seq<char>, UserView)| resp_view(e.1),
        ),
{
    User::get_all(users)
}

} // verus!
