use vstd::prelude::*;
use crate::crud::session::{SessionCookie, SessionCookieView};
use crate::crud::{Crud, CrudError, CrudResult, get_spec, new_spec, res_view, update_spec};
use crate::crud::tree::{
    Duplicate, Tree, extends, has_key, lemma_extends_refl, lookup, sorted_keys,
};
use crate::ids::{NID_LEN, new_nid, nid_shape};
use super::{dup_opt, dup_strings, same_opt, same_strings, user_cookie, user_cookie_name};

verus! {

/// A request on groups, or the public form of a group.
pub enum Groups {
    GroupCreate { name: String, description: Option<String> },
    GroupDelete,
    GroupResp { name: String, description: Option<String>, members: Vec<String> },
    AddUser { group_nid: String, user_nid: String },
}

/// The abstract form of `Groups`.
pub enum GroupsView {
    GroupCreate { name: Seq<char>, description: Option<Seq<char>> },
    GroupDelete,
    GroupResp { name: Seq<char>, description: Option<Seq<char>>, members: Seq<Seq<char>> },
    AddUser { group_nid: Seq<char>, user_nid: Seq<char> },
}

impl View for Groups {
    type V = GroupsView;

    open spec fn view(&self) -> GroupsView {
        match self {
            Groups::GroupCreate { name, description } => GroupsView::GroupCreate {
                name: name@,
                description: description.deep_view(),
            },
            Groups::GroupDelete => GroupsView::GroupDelete,
            Groups::GroupResp { name, description, members } => GroupsView::GroupResp {
                name: name@,
                description: description.deep_view(),
                members: members.deep_view(),
            },
            Groups::AddUser { group_nid, user_nid } => GroupsView::AddUser {
                group_nid: group_nid@,
                user_nid: user_nid@,
            },
        }
    }
}

/// A stored group: its id, the id of the user who made it, its members' ids.
pub struct Group {
    pub nid: String,
    pub user_nid: String,
    pub members: Vec<String>,
    pub name: String,
    pub description: Option<String>,
}

/// The abstract form of `Group`.
#[verifier::ext_equal]
pub struct GroupView {
    pub nid: Seq<char>,
    pub user_nid: Seq<char>,
    pub members: Seq<Seq<char>>,
    pub name: Seq<char>,
    pub description: Option<Seq<char>>,
}

impl View for Group {
    type V = GroupView;

    open spec fn view(&self) -> GroupView {
        GroupView {
            nid: self.nid@,
            user_nid: self.user_nid@,
            members: self.members.deep_view(),
            name: self.name@,
            description: self.description.deep_view(),
        }
    }
}

impl Duplicate for Group {
    fn duplicate(&self) -> (r: Group) {
        Group {
            nid: self.nid.clone(),
            user_nid: self.user_nid.clone(),
            members: dup_strings(&self.members),
            name: self.name.clone(),
            description: dup_opt(&self.description),
        }
    }
}

impl Crud for Group {
    fn same(&self, other: &Self) -> (b: bool) {
        let b = self.nid == other.nid && self.user_nid == other.user_nid && same_strings(
            &self.members,
            &other.members,
        ) && self.name == other.name && same_opt(&self.description, &other.description);
        proof {
            if b {
                assert(self@ =~= other@);
            }
        }
        b
    }
}

/// The public form of a group: name, description and members.
pub open spec fn group_resp_view(g: GroupView) -> GroupsView {
    GroupsView::GroupResp { name: g.name, description: g.description, members: g.members }
}

/// A result carrying a group, with the group turned into its public form.
pub open spec fn group_resp_result(r: Result<GroupView, CrudError>) -> Result<
    GroupsView,
    CrudError,
> {
    match r {
        Ok(g) => Ok(group_resp_view(g)),
        Err(e) => Err(e),
    }
}

/// `g` with `nid` added at the end of its members.
pub open spec fn with_member(g: GroupView, nid: Seq<char>) -> GroupView {
    GroupView { members: g.members.push(nid), ..g }
}

/// Adding a member to `g`: refused with `ExistsError` where `nid` is a member
/// already; else the group with the new member is written back under the key
/// `nid`, the id of the member being added, which must be a key of the tree.
pub open spec fn add_user_spec(
    groups: Seq<(Seq<char>, GroupView)>,
    g: GroupView,
    nid: Seq<char>,
) -> (Result<GroupsView, CrudError>, Seq<(Seq<char>, GroupView)>) {
    if g.members.contains(nid) {
        (Err(CrudError::ExistsError), groups)
    } else {
        let (r, s) = update_spec(groups, nid, with_member(g, nid));
        (group_resp_result(r), s)
    }
}

/// A new group `nid` made by the signed-in user, who is its only member;
/// refused with `ForbiddenError` where there is no session cookie.
pub open spec fn create_group_spec(
    groups: Seq<(Seq<char>, GroupView)>,
    cookies: Seq<(Seq<char>, SessionCookieView)>,
    name: Seq<char>,
    description: Option<Seq<char>>,
    nid: Seq<char>,
) -> (Result<GroupsView, CrudError>, Seq<(Seq<char>, GroupView)>) {
    if !has_key(cookies, user_cookie()) {
        (Err(CrudError::ForbiddenError), groups)
    } else {
        let owner = lookup(cookies, user_cookie()).value;
        let g = GroupView { nid, user_nid: owner, members: seq![owner], name, description };
        let (r, s) = new_spec(groups, nid, g);
        (group_resp_result(r), s)
    }
}

/// What a request on groups answers and leaves in the group tree, given the
/// id `nid` a creation draws.
pub open spec fn post_group_spec(
    req: GroupsView,
    groups: Seq<(Seq<char>, GroupView)>,
    cookies: Seq<(Seq<char>, SessionCookieView)>,
    nid: Seq<char>,
) -> (Result<GroupsView, CrudError>, Seq<(Seq<char>, GroupView)>) {
    match req {
        GroupsView::GroupCreate { name, description } => create_group_spec(
            groups,
            cookies,
            name,
            description,
            nid,
        ),
        GroupsView::AddUser { group_nid, user_nid } => match get_spec(groups, group_nid) {
            Ok(g) => add_user_spec(groups, g, user_nid),
            Err(e) => (Err(e), groups),
        },
        _ => (Err(CrudError::NotFoundError), groups),
    }
}

impl Group {
    /// Whether `nid` is one of the members.
    pub fn is_member(&self, nid: String) -> (b: bool)
        ensures
            b == self@.members.contains(nid@),
    {
        let mut i: usize = 0;
        while i < self.members.len()
            invariant
                i <= self.members@.len(),
                forall|j: int| 0 <= j < i ==> #[trigger] self.members@[j]@ != nid@,
            decreases self.members@.len() - i,
        {
            if self.members[i] == nid {
                assert(self@.members[i as int] == nid@);
                return true;
            }
            i = i + 1;
        }
        proof {
            if self@.members.contains(nid@) {
                let j = choose|j: int| 0 <= j < self@.members.len() && self@.members[j] == nid@;
                assert(self.members@[j]@ == nid@);
            }
        }
        false
    }

    /// Adds `nid` to the members and writes the group back under the key
    /// `nid`.
    pub fn add_user(&self, groups: &mut Tree<Group>, nid: String) -> (r: CrudResult<Groups>)
        requires
            old(groups).wf(),
        ensures
            extends(*old(groups), *final(groups)),
            (res_view(r), final(groups).order()) == add_user_spec(
                old(groups).order(),
                self@,
                nid@,
            ),
    {
        proof {
            lemma_extends_refl(*groups);
        }
        if !self.is_member(nid.clone()) {
            let mut s = self.duplicate();
            s.members.push(nid.clone());
            assert(s@ =~= with_member(self@, nid@));
            match s.update(groups, &nid) {
                Ok(g) => Ok(g.resp()),
                Err(e) => Err(e),
            }
        } else {
            Err(CrudError::ExistsError)
        }
    }

    /// The public form of this group.
    pub fn resp(&self) -> (r: Groups)
        ensures
            r@ == group_resp_view(self@),
    {
        Groups::GroupResp {
            name: self.name.clone(),
            description: dup_opt(&self.description),
            members: dup_strings(&self.members),
        }
    }

    /// The public forms of all groups, in ascending key order.
    pub fn get_all(groups: &Tree<Group>) -> (r: CrudResult<Vec<Groups>>)
        requires
            groups.wf(),
        ensures
            sorted_keys(groups.order()),
            r matches Ok(v) && v@.map_values(|x: Groups| x@) == groups.order().map_values(
                |e: (Seq<char>, GroupView)| group_resp_view(e.1),
            ),
    {
        proof {
            groups.lemma_wf();
        }
        let n = groups.len();
        let mut out: Vec<Groups> = Vec::new();
        let mut i: usize = 0;
        while i < n
            invariant
                n == groups.order().len(),
                i <= n,
                out@.len() == i,
                forall|j: int|
                    0 <= j < i ==> #[trigger] out@[j]@ == group_resp_view(groups.order()[j].1),
            decreases n - i,
        {
            out.push(groups.value_at(i).resp());
            i = i + 1;
        }
        assert(out@.map_values(|x: Groups| x@) =~= groups.order().map_values(
            |e: (Seq<char>, GroupView)| group_resp_view(e.1),
        ));
        Ok(out)
    }
}

/// Makes the group `nid`, owned by the signed-in user and with that user as
/// its only member, and answers with its public form.
pub fn create_group(
    name: String,
    description: Option<String>,
    nid: String,
    groups: &mut Tree<Group>,
    cookies: &Tree<SessionCookie>,
) -> (r: CrudResult<Groups>)
    requires
        old(groups).wf(),
        cookies.wf(),
    ensures
        extends(*old(groups), *final(groups)),
        (res_view(r), final(groups).order()) == create_group_spec(
            old(groups).order(),
            cookies.order(),
            name@,
            description.deep_view(),
            nid@,
        ),
{
    proof {
        lemma_extends_refl(*groups);
    }
    let cookie_name = user_cookie_name();
    let user_nid = match cookies.get(&cookie_name) {
        Some(c) => c.value.clone(),
        None => return Err(CrudError::ForbiddenError),
    };
    let mut members: Vec<String> = Vec::new();
    members.push(user_nid.clone());
    let key = nid.clone();
    let g = Group { nid, user_nid, members, name, description };
    assert(g@.members =~= seq![lookup(cookies.order(), user_cookie()).value]);
    match g.new(groups, &key) {
        Ok(g) => Ok(g.resp()),
        Err(e) => Err(e),
    }
}

/// Handles a request on groups: making one, or adding a member to one.
/// `cookies` is the session's private cookie jar. Making a group draws a
/// fresh id; whatever it is, the answer and the tree are those of
/// `post_group_spec` for some id of `NID_LEN` characters of nanoid's alphabet.
pub fn post_group(group: Groups, groups: &mut Tree<Group>, cookies: &Tree<SessionCookie>) -> (r:
    CrudResult<Groups>)
    requires
        old(groups).wf(),
        cookies.wf(),
    ensures
        extends(*old(groups), *final(groups)),
        exists|nid: Seq<char>|
            #![trigger post_group_spec(group@, old(groups).order(), cookies.order(), nid)]
            (group@ is GroupCreate ==> nid_shape(nid, NID_LEN as nat)) && (
            res_view(r),
            final(groups).order(),
        ) == post_group_spec(group@, old(groups).order(), cookies.order(), nid),
{
    proof {
        lemma_extends_refl(*groups);
    }
    let ghost req = group@;
    let ghost g0 = groups.order();
    let ghost empty = Seq::<char>::empty();
    match group {
        Groups::GroupCreate { name, description } => {
            let nid = new_nid();
            let ghost n = nid@;
            let r = create_group(name, description, nid, groups, cookies);
            assert(post_group_spec(req, g0, cookies.order(), n).0 == res_view(r));
            r
        },
        Groups::AddUser { group_nid, user_nid } => {
            let g = match Group::get(groups, &group_nid) {
                Ok(g) => g,
                Err(e) => {
                    assert(post_group_spec(req, g0, cookies.order(), empty).0 == res_view(
                        Err::<Groups, CrudError>(e),
                    ));
                    return Err(e);
                },
            };
            let r = g.add_user(groups, user_nid);
            assert(post_group_spec(req, g0, cookies.order(), empty).0 == res_view(r));
            r
        },
        _ => {
            assert(post_group_spec(req, g0, cookies.order(), empty).0 == res_view(
                Err::<Groups, CrudError>(CrudError::NotFoundError),
            ));
            Err(CrudError::NotFoundError)
        },
    }
}

/// The public form of the group with id `nid`.
pub fn get_group(nid: String, groups: &Tree<Group>) -> (r: CrudResult<Groups>)
    requires
        groups.wf(),
    ensures
        res_view(r) == group_resp_result(get_spec(groups.order(), nid@)),
{
    match Group::get(groups, &nid) {
        Ok(g) => Ok(g.resp()),
        Err(e) => Err(e),
    }
}

/// The public forms of all groups, in ascending key order.
pub fn get_groups(groups: &Tree<Group>) -> (r: CrudResult<Vec<Groups>>)
    requires
        groups.wf(),
    ensures
        sorted_keys(groups.order()),
        r matches Ok(v) && v@.map_values(|x: Groups| x@) == groups.order().map_values(
            |e: (Seq<char>, GroupView)| group_resp_view(e.1),
        ),
{
    Group::get_all(groups)
}

} // verus!
