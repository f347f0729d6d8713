use vstd::prelude::*;
use crate::crud::Crud;
use crate::crud::tree::Duplicate;
use super::{dup_strings, same_strings};

verus! {

/// Which operations a grant allows.
#[derive(Clone, Copy, PartialEq, Eq, Structural)]
pub struct Authorizations {
    pub create: bool,
    pub read: bool,
    pub update: bool,
    pub delete: bool,
}

/// A grant: on a whole tree to users and groups, or on one record of a tree.
pub enum Auth {
    TypeAuth {
        user_nids: Vec<String>,
        group_nids: Vec<String>,
        tree: String,
        auths: Authorizations,
    },
    AssetAuth { tree: String, asset_nid: String, auths: Authorizations },
}

/// The requests on grants.
pub enum Auths {
    AuthCreate,
    AuthUpdate,
    AuthDelete,
    AuthGet,
}

/// The abstract form of `Auth`.
#[verifier::ext_equal]
pub enum AuthView {
    TypeAuth {
        user_nids: Seq<Seq<char>>,
        group_nids: Seq<Seq<char>>,
        tree: Seq<char>,
        auths: Authorizations,
    },
    AssetAuth { tree: Seq<char>, asset_nid: Seq<char>, auths: Authorizations },
}

impl View for Auth {
    type V = AuthView;

    open spec fn view(&self) -> AuthView {
        match self {
            Auth::TypeAuth { user_nids, group_nids, tree, auths } => AuthView::TypeAuth {
                user_nids: user_nids.deep_view(),
                group_nids: group_nids.deep_view(),
                tree: tree@,
                auths: *auths,
            },
            Auth::AssetAuth { tree, asset_nid, auths } => AuthView::AssetAuth {
                tree: tree@,
                asset_nid: asset_nid@,
                auths: *auths,
            },
        }
    }
}

impl Duplicate for Auth {
    fn duplicate(&self) -> (r: Auth) {
        match self {
            Auth::TypeAuth { user_nids, group_nids, tree, auths } => Auth::TypeAuth {
                user_nids: dup_strings(user_nids),
                group_nids: dup_strings(group_nids),
                tree: tree.clone(),
                auths: *auths,
            },
            Auth::AssetAuth { tree, asset_nid, auths } => Auth::AssetAuth {
                tree: tree.clone(),
                asset_nid: asset_nid.clone(),
                auths: *auths,
            },
        }
    }
}

impl Crud for Auth {
    fn same(&self, other: &Self) -> (b: bool) {
        match (self, other) {
            (
                Auth::TypeAuth { user_nids: u1, group_nids: g1, tree: t1, auths: a1 },
                Auth::TypeAuth { user_nids: u2, group_nids: g2, tree: t2, auths: a2 },
            ) => {
                let b = same_strings(u1, u2) && same_strings(g1, g2) && *t1 == *t2 && *a1 == *a2;
                proof {
                    if b {
                        assert(self@ =~= other@);
                    }
                }
                b
            },
            (
                Auth::AssetAuth { tree: t1, asset_nid: n1, auths: a1 },
                Auth::AssetAuth { tree: t2, asset_nid: n2, auths: a2 },
            ) => {
                let b = *t1 == *t2 && *n1 == *n2 && *a1 == *a2;
                proof {
                    if b {
                        assert(self@ =~= other@);
                    }
                }
                b
            },
            _ => false,
        }
    }
}

} // verus!
