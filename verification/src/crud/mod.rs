pub mod keys;
pub mod session;
pub mod tree;

use vstd::prelude::*;
use self::session::{SessionCookie, SessionCookieView, private_cookie};
use self::tree::{
    Duplicate, Tree, extends, has_key, lemma_extends_refl, lemma_put, lemma_remove, key_pos,
    lookup, seq_put, seq_remove, sorted_keys,
};

verus! {

/// Why a request on the trees was refused.
#[derive(Debug, Clone, Copy, PartialEq, Eq, Structural)]
pub enum CrudError {
    ExistsError,
    NotFoundError,
    ForbiddenError,
    TokenError,
}

pub type CrudResult<T> = Result<T, CrudError>;

/// A result, with the value taken by its view.
pub open spec fn res_view<T: View>(r: CrudResult<T>) -> Result<T::V, CrudError> {
    match r {
        Ok(v) => Ok(v@),
        Err(e) => Err(e),
    }
}

/// Reading a key: its value, or `NotFoundError`.
pub open spec fn get_spec<W>(s: Seq<(Seq<char>, W)>, k: Seq<char>) -> Result<W, CrudError> {
    if has_key(s, k) {
        Ok(lookup(s, k))
    } else {
        Err(CrudError::NotFoundError)
    }
}

/// Creating under a key: refused with `ExistsError` where the key is taken,
/// else the value is added where its key belongs in key order.
pub open spec fn new_spec<W>(s: Seq<(Seq<char>, W)>, k: Seq<char>, w: W) -> (
    Result<W, CrudError>,
    Seq<(Seq<char>, W)>,
) {
    if has_key(s, k) {
        (Err(CrudError::ExistsError), s)
    } else {
        (Ok(w), seq_put(s, k, w))
    }
}

/// Replacing under a key: refused with `NotFoundError` where the key is
/// absent, else the value replaces the stored one.
pub open spec fn update_spec<W>(s: Seq<(Seq<char>, W)>, k: Seq<char>, w: W) -> (
    Result<W, CrudError>,
    Seq<(Seq<char>, W)>,
) {
    if has_key(s, k) {
        (Ok(w), seq_put(s, k, w))
    } else {
        (Err(CrudError::NotFoundError), s)
    }
}

/// Deleting under a key: refused with `NotFoundError` where the key is
/// absent; the entry goes only where the stored value is the one given.
pub open spec fn delete_spec<W>(s: Seq<(Seq<char>, W)>, k: Seq<char>, w: W) -> (
    Result<W, CrudError>,
    Seq<(Seq<char>, W)>,
) {
    if has_key(s, k) {
        if lookup(s, k) == w {
            (Ok(w), seq_remove(s, k))
        } else {
            (Ok(w), s)
        }
    } else {
        (Err(CrudError::NotFoundError), s)
    }
}

/// Opening a session on a record: where the key is present, the private
/// cookie `name` is set to `value` (secure, http-only, same-site lax) and the
/// record is returned.
pub open spec fn add_private_spec<W>(
    s: Seq<(Seq<char>, W)>,
    cookies: Seq<(Seq<char>, SessionCookieView)>,
    name: Seq<char>,
    k: Seq<char>,
    value: Seq<char>,
) -> (Result<W, CrudError>, Seq<(Seq<char>, SessionCookieView)>) {
    if has_key(s, k) {
        (Ok(lookup(s, k)), seq_put(cookies, name, private_cookie(value)))
    } else {
        (Err(CrudError::NotFoundError), cookies)
    }
}

/// Records kept in a tree, keyed by a string.
pub trait Crud: Duplicate {
    /// Whether two records are the same record.
    fn same(&self, other: &Self) -> (b: bool)
        ensures
            b == (self@ == other@),
    ;

    fn key_exists(tree: &Tree<Self>, key: &String) -> (b: bool)
        requires
            tree.wf(),
        ensures
            b == has_key(tree.order(), key@),
    {
        tree.contains_key(key)
    }

    fn new(self, tree: &mut Tree<Self>, key: &String) -> (r: CrudResult<Self>)
        requires
            old(tree).wf(),
        ensures
            extends(*old(tree), *final(tree)),
            (res_view(r), final(tree).order()) == new_spec(old(tree).order(), key@, self@),
    {
        proof {
            lemma_extends_refl(*tree);
        }
        if tree.contains_key(key) {
            Err(CrudError::ExistsError)
        } else {
            tree.insert_new(key.clone(), self.duplicate());
            Ok(self)
        }
    }

    fn get(tree: &Tree<Self>, key: &String) -> (r: CrudResult<Self>)
        requires
            tree.wf(),
        ensures
            res_view(r) == get_spec(tree.order(), key@),
    {
        match tree.get(key) {
            Some(v) => Ok(v.duplicate()),
            None => Err(CrudError::NotFoundError),
        }
    }

    /// All keys with their records, in ascending key order.
    fn obj_iter(tree: &Tree<Self>) -> (r: CrudResult<Vec<(String, Self)>>)
        requires
            tree.wf(),
        ensures
            sorted_keys(tree.order()),
            r matches Ok(v) && v@.map_values(|x: (String, Self)| (x.0@, x.1@)) == tree.order(),
    {
        proof {
            tree.lemma_wf();
        }
        let n = tree.len();
        let mut out: Vec<(String, Self)> = Vec::new();
        let mut i: usize = 0;
        while i < n
            invariant
                n == tree.order().len(),
                i <= n,
                out@.len() == i,
                forall|j: int|
                    0 <= j < i ==> (#[trigger] out@[j].0@, out@[j].1@) == tree.order()[j],
            decreases n - i,
        {
            out.push((tree.key_at(i).clone(), tree.value_at(i).duplicate()));
            i = i + 1;
        }
        assert(out@.map_values(|x: (String, Self)| (x.0@, x.1@)) =~= tree.order());
        Ok(out)
    }

    fn update(self, tree: &mut Tree<Self>, key: &String) -> (r: CrudResult<Self>)
        requires
            old(tree).wf(),
        ensures
            extends(*old(tree), *final(tree)),
            (res_view(r), final(tree).order()) == update_spec(old(tree).order(), key@, self@),
    {
        proof {
            lemma_extends_refl(*tree);
        }
        if tree.contains_key(key) {
            tree.put(key.clone(), self.duplicate());
            Ok(self)
        } else {
            Err(CrudError::NotFoundError)
        }
    }

    fn delete(self, tree: &mut Tree<Self>, key: &String) -> (r: CrudResult<Self>)
        requires
            old(tree).wf(),
        ensures
            extends(*old(tree), *final(tree)),
            (res_view(r), final(tree).order()) == delete_spec(old(tree).order(), key@, self@),
    {
        proof {
            lemma_extends_refl(*tree);
        }
        match tree.get(key) {
            Some(current) => {
                if current.same(&self) {
                    let expected = current.duplicate();
                    tree.remove_matching(key, expected);
                }
                Ok(self)
            },
            None => Err(CrudError::NotFoundError),
        }
    }

    /// Where `key` is present, sets the private cookie `name` to `value`,
    /// secure, http-only and same-site lax, and returns the record.
    fn add_private(
        tree: &Tree<Self>,
        cookies: &mut Tree<SessionCookie>,
        name: &String,
        key: &String,
        value: String,
    ) -> (r: CrudResult<Self>)
        requires
            tree.wf(),
            old(cookies).wf(),
        ensures
            extends(*old(cookies), *final(cookies)),
            (res_view(r), final(cookies).order()) == add_private_spec(
                tree.order(),
                old(cookies).order(),
                name@,
                key@,
                value@,
            ),
    {
        proof {
            lemma_extends_refl(*cookies);
        }
        match tree.get(key) {
            Some(v) => {
                cookies.put(name.clone(), SessionCookie::private(value));
                Ok(v.duplicate())
            },
            None => Err(CrudError::NotFoundError),
        }
    }
}

/// A record created under a free key is read back as created, and every
/// other key reads as before.
pub proof fn lemma_new_then_get<W>(s: Seq<(Seq<char>, W)>, k: Seq<char>, w: W)
    requires
        sorted_keys(s),
        !has_key(s, k),
    ensures
        new_spec(s, k, w).0 == Ok::<W, CrudError>(w),
        sorted_keys(new_spec(s, k, w).1),
        get_spec(new_spec(s, k, w).1, k) == Ok::<W, CrudError>(w),
        forall|k2: Seq<char>| k2 != k ==> get_spec(new_spec(s, k, w).1, k2) == get_spec(s, k2),
{
    assert(new_spec(s, k, w).1 == seq_put(s, k, w));
    lemma_put(s, k, w);
}

/// Creating twice under one key: the second creation is refused with
/// `ExistsError` and leaves the first record in place.
pub proof fn lemma_new_twice<W>(s: Seq<(Seq<char>, W)>, k: Seq<char>, w1: W, w2: W)
    requires
        sorted_keys(s),
        !has_key(s, k),
    ensures
        new_spec(new_spec(s, k, w1).1, k, w2) == (
            Err::<W, CrudError>(CrudError::ExistsError),
            new_spec(s, k, w1).1,
        ),
{
    lemma_new_then_get(s, k, w1);
}

/// A record updated under a present key is read back as written, every
/// other key reads as before, and keys stay distinct.
pub proof fn lemma_update_then_get<W>(s: Seq<(Seq<char>, W)>, k: Seq<char>, w: W)
    requires
        sorted_keys(s),
        has_key(s, k),
    ensures
        update_spec(s, k, w).0 == Ok::<W, CrudError>(w),
        sorted_keys(update_spec(s, k, w).1),
        get_spec(update_spec(s, k, w).1, k) == Ok::<W, CrudError>(w),
        forall|k2: Seq<char>| k2 != k ==> get_spec(update_spec(s, k, w).1, k2) == get_spec(s, k2),
{
    lemma_put(s, k, w);
}

/// Writing back the value a key already holds changes nothing.
pub proof fn lemma_update_same<W>(s: Seq<(Seq<char>, W)>, k: Seq<char>)
    requires
        has_key(s, k),
    ensures
        update_spec(s, k, lookup(s, k)) == (Ok::<W, CrudError>(lookup(s, k)), s),
{
    let p = key_pos(s, k);
    assert(s[p].0 == k);
    assert(s.update(p, (k, lookup(s, k))) =~= s);
}

/// Deleting the record a key holds removes it: the key then reads as
/// `NotFoundError`, and every other key reads as before.
pub proof fn lemma_delete_then_get<W>(s: Seq<(Seq<char>, W)>, k: Seq<char>)
    requires
        sorted_keys(s),
        has_key(s, k),
    ensures
        delete_spec(s, k, lookup(s, k)).0 == Ok::<W, CrudError>(lookup(s, k)),
        get_spec(delete_spec(s, k, lookup(s, k)).1, k) == Err::<W, CrudError>(
            CrudError::NotFoundError,
        ),
        forall|k2: Seq<char>|
            k2 != k ==> get_spec(delete_spec(s, k, lookup(s, k)).1, k2) == get_spec(s, k2),
{
    lemma_remove(s, k);
}

/// Deleting with a record other than the stored one keeps the stored one.
pub proof fn lemma_delete_other<W>(s: Seq<(Seq<char>, W)>, k: Seq<char>, w: W)
    requires
        has_key(s, k),
        lookup(s, k) != w,
    ensures
        delete_spec(s, k, w) == (Ok::<W, CrudError>(w), s),
{
}

} // verus!
