use vstd::prelude::*;
use super::keys::{key_less, key_lt, lemma_key_lt_asymmetric, lemma_key_lt_irreflexive, lemma_key_lt_total, lemma_key_lt_transitive};

verus! {

/// One change to a tree, in the form the backing store applies it.
pub enum Write<V> {
    /// Store a record under a key that held none (compare-and-swap from empty).
    Create(String, V),
    /// Store a record under a key, replacing any record there.
    Put(String, V),
    /// Remove the record under a key.
    Remove(String),
    /// Remove the record under a key where it is the given one
    /// (compare-and-swap to empty).
    RemoveIf(String, V),
}

/// The abstract form of a `Write`.
pub enum WriteView<W> {
    Create(Seq<char>, W),
    Put(Seq<char>, W),
    Remove(Seq<char>),
    RemoveIf(Seq<char>, W),
}

impl<V: View> View for Write<V> {
    type V = WriteView<V::V>;

    open spec fn view(&self) -> WriteView<V::V> {
        match self {
            Write::Create(k, v) => WriteView::Create(k@, v@),
            Write::Put(k, v) => WriteView::Put(k@, v@),
            Write::Remove(k) => WriteView::Remove(k@),
            Write::RemoveIf(k, v) => WriteView::RemoveIf(k@, v@),
        }
    }
}

/// Some entry of `s` has key `k`.
pub open spec fn has_key<W>(s: Seq<(Seq<char>, W)>, k: Seq<char>) -> bool {
    exists|i: int| #![trigger s[i]] 0 <= i < s.len() && s[i].0 == k
}

/// The position of an entry with key `k`.
pub open spec fn key_pos<W>(s: Seq<(Seq<char>, W)>, k: Seq<char>) -> int {
    choose|i: int| #![trigger s[i]] 0 <= i < s.len() && s[i].0 == k
}

/// The value stored under `k`.
pub open spec fn lookup<W>(s: Seq<(Seq<char>, W)>, k: Seq<char>) -> W {
    s[key_pos(s, k)].1
}

/// No key occurs twice.
pub open spec fn distinct_keys<W>(s: Seq<(Seq<char>, W)>) -> bool {
    forall|i: int, j: int|
        #![trigger s[i], s[j]]
        0 <= i < s.len() && 0 <= j < s.len() && i != j ==> s[i].0 != s[j].0
}

/// Keys strictly ascending in byte order, as the store keeps them.
pub open spec fn sorted_keys<W>(s: Seq<(Seq<char>, W)>) -> bool {
    forall|i: int, j: int| #![trigger s[i], s[j]] 0 <= i < j < s.len() ==> key_lt(s[i].0, s[j].0)
}

/// The number of leading entries whose keys come before `k`: where a new
/// entry with key `k` goes.
pub open spec fn ins_pos<W>(s: Seq<(Seq<char>, W)>, k: Seq<char>) -> int
    decreases s.len(),
{
    if s.len() == 0 {
        0
    } else if key_lt(s[0].0, k) {
        1 + ins_pos(s.drop_first(), k)
    } else {
        0
    }
}

/// Storing `w` under `k`: replaces the value in place, or inserts a new entry
/// where its key belongs in key order.
pub open spec fn seq_put<W>(s: Seq<(Seq<char>, W)>, k: Seq<char>, w: W) -> Seq<(Seq<char>, W)> {
    if has_key(s, k) {
        s.update(key_pos(s, k), (k, w))
    } else {
        s.insert(ins_pos(s, k), (k, w))
    }
}

/// Removing the entry with key `k`, if there is one.
pub open spec fn seq_remove<W>(s: Seq<(Seq<char>, W)>, k: Seq<char>) -> Seq<(Seq<char>, W)> {
    if has_key(s, k) {
        s.remove(key_pos(s, k))
    } else {
        s
    }
}

pub open spec fn apply_write<W>(s: Seq<(Seq<char>, W)>, w: WriteView<W>) -> Seq<(Seq<char>, W)> {
    match w {
        WriteView::Create(k, v) => if has_key(s, k) {
            s
        } else {
            seq_put(s, k, v)
        },
        WriteView::Put(k, v) => seq_put(s, k, v),
        WriteView::Remove(k) => seq_remove(s, k),
        WriteView::RemoveIf(k, v) => if has_key(s, k) && lookup(s, k) == v {
            seq_remove(s, k)
        } else {
            s
        },
    }
}

/// The entries that result from applying `log`, in order, to `s`.
pub open spec fn apply_writes<W>(s: Seq<(Seq<char>, W)>, log: Seq<WriteView<W>>) -> Seq<
    (Seq<char>, W),
>
    decreases log.len(),
{
    if log.len() == 0 {
        s
    } else {
        apply_write(apply_writes(s, log.drop_last()), log.last())
    }
}

/// Ascending keys are distinct.
pub proof fn lemma_sorted_distinct<W>(s: Seq<(Seq<char>, W)>)
    requires
        sorted_keys(s),
    ensures
        distinct_keys(s),
{
    assert forall|i: int, j: int|
        #![trigger s[i], s[j]]
        0 <= i < s.len() && 0 <= j < s.len() && i != j implies s[i].0 != s[j].0 by {
        lemma_key_lt_irreflexive(s[i].0);
    }
}

/// With distinct keys, the entry found at `i` is the one `lookup` reads.
pub proof fn lemma_key_pos<W>(s: Seq<(Seq<char>, W)>, i: int)
    requires
        distinct_keys(s),
        0 <= i < s.len(),
    ensures
        has_key(s, s[i].0),
        key_pos(s, s[i].0) == i,
        lookup(s, s[i].0) == s[i].1,
{
    let k = s[i].0;
    assert(has_key(s, k));
    let p = key_pos(s, k);
    assert(s[p].0 == k);
}

/// Where an absent key goes: every key before that position comes before it,
/// every key from that position on comes after it.
pub proof fn lemma_ins_pos<W>(s: Seq<(Seq<char>, W)>, k: Seq<char>)
    requires
        sorted_keys(s),
        !has_key(s, k),
    ensures
        0 <= ins_pos(s, k) <= s.len(),
        forall|j: int| 0 <= j < ins_pos(s, k) ==> key_lt(#[trigger] s[j].0, k),
        forall|j: int| ins_pos(s, k) <= j < s.len() ==> key_lt(k, #[trigger] s[j].0),
    decreases s.len(),
{
    if s.len() > 0 {
        let t = s.drop_first();
        assert forall|i: int, j: int| #![trigger t[i], t[j]] 0 <= i < j < t.len() implies key_lt(
            t[i].0,
            t[j].0,
        ) by {
            assert(t[i] == s[i + 1] && t[j] == s[j + 1]);
        }
        if has_key(t, k) {
            let q = key_pos(t, k);
            assert(t[q] == s[q + 1]);
        }
        lemma_ins_pos(t, k);
        if key_lt(s[0].0, k) {
            assert forall|j: int| 0 <= j < ins_pos(s, k) implies key_lt(#[trigger] s[j].0, k) by {
                if j > 0 {
                    assert(s[j] == t[j - 1]);
                }
            }
            assert forall|j: int| ins_pos(s, k) <= j < s.len() implies key_lt(
                k,
                #[trigger] s[j].0,
            ) by {
                assert(s[j] == t[j - 1]);
            }
        } else {
            assert(s[0].0 != k);
            lemma_key_lt_total(s[0].0, k);
            assert forall|j: int| ins_pos(s, k) <= j < s.len() implies key_lt(
                k,
                #[trigger] s[j].0,
            ) by {
                if j > 0 {
                    assert(key_lt(s[0].0, s[j].0));
                    lemma_key_lt_transitive(k, s[0].0, s[j].0);
                }
            }
        }
    }
}

/// Storing under a key: afterwards the key is present with the stored value,
/// every other key keeps its presence and its value, and keys stay ascending.
pub proof fn lemma_put<W>(s: Seq<(Seq<char>, W)>, k: Seq<char>, w: W)
    requires
        sorted_keys(s),
    ensures
        sorted_keys(seq_put(s, k, w)),
        has_key(seq_put(s, k, w), k),
        lookup(seq_put(s, k, w), k) == w,
        forall|k2: Seq<char>|
            k2 != k ==> (has_key(seq_put(s, k, w), k2) == has_key(s, k2)) && (has_key(s, k2)
                ==> lookup(seq_put(s, k, w), k2) == lookup(s, k2)),
{
    let t = seq_put(s, k, w);
    lemma_sorted_distinct(s);
    if has_key(s, k) {
        let p = key_pos(s, k);
        assert(s[p].0 == k);
        assert forall|i: int, j: int| #![trigger t[i], t[j]] 0 <= i < j < t.len() implies key_lt(
            t[i].0,
            t[j].0,
        ) by {
            assert(t[i].0 == s[i].0 && t[j].0 == s[j].0);
        }
        lemma_sorted_distinct(t);
        lemma_key_pos(t, p);
        assert forall|k2: Seq<char>| k2 != k implies (has_key(t, k2) == has_key(s, k2)) && (
        has_key(s, k2) ==> lookup(t, k2) == lookup(s, k2)) by {
            if has_key(s, k2) {
                let q = key_pos(s, k2);
                assert(s[q].0 == k2);
                assert(q != p);
                assert(t[q] == s[q]);
                lemma_key_pos(t, q);
            }
            if has_key(t, k2) {
                let q = key_pos(t, k2);
                assert(t[q].0 == k2);
                assert(q != p);
                assert(t[q] == s[q]);
            }
        }
    } else {
        lemma_ins_pos(s, k);
        let p = ins_pos(s, k);
        s.insert_ensures(p, (k, w));
        assert forall|i: int| 0 <= i < t.len() implies #[trigger] t[i] == (if i < p {
            s[i]
        } else if i == p {
            (k, w)
        } else {
            s[i - 1]
        }) by {
            if i > p {
                assert(t[(i - 1) + 1] == s[i - 1]);
            }
        }
        assert forall|i: int, j: int| #![trigger t[i], t[j]] 0 <= i < j < t.len() implies key_lt(
            t[i].0,
            t[j].0,
        ) by {
            if i < p && j < p {
                assert(key_lt(s[i].0, s[j].0));
            } else if i < p && j == p {
            } else if i < p {
                assert(key_lt(s[i].0, k));
                assert(key_lt(k, s[j - 1].0));
                lemma_key_lt_transitive(s[i].0, k, s[j - 1].0);
            } else if i == p {
                assert(key_lt(k, s[j - 1].0));
            } else {
                assert(key_lt(s[i - 1].0, s[j - 1].0));
            }
        }
        lemma_sorted_distinct(t);
        lemma_key_pos(t, p);
        assert forall|k2: Seq<char>| k2 != k implies (has_key(t, k2) == has_key(s, k2)) && (
        has_key(s, k2) ==> lookup(t, k2) == lookup(s, k2)) by {
            if has_key(s, k2) {
                let q = key_pos(s, k2);
                assert(s[q].0 == k2);
                let tq = if q < p { q } else { q + 1 };
                assert(t[tq] == s[q]);
                lemma_key_pos(t, tq);
            }
            if has_key(t, k2) {
                let q = key_pos(t, k2);
                assert(t[q].0 == k2);
                assert(q != p);
                let sq = if q < p { q } else { q - 1 };
                assert(t[q] == s[sq]);
            }
        }
    }
}

/// A property of every entry survives storing an entry that has it too.
pub proof fn lemma_put_preserves<W>(
    s: Seq<(Seq<char>, W)>,
    k: Seq<char>,
    w: W,
    p: spec_fn((Seq<char>, W)) -> bool,
)
    requires
        forall|i: int| 0 <= i < s.len() ==> p(#[trigger] s[i]),
        p((k, w)),
    ensures
        forall|i: int| 0 <= i < seq_put(s, k, w).len() ==> p(#[trigger] seq_put(s, k, w)[i]),
{
    let t = seq_put(s, k, w);
    if has_key(s, k) {
        assert forall|i: int| 0 <= i < t.len() implies p(#[trigger] t[i]) by {
            if i != key_pos(s, k) {
                assert(t[i] == s[i]);
            }
        }
    } else {
        let q = ins_pos(s, k);
        if 0 <= q <= s.len() {
            s.insert_ensures(q, (k, w));
            assert forall|i: int| 0 <= i < t.len() implies p(#[trigger] t[i]) by {
                if i > q {
                    assert(t[(i - 1) + 1] == s[i - 1]);
                } else if i < q {
                    assert(t[i] == s[i]);
                }
            }
        } else {
            lemma_ins_pos_range(s, k);
        }
    }
}

/// `ins_pos` is a position of the sequence.
pub proof fn lemma_ins_pos_range<W>(s: Seq<(Seq<char>, W)>, k: Seq<char>)
    ensures
        0 <= ins_pos(s, k) <= s.len(),
    decreases s.len(),
{
    if s.len() > 0 {
        lemma_ins_pos_range(s.drop_first(), k);
    }
}

/// A property of every entry survives removing an entry.
pub proof fn lemma_remove_preserves<W>(
    s: Seq<(Seq<char>, W)>,
    k: Seq<char>,
    p: spec_fn((Seq<char>, W)) -> bool,
)
    requires
        forall|i: int| 0 <= i < s.len() ==> p(#[trigger] s[i]),
    ensures
        forall|i: int| 0 <= i < seq_remove(s, k).len() ==> p(#[trigger] seq_remove(s, k)[i]),
{
    let t = seq_remove(s, k);
    if has_key(s, k) {
        let q = key_pos(s, k);
        assert(s[q].0 == k);
        assert forall|i: int| 0 <= i < t.len() implies p(#[trigger] t[i]) by {
            if i < q {
                assert(t[i] == s[i]);
            } else {
                assert(t[i] == s[i + 1]);
            }
        }
    }
}

/// Removing a key: afterwards it is absent, every other key keeps its
/// presence and its value, and keys stay ascending.
pub proof fn lemma_remove<W>(s: Seq<(Seq<char>, W)>, k: Seq<char>)
    requires
        sorted_keys(s),
    ensures
        sorted_keys(seq_remove(s, k)),
        !has_key(seq_remove(s, k), k),
        forall|k2: Seq<char>|
            k2 != k ==> (has_key(seq_remove(s, k), k2) == has_key(s, k2)) && (has_key(s, k2)
                ==> lookup(seq_remove(s, k), k2) == lookup(s, k2)),
{
    lemma_sorted_distinct(s);
    let t = seq_remove(s, k);
    if has_key(s, k) {
        let p = key_pos(s, k);
        assert(s[p].0 == k);
        assert(t.len() == s.len() - 1);
        assert forall|i: int| 0 <= i < t.len() implies #[trigger] t[i] == (if i < p {
            s[i]
        } else {
            s[i + 1]
        }) by {}
        assert forall|i: int, j: int| #![trigger t[i], t[j]] 0 <= i < j < t.len() implies key_lt(
            t[i].0,
            t[j].0,
        ) by {
            let si = if i < p { i } else { i + 1 };
            let sj = if j < p { j } else { j + 1 };
            assert(t[i] == s[si] && t[j] == s[sj]);
        }
        lemma_sorted_distinct(t);
        if has_key(t, k) {
            let q = key_pos(t, k);
            assert(t[q].0 == k);
            let sq = if q < p { q } else { q + 1 };
            assert(t[q] == s[sq]);
        }
        assert forall|k2: Seq<char>| k2 != k implies (has_key(t, k2) == has_key(s, k2)) && (
        has_key(s, k2) ==> lookup(t, k2) == lookup(s, k2)) by {
            if has_key(s, k2) {
                let q = key_pos(s, k2);
                assert(s[q].0 == k2);
                assert(q != p);
                let tq = if q < p { q } else { q - 1 };
                assert(t[tq] == s[q]);
                lemma_key_pos(t, tq);
            }
            if has_key(t, k2) {
                let q = key_pos(t, k2);
                assert(t[q].0 == k2);
                let sq = if q < p { q } else { q + 1 };
                assert(t[q] == s[sq]);
            }
        }
    }
}

/// Applying writes one after another is applying their concatenation.
pub proof fn lemma_apply_writes_append<W>(
    s: Seq<(Seq<char>, W)>,
    a: Seq<WriteView<W>>,
    b: Seq<WriteView<W>>,
)
    ensures
        apply_writes(s, a + b) == apply_writes(apply_writes(s, a), b),
    decreases b.len(),
{
    if b.len() == 0 {
        assert(a + b =~= a);
    } else {
        assert((a + b).drop_last() =~= a + b.drop_last());
        assert((a + b).last() == b.last());
        lemma_apply_writes_append(s, a, b.drop_last());
    }
}

/// Writes keep keys ascending.
pub proof fn lemma_apply_writes_sorted<W>(s: Seq<(Seq<char>, W)>, log: Seq<WriteView<W>>)
    requires
        sorted_keys(s),
    ensures
        sorted_keys(apply_writes(s, log)),
    decreases log.len(),
{
    if log.len() > 0 {
        lemma_apply_writes_sorted(s, log.drop_last());
        let m = apply_writes(s, log.drop_last());
        match log.last() {
            WriteView::Create(k, v) => lemma_put(m, k, v),
            WriteView::Put(k, v) => lemma_put(m, k, v),
            WriteView::Remove(k) => lemma_remove(m, k),
            WriteView::RemoveIf(k, v) => lemma_remove(m, k),
        }
    }
}

/// A value that can be copied keeping its abstract form.
pub trait Duplicate: View + Sized {
    fn duplicate(&self) -> (r: Self)
        ensures
            r@ == self@,
    ;
}

impl Duplicate for String {
    fn duplicate(&self) -> (r: String) {
        self.clone()
    }
}

/// A keyed tree of records, as the backing store keeps it: entries with
/// keys strictly ascending in byte order, the order the store walks them in.
/// Every change is also recorded as a `Write`, so that the store can be
/// brought to the same state.
pub struct Tree<V: View> {
    entries: Vec<(String, V)>,
    writes: Vec<Write<V>>,
    base: Ghost<Seq<(Seq<char>, V::V)>>,
}

/// `new` is `old` after further changes: still well formed, loaded from the
/// same entries, with the writes of `old` followed by the new ones.
pub open spec fn extends<V: View>(old: Tree<V>, new: Tree<V>) -> bool {
    &&& new.wf()
    &&& new.base() == old.base()
    &&& old.log().len() <= new.log().len()
    &&& new.log().subrange(0, old.log().len() as int) == old.log()
}

/// The writes a tree gained between two of its states, replayed on the
/// earlier entries, give the later entries.
pub proof fn lemma_replay_extension<V: View>(old: Tree<V>, new: Tree<V>)
    requires
        old.wf(),
        extends(old, new),
    ensures
        apply_writes(old.order(), new.log().skip(old.log().len() as int)) == new.order(),
{
    let a = old.log();
    let b = new.log().skip(old.log().len() as int);
    assert(new.log() =~= a + b);
    lemma_apply_writes_append(old.base(), a, b);
    new.lemma_wf();
    old.lemma_wf();
}

/// A well-formed tree extends itself.
pub proof fn lemma_extends_refl<V: View>(t: Tree<V>)
    requires
        t.wf(),
    ensures
        extends(t, t),
{
    assert(t.log().subrange(0, t.log().len() as int) =~= t.log());
}

impl<V: View> Tree<V> {
    /// The entries, by key view and value view, in order.
    pub closed spec fn order(&self) -> Seq<(Seq<char>, V::V)> {
        self.entries@.map_values(|e: (String, V)| (e.0@, e.1@))
    }

    /// The changes made since the tree was loaded.
    pub closed spec fn log(&self) -> Seq<WriteView<V::V>> {
        self.writes@.map_values(|w: Write<V>| w@)
    }

    /// The entries as they were when the tree was loaded.
    pub closed spec fn base(&self) -> Seq<(Seq<char>, V::V)> {
        self.base@
    }

    pub closed spec fn wf(&self) -> bool {
        &&& sorted_keys(self.base@)
        &&& apply_writes(self.base@, self.log()) == self.order()
    }

    /// A well-formed tree keeps its keys ascending in byte order, and
    /// replaying its writes on the entries it was loaded with gives its
    /// present entries.
    pub proof fn lemma_wf(&self)
        requires
            self.wf(),
        ensures
            sorted_keys(self.base()),
            sorted_keys(self.order()),
            distinct_keys(self.order()),
            apply_writes(self.base(), self.log()) == self.order(),
    {
        lemma_apply_writes_sorted(self.base@, self.log());
        lemma_sorted_distinct(self.order());
    }

    /// An empty tree with nothing written.
    pub fn new() -> (t: Self)
        ensures
            t.wf(),
            t.order() == Seq::<(Seq<char>, V::V)>::empty(),
            t.base() == Seq::<(Seq<char>, V::V)>::empty(),
            t.log() == Seq::<WriteView<V::V>>::empty(),
    {
        let t = Tree { entries: Vec::new(), writes: Vec::new(), base: Ghost(Seq::empty()) };
        assert(t.order() =~= Seq::<(Seq<char>, V::V)>::empty());
        assert(t.log() =~= Seq::<WriteView<V::V>>::empty());
        t
    }

    pub fn len(&self) -> (n: usize)
        ensures
            n == self.order().len(),
    {
        self.entries.len()
    }

    /// The key of the `i`-th entry.
    pub fn key_at(&self, i: usize) -> (k: &String)
        requires
            i < self.order().len(),
        ensures
            k@ == self.order()[i as int].0,
    {
        &self.entries[i].0
    }

    /// The value of the `i`-th entry.
    pub fn value_at(&self, i: usize) -> (v: &V)
        requires
            i < self.order().len(),
        ensures
            v@ == self.order()[i as int].1,
    {
        &self.entries[i].1
    }

    /// The changes made since the tree was loaded, for the store to apply.
    pub fn writes(&self) -> (w: &Vec<Write<V>>)
        ensures
            w@.map_values(|x: Write<V>| x@) == self.log(),
    {
        &self.writes
    }

    fn find(&self, key: &String) -> (r: Option<usize>)
        requires
            self.wf(),
        ensures
            r matches Some(i) ==> i < self.order().len() && self.order()[i as int].0 == key@
                && key_pos(self.order(), key@) == i,
            r is None ==> !has_key(self.order(), key@),
    {
        proof {
            self.lemma_wf();
        }
        let n = self.entries.len();
        let mut i: usize = 0;
        while i < n
            invariant
                n == self.entries@.len(),
                i <= n,
                distinct_keys(self.order()),
                forall|j: int| 0 <= j < i ==> #[trigger] self.order()[j].0 != key@,
            decreases n - i,
        {
            if self.entries[i].0 == *key {
                proof {
                    lemma_key_pos(self.order(), i as int);
                }
                return Some(i);
            }
            i = i + 1;
        }
        proof {
            if has_key(self.order(), key@) {
                let p = key_pos(self.order(), key@);
                assert(self.order()[p].0 == key@);
            }
        }
        None
    }

    /// Where an entry with the absent key `key` goes in key order.
    fn ins_point(&self, key: &String) -> (p: usize)
        requires
            self.wf(),
            !has_key(self.order(), key@),
        ensures
            p == ins_pos(self.order(), key@),
            p <= self.order().len(),
    {
        proof {
            self.lemma_wf();
            lemma_ins_pos(self.order(), key@);
        }
        let ghost s = self.order();
        let n = self.entries.len();
        let mut i: usize = 0;
        while i < n
            invariant
                s == self.order(),
                n == s.len(),
                i <= n,
                0 <= ins_pos(s, key@) <= s.len(),
                forall|j: int| 0 <= j < ins_pos(s, key@) ==> key_lt(#[trigger] s[j].0, key@),
                forall|j: int| ins_pos(s, key@) <= j < s.len() ==> key_lt(key@, #[trigger] s[j].0),
                forall|j: int| 0 <= j < i ==> key_lt(#[trigger] s[j].0, key@),
            decreases n - i,
        {
            if !key_less(&self.entries[i].0, key) {
                proof {
                    let q = ins_pos(s, key@);
                    if (i as int) < q {
                        assert(key_lt(s[i as int].0, key@));
                    } else if q < (i as int) {
                        assert(key_lt(s[q].0, key@));
                        assert(key_lt(key@, s[q].0));
                        lemma_key_lt_asymmetric(s[q].0, key@);
                    }
                }
                return i;
            }
            i = i + 1;
        }
        proof {
            let q = ins_pos(s, key@);
            if q < n {
                assert(key_lt(s[q].0, key@));
                lemma_key_lt_asymmetric(s[q].0, key@);
            }
        }
        n
    }

    pub fn contains_key(&self, key: &String) -> (b: bool)
        requires
            self.wf(),
        ensures
            b == has_key(self.order(), key@),
    {
        self.find(key).is_some()
    }

    /// The value stored under `key`, if any.
    pub fn get(&self, key: &String) -> (r: Option<&V>)
        requires
            self.wf(),
        ensures
            r is Some <==> has_key(self.order(), key@),
            r matches Some(v) ==> v@ == lookup(self.order(), key@),
    {
        match self.find(key) {
            Some(i) => Some(&self.entries[i].1),
            None => None,
        }
    }
}

impl<V: Duplicate> Tree<V> {
    /// Loads a tree from the entries the store holds, in the store's order;
    /// `None` where the keys are not strictly ascending in byte order.
    pub fn restore(entries: Vec<(String, V)>) -> (r: Option<Self>)
        ensures
            r is Some <==> sorted_keys(entries@.map_values(|e: (String, V)| (e.0@, e.1@))),
            r matches Some(t) ==> {
                &&& t.wf()
                &&& t.order() == entries@.map_values(|e: (String, V)| (e.0@, e.1@))
                &&& t.base() == t.order()
                &&& t.log() == Seq::<WriteView<V::V>>::empty()
            },
    {
        let ghost s = entries@.map_values(|e: (String, V)| (e.0@, e.1@));
        let n = entries.len();
        let mut i: usize = 1;
        while i < n
            invariant
                n == entries@.len(),
                s == entries@.map_values(|e: (String, V)| (e.0@, e.1@)),
                1 <= i,
                n > 0 ==> i <= n,
                forall|a: int, b: int|
                    #![trigger s[a], s[b]]
                    0 <= a < b < i && b < n ==> key_lt(s[a].0, s[b].0),
            decreases n - i,
        {
            if !key_less(&entries[i - 1].0, &entries[i].0) {
                assert(!key_lt(s[i - 1].0, s[i as int].0));
                return None;
            }
            assert forall|a: int, b: int|
                #![trigger s[a], s[b]]
                0 <= a < b < i + 1 && b < n implies key_lt(s[a].0, s[b].0) by {
                if b == i && a < i - 1 {
                    lemma_key_lt_transitive(s[a].0, s[i - 1].0, s[b].0);
                }
            }
            i = i + 1;
        }
        let t = Tree { entries, writes: Vec::new(), base: Ghost(s) };
        assert(t.log() =~= Seq::<WriteView<V::V>>::empty());
        Some(t)
    }

    /// Stores `value` under `key`, replacing any value there, and records the
    /// change.
    pub fn put(&mut self, key: String, value: V)
        requires
            old(self).wf(),
        ensures
            final(self).wf(),
            final(self).order() == seq_put(old(self).order(), key@, value@),
            final(self).log() == old(self).log().push(WriteView::Put(key@, value@)),
            final(self).base() == old(self).base(),
            extends(*old(self), *final(self)),
    {
        let ghost old_log = self.log();
        let ghost old_order = self.order();
        let stored = value.duplicate();
        let k2 = key.clone();
        match self.find(&key) {
            Some(i) => {
                self.entries.set(i, (key, stored));
                assert(self.order() =~= old_order.update(i as int, (k2@, value@)));
            },
            None => {
                let p = self.ins_point(&key);
                self.entries.insert(p, (key, stored));
                assert(self.order() =~= old_order.insert(p as int, (k2@, value@)));
            },
        }
        self.writes.push(Write::Put(k2, value));
        proof {
            let l = self.log();
            assert(l =~= old_log.push(WriteView::Put(k2@, value@)));
            assert(l.drop_last() =~= old_log);
            assert(l.subrange(0, old_log.len() as int) =~= old_log);
        }
    }

    /// Stores `value` under the absent `key`, and records the change as a
    /// creation.
    pub fn insert_new(&mut self, key: String, value: V)
        requires
            old(self).wf(),
            !has_key(old(self).order(), key@),
        ensures
            final(self).wf(),
            final(self).order() == seq_put(old(self).order(), key@, value@),
            final(self).log() == old(self).log().push(WriteView::Create(key@, value@)),
            final(self).base() == old(self).base(),
            extends(*old(self), *final(self)),
    {
        let ghost old_log = self.log();
        let ghost old_order = self.order();
        let stored = value.duplicate();
        let k2 = key.clone();
        let p = self.ins_point(&key);
        self.entries.insert(p, (key, stored));
        assert(self.order() =~= old_order.insert(p as int, (k2@, value@)));
        self.writes.push(Write::Create(k2, value));
        proof {
            let l = self.log();
            assert(l =~= old_log.push(WriteView::Create(k2@, value@)));
            assert(l.drop_last() =~= old_log);
            assert(l.subrange(0, old_log.len() as int) =~= old_log);
        }
    }

    /// Removes the entry under `key`, which holds `expected`, and records the
    /// change as a removal of that record.
    pub fn remove_matching(&mut self, key: &String, expected: V)
        requires
            old(self).wf(),
            has_key(old(self).order(), key@),
            lookup(old(self).order(), key@) == expected@,
        ensures
            final(self).wf(),
            final(self).order() == seq_remove(old(self).order(), key@),
            final(self).log() == old(self).log().push(WriteView::RemoveIf(key@, expected@)),
            final(self).base() == old(self).base(),
            extends(*old(self), *final(self)),
    {
        let ghost old_log = self.log();
        let ghost old_order = self.order();
        match self.find(key) {
            Some(i) => {
                let _ = self.entries.remove(i);
                assert(self.order() =~= old_order.remove(i as int));
            },
            None => {},
        }
        self.writes.push(Write::RemoveIf(key.clone(), expected));
        proof {
            let l = self.log();
            assert(l =~= old_log.push(WriteView::RemoveIf(key@, expected@)));
            assert(l.drop_last() =~= old_log);
            assert(l.subrange(0, old_log.len() as int) =~= old_log);
        }
    }
}

impl<V: View> Tree<V> {
    /// Removes the entry under `key`, if there is one, and records the change.
    pub fn remove(&mut self, key: &String)
        requires
            old(self).wf(),
        ensures
            final(self).wf(),
            final(self).order() == seq_remove(old(self).order(), key@),
            final(self).log() == old(self).log().push(WriteView::Remove(key@)),
            final(self).base() == old(self).base(),
            extends(*old(self), *final(self)),
    {
        let ghost old_log = self.log();
        let ghost old_order = self.order();
        match self.find(key) {
            Some(i) => {
                let _ = self.entries.remove(i);
                assert(self.order() =~= old_order.remove(i as int));
            },
            None => {},
        }
        self.writes.push(Write::Remove(key.clone()));
        proof {
            let l = self.log();
            assert(l =~= old_log.push(WriteView::Remove(key@)));
            assert(l.drop_last() =~= old_log);
            assert(l.subrange(0, old_log.len() as int) =~= old_log);
        }
    }
}

} // verus!
