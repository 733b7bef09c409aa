//! The condition store: cut conditions keyed by id, in insertion order.
//!
//! The backing collection is `indexmap::IndexMap`. Verus sees it through a
//! named entry sequence and a few trusted wrappers, one per method used.

use vstd::prelude::*;
use vstd::string::StringExecFns;
use indexmap::IndexMap;
use crate::decimal::dec_str;
use crate::decimal::push_dec;
use crate::laser::Color;
use crate::laser::Condition;
use crate::laser::ConditionId;
use crate::laser::IdCounter;
use crate::laser::next_condition_id;

verus! {

#[verifier::external_type_specification]
#[verifier::external_body]
#[verifier::reject_recursive_types(K)]
#[verifier::reject_recursive_types(V)]
#[verifier::reject_recursive_types(S)]
pub struct ExIndexMap<K, V, S>(IndexMap<K, V, S>);

/// The key-value pairs an `IndexMap` of conditions holds, in the map's
/// order (insertion order, as long as nothing is removed or sorted).
pub uninterp spec fn cond_entries(m: IndexMap<usize, Condition>) -> Seq<(usize, Condition)>;

/// Relies on `IndexMap::new`: an empty map.
#[verifier::external_body]
fn imap_new() -> (m: IndexMap<usize, Condition>)
    ensures
        cond_entries(m) == Seq::<(usize, Condition)>::empty(),
{
    IndexMap::new()
}

/// Relies on `IndexMap::len`: the number of key-value pairs.
#[verifier::external_body]
fn imap_len(m: &IndexMap<usize, Condition>) -> (n: usize)
    ensures
        n == cond_entries(*m).len(),
{
    m.len()
}

/// Relies on `IndexMap::get`: the stored value for the key, if present.
#[verifier::external_body]
fn imap_get<'a>(m: &'a IndexMap<usize, Condition>, k: usize) -> (r: Option<&'a Condition>)
    ensures
        (match r {
            Some(c) => exists|i: int|
                0 <= i < cond_entries(*m).len() && #[trigger] cond_entries(*m)[i] == (k, *c),
            None => forall|i: int|
                0 <= i < cond_entries(*m).len() ==> (#[trigger] cond_entries(*m)[i]).0 != k,
        }),
{
    m.get(&k)
}

/// Relies on `IndexMap::get_index`: the key-value pair at an order index.
#[verifier::external_body]
fn imap_get_index<'a>(m: &'a IndexMap<usize, Condition>, i: usize) -> (r: Option<
    (&'a usize, &'a Condition)>)
    ensures
        i < cond_entries(*m).len() ==> (match r {
            Some(p) => (*p.0, *p.1) == cond_entries(*m)[i as int],
            None => false,
        }),
        i >= cond_entries(*m).len() ==> r is None,
{
    m.get_index(i)
}

/// Relies on `IndexMap::insert`: a new key is appended last in order; an
/// existing key keeps its place and only its value changes, the old value
/// coming back.
#[verifier::external_body]
fn imap_insert(m: &mut IndexMap<usize, Condition>, k: usize, v: Condition) -> (r: Option<
    Condition>)
    ensures
        (forall|i: int|
            0 <= i < cond_entries(*old(m)).len() ==> (#[trigger] cond_entries(*old(m))[i]).0 != k)
            ==> cond_entries(*final(m)) == cond_entries(*old(m)).push((k, v)) && r is None,
        (exists|i: int|
            0 <= i < cond_entries(*old(m)).len() && (#[trigger] cond_entries(*old(m))[i]).0 == k)
            ==> (exists|i: int|
            0 <= i < cond_entries(*old(m)).len() && (#[trigger] cond_entries(*old(m))[i]).0 == k
                && cond_entries(*final(m)) == cond_entries(*old(m)).update(i, (k, v))
                && r == Some(cond_entries(*old(m))[i].1)),
{
    m.insert(k, v)
}

/// Do all entries of the sequence carry pairwise distinct keys?
pub open spec fn keys_unique(s: Seq<(usize, Condition)>) -> bool {
    forall|i: int, j: int|
        0 <= i < j < s.len() ==> (#[trigger] s[i]).0 != (#[trigger] s[j]).0
}

/// A storage medium for cut conditions: the conditions in insertion order,
/// keyed by their ids, plus an optional default condition.
pub struct ConditionStore {
    default: Option<ConditionId>,
    conditions: IndexMap<usize, Condition>,
}

impl ConditionStore {
    /// The stored conditions with their keys, in order.
    pub closed spec fn entries(&self) -> Seq<(usize, Condition)> {
        cond_entries(self.conditions)
    }

    /// The default condition id, if one was chosen.
    pub closed spec fn spec_default(&self) -> Option<ConditionId> {
        self.default
    }

    /// Does an entry with this key exist?
    pub open spec fn spec_has(&self, id: ConditionId) -> bool {
        exists|i: int| 0 <= i < self.entries().len() && (#[trigger] self.entries()[i]).0 == id.0
    }

    /// The condition stored under a present id: the unique matching entry.
    pub open spec fn spec_get(&self, id: ConditionId) -> Condition {
        self.entries()[choose|i: int|
            0 <= i < self.entries().len() && (#[trigger] self.entries()[i]).0 == id.0].1
    }

    /// Well-formed: keys are pairwise distinct, each entry's condition
    /// carries the id it is keyed by, and the default id, if set, resolves.
    pub open spec fn wf(&self) -> bool {
        &&& keys_unique(self.entries())
        &&& forall|i: int|
            0 <= i < self.entries().len() ==> (#[trigger] self.entries()[i]).1.id == ConditionId(
                self.entries()[i].0,
            )
        &&& match self.spec_default() {
            Some(id) => self.spec_has(id),
            None => true,
        }
    }

    /// An empty store with no default condition.
    pub fn new() -> (r: ConditionStore)
        ensures
            r.entries().len() == 0,
            r.spec_default() is None,
            r.wf(),
    {
        ConditionStore { default: None, conditions: imap_new() }
    }

    /// How many conditions are stored.
    pub fn len(&self) -> (r: usize)
        ensures
            r == self.entries().len(),
    {
        imap_len(&self.conditions)
    }

    /// The default condition id, if one was chosen.
    pub fn default_id(&self) -> (r: Option<ConditionId>)
        ensures
            r == self.spec_default(),
    {
        self.default
    }

    /// Choose the default condition.
    pub fn set_default(&mut self, id: ConditionId)
        requires
            old(self).spec_has(id),
        ensures
            final(self).entries() == old(self).entries(),
            final(self).spec_default() == Some(id),
            old(self).wf() ==> final(self).wf(),
    {
        self.default = Some(id);
    }

    /// Does the store hold a condition under this id?
    pub fn has(&self, id: ConditionId) -> (r: bool)
        ensures
            r == self.spec_has(id),
    {
        let got = imap_get(&self.conditions, id.0);
        match got {
            Some(c) => {
                proof {
                    let i = choose|i: int|
                        0 <= i < self.entries().len() && #[trigger] self.entries()[i] == (id.0, *c);
                    assert((self.entries()[i]).0 == id.0);
                }
                true
            }
            None => false,
        }
    }

    /// The condition stored under `id`. Asking for an id that does not
    /// resolve is a programming error, so the id is required to be present.
    pub fn get<'a>(&'a self, id: ConditionId) -> (r: &'a Condition)
        requires
            self.spec_has(id),
        ensures
            exists|i: int|
                0 <= i < self.entries().len() && #[trigger] self.entries()[i] == (id.0, *r),
            self.wf() ==> *r == self.spec_get(id),
    {
        let got = imap_get(&self.conditions, id.0);
        match got {
            Some(c) => {
                proof {
                    if self.wf() {
                        let i1 = choose|i: int|
                            0 <= i < self.entries().len() && #[trigger] self.entries()[i] == (
                            id.0,
                            *c,
                        );
                        let i2 = choose|i: int|
                            0 <= i < self.entries().len() && (#[trigger] self.entries()[i]).0
                                == id.0;
                        assert((self.entries()[i1]).0 == id.0);
                        assert(0 <= i2 < self.entries().len() && (self.entries()[i2]).0 == id.0);
                        if i1 != i2 {
                            assert((self.entries()[i1]).0 != (self.entries()[i2]).0);
                        }
                        assert(*c == self.spec_get(id));
                    }
                }
                c
            }
            None => {
                proof {
                    assert(false);
                }
                unreached()
            }
        }
    }

    /// The key-value entry at an order index.
    pub fn entry_at<'a>(&'a self, i: usize) -> (r: (ConditionId, &'a Condition))
        requires
            i < self.entries().len(),
        ensures
            (r.0.0, *r.1) == self.entries()[i as int],
    {
        let got = imap_get_index(&self.conditions, i);
        match got {
            Some(p) => (ConditionId(*p.0), p.1),
            None => {
                proof {
                    assert(false);
                }
                unreached()
            }
        }
    }

    /// The stored conditions in order.
    pub fn iter<'a>(&'a self) -> (r: Vec<&'a Condition>)
        ensures
            r@.len() == self.entries().len(),
            forall|i: int|
                0 <= i < r@.len() ==> *(#[trigger] r@[i]) == self.entries()[i].1,
    {
        let n = imap_len(&self.conditions);
        let mut out: Vec<&'a Condition> = Vec::new();
        let mut i: usize = 0;
        while i < n
            invariant
                n == self.entries().len(),
                0 <= i <= n,
                out@.len() == i,
                forall|j: int|
                    0 <= j < i ==> *(#[trigger] out@[j]) == self.entries()[j].1,
            decreases n - i,
        {
            let (_, c) = self.entry_at(i);
            out.push(c);
            i = i + 1;
        }
        out
    }

    /// Store a condition under its own id: appended last when the id is
    /// new, replacing in place when it already exists.
    pub fn insert(&mut self, c: Condition)
        ensures
            !old(self).spec_has(c.id) ==> final(self).entries() == old(self).entries().push(
                (c.id.0, c),
            ),
            old(self).spec_has(c.id) ==> (exists|i: int|
                0 <= i < old(self).entries().len() && (#[trigger] old(self).entries()[i]).0 == c.id.0
                    && final(self).entries() == old(self).entries().update(i, (c.id.0, c))),
            final(self).spec_default() == old(self).spec_default(),
            final(self).spec_has(c.id),
            old(self).wf() ==> final(self).wf(),
    {
        let ghost pre = self.entries();
        let ghost cg = c;
        let key = c.id.0;
        let _ = imap_insert(&mut self.conditions, key, c);
        proof {
            let post = self.entries();
            assert(cg.id == ConditionId(cg.id.0));
            if exists|i: int| 0 <= i < pre.len() && (#[trigger] pre[i]).0 == key {
                let i = choose|i: int|
                    0 <= i < pre.len() && (#[trigger] pre[i]).0 == key && post == pre.update(
                        i,
                        (key, cg),
                    );
                assert(post[i].0 == key);
                if old(self).wf() {
                    assert forall|a: int, b: int|
                        0 <= a < b < post.len() implies (#[trigger] post[a]).0 != (
                        #[trigger] post[b]).0 by {
                        assert(pre[a].0 != pre[b].0);
                        if a != i {
                            assert(post[a] == pre[a]);
                        }
                        if b != i {
                            assert(post[b] == pre[b]);
                        }
                    }
                    assert forall|m: int|
                        0 <= m < post.len() implies (#[trigger] post[m]).1.id == ConditionId(
                        post[m].0,
                    ) by {
                        if m != i {
                            assert(post[m] == pre[m]);
                        }
                    }
                    match self.spec_default() {
                        Some(d) => {
                            let k = choose|k: int|
                                0 <= k < pre.len() && (#[trigger] pre[k]).0 == d.0;
                            assert(post[k].0 == pre[k].0);
                        }
                        None => {}
                    }
                }
            } else {
                assert(post == pre.push((key, cg)));
                assert(post[pre.len() as int].0 == key);
                if old(self).wf() {
                    assert forall|a: int, b: int|
                        0 <= a < b < post.len() implies (#[trigger] post[a]).0 != (
                        #[trigger] post[b]).0 by {
                        if b == pre.len() {
                            assert(post[a] == pre[a]);
                            assert(pre[a].0 != key);
                        } else {
                            assert(post[a] == pre[a]);
                            assert(post[b] == pre[b]);
                            assert(pre[a].0 != pre[b].0);
                        }
                    }
                    assert forall|m: int|
                        0 <= m < post.len() implies (#[trigger] post[m]).1.id == ConditionId(
                        post[m].0,
                    ) by {
                        if m < pre.len() {
                            assert(post[m] == pre[m]);
                        }
                    }
                    match self.spec_default() {
                        Some(d) => {
                            let k = choose|k: int|
                                0 <= k < pre.len() && (#[trigger] pre[k]).0 == d.0;
                            assert(post[k].0 == pre[k].0);
                        }
                        None => {}
                    }
                }
            }
        }
    }

    /// The largest stored key, or zero for an empty store. Used to restart
    /// the id counter above every persisted id.
    pub fn max_key(&self) -> (r: usize)
        ensures
            forall|i: int|
                0 <= i < self.entries().len() ==> (#[trigger] self.entries()[i]).0 <= r,
            self.entries().len() > 0 ==> exists|i: int|
                0 <= i < self.entries().len() && (#[trigger] self.entries()[i]).0 == r,
            self.entries().len() == 0 ==> r == 0,
    {
        let n = imap_len(&self.conditions);
        let mut max: usize = 0;
        let mut i: usize = 0;
        while i < n
            invariant
                n == self.entries().len(),
                0 <= i <= n,
                forall|j: int| 0 <= j < i ==> (#[trigger] self.entries()[j]).0 <= max,
                i > 0 ==> exists|j: int|
                    0 <= j < i && (#[trigger] self.entries()[j]).0 == max,
                i == 0 ==> max == 0,
            decreases n - i,
        {
            let (id, _) = self.entry_at(i);
            if id.0 > max || i == 0 {
                max = id.0;
            }
            i = i + 1;
        }
        max
    }

    /// Create a fresh condition — full-intensity white, an empty pass list,
    /// and a numbered name — store it, and hand back its id.
    pub fn new_condition(&mut self, counter: &mut IdCounter) -> (r: ConditionId)
        requires
            old(counter).next < usize::MAX,
            !old(self).spec_has(ConditionId(old(counter).next)),
        ensures
            r == ConditionId(old(counter).next),
            final(counter).next == old(counter).next + 1,
            final(self).entries().len() == old(self).entries().len() + 1,
            final(self).entries().last().0 == r.0,
            final(self).entries().last().1.id == r,
            final(self).entries().last().1.name@ == "New Condition "@ + dec_str(r.0 as nat),
            final(self).entries().last().1.sequence@.len() == 0,
            final(self).entries().drop_last() == old(self).entries(),
            final(self).spec_default() == old(self).spec_default(),
            old(self).wf() ==> final(self).wf(),
    {
        let id = next_condition_id(counter);
        let mut name = String::from_str("New Condition ");
        push_dec(&mut name, id.0 as u64);
        let c = Condition { id, name, color: Color::white(), sequence: Vec::new() };
        self.insert(c);
        proof {
            assert(final(self).entries().drop_last() =~= old(self).entries());
        }
        id
    }

    /// Make sure a default condition exists and hand back its id: an empty
    /// store first gets one fresh condition, and a store with no default
    /// chosen adopts its first condition.
    pub fn default_condition(&mut self, counter: &mut IdCounter) -> (r: ConditionId)
        requires
            old(self).wf(),
            old(counter).next < usize::MAX,
            !old(self).spec_has(ConditionId(old(counter).next)),
        ensures
            final(self).wf(),
            final(self).spec_default() == Some(r),
            final(self).spec_has(r),
            old(self).entries().len() > 0 ==> final(self).entries() == old(self).entries(),
            old(self).spec_default() is Some ==> r == old(self).spec_default().unwrap(),
    {
        if self.len() == 0 {
            self.new_condition(counter);
        }
        match self.default_id() {
            Some(id) => id,
            None => {
                let (id, _) = self.entry_at(0);
                proof {
                    assert(self.entries()[0].0 == id.0);
                }
                self.set_default(id);
                id
            }
        }
    }
}

} // verus!
