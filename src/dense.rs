//! The dense column: a key index over a slot vector.
//!
//! Each key present in the column maps to one slot, and that slot holds the
//! key and its value. Deleting a key empties its slot and hands the slot to
//! the empty-set; creating a key reuses the smallest empty slot first.
//!
//! Every mutation is recorded as an `Atom`. The column keeps the record of
//! all of them as ghost state, and replaying that record from an empty
//! column gives back the column's contents. When the column is durable, the
//! safe operations also queue their record for the log writer.
use crate::atom::{lemma_zero_of, zero_of, Atom, Exchangable, Key, CREATE, DELETE, MERGE, UPDATE};
use crate::binlog::{decode_log, header_bytes, record_at, schema_tag, spec_schema_tag, HEADER_LEN};
use crate::error::Error;
use crate::merge::MergeAssign;
use crate::slots::Slots;
use std::collections::HashMap;
use vstd::prelude::*;
use vstd::std_specs::hash::obeys_key_model;

verus! {

broadcast use vstd::std_specs::hash::group_hash_axioms;

/// The effect of one record on the contents of a column. A record whose
/// precondition does not hold (a create of a present key, an update, merge
/// or delete of an absent key) and a record with an unknown operation byte
/// leave the contents as they are.
pub open spec fn apply_atom<K, V, D, R: MergeAssign<V, D>>(
    rule: R,
    m: Map<K, V>,
    a: Atom<K, V, D>,
) -> Map<K, V> {
    if a.op == CREATE && !m.contains_key(a.key) {
        m.insert(a.key, a.value)
    } else if a.op == UPDATE && m.contains_key(a.key) {
        m.insert(a.key, a.value)
    } else if a.op == MERGE && m.contains_key(a.key) {
        merged(rule, m, a.key, a.delta)
    } else if a.op == DELETE && m.contains_key(a.key) {
        m.remove(a.key)
    } else {
        m
    }
}

/// The contents after merging `delta` into the present key `k`.
pub open spec fn merged<K, V, D, R: MergeAssign<V, D>>(
    rule: R,
    m: Map<K, V>,
    k: K,
    delta: D,
) -> Map<K, V> {
    let (v, drop) = rule.spec_merge(m[k], delta);
    if drop {
        m.remove(k)
    } else {
        m.insert(k, v)
    }
}

/// The contents after applying `atoms` in order to `m`.
pub open spec fn replay<K, V, D, R: MergeAssign<V, D>>(
    rule: R,
    m: Map<K, V>,
    atoms: Seq<Atom<K, V, D>>,
) -> Map<K, V>
    decreases atoms.len(),
{
    if atoms.len() == 0 {
        m
    } else {
        apply_atom(rule, replay(rule, m, atoms.drop_last()), atoms.last())
    }
}

/// Replaying one more record applies it to the replayed contents.
pub proof fn lemma_replay_push<K, V, D, R: MergeAssign<V, D>>(
    rule: R,
    m: Map<K, V>,
    atoms: Seq<Atom<K, V, D>>,
    a: Atom<K, V, D>,
)
    ensures
        replay(rule, m, atoms.push(a)) == apply_atom(rule, replay(rule, m, atoms), a),
{
    assert(atoms.push(a).drop_last() =~= atoms);
}

/// The contents after `set(k, value)`: `Some` stores the value, `None`
/// removes the key.
pub open spec fn assigned<K, V>(m: Map<K, V>, k: K, value: Option<V>) -> Map<K, V> {
    match value {
        Some(v) => m.insert(k, v),
        None => m.remove(k),
    }
}

/// The function a tick applies to each present key, its value and the
/// column as it stands: it returns a delta to merge into that key, or
/// `None` to leave it.
pub trait TickFn<K, V, D, R>: Fn(K, V, &Dense<K, V, D, R>) -> Option<D> {

}

impl<K, V, D, R, F: Fn(K, V, &Dense<K, V, D, R>) -> Option<D>> TickFn<K, V, D, R> for F {

}

/// What a tick did to the key `k`, present in `before`, given what the tick
/// function returned for it: with no delta the key keeps its value; with a
/// delta the key holds the merged value, or is gone when the rule dropped it.
pub open spec fn ticked<K, V, D, R: MergeAssign<V, D>>(
    rule: R,
    before: Map<K, V>,
    after: Map<K, V>,
    k: K,
    outcome: Option<D>,
) -> bool {
    match outcome {
        None => after.contains_key(k) && after[k] == before[k],
        Some(d) => {
            let (v, drop) = rule.spec_merge(before[k], d);
            if drop {
                !after.contains_key(k)
            } else {
                after.contains_key(k) && after[k] == v
            }
        },
    }
}

/// The value behind an optional reference.
pub open spec fn owned<V>(value: Option<&V>) -> Option<V> {
    match value {
        Some(v) => Some(*v),
        None => None,
    }
}

/// A column of values `V` under keys `K`, with deltas `D` merged by the
/// rule `R`.
pub struct Dense<K, V, D, R> {
    index: HashMap<K, usize>,
    slots: Slots<(K, V)>,
    rule: R,
    durable: bool,
    pending: Vec<Atom<K, V, D>>,
    history: Ghost<Seq<Atom<K, V, D>>>,
}

impl<K: Copy, V: Copy, D, R> View for Dense<K, V, D, R> {
    type V = Map<K, V>;

    closed spec fn view(&self) -> Map<K, V> {
        Map::new(
            |k: K| self.index@.contains_key(k),
            |k: K| self.slots.cells()[self.index@[k] as int]->Some_0.1,
        )
    }
}

impl<
    K: Key,
    V: Exchangable + Copy,
    D: Exchangable,
    R: MergeAssign<V, D>,
> Dense<K, V, D, R> {
    /// The key index: the slot of each present key.
    pub closed spec fn index_map(&self) -> Map<K, usize> {
        self.index@
    }

    /// The slot vector: for each slot, the key and value it holds, if any.
    pub closed spec fn cells(&self) -> Seq<Option<(K, V)>> {
        self.slots.cells()
    }

    /// The indices of the empty slots.
    pub closed spec fn empty_set(&self) -> Set<usize> {
        self.slots.empty_set()
    }

    /// The merge rule of the column.
    pub closed spec fn spec_rule(&self) -> R {
        self.rule
    }

    /// Whether the safe operations queue their records for the log.
    pub closed spec fn is_durable(&self) -> bool {
        self.durable
    }

    /// The records queued for the log and not yet taken.
    pub closed spec fn pending(&self) -> Seq<Atom<K, V, D>> {
        self.pending@
    }

    /// Every record of every mutation since the column was made.
    pub closed spec fn history(&self) -> Seq<Atom<K, V, D>> {
        self.history@
    }

    /// The column invariants.
    pub open spec fn wf(&self) -> bool {
        &&& self.slots_wf()
        &&& obeys_key_model::<K>()
        &&& forall|k: K| #[trigger]
            self.index_map().contains_key(k) ==> {
                &&& self.index_map()[k] < self.cells().len()
                &&& self.cells()[self.index_map()[k] as int] is Some
                &&& self.cells()[self.index_map()[k] as int]->Some_0.0 == k
            }
        &&& forall|i: usize| #[trigger]
            self.cells()[i as int] is Some && i < self.cells().len() ==> {
                &&& self.index_map().contains_key(self.cells()[i as int]->Some_0.0)
                &&& self.index_map()[self.cells()[i as int]->Some_0.0] == i
            }
        &&& self.empty_set().finite()
        &&& self.index_map().dom().len() + self.empty_set().len() == self.cells().len()
        &&& replay(self.spec_rule(), Map::empty(), self.history()) == self@
    }

    /// The slot vector's own invariant.
    pub closed spec fn slots_wf(&self) -> bool {
        self.slots.wf()
    }

    /// An empty column with `cap` empty slots; `durable` says whether the
    /// safe operations queue their records for the log.
    pub fn with_capacity(cap: usize, rule: R, durable: bool) -> (r: Self)
        requires
            obeys_key_model::<K>(),
        ensures
            r.wf(),
            r@ == Map::<K, V>::empty(),
            r.cells().len() == cap,
            r.empty_set() == crate::slots::index_range(cap as int),
            r.spec_rule() == rule,
            r.is_durable() == durable,
            r.pending() == Seq::<Atom<K, V, D>>::empty(),
            r.history() == Seq::<Atom<K, V, D>>::empty(),
    {
        let r = Dense {
            index: HashMap::new(),
            slots: Slots::with_capacity(cap),
            rule,
            durable,
            pending: Vec::new(),
            history: Ghost(Seq::empty()),
        };
        proof {
            assert(r@ =~= Map::<K, V>::empty());
            assert(r.empty_set() =~= Set::new(|i: usize| i < cap));
            lemma_index_range_len(cap as int);
        }
        r
    }

    /// An empty, non-durable column with 4096 empty slots.
    pub fn new(rule: R) -> (r: Self)
        requires
            obeys_key_model::<K>(),
        ensures
            r.wf(),
            r@ == Map::<K, V>::empty(),
            r.cells().len() == 4096,
            r.spec_rule() == rule,
            !r.is_durable(),
            r.pending() == Seq::<Atom<K, V, D>>::empty(),
            r.history() == Seq::<Atom<K, V, D>>::empty(),
    {
        Self::with_capacity(4096, rule, false)
    }

    /// Whether `key` is present.
    pub fn contains_key(&self, key: &K) -> (r: bool)
        requires
            self.wf(),
        ensures
            r == self@.contains_key(*key),
    {
        self.index.contains_key(key)
    }

    /// Number of slots, empty or not.
    pub fn slot_count(&self) -> (r: usize)
        ensures
            r == self.cells().len(),
    {
        self.slots.len()
    }

    /// Number of empty slots.
    pub fn empty_count(&self) -> (r: usize)
        requires
            self.wf(),
        ensures
            r == self.empty_set().len(),
    {
        proof {
            self.lemma_empty_count_bound();
        }
        self.slots.empty_len()
    }

    /// Number of present keys.
    pub fn key_count(&self) -> (r: usize)
        requires
            self.wf(),
        ensures
            r == self@.dom().len(),
    {
        proof {
            assert(self@.dom() =~= self.index_map().dom());
        }
        self.index.len()
    }

    proof fn lemma_empty_count_bound(&self)
        requires
            self.wf(),
        ensures
            self.empty_set().len() <= self.cells().len(),
    {
    }

    /// The slot of the present key `key`.
    fn slot_of(&self, key: &K) -> (r: usize)
        requires
            self.wf(),
            self@.contains_key(*key),
        ensures
            r == self.index_map()[*key],
            r < self.cells().len(),
    {
        match self.index.get(key) {
            Some(i) => *i,
            None => 0,
        }
    }


    /// The slot bookkeeping of a create of `key`, from `old` to `self`: the
    /// key takes the smallest empty slot when there is one and a new slot
    /// at the end otherwise; no other key moves.
    pub open spec fn created_slot(&self, old: &Self, key: K) -> bool {
        let i = self.index_map()[key];
        &&& self.index_map() == old.index_map().insert(key, i)
        &&& if old.empty_set() == Set::<usize>::empty() {
            &&& i == old.cells().len()
            &&& self.cells().len() == old.cells().len() + 1
            &&& self.empty_set() == old.empty_set()
        } else {
            &&& old.empty_set().contains(i)
            &&& forall|j: usize| old.empty_set().contains(j) ==> i <= j
            &&& self.cells().len() == old.cells().len()
            &&& self.empty_set() == old.empty_set().remove(i)
        }
    }

    /// What every operation keeps: the rule and the durability flag.
    pub open spec fn same_setup(&self, old: &Self) -> bool {
        &&& self.spec_rule() == old.spec_rule()
        &&& self.is_durable() == old.is_durable()
    }

    /// Stores `value` under the absent key `key`. The record of the create
    /// joins the history; nothing is queued for the log.
    pub fn create_unchecked(&mut self, key: &K, value: &V)
        requires
            old(self).wf(),
            !old(self)@.contains_key(*key),
            old(self).cells().len() < usize::MAX,
        ensures
            final(self).wf(),
            final(self)@ == old(self)@.insert(*key, *value),
            final(self).created_slot(old(self), *key),
            final(self).same_setup(old(self)),
            final(self).history() == old(self).history().push(
                Atom { op: CREATE, key: *key, value: *value, delta: zero_of::<D>() },
            ),
            final(self).pending() == old(self).pending(),
    {
        let ghost a = Atom { op: CREATE, key: *key, value: *value, delta: zero_of::<D>() };
        let ghost old_view = self@;
        let i = self.slots.create((*key, *value));
        self.index.insert(*key, i);
        self.history = Ghost(self.history@.push(a));
        proof {
            lemma_replay_push(self.rule, Map::empty(), old(self).history@, a);
            assert(self@ =~= old_view.insert(*key, *value));
            assert forall|j: usize| #[trigger]
                self.cells()[j as int] is Some && j < self.cells().len() implies {
                    &&& self.index_map().contains_key(self.cells()[j as int]->Some_0.0)
                    &&& self.index_map()[self.cells()[j as int]->Some_0.0] == j
                } by {
                if j != i {
                    assert(old(self).cells()[j as int] == self.cells()[j as int]);
                }
            }
            assert(self.index_map().dom() == old(self).index_map().dom().insert(*key));
        }
    }

    /// Replaces the value of the present key `key` by `value` and returns
    /// the value it replaced. The record of the update joins the history;
    /// nothing is queued for the log.
    pub fn update_unchecked(&mut self, key: &K, value: &V) -> (r: V)
        requires
            old(self).wf(),
            old(self)@.contains_key(*key),
        ensures
            final(self).wf(),
            r == old(self)@[*key],
            final(self)@ == old(self)@.insert(*key, *value),
            final(self).index_map() == old(self).index_map(),
            final(self).cells().len() == old(self).cells().len(),
            final(self).empty_set() == old(self).empty_set(),
            final(self).same_setup(old(self)),
            final(self).history() == old(self).history().push(
                Atom { op: UPDATE, key: *key, value: *value, delta: zero_of::<D>() },
            ),
            final(self).pending() == old(self).pending(),
    {
        let ghost a = Atom { op: UPDATE, key: *key, value: *value, delta: zero_of::<D>() };
        let ghost old_view = self@;
        let i = self.slot_of(key);
        let prior = self.slots.swap(i, (*key, *value));
        self.history = Ghost(self.history@.push(a));
        proof {
            lemma_replay_push(self.rule, Map::empty(), old(self).history@, a);
            assert(self@ =~= old_view.insert(*key, *value));
            assert forall|j: usize| #[trigger]
                self.cells()[j as int] is Some && j < self.cells().len() implies {
                    &&& self.index_map().contains_key(self.cells()[j as int]->Some_0.0)
                    &&& self.index_map()[self.cells()[j as int]->Some_0.0] == j
                } by {
                if j != i {
                    assert(old(self).cells()[j as int] == self.cells()[j as int]);
                }
            }
        }
        match prior {
            Some(kv) => kv.1,
            None => *value,
        }
    }

    /// Removes the present key `key` and returns its value; its slot goes
    /// to the empty-set. The record of the delete joins the history;
    /// nothing is queued for the log.
    pub fn delete_unchecked(&mut self, key: &K) -> (r: V)
        requires
            old(self).wf(),
            old(self)@.contains_key(*key),
        ensures
            final(self).wf(),
            r == old(self)@[*key],
            final(self)@ == old(self)@.remove(*key),
            final(self).index_map() == old(self).index_map().remove(*key),
            final(self).cells().len() == old(self).cells().len(),
            final(self).empty_set() == old(self).empty_set().insert(old(self).index_map()[*key]),
            !old(self).empty_set().contains(old(self).index_map()[*key]),
            final(self).same_setup(old(self)),
            final(self).history() == old(self).history().push(
                Atom { op: DELETE, key: *key, value: zero_of::<V>(), delta: zero_of::<D>() },
            ),
            final(self).pending() == old(self).pending(),
    {
        let ghost a = Atom { op: DELETE, key: *key, value: zero_of::<V>(), delta: zero_of::<D>() };
        let ghost old_view = self@;
        let i = self.slot_of(key);
        let prior = self.slots.take(i);
        self.index.remove(key);
        self.history = Ghost(self.history@.push(a));
        proof {
            lemma_replay_push(self.rule, Map::empty(), old(self).history@, a);
            assert(self@ =~= old_view.remove(*key));
            assert forall|j: usize| #[trigger]
                self.cells()[j as int] is Some && j < self.cells().len() implies {
                    &&& self.index_map().contains_key(self.cells()[j as int]->Some_0.0)
                    &&& self.index_map()[self.cells()[j as int]->Some_0.0] == j
                } by {
                if j != i {
                    assert(old(self).cells()[j as int] == self.cells()[j as int]);
                }
            }
            assert(self.index_map().dom() == old(self).index_map().dom().remove(*key));
        }
        match prior {
            Some(kv) => kv.1,
            None => V::zeroed(),
        }
    }

    /// Merges `delta` into the value of the present key `key` with the
    /// column's rule; when the rule asks for it, the key is removed and its
    /// slot goes to the empty-set. The record of the merge joins the
    /// history; nothing is queued for the log.
    pub fn merge_unchecked(&mut self, key: &K, delta: D)
        requires
            old(self).wf(),
            old(self)@.contains_key(*key),
        ensures
            final(self).wf(),
            final(self)@ == merged(old(self).spec_rule(), old(self)@, *key, delta),
            final(self).cells().len() == old(self).cells().len(),
            old(self).spec_rule().spec_merge(old(self)@[*key], delta).1 ==> {
                &&& final(self).index_map() == old(self).index_map().remove(*key)
                &&& final(self).empty_set() == old(self).empty_set().insert(
                    old(self).index_map()[*key],
                )
            },
            !old(self).spec_rule().spec_merge(old(self)@[*key], delta).1 ==> {
                &&& final(self).index_map() == old(self).index_map()
                &&& final(self).empty_set() == old(self).empty_set()
            },
            final(self).same_setup(old(self)),
            final(self).history() == old(self).history().push(
                Atom { op: MERGE, key: *key, value: zero_of::<V>(), delta },
            ),
            final(self).pending() == old(self).pending(),
    {
        let ghost a = Atom { op: MERGE, key: *key, value: zero_of::<V>(), delta };
        let ghost old_view = self@;
        let i = self.slot_of(key);
        let mut v = match self.slots.read(i) {
            Some(kv) => kv.1,
            None => V::zeroed(),
        };
        let drop = self.rule.merge(&mut v, delta);
        if drop {
            self.slots.take(i);
            self.index.remove(key);
            proof {
                assert(self@ =~= old_view.remove(*key));
                assert(self.index_map().dom() == old(self).index_map().dom().remove(*key));
            }
        } else {
            self.slots.update(i, (*key, v));
            proof {
                assert(self@ =~= old_view.insert(*key, v));
            }
        }
        self.history = Ghost(self.history@.push(a));
        proof {
            lemma_replay_push(self.rule, Map::empty(), old(self).history@, a);
            assert forall|j: usize| #[trigger]
                self.cells()[j as int] is Some && j < self.cells().len() implies {
                    &&& self.index_map().contains_key(self.cells()[j as int]->Some_0.0)
                    &&& self.index_map()[self.cells()[j as int]->Some_0.0] == j
                } by {
                if j != i {
                    assert(old(self).cells()[j as int] == self.cells()[j as int]);
                }
            }
        }
    }

    /// What a safe operation leaves in the history and the log queue: the
    /// record `a` joins the history, and the queue too when the column is
    /// durable; with no record, both stay as they were.
    pub open spec fn logged(&self, old: &Self, a: Option<Atom<K, V, D>>) -> bool {
        match a {
            Some(a) => {
                &&& self.history() == old.history().push(a)
                &&& self.pending() == if old.is_durable() {
                    old.pending().push(a)
                } else {
                    old.pending()
                }
            },
            None => {
                &&& self.history() == old.history()
                &&& self.pending() == old.pending()
            },
        }
    }

    /// Queues `a` for the log when the column is durable.
    fn emit(&mut self, a: Atom<K, V, D>)
        ensures
            final(self).pending() == if old(self).is_durable() {
                old(self).pending().push(a)
            } else {
                old(self).pending()
            },
            final(self).history() == old(self).history(),
            final(self).index_map() == old(self).index_map(),
            final(self).cells() == old(self).cells(),
            final(self).empty_set() == old(self).empty_set(),
            final(self).same_setup(old(self)),
            final(self).slots_wf() == old(self).slots_wf(),
            final(self)@ == old(self)@,
    {
        if self.durable {
            self.pending.push(a);
        }
    }

    /// The record that `set(key, value)` emits on contents `m`: an update
    /// of a present key, a create of an absent one, a delete of a present
    /// one, and none for removing an absent key.
    pub open spec fn set_record(m: Map<K, V>, key: K, value: Option<V>) -> Option<Atom<K, V, D>> {
        match value {
            Some(v) => if m.contains_key(key) {
                Some(Atom { op: UPDATE, key, value: v, delta: zero_of::<D>() })
            } else {
                Some(Atom { op: CREATE, key, value: v, delta: zero_of::<D>() })
            },
            None => if m.contains_key(key) {
                Some(Atom { op: DELETE, key, value: zero_of::<V>(), delta: zero_of::<D>() })
            } else {
                None
            },
        }
    }

    /// Stores `value` under `key` (`Some`) or removes `key` (`None`), and
    /// returns the value that `key` had before, if any.
    pub fn set(&mut self, key: &K, value: Option<&V>) -> (r: Option<V>)
        requires
            old(self).wf(),
            value is Some && !old(self)@.contains_key(*key) ==> old(self).cells().len() < usize::MAX,
        ensures
            final(self).wf(),
            r == old(self)@.get(*key),
            final(self)@ == assigned(old(self)@, *key, owned(value)),
            final(self).cells().len() == if value is Some && !old(self)@.contains_key(*key)
                && old(self).empty_set() == Set::<usize>::empty() {
                old(self).cells().len() + 1
            } else {
                old(self).cells().len()
            },
            value is Some && !old(self)@.contains_key(*key) ==> final(self).created_slot(
                old(self),
                *key,
            ),
            value is Some && old(self)@.contains_key(*key) ==> {
                &&& final(self).index_map() == old(self).index_map()
                &&& final(self).empty_set() == old(self).empty_set()
            },
            value is None && old(self)@.contains_key(*key) ==> {
                &&& final(self).index_map() == old(self).index_map().remove(*key)
                &&& final(self).empty_set() == old(self).empty_set().insert(
                    old(self).index_map()[*key],
                )
            },
            value is None && !old(self)@.contains_key(*key) ==> {
                &&& final(self).index_map() == old(self).index_map()
                &&& final(self).empty_set() == old(self).empty_set()
            },
            final(self).same_setup(old(self)),
            final(self).logged(old(self), Self::set_record(old(self)@, *key, owned(value))),
    {
        match value {
            Some(v) => {
                let z = D::zeroed();
                proof {
                    lemma_zero_of(z);
                }
                if self.contains_key(key) {
                    let prior = self.update_unchecked(key, v);
                    self.emit(Atom::new(UPDATE, *key, *v, z));
                    Some(prior)
                } else {
                    self.create_unchecked(key, v);
                    self.emit(Atom::new(CREATE, *key, *v, z));
                    None
                }
            },
            None => {
                if self.contains_key(key) {
                    let prior = self.delete_unchecked(key);
                    let zv = V::zeroed();
                    let zd = D::zeroed();
                    proof {
                        lemma_zero_of(zv);
                        lemma_zero_of(zd);
                    }
                    self.emit(Atom::new(DELETE, *key, zv, zd));
                    Some(prior)
                } else {
                    None
                }
            },
        }
    }

    /// Removes `key` and returns its value, if it was present.
    pub fn remove(&mut self, key: &K) -> (r: Option<V>)
        requires
            old(self).wf(),
        ensures
            final(self).wf(),
            r == old(self)@.get(*key),
            final(self)@ == old(self)@.remove(*key),
            final(self).cells().len() == old(self).cells().len(),
            final(self).same_setup(old(self)),
            final(self).logged(old(self), Self::set_record(old(self)@, *key, None)),
    {
        self.set(key, None)
    }

    /// Merges `delta` into the value of `key` with the column's rule, when
    /// `key` is present; an absent key stays absent.
    pub fn merge(&mut self, key: &K, delta: &D)
        requires
            old(self).wf(),
        ensures
            final(self).wf(),
            final(self)@ == if old(self)@.contains_key(*key) {
                merged(old(self).spec_rule(), old(self)@, *key, *delta)
            } else {
                old(self)@
            },
            final(self).same_setup(old(self)),
            final(self).cells().len() == old(self).cells().len(),
            final(self).index_map().remove(*key) == old(self).index_map().remove(*key),
            final(self).index_map().contains_key(*key) ==> final(self).index_map()[*key]
                == old(self).index_map()[*key],
            final(self).logged(
                old(self),
                if old(self)@.contains_key(*key) {
                    Some(Atom { op: MERGE, key: *key, value: zero_of::<V>(), delta: *delta })
                } else {
                    None
                },
            ),
    {
        if self.contains_key(key) {
            self.merge_unchecked(key, delta.duplicate());
            proof {
                assert(self.index_map().remove(*key) =~= old(self).index_map().remove(*key));
            }
            let zv = V::zeroed();
            proof {
                lemma_zero_of(zv);
            }
            self.emit(Atom::new(MERGE, *key, zv, delta.duplicate()));
        }
    }

    /// Replaces the value of `key` by what `f` makes of it, when `key` is
    /// present; the change is recorded as an update.
    pub fn modify_with<F: FnOnce(V) -> V>(&mut self, key: &K, f: F)
        requires
            old(self).wf(),
            old(self)@.contains_key(*key) ==> f.requires((old(self)@[*key],)),
        ensures
            final(self).wf(),
            final(self).same_setup(old(self)),
            final(self).cells().len() == old(self).cells().len(),
            !old(self)@.contains_key(*key) ==> final(self)@ == old(self)@ && final(self).logged(
                old(self),
                None,
            ),
            old(self)@.contains_key(*key) ==> exists|v: V|
                {
                    &&& f.ensures((old(self)@[*key],), v)
                    &&& final(self)@ == old(self)@.insert(*key, v)
                    &&& final(self).logged(
                        old(self),
                        Some(Atom { op: UPDATE, key: *key, value: v, delta: zero_of::<D>() }),
                    )
                },
    {
        if self.contains_key(key) {
            let v = self.read_unchecked(key);
            let nv = f(v);
            self.update_unchecked(key, &nv);
            let z = D::zeroed();
            proof {
                lemma_zero_of(z);
            }
            self.emit(Atom::new(UPDATE, *key, nv, z));
        }
    }

    /// Takes the records queued for the log, oldest first, and leaves the
    /// queue empty.
    pub fn take_pending(&mut self) -> (r: Vec<Atom<K, V, D>>)
        requires
            old(self).wf(),
        ensures
            final(self).wf(),
            r@ == old(self).pending(),
            final(self).pending() == Seq::<Atom<K, V, D>>::empty(),
            final(self)@ == old(self)@,
            final(self).history() == old(self).history(),
            final(self).same_setup(old(self)),
    {
        let mut out = Vec::new();
        std::mem::swap(&mut out, &mut self.pending);
        out
    }

    /// Replays `atoms` in order onto the column with the unchecked
    /// primitives, skipping each record whose precondition does not hold and
    /// each unknown operation byte. Nothing is queued for the log.
    pub fn load(&mut self, atoms: &Vec<Atom<K, V, D>>)
        requires
            old(self).wf(),
            old(self).cells().len() + atoms@.len() <= usize::MAX,
        ensures
            final(self).wf(),
            final(self)@ == replay(old(self).spec_rule(), old(self)@, atoms@),
            final(self).same_setup(old(self)),
            final(self).pending() == old(self).pending(),
    {
        let mut i: usize = 0;
        proof {
            assert(atoms@.take(0) =~= Seq::<Atom<K, V, D>>::empty());
        }
        while i < atoms.len()
            invariant
                self.wf(),
                i <= atoms@.len(),
                old(self).cells().len() + atoms@.len() <= usize::MAX,
                self.cells().len() <= old(self).cells().len() + i,
                self@ == replay(old(self).spec_rule(), old(self)@, atoms@.take(i as int)),
                self.same_setup(old(self)),
                self.pending() == old(self).pending(),
            decreases atoms@.len() - i,
        {
            let a = &atoms[i];
            let key = a.key;
            proof {
                assert(atoms@.take(i + 1) =~= atoms@.take(i as int).push(atoms@[i as int]));
                lemma_replay_push(self.rule, old(self)@, atoms@.take(i as int), atoms@[i as int]);
            }
            if a.op == CREATE {
                if !self.contains_key(&key) {
                    self.create_unchecked(&key, &a.value);
                }
            } else if a.op == UPDATE {
                if self.contains_key(&key) {
                    self.update_unchecked(&key, &a.value);
                }
            } else if a.op == MERGE {
                if self.contains_key(&key) {
                    self.merge_unchecked(&key, a.delta.duplicate());
                }
            } else if a.op == DELETE {
                if self.contains_key(&key) {
                    self.delete_unchecked(&key);
                }
            }
            i = i + 1;
        }
        proof {
            assert(atoms@.take(atoms@.len() as int) =~= atoms@);
        }
    }

    /// Rebuilds a column from the bytes of its log: checks the header
    /// against the schema of `Atom<K, V, D>`, then replays every complete
    /// record into an empty column. Also returns the offset where the
    /// complete records end, where the next append belongs.
    pub fn restore(bytes: &[u8], rule: R, durable: bool) -> (r: Result<(Self, usize), Error>)
        requires
            obeys_key_model::<K>(),
        ensures
            bytes@.len() < HEADER_LEN <==> r == Err::<(Self, usize), Error>(Error::LogIO),
            bytes@.len() >= HEADER_LEN && bytes@.subrange(0, HEADER_LEN as int) != header_bytes(
                Atom::<K, V, D>::spec_len() as u32,
                spec_schema_tag::<K, V, D>(),
            ) <==> r == Err::<(Self, usize), Error>(Error::SchemaMismatch),
            r is Ok ==> {
                let (c, end) = r->Ok_0;
                let w = Atom::<K, V, D>::spec_len();
                &&& c.wf()
                &&& c.spec_rule() == rule
                &&& c.is_durable() == durable
                &&& c.pending() == Seq::<Atom<K, V, D>>::empty()
                &&& exists|atoms: Seq<Atom<K, V, D>>|
                    {
                        &&& end == HEADER_LEN + atoms.len() * w
                        &&& end <= bytes@.len() < end + w
                        &&& forall|i: int|
                            0 <= i < atoms.len() ==> #[trigger] atoms[i].spec_bytes()
                                == record_at(bytes@, w, i)
                        &&& c@ == replay(rule, Map::empty(), atoms)
                    }
            },
    {
        let tag = schema_tag::<K, V, D>();
        match decode_log::<K, V, D>(bytes, &tag) {
            Err(e) => Err(e),
            Ok((atoms, end)) => {
                let mut c = Self::with_capacity(0, rule, durable);
                proof {
                    let w = Atom::<K, V, D>::spec_len() as int;
                    assert(atoms@.len() <= atoms@.len() * w) by (nonlinear_arith)
                        requires
                            w >= 1,
                    ;
                }
                c.load(&atoms);
                Ok((c, end))
            },
        }
    }

    /// Visits every slot in order and, for each present key, asks `f` for a
    /// delta from the key and its value; each delta returned is merged into
    /// that key at once, before the next slot is visited.
    pub fn tick<F: TickFn<K, V, D, R>>(&mut self, f: F)
        requires
            old(self).wf(),
            forall|k: K, v: V, c: &Self| f.requires((k, v, c)),
        ensures
            final(self).wf(),
            final(self).same_setup(old(self)),
            forall|k: K| final(self)@.contains_key(k) ==> old(self)@.contains_key(k),
            forall|k: K|
                old(self)@.contains_key(k) ==> exists|c: &Self, o: Option<D>|
                    {
                        &&& f.ensures((k, old(self)@[k], c), o)
                        &&& ticked(old(self).spec_rule(), old(self)@, final(self)@, k, o)
                    },
    {
        let n = self.slots.len();
        let ghost outcomes: Map<K, Option<D>> = Map::empty();
        let ghost seen: Map<K, Self> = Map::empty();
        let mut j: usize = 0;
        while j < n
            invariant
                self.wf(),
                n == self.cells().len(),
                n == old(self).cells().len(),
                j <= n,
                self.same_setup(old(self)),
                forall|k: K, v: V, c: &Self| f.requires((k, v, c)),
                forall|k: K| #[trigger]
                    self@.contains_key(k) ==> old(self)@.contains_key(k)
                        && self.index_map()[k] == old(self).index_map()[k],
                forall|k: K| #[trigger]
                    old(self)@.contains_key(k) && old(self).index_map()[k] >= j ==> {
                        &&& self@.contains_key(k)
                        &&& self@[k] == old(self)@[k]
                    },
                forall|k: K| #[trigger]
                    old(self)@.contains_key(k) && old(self).index_map()[k] < j ==> {
                        &&& outcomes.contains_key(k)
                        &&& seen.contains_key(k)
                        &&& f.ensures((k, old(self)@[k], &seen[k]), outcomes[k])
                        &&& ticked(old(self).spec_rule(), old(self)@, self@, k, outcomes[k])
                    },
            decreases n - j,
        {
            let cell = self.slots.read(j);
            match cell {
                Some(kv) => {
                    let k = kv.0;
                    let v = kv.1;
                    proof {
                        assert(self.index_map().contains_key(k));
                        assert(self@.contains_key(k));
                        assert(old(self)@.contains_key(k));
                        assert(old(self).index_map()[k] == j);
                    }
                    let ghost snapshot = *self;
                    let o = f(k, v, &*self);
                    let ghost before = self@;
                    match &o {
                        Some(d) => {
                            self.merge(&k, d);
                        },
                        None => {},
                    }
                    proof {
                        outcomes = outcomes.insert(k, o);
                        seen = seen.insert(k, snapshot);
                        assert forall|k2: K| #[trigger]
                            self@.contains_key(k2) implies old(self)@.contains_key(k2)
                                && self.index_map()[k2] == old(self).index_map()[k2] by {
                            assert(before.contains_key(k2));
                            if k2 != k {
                                assert(self.index_map().remove(k)[k2] == self.index_map()[k2]);
                            }
                        }
                        assert forall|k2: K| #[trigger]
                            old(self)@.contains_key(k2) && old(self).index_map()[k2] < j + 1 implies {
                                &&& outcomes.contains_key(k2)
                                &&& seen.contains_key(k2)
                                &&& f.ensures((k2, old(self)@[k2], &seen[k2]), outcomes[k2])
                                &&& ticked(old(self).spec_rule(), old(self)@, self@, k2, outcomes[k2])
                            } by {
                            if k2 != k {
                                assert(old(self).index_map()[k2] != j);
                            }
                        }
                    }
                },
                None => {
                    proof {
                        assert forall|k2: K| #[trigger]
                            old(self)@.contains_key(k2) && old(self).index_map()[k2] >= j implies old(self).index_map()[k2] != j by {
                            if old(self).index_map()[k2] == j {
                                assert(self.index_map()[k2] == j);
                            }
                        }
                    }
                },
            }
            j = j + 1;
        }
        proof {
            assert forall|k: K|
                old(self)@.contains_key(k) implies exists|c: &Self, o: Option<D>|
                    {
                        &&& f.ensures((k, old(self)@[k], c), o)
                        &&& ticked(old(self).spec_rule(), old(self)@, self@, k, o)
                    } by {
                assert(old(self).index_map()[k] < n);
                let o = outcomes[k];
                assert(f.ensures((k, old(self)@[k], &seen[k]), o));
            }
        }
    }

    /// The slot of `key`, or `None` when it is absent.
    pub fn slot_index(&self, key: &K) -> (r: Option<usize>)
        requires
            self.wf(),
        ensures
            r == self.index_map().get(*key),
    {
        match self.index.get(key) {
            Some(i) => Some(*i),
            None => None,
        }
    }

    /// The value of the present key `key`.
    pub fn read_unchecked(&self, key: &K) -> (r: V)
        requires
            self.wf(),
            self@.contains_key(*key),
        ensures
            r == self@[*key],
    {
        let i = self.slot_of(key);
        match self.slots.read(i) {
            Some(kv) => kv.1,
            None => V::zeroed(),
        }
    }

    /// The value of `key`, or `None` when it is absent.
    pub fn get(&self, key: &K) -> (r: Option<V>)
        requires
            self.wf(),
        ensures
            r == self@.get(*key),
    {
        if self.contains_key(key) {
            Some(self.read_unchecked(key))
        } else {
            None
        }
    }
}

/// Every key in the index points at an occupied slot that holds that key.
pub proof fn lemma_indexed_slots_occupied<
    K: Key,
    V: Exchangable + Copy,
    D: Exchangable,
    R: MergeAssign<V, D>,
>(c: &Dense<K, V, D, R>)
    requires
        c.wf(),
    ensures
        forall|k: K| #[trigger]
            c.index_map().contains_key(k) ==> {
                &&& c.index_map()[k] < c.cells().len()
                &&& c.cells()[c.index_map()[k] as int] is Some
                &&& c.cells()[c.index_map()[k] as int]->Some_0.0 == k
            },
{
}

/// Every slot in the empty-set is empty.
pub proof fn lemma_empty_slots_vacant<
    K: Key,
    V: Exchangable + Copy,
    D: Exchangable,
    R: MergeAssign<V, D>,
>(c: &Dense<K, V, D, R>)
    requires
        c.wf(),
    ensures
        forall|i: usize| #[trigger]
            c.empty_set().contains(i) ==> i < c.cells().len() && c.cells()[i as int] is None,
{
}

/// The present keys and the empty slots together account for every slot.
pub proof fn lemma_slot_census<
    K: Key,
    V: Exchangable + Copy,
    D: Exchangable,
    R: MergeAssign<V, D>,
>(c: &Dense<K, V, D, R>)
    requires
        c.wf(),
    ensures
        c@.dom().len() + c.empty_set().len() == c.cells().len(),
        c.index_map().dom().len() + c.empty_set().len() == c.cells().len(),
{
    assert(c@.dom() =~= c.index_map().dom());
}

/// Replaying the record of a column's mutations into an empty column with
/// the same rule (what `load` does) gives back the same keys with the same
/// values.
pub proof fn lemma_replay_reproduces<
    K: Key,
    V: Exchangable + Copy,
    D: Exchangable,
    R: MergeAssign<V, D>,
>(c: &Dense<K, V, D, R>, fresh: &Dense<K, V, D, R>, loaded: &Dense<K, V, D, R>)
    requires
        c.wf(),
        fresh@ == Map::<K, V>::empty(),
        fresh.spec_rule() == c.spec_rule(),
        loaded@ == replay(fresh.spec_rule(), fresh@, c.history()),
    ensures
        loaded@ == c@,
{
}

/// In a durable column, a safe operation queues exactly the record that it
/// adds to the history. So when the records already taken from the queue,
/// followed by those still queued, make up the history, they still do after
/// the operation: a log that receives every queued record replays to the
/// column's contents.
pub proof fn lemma_queue_follows_history<
    K: Key,
    V: Exchangable + Copy,
    D: Exchangable,
    R: MergeAssign<V, D>,
>(
    c0: &Dense<K, V, D, R>,
    c1: &Dense<K, V, D, R>,
    a: Option<Atom<K, V, D>>,
    taken: Seq<Atom<K, V, D>>,
)
    requires
        c0.is_durable(),
        c0.history() == taken + c0.pending(),
        c1.logged(c0, a),
    ensures
        c1.history() == taken + c1.pending(),
{
    match a {
        Some(x) => {
            assert(taken + c0.pending().push(x) =~= (taken + c0.pending()).push(x));
        },
        None => {},
    }
}

/// After `set(k, Some(v))`, `get(k)` returns `Some(v)`.
pub proof fn lemma_set_then_get<K, V>(m: Map<K, V>, k: K, v: V)
    ensures
        assigned(m, k, Some(v)).get(k) == Some(v),
{
}

/// After `set(k, Some(v))` and then `set(k, None)`, `get(k)` returns
/// `None`.
pub proof fn lemma_set_then_clear<K, V>(m: Map<K, V>, k: K, v: V)
    ensures
        assigned(assigned(m, k, Some(v)), k, None).get(k) == None::<V>,
{
}

/// `create_unchecked(k, v)` followed by `delete_unchecked(k)` gives back the
/// size of the index and of the empty-set, when the create could reuse an
/// empty slot (with none to reuse, the create appends a slot, which the
/// delete then adds to the empty-set).
pub proof fn lemma_create_delete_restores_counts<
    K: Key,
    V: Exchangable + Copy,
    D: Exchangable,
    R: MergeAssign<V, D>,
>(c0: &Dense<K, V, D, R>, c1: &Dense<K, V, D, R>, c2: &Dense<K, V, D, R>, k: K, v: V)
    requires
        c0.wf(),
        !c0@.contains_key(k),
        c0.empty_set() != Set::<usize>::empty(),
        c1@ == c0@.insert(k, v),
        c1.created_slot(c0, k),
        c2.index_map() == c1.index_map().remove(k),
        c2.empty_set() == c1.empty_set().insert(c1.index_map()[k]),
        !c1.empty_set().contains(c1.index_map()[k]),
    ensures
        c2.empty_set().len() == c0.empty_set().len(),
        c2.index_map().dom().len() == c0.index_map().dom().len(),
{
    let i = c1.index_map()[k];
    assert(!c0.index_map().contains_key(k));
    assert(c2.empty_set() =~= c0.empty_set());
    assert(c2.index_map() =~= c0.index_map());
}

/// The set `0 .. n` of indices has `n` elements.
proof fn lemma_index_range_len(n: int)
    requires
        0 <= n <= usize::MAX + 1,
    ensures
        crate::slots::index_range(n).finite(),
        crate::slots::index_range(n).len() == n,
    decreases n,
{
    if n == 0 {
        assert(crate::slots::index_range(0) =~= Set::empty());
    } else {
        lemma_index_range_len(n - 1);
        assert(crate::slots::index_range(n) =~= crate::slots::index_range(n - 1).insert((n - 1) as usize));
    }
}

} // verus!
