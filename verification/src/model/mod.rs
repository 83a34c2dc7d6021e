//! Vault data model, projected onto the CRDTs.
//!
//! A vault = an **add-wins** set of entries ([`EntryId`]) + per entry a map of
//! fields ([`FieldId`] → [`LwwRegister`]). The **presence** of an entry is
//! governed by the `AddWinsSet` (a concurrent add wins over a remove); the
//! **value** of each field by an independent LWW register — two devices
//! editing *different* fields of the same entry converge without overwriting
//! each other.
//!
//! Presence and values are **orthogonal** (mechanism, not policy):
//! `set_field` does not touch presence. An app that wants "edit wins over
//! delete" simply calls [`VaultDoc::add_entry`] again on each edit.
//!
//! Everything is **E2EE**: the value type `V` is an opaque ciphertext (in
//! production `crypto::Ciphertext`), never decrypted server-side.
//!
//! # Synchronisation by **deltas**
//!
//! Each mutation returns a **delta**: a partial `VaultDoc`, join-compatible
//! with the full state. Deltas are *shipped* (to the server log), not
//! recomputed from a version vector. A peer converges by merging the stream of
//! deltas ([`lemma_delta_stream_converges`]). The join being idempotent,
//! commutative and associative, delivery may be **out of order and
//! duplicated** without breaking convergence
//! ([`lemma_delta_stream_any_order`]). A peer too far behind resynchronises by
//! **snapshot**: a join of the full state, correct by the same property.

use crate::crdt::awset::{
    aw_add_delta, aw_added, aw_disjoint, aw_empty, aw_join, aw_remove_delta, aw_removed, aw_valid, views_of,
};
use crate::crdt::dot::{fresh_dot, is_next_counter, Dot, DotContext};
use crate::crdt::lww::lww_join;
use crate::crdt::{AddWinsSet, DeviceId, LwwRegister, Timestamp};
use crate::error::{Error, Result};
use crate::order::{
    bytes_precede, compare_bytes, lemma_bytes_irreflexive, lemma_bytes_total, lemma_bytes_transitive,
    Order, TotalOrder,
};
use crate::primitives::{describe_random_error, random_bytes};
use crate::sorted::{strictly_sorted, OrdMap};
use vstd::prelude::*;
use vstd::std_specs::cmp::PartialEqSpecImpl;

pub mod laws;

verus! {

/// Global identifier of an entry (16-byte UUID), unique across devices.
#[derive(Clone, Copy, PartialEq, Eq, PartialOrd, Ord, Hash, Debug)]
pub struct EntryId([u8; 16]);

impl View for EntryId {
    type V = EntryId;

    open spec fn view(&self) -> EntryId {
        *self
    }
}

impl EntryId {
    /// The identifier's 16 bytes.
    pub closed spec fn bytes(self) -> Seq<u8> {
        self.0@
    }

    /// Two identifiers with the same bytes are the same identifier.
    pub proof fn lemma_bytes_injective(a: EntryId, b: EntryId)
        ensures
            a.bytes().len() == 16,
            (a.bytes() == b.bytes()) == (a == b),
    {
        if a.bytes() == b.bytes() {
            assert(a.0 =~= b.0);
        }
    }

    /// Builds an identifier from 16 bytes.
    pub fn from_bytes(bytes: [u8; 16]) -> (r: Self)
        ensures
            r.bytes() == bytes@,
    {
        EntryId(bytes)
    }

    /// The identifier's 16 bytes.
    pub fn as_bytes(&self) -> (r: &[u8; 16])
        ensures
            r@ == self.bytes(),
    {
        &self.0
    }

    /// Draws a random identifier from the OS CSPRNG. Fails only when the OS
    /// generator fails; the bytes drawn are not stated.
    pub fn generate() -> (r: Result<Self>)
        ensures
            r matches Err(e) ==> e matches Error::Crdt(m) && "CSPRNG : "@.is_prefix_of(m@),
    {
        match random_bytes::<16>() {
            Ok(bytes) => Ok(EntryId(bytes)),
            Err(e) => Err(Error::Crdt(describe_random_error(&e))),
        }
    }
}

impl TotalOrder for EntryId {
    open spec fn precedes(a: EntryId, b: EntryId) -> bool {
        bytes_precede(a.bytes(), b.bytes())
    }

    proof fn lemma_irreflexive(a: EntryId) {
        lemma_bytes_irreflexive(a.bytes());
    }

    proof fn lemma_transitive(a: EntryId, b: EntryId, c: EntryId) {
        lemma_bytes_transitive(a.bytes(), b.bytes(), c.bytes());
    }

    proof fn lemma_total(a: EntryId, b: EntryId) {
        lemma_bytes_total(a.bytes(), b.bytes());
        EntryId::lemma_bytes_injective(a, b);
    }

    fn compare(&self, other: &EntryId) -> (r: Order) {
        proof {
            EntryId::lemma_bytes_injective(*self, *other);
        }
        compare_bytes(self.0.as_slice(), other.0.as_slice())
    }

    fn duplicate(&self) -> (r: EntryId) {
        *self
    }
}

/// Compact tag of a field. Its meaning (title, secret…) is defined by the
/// client; the server only sees an opaque tag.
#[derive(Clone, Copy, PartialEq, Eq, PartialOrd, Ord, Hash, Debug)]
pub struct FieldId(pub u16);

impl View for FieldId {
    type V = FieldId;

    open spec fn view(&self) -> FieldId {
        *self
    }
}

impl TotalOrder for FieldId {
    open spec fn precedes(a: FieldId, b: FieldId) -> bool {
        a.0 < b.0
    }

    proof fn lemma_irreflexive(a: FieldId) {
    }

    proof fn lemma_transitive(a: FieldId, b: FieldId, c: FieldId) {
    }

    proof fn lemma_total(a: FieldId, b: FieldId) {
    }

    fn compare(&self, other: &FieldId) -> (r: Order) {
        if self.0 < other.0 {
            Order::Less
        } else if self.0 == other.0 {
            Order::Equal
        } else {
            Order::Greater
        }
    }

    fn duplicate(&self) -> (r: FieldId) {
        *self
    }
}

/// Presence part of a document's view.
pub type PresenceView = (Map<EntryId, Set<Dot>>, Set<Dot>);

/// Field registers of a document's view, keyed by (entry, field).
pub open spec fn fields_join<V: TotalOrder>(
    x: Map<(EntryId, FieldId), (Timestamp, V::V)>,
    y: Map<(EntryId, FieldId), (Timestamp, V::V)>,
) -> Map<(EntryId, FieldId), (Timestamp, V::V)> {
    Map::new(
        |k: (EntryId, FieldId)| x.contains_key(k) || y.contains_key(k),
        |k: (EntryId, FieldId)|
            if x.contains_key(k) && y.contains_key(k) {
                lww_join::<V>(x[k], y[k])
            } else if x.contains_key(k) {
                x[k]
            } else {
                y[k]
            },
    )
}

/// Replicated vault document: entry presence (add-wins) + fields (LWW).
/// `V` = opaque encrypted value (in production `crypto::Ciphertext`).
#[derive(Clone, Debug)]
pub struct VaultDoc<V> {
    entries: AddWinsSet<EntryId>,
    fields: OrdMap<(EntryId, FieldId), LwwRegister<V>>,
}

impl<V: TotalOrder> View for VaultDoc<V> {
    type V = (PresenceView, Map<(EntryId, FieldId), (Timestamp, V::V)>);

    closed spec fn view(&self) -> (PresenceView, Map<(EntryId, FieldId), (Timestamp, V::V)>) {
        (self.entries@, self.fields@)
    }
}

/// Join of two document states: presence by the add-wins join, each field
/// register by the LWW join.
pub open spec fn doc_join<V: TotalOrder>(
    a: (PresenceView, Map<(EntryId, FieldId), (Timestamp, V::V)>),
    b: (PresenceView, Map<(EntryId, FieldId), (Timestamp, V::V)>),
) -> (PresenceView, Map<(EntryId, FieldId), (Timestamp, V::V)>) {
    (aw_join(a.0, b.0), fields_join::<V>(a.1, b.1))
}

/// The empty document state.
pub open spec fn doc_empty<V: TotalOrder>() -> (PresenceView, Map<(EntryId, FieldId), (Timestamp, V::V)>) {
    (aw_empty(), Map::empty())
}

/// A document state whose presence part is valid.
pub open spec fn doc_valid<V: TotalOrder>(a: (PresenceView, Map<(EntryId, FieldId), (Timestamp, V::V)>)) -> bool {
    aw_valid(a.0)
}

/// The register written by `set_field` under `key`.
pub open spec fn written_register<V: TotalOrder>(
    fields: Map<(EntryId, FieldId), (Timestamp, V::V)>,
    key: (EntryId, FieldId),
    value: V::V,
    ts: Timestamp,
) -> (Timestamp, V::V) {
    if fields.contains_key(key) {
        lww_join::<V>(fields[key], (ts, value))
    } else {
        (ts, value)
    }
}

impl<V: TotalOrder> VaultDoc<V> {
    /// Well-formedness: well-formed presence set and sorted fields.
    pub closed spec fn wf(self) -> bool {
        &&& self.entries.wf()
        &&& self.fields.wf()
    }

    /// A well-formed document has a valid state in which no dot is shared by
    /// two entries, to which the laws of [`laws`] apply.
    pub proof fn lemma_wf_valid(self)
        requires
            self.wf(),
        ensures
            doc_valid::<V>(self@),
            aw_disjoint(self@.0),
    {
        self.entries.lemma_wf_valid();
    }

    /// Empty document.
    pub fn new() -> (d: Self)
        ensures
            d.wf(),
            d@ == doc_empty::<V>(),
    {
        VaultDoc { entries: AddWinsSet::new(), fields: OrdMap::new() }
    }

    /// Marks an entry present (add-wins semantics). Returns the **delta** to
    /// propagate.
    pub fn add_entry(&mut self, id: EntryId, device: DeviceId) -> (delta: Self)
        requires
            old(self).wf(),
            forall|c: u64| #[trigger]
                old(self)@.0.1.contains(Dot { device, counter: c }) ==> c < u64::MAX - 1,
        ensures
            final(self).wf(),
            delta.wf(),
            final(self)@ == (aw_added(old(self)@.0, id, fresh_dot(old(self)@.0.1, device)), old(self)@.1),
            delta@ == (aw_add_delta(old(self)@.0, id, fresh_dot(old(self)@.0.1, device)), Map::<
                (EntryId, FieldId),
                (Timestamp, V::V),
            >::empty()),
            doc_join::<V>(old(self)@, delta@) == final(self)@,
            fresh_dot(old(self)@.0.1, device).device == device,
            !old(self)@.0.1.contains(fresh_dot(old(self)@.0.1, device)),
            is_next_counter(old(self)@.0.1, device, fresh_dot(old(self)@.0.1, device).counter),
    {
        let entries = self.entries.add(id, device);
        let delta = VaultDoc { entries, fields: OrdMap::new() };
        assert(fields_join::<V>(old(self)@.1, delta@.1) =~= self@.1);
        delta
    }

    /// Removes an entry. The field registers are **kept** (so as not to lose
    /// concurrent writes should the entry be re-added); their collection is
    /// deferred. Returns the **delta** to propagate: it carries **no** entry,
    /// its causal context (the removed dots) carries the removal to the peer.
    pub fn remove_entry(&mut self, id: &EntryId) -> (delta: Self)
        requires
            old(self).wf(),
        ensures
            final(self).wf(),
            delta.wf(),
            final(self)@ == (aw_removed(old(self)@.0, *id), old(self)@.1),
            delta@ == (aw_remove_delta(old(self)@.0, *id), Map::<
                (EntryId, FieldId),
                (Timestamp, V::V),
            >::empty()),
            doc_join::<V>(old(self)@, delta@) == final(self)@,
    {
        let entries = self.entries.remove(id);
        let delta = VaultDoc { entries, fields: OrdMap::new() };
        assert(fields_join::<V>(old(self)@.1, delta@.1) =~= self@.1);
        delta
    }

    /// The two documents store the same presence set and the same field
    /// registers, in the same order.
    pub closed spec fn same_repr(self, other: Self) -> bool {
        &&& self.entries.same_repr(other.entries)
        &&& self.fields.keys() == other.fields.keys()
        &&& self.fields.vals() == other.fields.vals()
    }

    /// `==` on well-formed documents is equality of their states: the stored
    /// form is canonical.
    pub proof fn lemma_eq_iff_view(a: Self, b: Self)
        requires
            a.wf(),
            b.wf(),
        ensures
            a.same_repr(b) <==> a@ == b@,
    {
        AddWinsSet::lemma_eq_iff_view(a.entries, b.entries);
        if a@ == b@ {
            OrdMap::lemma_canonical(a.fields, b.fields);
        }
        if a.same_repr(b) {
            OrdMap::lemma_same_entries(a.fields, b.fields);
        }
    }

    /// Do the two documents store the same state, entry for entry?
    fn same_state(&self, other: &Self) -> (r: bool)
        ensures
            r == self.same_repr(*other),
    {
        if !(self.entries == other.entries) {
            return false;
        }
        proof {
            self.fields.lemma_lengths();
            other.fields.lemma_lengths();
        }
        if self.fields.len() != other.fields.len() {
            return false;
        }
        let mut i: usize = 0;
        while i < self.fields.len()
            invariant
                self.entries.same_repr(other.entries),
                self.fields.keys().len() == other.fields.keys().len(),
                self.fields.keys().len() == self.fields.vals().len(),
                other.fields.keys().len() == other.fields.vals().len(),
                i <= self.fields.keys().len(),
                forall|j: int| 0 <= j < i ==> #[trigger] self.fields.keys()[j] == other.fields.keys()[j],
                forall|j: int| 0 <= j < i ==> #[trigger] self.fields.vals()[j] == other.fields.vals()[j],
            decreases self.fields.keys().len() - i,
        {
            let same_key = match self.fields.key_at(i).compare(other.fields.key_at(i)) {
                Order::Equal => true,
                _ => false,
            };
            if !same_key {
                return false;
            }
            let ra = self.fields.value_at(i);
            let rb = other.fields.value_at(i);
            let same_ts = match ra.timestamp().compare(&rb.timestamp()) {
                Order::Equal => true,
                _ => false,
            };
            let same_value = match ra.value().compare(rb.value()) {
                Order::Equal => true,
                _ => false,
            };
            if !same_ts || !same_value {
                return false;
            }
            i = i + 1;
        }
        assert(self.fields.keys() =~= other.fields.keys());
        assert(self.fields.vals() =~= other.fields.vals());
        true
    }

    /// A copy with the same state.
    pub fn duplicate(&self) -> (r: Self)
        requires
            self.wf(),
        ensures
            r.wf(),
            r@ == self@,
    {
        let mut r = VaultDoc::new();
        r.merge(self);
        proof {
            self.lemma_wf_valid();
            laws::lemma_doc_empty_neutral::<V>(self@);
        }
        r
    }

    /// Is the entry present?
    pub fn contains_entry(&self, id: &EntryId) -> (r: bool)
        ensures
            r == self@.0.0.contains_key(*id),
    {
        self.entries.contains(id)
    }

    /// Identifiers of the present entries, in ascending order.
    pub fn entry_ids(&self) -> (r: Vec<EntryId>)
        requires
            self.wf(),
        ensures
            strictly_sorted::<EntryId>(views_of(r@)),
            views_of(r@).to_set() == self@.0.0.dom(),
    {
        self.entries.elements()
    }

    /// Number of present entries.
    pub fn len(&self) -> (r: usize)
        requires
            self.wf(),
        ensures
            r == self@.0.0.dom().len(),
    {
        self.entries.len()
    }

    /// Does the vault hold no present entry?
    pub fn is_empty(&self) -> (r: bool)
        requires
            self.wf(),
        ensures
            r == (self@.0.0.dom() == Set::<EntryId>::empty()),
    {
        self.entries.is_empty()
    }

    /// Writes (LWW) the value of a field. Does not affect the presence of
    /// the entry. Returns the **delta** to propagate: the **resulting**
    /// register, not the attempted write (a losing write leaves the state
    /// unchanged, and shipping the resulting register reproduces that
    /// outcome at the peer).
    pub fn set_field(&mut self, id: EntryId, field: FieldId, value: V, ts: Timestamp) -> (delta: Self)
        requires
            old(self).wf(),
        ensures
            final(self).wf(),
            delta.wf(),
            final(self)@ == (old(self)@.0, old(self)@.1.insert(
                (id, field),
                written_register::<V>(old(self)@.1, (id, field), value@, ts),
            )),
            delta@ == (aw_empty::<EntryId>(), Map::<(EntryId, FieldId), (Timestamp, V::V)>::empty().insert(
                (id, field),
                written_register::<V>(old(self)@.1, (id, field), value@, ts),
            )),
            doc_join::<V>(old(self)@, delta@) == final(self)@,
    {
        let key = (id, field);
        let reg = match self.fields.get(&key) {
            Some(cur) => {
                let mut r = cur.duplicate();
                r.set(value, ts);
                r
            },
            None => LwwRegister::new(value, ts),
        };
        let delta_reg = reg.duplicate();
        self.fields.insert(key, reg);
        let mut delta_fields = OrdMap::new();
        delta_fields.insert(key, delta_reg);
        let delta = VaultDoc { entries: AddWinsSet::new(), fields: delta_fields };
        proof {
            old(self).lemma_wf_valid();
            laws::lemma_set_field_delta::<V>(old(self)@, key, value@, ts);
        }
        delta
    }

    /// Value of a field, if (and only if) the entry is present.
    pub fn field(&self, id: &EntryId, field: FieldId) -> (r: Option<&V>)
        requires
            self.wf(),
        ensures
            match r {
                Some(v) => self@.0.0.contains_key(*id) && self@.1.contains_key((*id, field))
                    && v@ == self@.1[(*id, field)].1,
                None => !self@.0.0.contains_key(*id) || !self@.1.contains_key((*id, field)),
            },
    {
        if !self.entries.contains(id) {
            return None;
        }
        match self.fields.get(&(*id, field)) {
            Some(reg) => Some(reg.value()),
            None => None,
        }
    }

    /// Causal context of the presence set (version vector), for
    /// synchronisation.
    pub fn presence_context(&self) -> (r: &DotContext)
        requires
            self.wf(),
        ensures
            r.wf(),
            r@ == self@.0.1,
    {
        self.entries.context()
    }

    /// Merges (joins) another document — or a partial delta. Idempotent,
    /// commutative and associative (product of CRDTs: `AddWinsSet` ⊗ LWW
    /// registers).
    pub fn merge(&mut self, other: &Self)
        requires
            old(self).wf(),
            other.wf(),
        ensures
            final(self).wf(),
            final(self)@ == doc_join::<V>(old(self)@, other@),
    {
        self.entries.merge(&other.entries);
        let ghost target = fields_join::<V>(old(self)@.1, other@.1);
        let mut i: usize = 0;
        proof {
            other.fields.lemma_view();
        }
        while i < other.fields.len()
            invariant
                self.fields.wf(),
                other.wf(),
                i <= other.fields.keys().len(),
                target == fields_join::<V>(old(self)@.1, other@.1),
                self.entries.wf(),
                self.entries@ == aw_join(old(self)@.0, other@.0),
                forall|k: (EntryId, FieldId)| #[trigger] self.fields@.contains_key(k) == (old(self)@.1.contains_key(k)
                    || other.fields.keys().take(i as int).contains(k)),
                forall|k: (EntryId, FieldId)| #[trigger] self.fields@.contains_key(k) ==> self.fields@[k]
                    == if other.fields.keys().take(i as int).contains(k) {
                        target[k]
                    } else {
                        old(self)@.1[k]
                    },
            decreases other.fields.keys().len() - i,
        {
            proof {
                other.fields.lemma_view();
            }
            let k = *other.fields.key_at(i);
            let r = other.fields.value_at(i);
            let ghost before = self.fields@;
            let merged = match self.fields.get(&k) {
                Some(cur) => cur.duplicate().merged(r),
                None => r.duplicate(),
            };
            self.fields.insert(k, merged);
            proof {
                let t0 = other.fields.keys().take(i as int);
                let t1 = other.fields.keys().take(i + 1);
                assert(t1 =~= t0.push(k));
                assert forall|x: (EntryId, FieldId)| #[trigger] t1.contains(x) == (t0.contains(x) || x == k) by {
                    if t1.contains(x) && x != k {
                        let q = choose|q: int| 0 <= q < i + 1 && #[trigger] t1[q] == x;
                        assert(t0[q] == x);
                    }
                    if t0.contains(x) {
                        let q = choose|q: int| 0 <= q < i && #[trigger] t0[q] == x;
                        assert(t1[q] == x);
                    }
                    if x == k {
                        assert(t1[i as int] == x);
                    }
                }
                other.fields.lemma_view();
                assert(k@ == k);
                assert(other.fields.keys()[i as int] == k);
                assert(other.fields@.contains_key(other.fields.keys()[i as int]));
                assert(other.fields@.contains_key(k) && other.fields@[k] == r@);
                assert(other@.1.contains_key(k) && other@.1[k] == r@);
                if t0.contains(k) {
                    let q = choose|q: int| 0 <= q < i && #[trigger] t0[q] == k;
                    crate::sorted::lemma_sorted_unique::<(EntryId, FieldId)>(other.fields.keys(), q, i as int);
                }
            }
            i = i + 1;
        }
        proof {
            other.fields.lemma_view();
            assert(other.fields.keys().take(i as int) =~= other.fields.keys());
            assert(self.fields@ =~= target);
        }
    }
}

impl<V: TotalOrder> PartialEq for VaultDoc<V> {
    fn eq(&self, other: &Self) -> (r: bool) {
        self.same_state(other)
    }
}

impl<V: TotalOrder> PartialEqSpecImpl for VaultDoc<V> {
    open spec fn obeys_eq_spec() -> bool {
        true
    }

    open spec fn eq_spec(&self, other: &VaultDoc<V>) -> bool {
        self.same_repr(*other)
    }
}

impl<V: TotalOrder> Eq for VaultDoc<V> {
}

impl<V: TotalOrder> Default for VaultDoc<V> {
    fn default() -> (d: Self)
        ensures
            d.wf(),
            d@ == doc_empty::<V>(),
    {
        Self::new()
    }
}

} // verus!
