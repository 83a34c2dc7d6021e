//! Laws of the vault document: its join is a semilattice join, every
//! mutation's delta reproduces the mutation, and a peer fed the deltas —
//! in any order, with duplicates — converges to the source.

use super::{doc_empty, doc_join, doc_valid, fields_join, written_register, EntryId, FieldId, PresenceView};
use crate::crdt::awset::{
    aw_add_delta, aw_added, aw_disjoint, aw_empty, aw_remove_delta, aw_removed, lemma_aw_add_delta,
    lemma_aw_associative, lemma_aw_commutative, lemma_aw_empty_neutral, lemma_aw_idempotent, lemma_aw_remove_delta,
    lemma_join_valid,
};
use crate::crdt::dot::Dot;
use crate::crdt::lww::{lemma_lww_associative, lemma_lww_commutative, lemma_lww_idempotent};
use crate::crdt::Timestamp;
use crate::order::TotalOrder;
use vstd::prelude::*;

verus! {

/// Left fold of joins of `deltas` into `init`, in sequence order.
pub open spec fn fold_join<V: TotalOrder>(
    init: (PresenceView, Map<(EntryId, FieldId), (Timestamp, V::V)>),
    deltas: Seq<(PresenceView, Map<(EntryId, FieldId), (Timestamp, V::V)>)>,
) -> (PresenceView, Map<(EntryId, FieldId), (Timestamp, V::V)>)
    decreases deltas.len(),
{
    if deltas.len() == 0 {
        init
    } else {
        doc_join::<V>(fold_join::<V>(init, deltas.drop_last()), deltas.last())
    }
}

/// `x` is below `y` in the join order: merging `x` into `y` changes nothing.
pub open spec fn doc_below<V: TotalOrder>(
    x: (PresenceView, Map<(EntryId, FieldId), (Timestamp, V::V)>),
    y: (PresenceView, Map<(EntryId, FieldId), (Timestamp, V::V)>),
) -> bool {
    doc_join::<V>(x, y) == y
}

proof fn lemma_fields_idempotent<V: TotalOrder>(x: Map<(EntryId, FieldId), (Timestamp, V::V)>)
    ensures
        fields_join::<V>(x, x) == x,
{
    assert forall|k: (EntryId, FieldId)| #[trigger] x.contains_key(k) implies fields_join::<V>(x, x)[k] == x[k] by {
        lemma_lww_idempotent::<V>(x[k]);
    }
    assert(fields_join::<V>(x, x) =~= x);
}

proof fn lemma_fields_commutative<V: TotalOrder>(
    x: Map<(EntryId, FieldId), (Timestamp, V::V)>,
    y: Map<(EntryId, FieldId), (Timestamp, V::V)>,
)
    ensures
        fields_join::<V>(x, y) == fields_join::<V>(y, x),
{
    assert forall|k: (EntryId, FieldId)| #[trigger] fields_join::<V>(x, y).contains_key(k) implies fields_join::<V>(x, y)[k]
        == fields_join::<V>(y, x)[k] by {
        if x.contains_key(k) && y.contains_key(k) {
            lemma_lww_commutative::<V>(x[k], y[k]);
        }
    }
    assert(fields_join::<V>(x, y) =~= fields_join::<V>(y, x));
}

proof fn lemma_fields_associative<V: TotalOrder>(
    x: Map<(EntryId, FieldId), (Timestamp, V::V)>,
    y: Map<(EntryId, FieldId), (Timestamp, V::V)>,
    z: Map<(EntryId, FieldId), (Timestamp, V::V)>,
)
    ensures
        fields_join::<V>(fields_join::<V>(x, y), z) == fields_join::<V>(x, fields_join::<V>(y, z)),
{
    let l = fields_join::<V>(fields_join::<V>(x, y), z);
    let r = fields_join::<V>(x, fields_join::<V>(y, z));
    assert forall|k: (EntryId, FieldId)| #[trigger] l.contains_key(k) implies l[k] == r[k] by {
        if x.contains_key(k) && y.contains_key(k) && z.contains_key(k) {
            lemma_lww_associative::<V>(x[k], y[k], z[k]);
        }
    }
    assert(l =~= r);
}

proof fn lemma_fields_empty_neutral<V: TotalOrder>(x: Map<(EntryId, FieldId), (Timestamp, V::V)>)
    ensures
        fields_join::<V>(x, Map::empty()) == x,
        fields_join::<V>(Map::empty(), x) == x,
{
    assert(fields_join::<V>(x, Map::empty()) =~= x);
    assert(fields_join::<V>(Map::empty(), x) =~= x);
}

/// The join of two valid document states is valid.
pub proof fn lemma_doc_join_valid<V: TotalOrder>(
    a: (PresenceView, Map<(EntryId, FieldId), (Timestamp, V::V)>),
    b: (PresenceView, Map<(EntryId, FieldId), (Timestamp, V::V)>),
)
    requires
        doc_valid::<V>(a),
        doc_valid::<V>(b),
    ensures
        doc_valid::<V>(doc_join::<V>(a, b)),
{
    lemma_join_valid(a.0, b.0);
}

/// Law: merging a document with itself changes nothing.
pub proof fn lemma_doc_idempotent<V: TotalOrder>(a: (PresenceView, Map<(EntryId, FieldId), (Timestamp, V::V)>))
    requires
        doc_valid::<V>(a),
    ensures
        doc_join::<V>(a, a) == a,
{
    lemma_aw_idempotent(a.0);
    lemma_fields_idempotent::<V>(a.1);
}

/// Law: the document join does not depend on the order of its arguments.
pub proof fn lemma_doc_commutative<V: TotalOrder>(
    a: (PresenceView, Map<(EntryId, FieldId), (Timestamp, V::V)>),
    b: (PresenceView, Map<(EntryId, FieldId), (Timestamp, V::V)>),
)
    ensures
        doc_join::<V>(a, b) == doc_join::<V>(b, a),
{
    lemma_aw_commutative(a.0, b.0);
    lemma_fields_commutative::<V>(a.1, b.1);
}

/// Law: the document join does not depend on how merges are grouped.
pub proof fn lemma_doc_associative<V: TotalOrder>(
    a: (PresenceView, Map<(EntryId, FieldId), (Timestamp, V::V)>),
    b: (PresenceView, Map<(EntryId, FieldId), (Timestamp, V::V)>),
    c: (PresenceView, Map<(EntryId, FieldId), (Timestamp, V::V)>),
)
    requires
        doc_valid::<V>(a),
        doc_valid::<V>(b),
        doc_valid::<V>(c),
    ensures
        doc_join::<V>(doc_join::<V>(a, b), c) == doc_join::<V>(a, doc_join::<V>(b, c)),
{
    lemma_aw_associative(a.0, b.0, c.0);
    lemma_fields_associative::<V>(a.1, b.1, c.1);
}

/// Law: the empty document is neutral for the join, on either side.
pub proof fn lemma_doc_empty_neutral<V: TotalOrder>(a: (PresenceView, Map<(EntryId, FieldId), (Timestamp, V::V)>))
    requires
        doc_valid::<V>(a),
    ensures
        doc_join::<V>(a, doc_empty::<V>()) == a,
        doc_join::<V>(doc_empty::<V>(), a) == a,
        doc_valid::<V>(doc_empty::<V>()),
{
    lemma_aw_empty_neutral(a.0);
    lemma_fields_empty_neutral::<V>(a.1);
}

/// Law: the delta of `add_entry`, merged into the document before the add,
/// gives the document after it — provided no dot is shared by two entries.
pub proof fn lemma_add_entry_delta<V: TotalOrder>(
    s: (PresenceView, Map<(EntryId, FieldId), (Timestamp, V::V)>),
    id: EntryId,
    dot: Dot,
)
    requires
        doc_valid::<V>(s),
        aw_disjoint(s.0),
        !s.0.1.contains(dot),
    ensures
        doc_join::<V>(s, (aw_add_delta(s.0, id, dot), Map::empty())) == (aw_added(s.0, id, dot), s.1),
        doc_valid::<V>((aw_added(s.0, id, dot), s.1)),
        aw_disjoint(aw_added(s.0, id, dot)),
        doc_valid::<V>((aw_add_delta(s.0, id, dot), Map::empty())),
{
    lemma_aw_add_delta(s.0, id, dot);
    lemma_fields_empty_neutral::<V>(s.1);
}

/// Law: the delta of `remove_entry`, merged into the document before the
/// removal, gives the document after it — provided no dot is shared by two
/// entries.
pub proof fn lemma_remove_entry_delta<V: TotalOrder>(
    s: (PresenceView, Map<(EntryId, FieldId), (Timestamp, V::V)>),
    id: EntryId,
)
    requires
        doc_valid::<V>(s),
        aw_disjoint(s.0),
    ensures
        doc_join::<V>(s, (aw_remove_delta(s.0, id), Map::empty())) == (aw_removed(s.0, id), s.1),
        doc_valid::<V>((aw_removed(s.0, id), s.1)),
        aw_disjoint(aw_removed(s.0, id)),
        doc_valid::<V>((aw_remove_delta(s.0, id), Map::empty())),
{
    lemma_aw_remove_delta(s.0, id);
    lemma_fields_empty_neutral::<V>(s.1);
}

/// Law: the delta of `set_field`, merged into the document before the write,
/// gives the document after it.
pub proof fn lemma_set_field_delta<V: TotalOrder>(
    s: (PresenceView, Map<(EntryId, FieldId), (Timestamp, V::V)>),
    key: (EntryId, FieldId),
    value: V::V,
    ts: Timestamp,
)
    requires
        doc_valid::<V>(s),
    ensures
        ({
            let w = written_register::<V>(s.1, key, value, ts);
            doc_join::<V>(s, (aw_empty(), Map::empty().insert(key, w))) == (s.0, s.1.insert(key, w))
        }),
        doc_valid::<V>((aw_empty(), Map::empty().insert(key, written_register::<V>(s.1, key, value, ts)))),
{
    let w = written_register::<V>(s.1, key, value, ts);
    lemma_aw_empty_neutral(s.0);
    if s.1.contains_key(key) {
        lemma_lww_associative::<V>(s.1[key], s.1[key], (ts, value));
        lemma_lww_idempotent::<V>(s.1[key]);
    }
    assert(fields_join::<V>(s.1, Map::empty().insert(key, w)) =~= s.1.insert(key, w));
}

/// Folding valid deltas into a valid state gives a valid state.
pub proof fn lemma_fold_valid<V: TotalOrder>(
    init: (PresenceView, Map<(EntryId, FieldId), (Timestamp, V::V)>),
    deltas: Seq<(PresenceView, Map<(EntryId, FieldId), (Timestamp, V::V)>)>,
)
    requires
        doc_valid::<V>(init),
        forall|k: int| 0 <= k < deltas.len() ==> doc_valid::<V>(#[trigger] deltas[k]),
    ensures
        doc_valid::<V>(fold_join::<V>(init, deltas)),
    decreases deltas.len(),
{
    if deltas.len() > 0 {
        lemma_fold_valid::<V>(init, deltas.drop_last());
        lemma_doc_join_valid::<V>(fold_join::<V>(init, deltas.drop_last()), deltas.last());
    }
}

/// Law (convergence by deltas): a peer starting empty that merges, in order,
/// the deltas a source produced, each of which reproduces the source's step,
/// ends in the source's state.
pub proof fn lemma_delta_stream_converges<V: TotalOrder>(
    states: Seq<(PresenceView, Map<(EntryId, FieldId), (Timestamp, V::V)>)>,
    deltas: Seq<(PresenceView, Map<(EntryId, FieldId), (Timestamp, V::V)>)>,
)
    requires
        states.len() == deltas.len() + 1,
        states[0] == doc_empty::<V>(),
        forall|k: int| 0 <= k < deltas.len() ==> doc_join::<V>(states[k], #[trigger] deltas[k]) == states[k + 1],
    ensures
        fold_join::<V>(doc_empty::<V>(), deltas) == states.last(),
    decreases deltas.len(),
{
    if deltas.len() > 0 {
        let n = deltas.len() - 1;
        let s2 = states.drop_last();
        let d2 = deltas.drop_last();
        assert forall|k: int| 0 <= k < d2.len() implies doc_join::<V>(s2[k], #[trigger] d2[k]) == s2[k + 1] by {
            assert(doc_join::<V>(states[k], deltas[k]) == states[k + 1]);
        }
        lemma_delta_stream_converges::<V>(s2, d2);
        assert(doc_join::<V>(states[n], deltas[n]) == states[n + 1]);
    }
}

proof fn lemma_below_upper<V: TotalOrder>(
    x: (PresenceView, Map<(EntryId, FieldId), (Timestamp, V::V)>),
    y: (PresenceView, Map<(EntryId, FieldId), (Timestamp, V::V)>),
)
    requires
        doc_valid::<V>(x),
        doc_valid::<V>(y),
    ensures
        doc_below::<V>(x, doc_join::<V>(x, y)),
        doc_below::<V>(y, doc_join::<V>(x, y)),
{
    lemma_doc_associative::<V>(x, x, y);
    lemma_doc_idempotent::<V>(x);
    lemma_doc_commutative::<V>(x, y);
    lemma_doc_associative::<V>(y, y, x);
    lemma_doc_idempotent::<V>(y);
}

proof fn lemma_below_transitive<V: TotalOrder>(
    x: (PresenceView, Map<(EntryId, FieldId), (Timestamp, V::V)>),
    y: (PresenceView, Map<(EntryId, FieldId), (Timestamp, V::V)>),
    z: (PresenceView, Map<(EntryId, FieldId), (Timestamp, V::V)>),
)
    requires
        doc_valid::<V>(x),
        doc_valid::<V>(y),
        doc_valid::<V>(z),
        doc_below::<V>(x, y),
        doc_below::<V>(y, z),
    ensures
        doc_below::<V>(x, z),
{
    lemma_doc_associative::<V>(x, y, z);
}

proof fn lemma_below_least<V: TotalOrder>(
    x: (PresenceView, Map<(EntryId, FieldId), (Timestamp, V::V)>),
    y: (PresenceView, Map<(EntryId, FieldId), (Timestamp, V::V)>),
    z: (PresenceView, Map<(EntryId, FieldId), (Timestamp, V::V)>),
)
    requires
        doc_valid::<V>(x),
        doc_valid::<V>(y),
        doc_valid::<V>(z),
        doc_below::<V>(x, z),
        doc_below::<V>(y, z),
    ensures
        doc_below::<V>(doc_join::<V>(x, y), z),
{
    lemma_doc_associative::<V>(x, y, z);
}

/// Everything folded in lies below the fold.
proof fn lemma_fold_upper<V: TotalOrder>(
    init: (PresenceView, Map<(EntryId, FieldId), (Timestamp, V::V)>),
    deltas: Seq<(PresenceView, Map<(EntryId, FieldId), (Timestamp, V::V)>)>,
)
    requires
        doc_valid::<V>(init),
        forall|k: int| 0 <= k < deltas.len() ==> doc_valid::<V>(#[trigger] deltas[k]),
    ensures
        doc_below::<V>(init, fold_join::<V>(init, deltas)),
        forall|k: int| 0 <= k < deltas.len() ==> doc_below::<V>(#[trigger] deltas[k], fold_join::<V>(init, deltas)),
    decreases deltas.len(),
{
    if deltas.len() == 0 {
        lemma_doc_idempotent::<V>(init);
    } else {
        let d2 = deltas.drop_last();
        let f2 = fold_join::<V>(init, d2);
        let f = fold_join::<V>(init, deltas);
        lemma_fold_upper::<V>(init, d2);
        lemma_fold_valid::<V>(init, d2);
        lemma_fold_valid::<V>(init, deltas);
        lemma_below_upper::<V>(f2, deltas.last());
        lemma_below_transitive::<V>(init, f2, f);
        assert forall|k: int| 0 <= k < deltas.len() implies doc_below::<V>(#[trigger] deltas[k], f) by {
            if k < deltas.len() - 1 {
                assert(d2[k] == deltas[k]);
                lemma_below_transitive::<V>(deltas[k], f2, f);
            }
        }
    }
}

/// The fold lies below any valid state above everything folded in.
proof fn lemma_fold_least<V: TotalOrder>(
    init: (PresenceView, Map<(EntryId, FieldId), (Timestamp, V::V)>),
    deltas: Seq<(PresenceView, Map<(EntryId, FieldId), (Timestamp, V::V)>)>,
    z: (PresenceView, Map<(EntryId, FieldId), (Timestamp, V::V)>),
)
    requires
        doc_valid::<V>(init),
        doc_valid::<V>(z),
        forall|k: int| 0 <= k < deltas.len() ==> doc_valid::<V>(#[trigger] deltas[k]),
        doc_below::<V>(init, z),
        forall|k: int| 0 <= k < deltas.len() ==> doc_below::<V>(#[trigger] deltas[k], z),
    ensures
        doc_below::<V>(fold_join::<V>(init, deltas), z),
    decreases deltas.len(),
{
    if deltas.len() > 0 {
        let d2 = deltas.drop_last();
        assert forall|k: int| 0 <= k < d2.len() implies doc_below::<V>(#[trigger] d2[k], z) by {
            assert(d2[k] == deltas[k]);
        }
        lemma_fold_least::<V>(init, d2, z);
        lemma_fold_valid::<V>(init, d2);
        lemma_below_least::<V>(fold_join::<V>(init, d2), deltas.last(), z);
    }
}

/// Law (delivery in any order, with duplicates): a peer starting empty that
/// merges the source's deltas in any order, any of them any number of times
/// — so long as each is delivered at least once — ends in the source's state.
pub proof fn lemma_delta_stream_any_order<V: TotalOrder>(
    states: Seq<(PresenceView, Map<(EntryId, FieldId), (Timestamp, V::V)>)>,
    deltas: Seq<(PresenceView, Map<(EntryId, FieldId), (Timestamp, V::V)>)>,
    delivered: Seq<(PresenceView, Map<(EntryId, FieldId), (Timestamp, V::V)>)>,
)
    requires
        states.len() == deltas.len() + 1,
        states[0] == doc_empty::<V>(),
        forall|k: int| 0 <= k < deltas.len() ==> doc_join::<V>(states[k], #[trigger] deltas[k]) == states[k + 1],
        forall|k: int| 0 <= k < deltas.len() ==> doc_valid::<V>(#[trigger] deltas[k]),
        forall|k: int| 0 <= k < delivered.len() ==> deltas.contains(#[trigger] delivered[k]),
        forall|k: int| 0 <= k < deltas.len() ==> delivered.contains(#[trigger] deltas[k]),
    ensures
        fold_join::<V>(doc_empty::<V>(), delivered) == states.last(),
{
    let e = doc_empty::<V>();
    lemma_doc_empty_neutral::<V>(e);
    lemma_delta_stream_converges::<V>(states, deltas);
    let s = states.last();
    lemma_fold_valid::<V>(e, deltas);
    assert forall|k: int| 0 <= k < delivered.len() implies doc_valid::<V>(#[trigger] delivered[k]) by {
        let j = choose|j: int| 0 <= j < deltas.len() && deltas[j] == delivered[k];
    }
    let f = fold_join::<V>(e, delivered);
    lemma_fold_valid::<V>(e, delivered);
    // Everything delivered lies below the source's state.
    lemma_fold_upper::<V>(e, deltas);
    assert forall|k: int| 0 <= k < delivered.len() implies doc_below::<V>(#[trigger] delivered[k], s) by {
        let j = choose|j: int| 0 <= j < deltas.len() && deltas[j] == delivered[k];
        assert(doc_below::<V>(deltas[j], s));
    }
    lemma_doc_empty_neutral::<V>(s);
    lemma_fold_least::<V>(e, delivered, s);
    // Everything the source merged lies below the peer's state.
    lemma_fold_upper::<V>(e, delivered);
    assert forall|k: int| 0 <= k < deltas.len() implies doc_below::<V>(#[trigger] deltas[k], f) by {
        let j = choose|j: int| 0 <= j < delivered.len() && delivered[j] == deltas[k];
        assert(doc_below::<V>(delivered[j], f));
    }
    lemma_doc_empty_neutral::<V>(f);
    lemma_fold_least::<V>(e, deltas, f);
    lemma_doc_commutative::<V>(f, s);
}

/// Law (delta exchange matches state exchange): merging into a document the
/// deltas another replica produced gives the same state as merging that
/// replica's full state (its deltas folded from empty).
pub proof fn lemma_fold_join_split<V: TotalOrder>(
    init: (PresenceView, Map<(EntryId, FieldId), (Timestamp, V::V)>),
    deltas: Seq<(PresenceView, Map<(EntryId, FieldId), (Timestamp, V::V)>)>,
)
    requires
        doc_valid::<V>(init),
        forall|k: int| 0 <= k < deltas.len() ==> doc_valid::<V>(#[trigger] deltas[k]),
    ensures
        fold_join::<V>(init, deltas) == doc_join::<V>(init, fold_join::<V>(doc_empty::<V>(), deltas)),
    decreases deltas.len(),
{
    let e = doc_empty::<V>();
    lemma_doc_empty_neutral::<V>(init);
    if deltas.len() > 0 {
        let d2 = deltas.drop_last();
        lemma_fold_join_split::<V>(init, d2);
        lemma_fold_valid::<V>(e, d2);
        lemma_doc_associative::<V>(init, fold_join::<V>(e, d2), deltas.last());
    }
}

} // verus!
