use realm_guard_core::crdt::{DeviceId, Hlc, HlcClock, Timestamp};
use realm_guard_core::crypto::Ciphertext;
use realm_guard_core::model::{EntryId, FieldId, VaultDoc};

fn dev(n: u8) -> DeviceId {
    DeviceId::from_bytes([n; 16])
}

fn eid(n: u8) -> EntryId {
    EntryId::from_bytes([n; 16])
}

fn ts(wall: u64, device: u8) -> Timestamp {
    Timestamp::new(Hlc { wall_ms: wall, counter: 0 }, dev(device))
}

#[test]
fn add_and_read_field() {
    let mut d = VaultDoc::new();
    let x = eid(1);
    d.add_entry(x, dev(1));
    d.set_field(x, FieldId(0), 42u8, ts(10, 1));
    assert!(d.contains_entry(&x));
    assert_eq!(d.field(&x, FieldId(0)), Some(&42));
    assert_eq!(d.field(&x, FieldId(9)), None);
}

#[test]
fn removed_entry_hides_fields() {
    let mut d = VaultDoc::new();
    let x = eid(1);
    d.add_entry(x, dev(1));
    d.set_field(x, FieldId(0), 42u8, ts(10, 1));
    d.remove_entry(&x);
    assert!(!d.contains_entry(&x));
    assert_eq!(d.field(&x, FieldId(0)), None);
}

#[test]
fn concurrent_edits_of_different_fields_merge() {
    let x = eid(1);
    let mut base = VaultDoc::new();
    base.add_entry(x, dev(1));
    let mut a = base.clone();
    a.set_field(x, FieldId(0), 1u8, ts(10, 1));
    let mut b = base.clone();
    b.set_field(x, FieldId(1), 2u8, ts(10, 2));
    let mut merged = a.clone();
    merged.merge(&b);
    assert_eq!(merged.field(&x, FieldId(0)), Some(&1));
    assert_eq!(merged.field(&x, FieldId(1)), Some(&2));
}

#[test]
fn concurrent_edits_of_same_field_are_lww() {
    let x = eid(1);
    let mut base = VaultDoc::new();
    base.add_entry(x, dev(1));
    let mut a = base.clone();
    a.set_field(x, FieldId(0), 1u8, ts(20, 1));
    let mut b = base.clone();
    b.set_field(x, FieldId(0), 2u8, ts(10, 2));
    let mut merged = a.clone();
    merged.merge(&b);
    assert_eq!(merged.field(&x, FieldId(0)), Some(&1));
}

#[test]
fn add_wins_over_remove_entry() {
    let x = eid(1);
    let mut a: VaultDoc<u8> = VaultDoc::new();
    a.add_entry(x, dev(1));
    let mut b = a.clone();
    b.remove_entry(&x);
    a.add_entry(x, dev(1));
    let mut merged = a.clone();
    merged.merge(&b);
    assert!(merged.contains_entry(&x));
}

#[test]
fn ciphertext_field_value_is_kept() {
    let mut d: VaultDoc<Ciphertext> = VaultDoc::new();
    let x = eid(1);
    d.add_entry(x, dev(1));
    let ct = Ciphertext { version: 1, nonce: [3u8; 24], ciphertext: vec![9, 8, 7] };
    d.set_field(x, FieldId(0), ct.clone(), ts(5, 1));
    assert_eq!(d.field(&x, FieldId(0)), Some(&ct));
    let mut copy: VaultDoc<Ciphertext> = VaultDoc::new();
    copy.merge(&d);
    assert_eq!(copy, d);
}

enum Op {
    Add(u8),
    Remove(u8),
    Write(u8, u16, u8),
}

fn build_with_deltas(device: u8, ops: &[Op]) -> (VaultDoc<u8>, Vec<VaultDoc<u8>>) {
    let d = dev(device);
    let mut clock = HlcClock::new();
    let mut doc = VaultDoc::new();
    let mut deltas = Vec::new();
    let mut now = 0u64;
    for op in ops {
        now += 1;
        let delta = match op {
            Op::Add(n) => doc.add_entry(eid(*n), d),
            Op::Remove(n) => doc.remove_entry(&eid(*n)),
            Op::Write(n, f, v) => {
                let stamp = Timestamp::new(clock.tick(now), d);
                doc.set_field(eid(*n), FieldId(*f), *v, stamp)
            }
        };
        deltas.push(delta);
    }
    (doc, deltas)
}

fn script_a() -> Vec<Op> {
    vec![Op::Add(0), Op::Write(0, 1, 10), Op::Add(1), Op::Write(1, 0, 20), Op::Remove(0), Op::Write(1, 0, 21), Op::Add(2)]
}

fn script_b() -> Vec<Op> {
    vec![Op::Add(1), Op::Write(1, 0, 99), Op::Add(0), Op::Remove(1), Op::Write(0, 2, 5)]
}

#[test]
fn doc_merge_idempotent_commutative_associative() {
    let (a, _) = build_with_deltas(1, &script_a());
    let (b, _) = build_with_deltas(2, &script_b());
    let (c, _) = build_with_deltas(3, &[Op::Add(2), Op::Write(2, 0, 1)]);
    let mut aa = a.clone();
    aa.merge(&a);
    assert_eq!(aa, a);
    let mut ab = a.clone();
    ab.merge(&b);
    let mut ba = b.clone();
    ba.merge(&a);
    assert_eq!(ab, ba);
    let mut left = ab.clone();
    left.merge(&c);
    let mut bc = b.clone();
    bc.merge(&c);
    let mut right = a.clone();
    right.merge(&bc);
    assert_eq!(left, right);
}

#[test]
fn delta_stream_converges_to_full_state() {
    let (source, deltas) = build_with_deltas(1, &script_a());
    let mut peer = VaultDoc::new();
    for delta in &deltas {
        peer.merge(delta);
    }
    assert_eq!(peer, source);
    assert!(peer.contains_entry(&eid(1)));
    assert!(!peer.contains_entry(&eid(0)));
    assert_eq!(peer.field(&eid(1), FieldId(0)), Some(&21));
    assert_eq!(peer.entry_ids(), vec![eid(1), eid(2)]);
    assert_eq!(peer.len(), 2);
}

#[test]
fn delta_stream_tolerates_reorder_and_duplicates() {
    let (source, deltas) = build_with_deltas(1, &script_a());
    let mut peer = VaultDoc::new();
    for delta in deltas.iter().rev() {
        peer.merge(delta);
    }
    for delta in &deltas {
        peer.merge(delta);
    }
    assert_eq!(peer, source);
}

#[test]
fn delta_exchange_matches_full_state_exchange() {
    let (a, da) = build_with_deltas(1, &script_a());
    let (b, db) = build_with_deltas(2, &script_b());
    let mut a_delta = a.clone();
    for delta in &db {
        a_delta.merge(delta);
    }
    let mut b_delta = b.clone();
    for delta in &da {
        b_delta.merge(delta);
    }
    assert_eq!(a_delta, b_delta);
    let mut a_full = a.clone();
    a_full.merge(&b);
    assert_eq!(a_delta, a_full);
}

#[test]
fn empty_doc_and_presence_context() {
    let mut d: VaultDoc<u8> = VaultDoc::default();
    assert!(d.is_empty());
    assert_eq!(d.len(), 0);
    assert!(d.entry_ids().is_empty());
    d.add_entry(eid(4), dev(2));
    assert!(!d.is_empty());
    assert!(d.presence_context().contains(&realm_guard_core::crdt::Dot::new(dev(2), 1)));
}

#[test]
fn entry_id_roundtrip_and_generate() {
    let bytes = [5u8; 16];
    assert_eq!(EntryId::from_bytes(bytes).as_bytes(), &bytes);
    let a = EntryId::generate().unwrap();
    let b = EntryId::generate().unwrap();
    assert_ne!(a, b);
}

#[test]
fn doc_duplicate_equals_source() {
    let (a, _) = build_with_deltas(1, &script_a());
    let d = a.duplicate();
    assert_eq!(d, a);
    let (b, _) = build_with_deltas(2, &script_b());
    assert_ne!(a, b);
}
