use realm_guard_core::crdt::{AddWinsSet, DeviceId, Dot, DotContext, Hlc, HlcClock, LwwRegister, Timestamp};

fn dev(n: u8) -> DeviceId {
    DeviceId::from_bytes([n; 16])
}

fn hlc(wall_ms: u64, counter: u32) -> Hlc {
    Hlc { wall_ms, counter }
}

fn ts(wall: u64, d: u8) -> Timestamp {
    Timestamp::new(hlc(wall, 0), dev(d))
}

// ---- add-wins set ----

#[test]
fn add_then_contains() {
    let mut s = AddWinsSet::new();
    assert!(!s.contains(&1u8));
    s.add(1u8, dev(1));
    assert!(s.contains(&1));
}

#[test]
fn remove_makes_absent() {
    let mut s = AddWinsSet::new();
    s.add(1u8, dev(1));
    s.remove(&1);
    assert!(!s.contains(&1));
}

#[test]
fn sequential_remove_wins() {
    let mut a = AddWinsSet::new();
    a.add(1u8, dev(1));
    let mut b = a.clone();
    b.remove(&1);
    let mut merged = a.clone();
    merged.merge(&b);
    assert!(!merged.contains(&1));
}

#[test]
fn readd_after_remove_is_present() {
    let mut s = AddWinsSet::new();
    s.add(1u8, dev(1));
    s.remove(&1);
    s.add(1u8, dev(1));
    assert!(s.contains(&1));
}

fn replica(device: u8, adds: &[u8], removes: &[u8]) -> AddWinsSet<u8> {
    let mut s = AddWinsSet::new();
    for e in adds {
        s.add(*e, dev(device));
    }
    for e in removes {
        s.remove(e);
    }
    s
}

#[test]
fn awset_merge_idempotent() {
    let s = replica(1, &[1, 2, 3], &[2]);
    let mut m = s.clone();
    m.merge(&s);
    assert_eq!(m, s);
}

#[test]
fn awset_merge_commutative() {
    let a = replica(1, &[1, 2, 3], &[2]);
    let b = replica(2, &[2, 4], &[4]);
    let mut ab = a.clone();
    ab.merge(&b);
    let mut ba = b.clone();
    ba.merge(&a);
    assert_eq!(ab, ba);
    assert_eq!(ab.elements(), vec![1, 2, 3]);
}

#[test]
fn awset_merge_associative_and_converges() {
    let a = replica(1, &[1, 2], &[]);
    let b = replica(2, &[2, 3], &[3]);
    let c = replica(3, &[4], &[]);
    let mut left = a.clone();
    left.merge(&b);
    left.merge(&c);
    let mut bc = b.clone();
    bc.merge(&c);
    let mut right = a.clone();
    right.merge(&bc);
    assert_eq!(left, right);
    let mut other = c.clone();
    other.merge(&a);
    other.merge(&b);
    assert_eq!(left, other);
    assert_eq!(left.len(), 3);
}

#[test]
fn awset_concurrent_add_wins_over_remove() {
    let base = replica(1, &[1, 2], &[]);
    let mut a = base.clone();
    a.add(2, dev(1));
    let mut b = base.clone();
    b.remove(&2);
    let mut merged = a.clone();
    merged.merge(&b);
    assert!(merged.contains(&2));
    assert!(merged.contains(&1));
}

#[test]
fn awset_add_delta_reproduces_state() {
    let mut s = replica(1, &[1, 2], &[1]);
    let before = s.clone();
    let delta = s.add(3, dev(1));
    let mut recon = before;
    recon.merge(&delta);
    assert_eq!(recon, s);
}

#[test]
fn awset_remove_delta_reproduces_state() {
    let mut s = replica(1, &[1, 2, 3], &[]);
    let before = s.clone();
    let delta = s.remove(&2);
    let mut recon = before;
    recon.merge(&delta);
    assert_eq!(recon, s);
    assert!(!s.contains(&2));
}

#[test]
fn awset_elements_sorted_and_len() {
    let s = replica(1, &[5, 1, 3, 1], &[]);
    assert_eq!(s.elements(), vec![1, 3, 5]);
    assert_eq!(s.len(), 3);
    assert!(!s.is_empty());
    assert!(AddWinsSet::<u8>::new().is_empty());
    assert!(s.context().contains(&Dot::new(dev(1), 4)));
    assert!(!s.context().contains(&Dot::new(dev(1), 5)));
}

// ---- dot context ----

#[test]
fn next_dot_is_sequential() {
    let mut ctx = DotContext::new();
    assert_eq!(ctx.next_dot(dev(1)), Dot::new(dev(1), 1));
    assert_eq!(ctx.next_dot(dev(1)), Dot::new(dev(1), 2));
    assert_eq!(ctx.next_dot(dev(2)), Dot::new(dev(2), 1));
}

#[test]
fn contains_only_seen_dots() {
    let mut ctx = DotContext::new();
    let d = ctx.next_dot(dev(1));
    assert!(ctx.contains(&d));
    assert!(!ctx.contains(&Dot::new(dev(1), 2)));
    assert!(!ctx.contains(&Dot::new(dev(2), 1)));
}

#[test]
fn compaction_absorbs_contiguous_run() {
    let mut ctx = DotContext::new();
    ctx.insert(Dot::new(dev(1), 1));
    ctx.insert(Dot::new(dev(1), 3));
    assert_eq!(ctx.contiguous(&dev(1)), Some(1));
    assert_eq!(ctx.cloud_len(), 1);
    ctx.insert(Dot::new(dev(1), 2));
    assert_eq!(ctx.cloud_len(), 0);
    assert_eq!(ctx.contiguous(&dev(1)), Some(3));
}

#[test]
fn merge_unions_and_compacts() {
    let mut a = DotContext::new();
    a.insert(Dot::new(dev(1), 1));
    a.insert(Dot::new(dev(1), 3));
    let mut b = DotContext::new();
    b.insert(Dot::new(dev(1), 2));
    a.merge(&b);
    assert_eq!(a.cloud_len(), 0);
    assert_eq!(a.contiguous(&dev(1)), Some(3));
    assert!(a.contains(&Dot::new(dev(1), 3)));
}

#[test]
fn dot_context_merge_keeps_gaps_in_cloud() {
    let mut a = DotContext::new();
    a.insert(Dot::new(dev(1), 3));
    let mut b = DotContext::new();
    b.insert(Dot::new(dev(2), 1));
    a.merge(&b);
    assert_eq!(a.contiguous(&dev(1)), None);
    assert_eq!(a.contiguous(&dev(2)), Some(1));
    assert_eq!(a.cloud_len(), 1);
    assert!(a.contains(&Dot::new(dev(1), 3)));
    assert!(!a.contains(&Dot::new(dev(1), 2)));
    assert_eq!(a.next_dot(dev(1)), Dot::new(dev(1), 4));
}

// ---- hybrid logical clock ----

#[test]
fn tick_resets_counter_when_wall_advances() {
    let mut c = HlcClock::new();
    assert_eq!(c.tick(100), hlc(100, 0));
    assert_eq!(c.tick(200), hlc(200, 0));
}

#[test]
fn tick_increments_counter_when_wall_stalls() {
    let mut c = HlcClock::new();
    c.tick(100);
    assert_eq!(c.tick(100), hlc(100, 1));
    assert_eq!(c.tick(100), hlc(100, 2));
}

#[test]
fn tick_survives_regressing_wall() {
    let mut c = HlcClock::new();
    c.tick(200);
    assert_eq!(c.tick(100), hlc(200, 1));
}

#[test]
fn counter_overflow_bumps_wall() {
    let mut c = HlcClock::resume(hlc(5, u32::MAX));
    assert_eq!(c.tick(5), hlc(6, 0));
}

#[test]
fn update_advances_past_remote_wall() {
    let mut c = HlcClock::new();
    c.tick(100);
    let next = c.update(100, hlc(150, 5));
    assert_eq!(next, hlc(150, 6));
}

#[test]
fn update_merges_equal_walls() {
    let mut c = HlcClock::resume(hlc(100, 3));
    let next = c.update(50, hlc(100, 7));
    assert_eq!(next, hlc(100, 8));
}

#[test]
fn update_uses_physical_time_when_ahead() {
    let mut c = HlcClock::resume(hlc(100, 0));
    let next = c.update(300, hlc(120, 2));
    assert_eq!(next, hlc(300, 0));
}

#[test]
fn tick_is_strictly_monotonic_on_chaotic_times() {
    let mut c = HlcClock::new();
    let times = [5u64, 5, 3, 0, 100, 99, 100, u64::MAX - 1, 7, u64::MAX];
    let mut prev = c.tick(times[0]);
    for t in &times[1..] {
        let cur = c.tick(*t);
        assert!(cur > prev);
        prev = cur;
    }
    assert_eq!(c.last(), prev);
}

#[test]
fn update_dominates_both() {
    let mut c = HlcClock::new();
    c.tick(1_000);
    c.tick(900);
    let before = c.last();
    let remote = hlc(950, 40);
    let after = c.update(10, remote);
    assert!(after > before);
    assert!(after > remote);
    assert_eq!(c.last(), after);
}

#[test]
fn clock_starts_at_zero() {
    assert_eq!(HlcClock::new().last(), hlc(0, 0));
}

// ---- last-writer-wins register ----

#[test]
fn newer_timestamp_wins() {
    let mut r = LwwRegister::new(1, ts(10, 0));
    r.merge(&LwwRegister::new(2, ts(20, 0)));
    assert_eq!(*r.value(), 2);
    assert_eq!(r.timestamp(), ts(20, 0));
}

#[test]
fn older_timestamp_ignored() {
    let mut r = LwwRegister::new(2, ts(20, 0));
    r.merge(&LwwRegister::new(1, ts(10, 0)));
    assert_eq!(*r.value(), 2);
}

#[test]
fn equal_timestamp_breaks_by_value_deterministically() {
    let t = ts(10, 0);
    let mut a = LwwRegister::new(1, t);
    a.merge(&LwwRegister::new(2, t));
    let mut b = LwwRegister::new(2, t);
    b.merge(&LwwRegister::new(1, t));
    assert_eq!(a, b);
    assert_eq!(*a.value(), 2);
}

#[test]
fn set_respects_lww() {
    let mut r = LwwRegister::new(1, ts(10, 0));
    r.set(9, ts(5, 0));
    assert_eq!(*r.value(), 1);
    r.set(3, ts(20, 0));
    assert_eq!(*r.value(), 3);
}

#[test]
fn lww_merge_laws_on_values() {
    let a = LwwRegister::new(-4i32, ts(3, 1));
    let b = LwwRegister::new(7i32, ts(3, 2));
    let c = LwwRegister::new(9i32, ts(2, 9));
    let mut aa = a.clone();
    aa.merge(&a);
    assert_eq!(aa, a);
    let ab = a.clone().merged(&b);
    let ba = b.clone().merged(&a);
    assert_eq!(ab, ba);
    let abc = a.clone().merged(&b).merged(&c);
    let a_bc = a.clone().merged(&b.clone().merged(&c));
    assert_eq!(abc, a_bc);
    assert_eq!(*abc.value(), 7);
    assert_eq!(abc.timestamp(), ts(3, 2));
    assert_eq!(abc.into_value(), 7);
}

// ---- identifiers and timestamps ----

#[test]
fn device_id_roundtrip() {
    let bytes = [3u8; 16];
    assert_eq!(DeviceId::from_bytes(bytes).as_bytes(), &bytes);
}

#[test]
fn mod_generate_is_random() {
    let a = DeviceId::generate().unwrap();
    let b = DeviceId::generate().unwrap();
    assert_ne!(a, b);
}

#[test]
fn timestamp_orders_by_hlc_first() {
    let lo = Timestamp::new(hlc(10, 0), dev(9));
    let hi = Timestamp::new(hlc(20, 0), dev(1));
    assert!(hi > lo);
}

#[test]
fn timestamp_device_breaks_hlc_tie() {
    let h = hlc(10, 2);
    let a = Timestamp::new(h, dev(1));
    let b = Timestamp::new(h, dev(2));
    assert!(b > a);
    assert_ne!(a, b);
}

#[test]
fn contexts_with_same_dots_are_equal() {
    let mut a = DotContext::new();
    a.insert(Dot::new(dev(1), 1));
    a.insert(Dot::new(dev(1), 3));
    a.insert(Dot::new(dev(1), 2));
    let mut b = DotContext::new();
    b.insert(Dot::new(dev(1), 1));
    b.insert(Dot::new(dev(1), 2));
    b.insert(Dot::new(dev(1), 3));
    assert_eq!(a, b);
    b.insert(Dot::new(dev(2), 5));
    assert_ne!(a, b);
    assert_eq!(b.duplicate(), b);
}

#[test]
fn duplicates_equal_their_source() {
    let s = replica(1, &[1, 2, 3], &[2]);
    let d = s.duplicate();
    assert_eq!(d, s);
    let mut other = d.duplicate();
    other.add(9, dev(1));
    assert_ne!(other, s);
}

#[test]
fn add_reports_the_fresh_dot_in_its_delta() {
    let mut s = replica(1, &[1, 2], &[]);
    let delta = s.add(1, dev(1));
    assert!(delta.context().contains(&Dot::new(dev(1), 3)));
    assert!(delta.context().contains(&Dot::new(dev(1), 1)));
    assert!(!delta.context().contains(&Dot::new(dev(1), 2)));
}
