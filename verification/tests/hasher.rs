use smp_tee_runtime::{BuildFastHasher, FastHasher};
use std::hash::{BuildHasher, Hasher};

#[test]
fn built_hasher_starts_at_zero() {
    let hasher = BuildFastHasher.build_hasher();
    assert_eq!(hasher.finish(), 0);
}

#[test]
fn one_mixing_step_has_the_documented_value() {
    let mut hasher = BuildFastHasher.build_hasher();
    hasher.write_u8(1);
    assert_eq!(hasher.finish(), 0x517cc1b727220a95);
    hasher.write_u8(2);
    assert_eq!(hasher.finish(), 0x6a4be67ff98fabc8);
}

#[test]
fn add_to_hash_mixes_a_word() {
    let mut hasher = FastHasher::default();
    hasher.add_to_hash(0xdeadbeef);
    assert_eq!(hasher.finish(), 0x67f3c0372953771b);
}

#[test]
fn write_is_bytewise_and_streams() {
    let mut whole = BuildFastHasher.build_hasher();
    whole.write(&[1, 2, 3]);
    assert_eq!(whole.finish(), 0xfdcb2688e0760126);

    let mut pieces = BuildFastHasher.build_hasher();
    pieces.write(&[1]);
    pieces.write(&[2, 3]);
    assert_eq!(pieces.finish(), whole.finish());

    let mut bytes = BuildFastHasher.build_hasher();
    bytes.write_u8(1);
    bytes.write_u8(2);
    bytes.write_u8(3);
    assert_eq!(bytes.finish(), whole.finish());
}

#[test]
fn integer_writes_widen_to_one_word() {
    let mut a = FastHasher::default();
    a.write_u16(513);
    let mut b = FastHasher::default();
    b.write_u32(513);
    let mut c = FastHasher::default();
    c.write_u64(513);
    let mut d = FastHasher::default();
    d.write_usize(513);
    assert_eq!(a.finish(), c.finish());
    assert_eq!(b.finish(), c.finish());
    assert_eq!(d.finish(), c.finish());
}

#[test]
fn hashers_work_in_a_hash_map() {
    let mut map: std::collections::HashMap<usize, u8, BuildFastHasher> =
        std::collections::HashMap::with_hasher(BuildFastHasher);
    map.insert(1, 10);
    map.insert(2, 20);
    assert_eq!(map.get(&1), Some(&10));
    assert_eq!(map.get(&2), Some(&20));
    assert_eq!(map.get(&3), None);
}

#[test]
fn built_hashers_fed_the_same_writes_agree() {
    let mut first = BuildFastHasher.build_hasher();
    let mut second = BuildFastHasher.build_hasher();
    for h in [&mut first, &mut second] {
        h.write(&[4, 5]);
        h.write_u32(77);
        h.write_usize(12);
    }
    assert_eq!(first.finish(), second.finish());
}
