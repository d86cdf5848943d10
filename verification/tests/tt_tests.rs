use cvs_bitboard_core::tt::{
    next_generation, pack, pack_move, probe_slot, replace_slot, unpack, unpack_move, Flag, SharedTt, TtEntry, FLAGS,
};
use cvs_bitboard_core::{Move, MoveFlag};

#[test]
fn move_roundtrip() {
    for flag in FLAGS {
        let m = Move { from: 12, to: 28, flag };
        assert_eq!(unpack_move(pack_move(Some(m))), Some(m));
    }
    assert_eq!(unpack_move(pack_move(None)), None);
    // a1a1 quiet must not collide with the None sentinel.
    let zero = Move { from: 0, to: 0, flag: MoveFlag::Quiet };
    assert_eq!(unpack_move(pack_move(Some(zero))), Some(zero));
}

#[test]
fn entry_roundtrip_extremes() {
    for score in [0, 1, -1, 999_983, -999_983, i32::MIN / 4] {
        let e = TtEntry {
            depth: 63,
            score,
            flag: Flag::Lower,
            mv: Some(Move { from: 63, to: 0, flag: MoveFlag::PromoQCap }),
            generation: 63,
            lane: 3,
        };
        let u = unpack(pack(&e));
        assert_eq!(u.score, score);
        assert_eq!(u.depth, 63);
        assert_eq!(u.mv, e.mv);
        assert_eq!(u.generation, 63);
        assert_eq!(u.lane, 3);
    }
}

#[test]
fn probe_store_xor_check() {
    let tt = SharedTt::new(4);
    let h = 0xDEAD_BEEF_1234_5678u64;
    tt.store(h, 8, 42, Flag::Exact, None, 1, 2);
    assert_eq!(tt.probe(h).unwrap().lane, 2);
    let e = tt.probe(h).unwrap();
    assert_eq!((e.depth, e.score), (8, 42));
    // A different hash mapping to the same slot must miss.
    assert!(tt.probe(h ^ 0x10).is_none());
}

#[test]
fn pack_move_layout() {
    let m = Move { from: 12, to: 28, flag: MoveFlag::Capture };
    // 1 + (12 | 28 << 6 | 4 << 12)
    assert_eq!(pack_move(Some(m)), 1 + (12 | (28 << 6) | (4 << 12)));
    assert_eq!(pack_move(None), 0);
}

#[test]
fn entry_fields_are_clamped_and_masked() {
    let e = TtEntry { depth: 200, score: -7, flag: Flag::Upper, mv: None, generation: 200, lane: 7 };
    let u = unpack(pack(&e));
    assert_eq!(u.depth, 63);
    assert_eq!(u.score, -7);
    assert_eq!(u.flag, Flag::Upper);
    assert_eq!(u.mv, None);
    assert_eq!(u.generation, 200 & 63);
    assert_eq!(u.lane, 3);
    let neg = TtEntry { depth: -5, ..e };
    assert_eq!(unpack(pack(&neg)).depth, 0);
}

#[test]
fn replacement_policy() {
    let h = 0x1234u64;
    // Empty slot: always replaced.
    assert!(replace_slot(h, 0, 0, 1, 0));
    let old = pack(&TtEntry { depth: 10, score: 0, flag: Flag::Exact, mv: None, generation: 5, lane: 0 });
    // Same position: deeper or equal wins.
    assert!(replace_slot(h, h ^ old, old, 10, 5));
    assert!(!replace_slot(h, h ^ old, old, 9, 5));
    // Other position: an older generation always loses, otherwise depth decides.
    assert!(replace_slot(h ^ 1, h ^ old, old, 1, 6));
    assert!(!replace_slot(h ^ 1, h ^ old, old, 9, 5));
    // Probe only answers for the stored hash.
    assert!(probe_slot(h, h ^ old, old).is_some());
    assert!(probe_slot(h ^ 1, h ^ old, old).is_none());
}

#[test]
fn generations_wrap_mod_64() {
    assert_eq!(next_generation(0), 1);
    assert_eq!(next_generation(62), 63);
    assert_eq!(next_generation(63), 0);
    assert_eq!(next_generation(255), 0);
    let tt = SharedTt::new(2);
    assert_eq!(tt.new_generation(), 1);
    assert_eq!(tt.new_generation(), 2);
}
