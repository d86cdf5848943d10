use cvs_bitboard_core::eval::cvs_features::{core_registry_hash, registry_hash};
use cvs_bitboard_core::eval::model_header::{
    check_model_header, core_registry_hash_text, hex16_text, registry_hash_text, ModelHeader, ModelHeaderError,
    ModelKind,
};

fn header(kind: Option<&str>) -> ModelHeader {
    ModelHeader {
        model_kind: kind.map(|k| k.to_string()),
        hidden: Some(256),
        ps_hidden: Some(128),
        has_output_scale: true,
        cvs_dim: Some(168),
        cvs_hidden: Some(32),
        cvs_stm_relative: Some(true),
        registry_hash: Some(format!("{:016x}", registry_hash())),
        has_anchor_schema_version: true,
        feature_count: Some(168),
        sparse_input_count: Some(504),
        has_training_commit: true,
        has_dataset_manifest_hash: true,
    }
}

#[test]
fn hash_text_is_sixteen_lowercase_hex_digits() {
    for h in [0u64, 1, 0xdead_beef, u64::MAX, 0x0123_4567_89ab_cdef] {
        assert_eq!(hex16_text(h), format!("{:016x}", h));
    }
    assert_eq!(registry_hash_text(), format!("{:016x}", registry_hash()));
    assert_eq!(core_registry_hash_text(), format!("{:016x}", core_registry_hash()));
}

#[test]
fn plain_network_needs_only_its_width_and_scale() {
    let mut h = header(None);
    h.registry_hash = None;
    h.cvs_stm_relative = None;
    let l = check_model_header(&h, false).unwrap();
    assert_eq!((l.kind, l.hidden, l.inputs, l.is_core), (ModelKind::Plain, 256, 768, false));
    h.hidden = None;
    assert_eq!(check_model_header(&h, false), Err(ModelHeaderError::MissingHidden));
    let mut g = header(Some("something_else"));
    g.has_output_scale = false;
    assert_eq!(check_model_header(&g, false), Err(ModelHeaderError::MissingOutputScale));
}

#[test]
fn geometry_network_with_matching_registry_is_accepted() {
    let l = check_model_header(&header(Some("cvs_nnue")), false).unwrap();
    assert_eq!((l.kind, l.inputs, l.is_core, l.unverified), (ModelKind::Cvs, 768 + 168, false, false));
}

#[test]
fn geometry_network_with_another_registry_hash_is_refused() {
    let mut h = header(Some("cvs_nnue"));
    h.registry_hash = Some("0000000000000000".to_string());
    assert_eq!(check_model_header(&h, true), Err(ModelHeaderError::RegistryMismatch));
    // The core layout compares against the core registry.
    let mut c = header(Some("cvs_nnue"));
    c.cvs_dim = Some(104);
    assert_eq!(check_model_header(&c, false), Err(ModelHeaderError::RegistryMismatch));
    c.registry_hash = Some(format!("{:016x}", core_registry_hash()));
    let l = check_model_header(&c, false).unwrap();
    assert_eq!((l.inputs, l.is_core), (768 + 104, true));
}

#[test]
fn missing_registry_hash_needs_the_unverified_switch() {
    let mut h = header(Some("cvs_residual_nnue"));
    h.registry_hash = None;
    assert_eq!(check_model_header(&h, false), Err(ModelHeaderError::UnverifiedRefused));
    let l = check_model_header(&h, true).unwrap();
    assert_eq!((l.kind, l.hidden, l.inputs, l.cvs_hidden, l.unverified), (ModelKind::Residual, 128, 768, 32, true));
}

#[test]
fn side_relative_convention_and_width_are_checked() {
    let mut h = header(Some("cvs_nnue"));
    h.cvs_stm_relative = Some(false);
    assert_eq!(check_model_header(&h, true), Err(ModelHeaderError::NotStmRelative));
    let mut d = header(Some("cvs_nnue"));
    d.cvs_dim = Some(200);
    assert_eq!(check_model_header(&d, true), Err(ModelHeaderError::UnsupportedCvsDim(200)));
    let mut r = header(Some("cvs_residual_nnue"));
    r.cvs_hidden = None;
    assert_eq!(check_model_header(&r, true), Err(ModelHeaderError::MissingCvsHidden));
    r.ps_hidden = None;
    assert_eq!(check_model_header(&r, true), Err(ModelHeaderError::MissingPsHidden));
}

#[test]
fn ranker_schema_is_checked() {
    let l = check_model_header(&header(Some("cvs_ranker_b")), false).unwrap();
    assert_eq!((l.kind, l.hidden), (ModelKind::Ranker, 0));
    let mut h = header(Some("cvs_ranker_b"));
    h.feature_count = Some(104);
    assert_eq!(check_model_header(&h, false), Err(ModelHeaderError::BadFeatureCount));
    let mut g = header(Some("cvs_ranker_b"));
    g.registry_hash = None;
    assert_eq!(check_model_header(&g, true), Err(ModelHeaderError::MissingRegistryHash));
    let mut k = header(Some("cvs_ranker_b"));
    k.registry_hash = Some(format!("{:016x}", core_registry_hash()));
    assert_eq!(check_model_header(&k, false), Err(ModelHeaderError::RankerRegistryMismatch));
}
