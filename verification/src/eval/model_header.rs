//! The accept-or-refuse decision of the network loader, made on the values of
//! a model file's header: which network kind it describes, its layer widths,
//! its geometry-feature layout, and whether its feature-registry hash matches
//! the registry this engine extracts features with. Reading the file and the
//! floating-point weights is the caller's.
use vstd::prelude::*;
use crate::eval::cvs_features::{
    core_registry_hash, fnv, registry_bytes, registry_hash, CVS_CORE_FAMILIES, CVS_CORE_INPUT_DIM, CVS_FAMILIES,
    CVS_INPUT_DIM, FNV_OFFSET,
};
use crate::text::push_char;

verus! {

/// Piece-square inputs of every network.
pub const PIECE_SQUARE_INPUTS: u64 = 768;

/// The network kinds the loader tells apart; any other `modelKind` (or none)
/// is the plain piece-square network.
#[derive(Clone, Copy, PartialEq, Eq, Debug, Structural)]
pub enum ModelKind {
    Plain,
    Cvs,
    Residual,
    Ranker,
}

/// The header values the loader decides on. Presence flags stand for
/// values the decision only needs to exist.
pub struct ModelHeader {
    pub model_kind: Option<String>,
    pub hidden: Option<u64>,
    pub ps_hidden: Option<u64>,
    pub has_output_scale: bool,
    pub cvs_dim: Option<u64>,
    pub cvs_hidden: Option<u64>,
    pub cvs_stm_relative: Option<bool>,
    pub registry_hash: Option<String>,
    pub has_anchor_schema_version: bool,
    pub feature_count: Option<u64>,
    pub sparse_input_count: Option<u64>,
    pub has_training_commit: bool,
    pub has_dataset_manifest_hash: bool,
}

/// What an accepted header fixes about the network.
#[derive(Clone, Copy, PartialEq, Eq, Debug, Structural)]
pub struct ModelLayout {
    pub kind: ModelKind,
    /// Width of the piece-square hidden layer (0 for the ranker).
    pub hidden: u64,
    /// The geometry features use the core registry.
    pub is_core: bool,
    /// Rows of the first weight matrix.
    pub inputs: u64,
    /// Width of the residual network's geometry hidden layer (0 otherwise).
    pub cvs_hidden: u64,
    /// Accepted without a registry hash (only when unverified models are allowed).
    pub unverified: bool,
}

/// Why a header is refused.
#[derive(Clone, Copy, PartialEq, Eq, Debug, Structural)]
pub enum ModelHeaderError {
    MissingHidden,
    MissingPsHidden,
    MissingOutputScale,
    MissingRegistryHash,
    RankerRegistryMismatch,
    MissingAnchorSchemaVersion,
    BadFeatureCount,
    BadSparseInputCount,
    MissingTrainingCommit,
    MissingDatasetManifestHash,
    UnsupportedCvsDim(u64),
    MissingCvsHidden,
    NotStmRelative,
    RegistryMismatch,
    UnverifiedRefused,
}

/// The hash of the full feature registry.
pub open spec fn registry_hash_spec() -> u64 {
    fnv(FNV_OFFSET, registry_bytes(CVS_FAMILIES as int, false))
}

/// The hash of the core feature registry.
pub open spec fn core_registry_hash_spec() -> u64 {
    fnv(FNV_OFFSET, registry_bytes(CVS_CORE_FAMILIES as int, true))
}

/// The lowercase hexadecimal digit of `d` (below 16).
pub open spec fn hex_digit(d: u64) -> char {
    if d < 10 { ((d + 48) as u8) as char } else { ((d + 87) as u8) as char }
}

/// Hexadecimal digit `i` of `h`, most significant first.
pub open spec fn hex16_word(h: u64, i: int) -> u64 {
    (h >> ((60 - 4 * i) as u64)) & 15
}

/// `h` as sixteen lowercase hexadecimal digits, most significant first.
pub open spec fn hex16(h: u64) -> Seq<char> {
    Seq::new(16, |i: int| hex_digit(hex16_word(h, i)))
}

/// The kind a `modelKind` text names.
pub open spec fn kind_of(k: Option<Seq<char>>) -> ModelKind {
    match k {
        Some(s) => if s == "cvs_nnue"@ {
            ModelKind::Cvs
        } else if s == "cvs_residual_nnue"@ {
            ModelKind::Residual
        } else if s == "cvs_ranker_b"@ {
            ModelKind::Ranker
        } else {
            ModelKind::Plain
        },
        None => ModelKind::Plain,
    }
}

/// The registry-hash text of a header, if any.
pub open spec fn hash_text(h: ModelHeader) -> Option<Seq<char>> {
    match h.registry_hash {
        Some(s) => Some(s@),
        None => None,
    }
}

/// The loader's decision on a header, checks in the loader's order: the
/// hidden width and output scale; for the ranker, its registry hash (the full
/// registry's) and its schema fields; for the geometry networks, the feature
/// width (full or core), the residual's geometry width, the side-to-move
/// convention, and the registry hash of the width in use (an absent hash is
/// accepted only when unverified models are allowed).
pub open spec fn header_decision(h: ModelHeader, allow_unverified: bool) -> Result<ModelLayout, ModelHeaderError> {
    let kind = kind_of(match h.model_kind { Some(s) => Some(s@), None => None });
    let hidden_ok = match kind {
        ModelKind::Residual => h.ps_hidden is Some,
        ModelKind::Ranker => true,
        _ => h.hidden is Some,
    };
    let hidden: u64 = match kind {
        ModelKind::Residual => h.ps_hidden->0,
        ModelKind::Ranker => 0,
        _ => h.hidden->0,
    };
    let dim: u64 = match h.cvs_dim { Some(d) => d, None => CVS_INPUT_DIM as u64 };
    let is_core = dim == CVS_CORE_INPUT_DIM;
    let want = if is_core { hex16(core_registry_hash_spec()) } else { hex16(registry_hash_spec()) };
    if !hidden_ok {
        Err(if kind == ModelKind::Residual { ModelHeaderError::MissingPsHidden } else { ModelHeaderError::MissingHidden })
    } else if !h.has_output_scale {
        Err(ModelHeaderError::MissingOutputScale)
    } else if kind == ModelKind::Ranker {
        if hash_text(h) is None {
            Err(ModelHeaderError::MissingRegistryHash)
        } else if hash_text(h)->0 != hex16(registry_hash_spec()) {
            Err(ModelHeaderError::RankerRegistryMismatch)
        } else if !h.has_anchor_schema_version {
            Err(ModelHeaderError::MissingAnchorSchemaVersion)
        } else if h.feature_count != Some(168u64) {
            Err(ModelHeaderError::BadFeatureCount)
        } else if h.sparse_input_count != Some(504u64) {
            Err(ModelHeaderError::BadSparseInputCount)
        } else if !h.has_training_commit {
            Err(ModelHeaderError::MissingTrainingCommit)
        } else if !h.has_dataset_manifest_hash {
            Err(ModelHeaderError::MissingDatasetManifestHash)
        } else {
            Ok(ModelLayout { kind, hidden, is_core: false, inputs: PIECE_SQUARE_INPUTS, cvs_hidden: 0, unverified: false })
        }
    } else if kind == ModelKind::Plain {
        Ok(ModelLayout { kind, hidden, is_core: false, inputs: PIECE_SQUARE_INPUTS, cvs_hidden: 0, unverified: false })
    } else if !is_core && dim != CVS_INPUT_DIM {
        Err(ModelHeaderError::UnsupportedCvsDim(dim))
    } else if kind == ModelKind::Residual && h.cvs_hidden is None {
        Err(ModelHeaderError::MissingCvsHidden)
    } else if h.cvs_stm_relative != Some(true) {
        Err(ModelHeaderError::NotStmRelative)
    } else if hash_text(h) is Some && hash_text(h)->0 != want {
        Err(ModelHeaderError::RegistryMismatch)
    } else if hash_text(h) is None && !allow_unverified {
        Err(ModelHeaderError::UnverifiedRefused)
    } else {
        Ok(ModelLayout {
            kind,
            hidden,
            is_core,
            inputs: if kind == ModelKind::Residual { PIECE_SQUARE_INPUTS } else { (PIECE_SQUARE_INPUTS + dim) as u64 },
            cvs_hidden: if kind == ModelKind::Residual { h.cvs_hidden->0 } else { 0 },
            unverified: hash_text(h) is None,
        })
    }
}

/// Whether two texts are equal, character by character.
pub fn text_equal(a: &str, b: &str) -> (r: bool)
    ensures
        r == (a@ == b@),
{
    let la = a.unicode_len();
    let lb = b.unicode_len();
    if la != lb {
        return false;
    }
    let mut i: usize = 0;
    while i < la
        invariant
            la == a@.len(),
            lb == b@.len(),
            la == lb,
            i <= la,
            forall|j: int| 0 <= j < i ==> a@[j] == b@[j],
        decreases la - i,
    {
        if a.get_char(i) != b.get_char(i) {
            return false;
        }
        i = i + 1;
    }
    assert(a@ =~= b@);
    true
}

/// `h` as sixteen lowercase hexadecimal digits.
pub fn hex16_text(h: u64) -> (s: String)
    ensures
        s@ == hex16(h),
{
    let mut s = String::new();
    let mut i: u64 = 0;
    while i < 16
        invariant
            i <= 16,
            s@ == hex16(h).take(i as int),
        decreases 16 - i,
    {
        let shift: u64 = 60 - 4 * i;
        let d = (h >> shift) & 15;
        assert(d < 16) by (bit_vector)
            requires
                d == (h >> shift) & 15,
        ;
        assert(d == hex16_word(h, i as int));
        let c = if d < 10 { ((d + 48) as u8) as char } else { ((d + 87) as u8) as char };
        let ghost before = s@;
        push_char(&mut s, c);
        assert(hex16(h).take(i + 1) =~= hex16(h).take(i as int).push(hex16(h)[i as int]));
        i = i + 1;
    }
    assert(hex16(h).take(16) =~= hex16(h));
    s
}

/// The full registry's hash as the loader compares it.
pub fn registry_hash_text() -> (s: String)
    ensures
        s@ == hex16(registry_hash_spec()),
{
    hex16_text(registry_hash())
}

/// The core registry's hash as the loader compares it.
pub fn core_registry_hash_text() -> (s: String)
    ensures
        s@ == hex16(core_registry_hash_spec()),
{
    hex16_text(core_registry_hash())
}

fn kind_from(k: &Option<String>) -> (kind: ModelKind)
    ensures
        kind == kind_of(match k { Some(s) => Some(s@), None => None }),
{
    match k {
        Some(s) => {
            if text_equal(s.as_str(), "cvs_nnue") {
                ModelKind::Cvs
            } else if text_equal(s.as_str(), "cvs_residual_nnue") {
                ModelKind::Residual
            } else if text_equal(s.as_str(), "cvs_ranker_b") {
                ModelKind::Ranker
            } else {
                ModelKind::Plain
            }
        },
        None => ModelKind::Plain,
    }
}

/// Decides whether the loader accepts a model with header `h` (see
/// `header_decision`), and the layout it then has.
pub fn check_model_header(h: &ModelHeader, allow_unverified: bool) -> (r: Result<ModelLayout, ModelHeaderError>)
    ensures
        r == header_decision(*h, allow_unverified),
{
    let kind = kind_from(&h.model_kind);
    let hidden: u64 = match kind {
        ModelKind::Residual => match h.ps_hidden {
            Some(v) => v,
            None => return Err(ModelHeaderError::MissingPsHidden),
        },
        ModelKind::Ranker => 0,
        _ => match h.hidden {
            Some(v) => v,
            None => return Err(ModelHeaderError::MissingHidden),
        },
    };
    if !h.has_output_scale {
        return Err(ModelHeaderError::MissingOutputScale);
    }
    if kind == ModelKind::Ranker {
        match &h.registry_hash {
            None => return Err(ModelHeaderError::MissingRegistryHash),
            Some(got) => {
                let want = registry_hash_text();
                if !text_equal(got.as_str(), want.as_str()) {
                    return Err(ModelHeaderError::RankerRegistryMismatch);
                }
            },
        }
        if !h.has_anchor_schema_version {
            return Err(ModelHeaderError::MissingAnchorSchemaVersion);
        }
        if h.feature_count != Some(168u64) {
            return Err(ModelHeaderError::BadFeatureCount);
        }
        if h.sparse_input_count != Some(504u64) {
            return Err(ModelHeaderError::BadSparseInputCount);
        }
        if !h.has_training_commit {
            return Err(ModelHeaderError::MissingTrainingCommit);
        }
        if !h.has_dataset_manifest_hash {
            return Err(ModelHeaderError::MissingDatasetManifestHash);
        }
        return Ok(ModelLayout { kind, hidden, is_core: false, inputs: PIECE_SQUARE_INPUTS, cvs_hidden: 0, unverified: false });
    }
    if kind == ModelKind::Plain {
        return Ok(ModelLayout { kind, hidden, is_core: false, inputs: PIECE_SQUARE_INPUTS, cvs_hidden: 0, unverified: false });
    }
    let dim: u64 = match h.cvs_dim {
        Some(d) => d,
        None => CVS_INPUT_DIM as u64,
    };
    let is_core = dim == CVS_CORE_INPUT_DIM as u64;
    if !is_core && dim != CVS_INPUT_DIM as u64 {
        return Err(ModelHeaderError::UnsupportedCvsDim(dim));
    }
    let cvs_hidden: u64 = if kind == ModelKind::Residual {
        match h.cvs_hidden {
            Some(v) => v,
            None => return Err(ModelHeaderError::MissingCvsHidden),
        }
    } else {
        0
    };
    if h.cvs_stm_relative != Some(true) {
        return Err(ModelHeaderError::NotStmRelative);
    }
    let unverified = match &h.registry_hash {
        Some(got) => {
            let want = if is_core { core_registry_hash_text() } else { registry_hash_text() };
            if !text_equal(got.as_str(), want.as_str()) {
                return Err(ModelHeaderError::RegistryMismatch);
            }
            false
        },
        None => {
            if !allow_unverified {
                return Err(ModelHeaderError::UnverifiedRefused);
            }
            true
        },
    };
    let inputs = if kind == ModelKind::Residual { PIECE_SQUARE_INPUTS } else { PIECE_SQUARE_INPUTS + dim };
    Ok(ModelLayout { kind, hidden, is_core, inputs, cvs_hidden, unverified })
}

} // verus!
