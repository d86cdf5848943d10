//! Residual-hybrid evaluation: a frozen baseline score plus two additive,
//! independently zeroable components (a declared handcrafted delta and an
//! optional learned residual), weighted by fixed-point lambdas:
//!
//! eval(pos) = baseline(pos) + lambda_h * handcrafted(pos) / 256 + lambda_r * residual(pos) / 256
//!
//! With both lambdas zero the components are bypassed and the baseline comes
//! back exactly. Steering profiles (for position diversity) are refused for
//! promotion. The learned residual is not trained yet and contributes 0.
use vstd::prelude::*;
use crate::bits::{count_ones, popcount};
use crate::position::Position;
use crate::Color;

verus! {

pub const RESIDUAL_HYBRID_MODEL_VERSION: u32 = 1;
/// Fixed-point denominator of the lambdas.
pub const LAMBDA_SCALE: i32 = 256;
/// Number of declared handcrafted features.
pub const HANDCRAFTED_FEATURE_COUNT: usize = 1;

/// Whether a configuration may ship or only steers position generation.
#[derive(Clone, Copy, Debug, PartialEq, Eq, Structural)]
pub enum ProfileKind {
    /// Eligible for promotion.
    Shippable,
    /// Diversity only: never promoted or packaged.
    SteerOnly,
}

/// A declared handcrafted feature: a deterministic White-POV integer signal,
/// identified by its name and its place in the registry.
#[derive(Clone, Copy, Debug)]
pub struct HandcraftedFeature {
    pub name: &'static str,
}

/// The declared handcrafted feature at registry index `i`.
pub fn handcrafted_feature(i: usize) -> (f: HandcraftedFeature)
    requires
        i < HANDCRAFTED_FEATURE_COUNT,
    ensures
        f.name@ == "bishop_pair_balance"@,
{
    HandcraftedFeature { name: "bishop_pair_balance" }
}

/// White's bishop pair minus Black's (each 1 when the side has two or more bishops).
pub open spec fn bishop_pair_spec(pos: Position) -> int {
    (if popcount(pos.pieces[0][2]) >= 2 { 1int } else { 0int }) - (if popcount(pos.pieces[1][2]) >= 2 { 1int } else { 0int })
}

fn bishop_pair_balance(pos: &Position) -> (b: i32)
    ensures
        b == bishop_pair_spec(*pos),
{
    let w: i32 = if count_ones(pos.pieces[Color::White.index()][2]) >= 2 { 1 } else { 0 };
    let k: i32 = if count_ones(pos.pieces[Color::Black.index()][2]) >= 2 { 1 } else { 0 };
    w - k
}

/// The weight of feature `i` (0 when the vector is shorter).
pub open spec fn weight_at(weights: Seq<i32>, i: int) -> int {
    if i < weights.len() { weights[i] as int } else { 0 }
}

/// White-POV handcrafted delta: each feature times its weight, summed.
pub open spec fn handcrafted_spec(pos: Position, weights: Seq<i32>) -> int {
    bishop_pair_spec(pos) * weight_at(weights, 0)
}

pub fn handcrafted_delta_white(pos: &Position, weights: &[i32]) -> (d: i32)
    requires
        i32::MIN <= handcrafted_spec(*pos, weights@) <= i32::MAX,
    ensures
        d == handcrafted_spec(*pos, weights@),
{
    let w = if weights.len() > 0 { weights[0] } else { 0 };
    let b = bishop_pair_balance(pos);
    proof {
        assert(b * w == handcrafted_spec(*pos, weights@));
    }
    b * w
}

/// A residual-hybrid configuration: the frozen baseline it sits on, the two
/// lambdas, the handcrafted weights, and an optional learned-residual model hash.
#[derive(Clone, Debug, PartialEq, Eq)]
pub struct ResidualHybridConfig {
    pub model_version: u32,
    pub baseline_hash: String,
    pub kind: ProfileKind,
    pub lambda_h: i32,
    pub lambda_r: i32,
    pub handcrafted_weights: Vec<i32>,
    pub residual_hash: Option<String>,
}

impl ResidualHybridConfig {
    /// A zeroed shippable configuration over a named baseline: both lambdas 0.
    pub fn zeroed(baseline_hash: &str) -> (c: Self)
        ensures
            c.model_version == RESIDUAL_HYBRID_MODEL_VERSION,
            c.baseline_hash@ == baseline_hash@,
            c.kind == ProfileKind::Shippable,
            c.lambda_h == 0,
            c.lambda_r == 0,
            c.handcrafted_weights@ == seq![0i32],
            c.residual_hash is None,
    {
        let mut w: Vec<i32> = Vec::new();
        w.push(0);
        ResidualHybridConfig {
            model_version: RESIDUAL_HYBRID_MODEL_VERSION,
            baseline_hash: String::from_str(baseline_hash),
            kind: ProfileKind::Shippable,
            lambda_h: 0,
            lambda_r: 0,
            handcrafted_weights: w,
            residual_hash: None,
        }
    }

    /// Both components are off (the zero-weight fast path applies).
    pub fn is_zeroed(&self) -> (b: bool)
        ensures
            b == (self.lambda_h == 0 && self.lambda_r == 0),
    {
        self.lambda_h == 0 && self.lambda_r == 0
    }
}

/// Telemetry of one evaluation: whether the features were extracted, and the
/// contribution of each branch.
#[derive(Clone, Copy, Debug, Default, PartialEq, Eq, Structural)]
pub struct ResidualTelemetry {
    pub features_extracted: bool,
    pub handcrafted_delta_cp: i32,
    pub residual_delta_cp: i32,
}

pub struct ResidualEval {
    pub score_cp: i32,
    pub telemetry: ResidualTelemetry,
}

/// Integer division truncating toward zero.
pub open spec fn div_trunc(x: int, d: int) -> int {
    if x >= 0 { x / d } else { -((-x) / d) }
}

/// A lambda-weighted White-POV delta, seen from the side to move, in centipawns
/// (truncated toward zero, then wrapped to 32 bits).
pub open spec fn weighted_cp(lambda: i32, white: int, stm: Color) -> i32 {
    let v = if stm == Color::White { white } else { -white };
    div_trunc(lambda * v, LAMBDA_SCALE as int) as i32
}

/// The handcrafted contribution of a non-zeroed configuration.
pub open spec fn handcrafted_cp(pos: Position, cfg: ResidualHybridConfig) -> i32 {
    weighted_cp(cfg.lambda_h, if cfg.lambda_h != 0 { handcrafted_spec(pos, cfg.handcrafted_weights@) } else { 0 }, pos.stm)
}

fn weighted(lambda: i32, white: i32, stm: Color) -> (cp: i32)
    requires
        white > i32::MIN,
    ensures
        cp == weighted_cp(lambda, white as int, stm),
{
    let v: i64 = if stm == Color::White { white as i64 } else { -(white as i64) };
    let l = lambda as i64;
    assert(-0x4000_0000_0000_0000 <= l * v <= 0x4000_0000_0000_0000) by (nonlinear_arith)
        requires
            -0x8000_0000 <= l <= 0x7fff_ffff,
            -0x8000_0000 <= v <= 0x8000_0000,
    ;
    let p: i64 = l * v;
    let q: i64 = if p >= 0 { p / 256 } else { -((-p) / 256) };
    #[verifier::truncate] (q as i32)
}

/// Telemetry of the zero-weight fast path: nothing extracted, nothing added.
pub open spec fn idle_telemetry() -> ResidualTelemetry {
    ResidualTelemetry { features_extracted: false, handcrafted_delta_cp: 0, residual_delta_cp: 0 }
}

/// Telemetry of an evaluation with the components on.
pub open spec fn active_telemetry(h_cp: i32) -> ResidualTelemetry {
    ResidualTelemetry { features_extracted: true, handcrafted_delta_cp: h_cp, residual_delta_cp: 0 }
}

/// Combine a frozen baseline score (side-to-move POV) with the additive
/// components. When both lambdas are zero nothing is extracted and the
/// baseline comes back exactly.
pub fn residual_hybrid_eval(baseline_score: i32, pos: &Position, cfg: &ResidualHybridConfig) -> (r: ResidualEval)
    requires
        cfg.lambda_h != 0 ==> i32::MIN < handcrafted_spec(*pos, cfg.handcrafted_weights@) <= i32::MAX,
        !(cfg.lambda_h == 0 && cfg.lambda_r == 0) ==> i32::MIN <= baseline_score + handcrafted_cp(*pos, *cfg) <= i32::MAX,
    ensures
        cfg.lambda_h == 0 && cfg.lambda_r == 0 ==> r.score_cp == baseline_score && r.telemetry == idle_telemetry(),
        !(cfg.lambda_h == 0 && cfg.lambda_r == 0) ==> r.score_cp == baseline_score + handcrafted_cp(*pos, *cfg)
            && r.telemetry == active_telemetry(handcrafted_cp(*pos, *cfg)),
{
    if cfg.is_zeroed() {
        return ResidualEval {
            score_cp: baseline_score,
            telemetry: ResidualTelemetry { features_extracted: false, handcrafted_delta_cp: 0, residual_delta_cp: 0 },
        };
    }
    let h_white = if cfg.lambda_h != 0 {
        handcrafted_delta_white(pos, cfg.handcrafted_weights.as_slice())
    } else {
        0
    };
    let r_white: i32 = 0;
    let h_cp = weighted(cfg.lambda_h, h_white, pos.stm);
    let r_cp = weighted(cfg.lambda_r, r_white, pos.stm);
    assert(r_cp == 0);
    ResidualEval {
        score_cp: baseline_score + h_cp + r_cp,
        telemetry: ResidualTelemetry { features_extracted: true, handcrafted_delta_cp: h_cp, residual_delta_cp: r_cp },
    }
}

/// Promotion guard: a steer-only profile is refused with a reason naming its
/// baseline; a shippable one passes.
pub fn refuse_steer_only_for_promotion(cfg: &ResidualHybridConfig) -> (r: Result<(), String>)
    ensures
        match r {
            Ok(()) => cfg.kind == ProfileKind::Shippable,
            Err(e) => cfg.kind == ProfileKind::SteerOnly && e@ == "steer-only profile (baseline "@ + cfg.baseline_hash@
                + ") is diversity-only and refused by promotion/packaging"@,
        },
{
    match cfg.kind {
        ProfileKind::Shippable => Ok(()),
        ProfileKind::SteerOnly => {
            let mut m = String::from_str("steer-only profile (baseline ");
            m.append(cfg.baseline_hash.as_str());
            m.append(") is diversity-only and refused by promotion/packaging");
            Err(m)
        },
    }
}

} // verus!
