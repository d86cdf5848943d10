//! Fact vocabulary: sides, piece types, piece references, and collections that
//! record whether they were computed.
use vstd::prelude::*;

verus! {

/// A collection of facts, or the reason it was not computed or is unavailable.
#[derive(Clone, Debug)]
pub enum FactCollection<T> {
    Computed { items: Vec<T> },
    Uncomputed { reason: String },
    Unavailable { reason: String },
}

impl<T> FactCollection<T> {
    pub fn computed(items: Vec<T>) -> (c: Self)
        ensures
            c matches FactCollection::Computed { items: i } && i@ == items@,
    {
        FactCollection::Computed { items }
    }

    pub fn uncomputed(reason: &str) -> (c: Self)
        ensures
            c matches FactCollection::Uncomputed { reason: r } && r@ == reason@,
    {
        FactCollection::Uncomputed { reason: String::from_str(reason) }
    }

    pub fn unavailable(reason: &str) -> (c: Self)
        ensures
            c matches FactCollection::Unavailable { reason: r } && r@ == reason@,
    {
        FactCollection::Unavailable { reason: String::from_str(reason) }
    }
}

/// A single fact, or the reason it was not computed or is unavailable.
#[derive(Clone, Debug)]
pub enum FactValue<T> {
    Computed { value: T },
    Uncomputed { reason: String },
    Unavailable { reason: String },
}

#[derive(Clone, Copy, Debug, PartialEq, Eq, Structural)]
pub enum Side {
    White,
    Black,
}

#[derive(Clone, Copy, Debug, PartialEq, Eq, Structural)]
pub enum PieceType {
    Pawn,
    Knight,
    Bishop,
    Rook,
    Queen,
    King,
}

/// A piece on a square, with a stable id such as `white-rook-a1`.
#[derive(Clone, Debug)]
pub struct PieceRef {
    pub id: String,
    pub side: Side,
    pub piece_type: PieceType,
    pub square: String,
}

/// The safety of one king: who attacks it, which squares around it are
/// attacked, and where it can legally step.
#[derive(Clone, Debug)]
pub struct KingSafetyFact {
    pub side: Side,
    pub king_square: String,
    pub in_check: bool,
    pub attackers: Vec<PieceRef>,
    pub pressured_squares: Vec<String>,
    pub legal_escape_squares: FactCollection<String>,
}

/// The best capture of a piece by the side to move, by static exchange.
#[derive(Clone, Debug)]
pub struct SeeLosingFact {
    pub losing: bool,
    pub best_capture_uci: Option<String>,
    pub score_cp: Option<i32>,
}

/// One piece: who attacks and defends it, what a capture of it would yield,
/// and which of its side's pieces it alone defends.
#[derive(Clone, Debug)]
pub struct PieceFact {
    pub piece: PieceRef,
    pub attackers: Vec<PieceRef>,
    pub defenders: Vec<PieceRef>,
    pub attacker_count: u32,
    pub defender_count: u32,
    pub attacked: bool,
    pub loose: bool,
    pub see: FactValue<SeeLosingFact>,
    pub only_defender_of: Vec<PieceRef>,
}

/// A legal capture of the side to move and what it wins.
#[derive(Clone, Debug)]
pub struct CaptureOpportunity {
    pub move_uci: String,
    pub attacker: PieceRef,
    pub victim: PieceRef,
    pub victim_square: String,
    pub see_cp: i32,
    pub gives_check: bool,
    pub capturing_piece_survives: bool,
    pub highest_value_safe_capture: bool,
}

impl crate::order::Keyed for CaptureOpportunity {
    open spec fn key(&self) -> Seq<char> {
        self.move_uci@
    }

    fn key_text(&self) -> (k: &str) {
        self.move_uci.as_str()
    }
}

/// A checkmate of a named pattern.
#[derive(Clone, Debug)]
pub struct MatePatternFact {
    /// "back_rank_mate" or "smothered_mate".
    pub kind: String,
    pub validator: String,
    /// The mating move.
    pub move_uci: String,
    /// The piece that mates, on its square after the move.
    pub mating_piece: PieceRef,
    pub mated_king: PieceRef,
    /// The squares that define the pattern, sorted.
    pub key_squares: Vec<String>,
    pub gives_check: bool,
}

impl crate::order::Keyed for MatePatternFact {
    open spec fn key(&self) -> Seq<char> {
        self.move_uci@
    }

    fn key_text(&self) -> (k: &str) {
        self.move_uci.as_str()
    }
}

/// Who attacks a square and which pieces can legally move onto it.
#[derive(Clone, Debug)]
pub struct SquareFact {
    pub square: String,
    pub occupied: bool,
    pub attacked_by_white: Vec<PieceRef>,
    pub attacked_by_black: Vec<PieceRef>,
    pub controlled_by_white: bool,
    pub controlled_by_black: bool,
    pub legal_movers_white: FactCollection<PieceRef>,
    pub legal_movers_black: FactCollection<PieceRef>,
}

/// A fork: one move after which the moved piece attacks two or more enemy
/// pieces, at least what it takes to win material.
#[derive(Clone, Debug)]
pub struct MotifOpportunity {
    /// Always "fork".
    pub kind: String,
    pub validator: String,
    pub move_uci: String,
    /// The forking piece, on its square after the move.
    pub forking_piece: PieceRef,
    /// The attacked enemy pieces, in id order.
    pub targets: Vec<PieceRef>,
    pub gives_check: bool,
    pub king_target: bool,
    /// The material the fork is expected to win, in centipawns.
    pub material_gain: i32,
}

impl crate::order::Keyed for MotifOpportunity {
    open spec fn key(&self) -> Seq<char> {
        self.move_uci@
    }

    fn key_text(&self) -> (k: &str) {
        self.move_uci.as_str()
    }
}

/// A pin: one slider move after which an enemy piece on the slider's line
/// shields the king ("absolute") or a piece worth more ("relative").
#[derive(Clone, Debug)]
pub struct PinOpportunity {
    pub kind: String,
    pub validator: String,
    pub move_uci: String,
    /// The pinning slider, on its square after the move.
    pub pinner: PieceRef,
    pub pinned: PieceRef,
    /// The piece behind the pinned one.
    pub anchor: PieceRef,
    /// The squares between the pinner and the anchor, the pinned square among them.
    pub ray: Vec<String>,
    pub gives_check: bool,
    /// The pinned piece may not legally move (an absolute pin).
    pub pinned_immobile: bool,
}

impl crate::order::Keyed for PinOpportunity {
    open spec fn key(&self) -> Seq<char> {
        self.move_uci@
    }

    fn key_text(&self) -> (k: &str) {
        self.move_uci.as_str()
    }
}

/// A skewer: one slider move that attacks an enemy piece which must step aside
/// and exposes a lesser, winnable enemy piece behind it.
#[derive(Clone, Debug)]
pub struct SkewerOpportunity {
    pub kind: String,
    pub validator: String,
    pub move_uci: String,
    /// The skewering slider, on its square after the move.
    pub skewerer: PieceRef,
    pub front: PieceRef,
    pub back: PieceRef,
    /// The squares between the skewerer and the back piece.
    pub ray: Vec<String>,
    pub gives_check: bool,
    /// The material won once the front piece steps aside, in centipawns.
    pub material_gain: i32,
}

impl crate::order::Keyed for SkewerOpportunity {
    open spec fn key(&self) -> Seq<char> {
        self.move_uci@
    }

    fn key_text(&self) -> (k: &str) {
        self.move_uci.as_str()
    }
}

/// A discovered attack: a move that clears the line of a friendly rear slider
/// onto an enemy piece.
#[derive(Clone, Debug)]
pub struct DiscoveryOpportunity {
    /// "discovered_attack", "discovered_check", "double_check" or "discoverer_checks".
    pub kind: String,
    pub validator: String,
    pub move_uci: String,
    /// The piece that moved off the line, on its new square.
    pub mover: PieceRef,
    /// The rear slider whose line was cleared.
    pub slider: PieceRef,
    /// The enemy piece the slider now attacks.
    pub target: PieceRef,
    /// The squares between the slider and the target.
    pub ray: Vec<String>,
    pub gives_check: bool,
    pub discovered_check: bool,
    pub double_check: bool,
    /// The moved piece also threatens to win a piece from its new square.
    pub mover_threatens: bool,
    /// The material at stake, in centipawns.
    pub material_gain: i32,
}

impl crate::order::Keyed for DiscoveryOpportunity {
    open spec fn key(&self) -> Seq<char> {
        self.move_uci@
    }

    fn key_text(&self) -> (k: &str) {
        self.move_uci.as_str()
    }
}

/// An x-ray attack: one slider move that attacks a defended enemy piece with a
/// second enemy piece behind it, so that the exchange on the front square,
/// counted through to the back, wins material.
#[derive(Clone, Debug)]
pub struct XRayOpportunity {
    pub kind: String,
    pub validator: String,
    pub move_uci: String,
    /// The x-raying slider, on its square after the move.
    pub xrayer: PieceRef,
    pub front: PieceRef,
    pub back: PieceRef,
    /// The squares between the slider and the back piece.
    pub ray: Vec<String>,
    pub gives_check: bool,
    /// What the exchange on the front square wins, in centipawns.
    pub material_gain: i32,
}

impl crate::order::Keyed for XRayOpportunity {
    open spec fn key(&self) -> Seq<char> {
        self.move_uci@
    }

    fn key_text(&self) -> (k: &str) {
        self.move_uci.as_str()
    }
}

/// Removing the guard: a capture of an enemy defender after which a piece it
/// defended can be won.
#[derive(Clone, Debug)]
pub struct RemoveGuardOpportunity {
    pub kind: String,
    pub validator: String,
    pub move_uci: String,
    /// The capturing piece, on its square after the move.
    pub mover: PieceRef,
    /// The captured defender, on its square before the move.
    pub captured_defender: PieceRef,
    /// The enemy piece that can be won once its defender is gone.
    pub target: PieceRef,
    pub gives_check: bool,
    /// What the exchange on the target wins, in centipawns.
    pub material_gain: i32,
}

impl crate::order::Keyed for RemoveGuardOpportunity {
    open spec fn key(&self) -> Seq<char> {
        self.move_uci@
    }

    fn key_text(&self) -> (k: &str) {
        self.move_uci.as_str()
    }
}

/// A trapped piece: an enemy piece that is attacked, can be won where it
/// stands, and has no legal move to a square where it would be safe.
#[derive(Clone, Debug)]
pub struct TrappedPieceOpportunity {
    pub kind: String,
    pub validator: String,
    pub piece: PieceRef,
    /// Our pieces attacking it, in id order.
    pub attackers: Vec<PieceRef>,
    /// The squares its legal moves reach, sorted, each once.
    pub escape_squares_tried: Vec<String>,
    /// What we win at the least, staying or fleeing, in centipawns.
    pub material_gain: i32,
}

impl crate::order::Keyed for TrappedPieceOpportunity {
    open spec fn key(&self) -> Seq<char> {
        self.piece.id@
    }

    fn key_text(&self) -> (k: &str) {
        self.piece.id.as_str()
    }
}

/// `c` was not computed, for `reason`.
pub open spec fn uncomputed_because<T>(c: FactCollection<T>, reason: Seq<char>) -> bool {
    match c {
        FactCollection::Uncomputed { reason: r } => r@ == reason,
        _ => false,
    }
}

/// `c` was refused for `reason`.
pub open spec fn unavailable_because<T>(c: FactCollection<T>, reason: Seq<char>) -> bool {
    match c {
        FactCollection::Unavailable { reason: r } => r@ == reason,
        _ => false,
    }
}

/// A discovered defense: a move that clears the line of a friendly rear slider onto a friendly piece that was hanging.
#[derive(Clone, Debug)]
pub struct DiscoveredDefenseOpportunity {
    pub kind: String,
    pub validator: String,
    pub move_uci: String,
    pub mover: PieceRef,
    pub slider: PieceRef,
    pub defended_piece: PieceRef,
    pub ray: Vec<String>,
    pub gives_check: bool,
    pub material_gain: i32,
}

/// An overloaded defender: an enemy piece that alone guards two or more pieces that could each be won once it is gone.
#[derive(Clone, Debug)]
pub struct OverloadOpportunity {
    pub kind: String,
    pub validator: String,
    pub overloaded_defender: PieceRef,
    pub targets: Vec<PieceRef>,
    pub material_gain: i32,
}

/// Attacking the defender: a move that attacks the sole defender of enemy pieces.
#[derive(Clone, Debug)]
pub struct AttackDefenderOpportunity {
    pub kind: String,
    pub validator: String,
    pub move_uci: String,
    pub mover: PieceRef,
    pub attacked_defender: PieceRef,
    pub targets: Vec<PieceRef>,
    pub gives_check: bool,
    pub material_gain: i32,
}

/// A deflection: a move that draws a defender away from the pieces it guards.
#[derive(Clone, Debug)]
pub struct DeflectionOpportunity {
    pub kind: String,
    pub validator: String,
    pub move_uci: String,
    pub mover: PieceRef,
    pub distracted_defender: PieceRef,
    pub targets: Vec<PieceRef>,
    pub gives_check: bool,
    pub material_gain: i32,
}

/// Luring a defender: a move that entices a defender onto a square where it no longer guards.
#[derive(Clone, Debug)]
pub struct LureDefenderOpportunity {
    pub kind: String,
    pub validator: String,
    pub move_uci: String,
    pub mover: PieceRef,
    pub lured_defender: PieceRef,
    pub targets: Vec<PieceRef>,
    pub gives_check: bool,
    pub material_gain: i32,
}

/// An interference: a move onto the line between a defender and the piece it guards.
#[derive(Clone, Debug)]
pub struct InterferenceOpportunity {
    pub kind: String,
    pub validator: String,
    pub move_uci: String,
    pub interposer: PieceRef,
    pub cut_defender: PieceRef,
    pub target: PieceRef,
    pub gives_check: bool,
    pub material_gain: i32,
}

/// A double attack: one move after which the moved piece and a second piece
/// of ours each threaten to win a different enemy piece.
#[derive(Clone, Debug)]
pub struct DoubleAttackOpportunity {
    pub kind: String,
    pub validator: String,
    pub move_uci: String,
    /// The moved piece, on its new square.
    pub mover: PieceRef,
    pub second_attacker: PieceRef,
    /// The piece the moved piece threatens.
    pub target_a: PieceRef,
    /// The piece the second attacker threatens.
    pub target_b: PieceRef,
    pub gives_check: bool,
    /// The lesser of the two threats, in centipawns.
    pub material_gain: i32,
}

impl crate::order::Keyed for DoubleAttackOpportunity {
    open spec fn key(&self) -> Seq<char> {
        self.move_uci@
    }

    fn key_text(&self) -> (k: &str) {
        self.move_uci.as_str()
    }
}

/// An x-ray defense: a friendly slider that defends a friendly piece through an enemy piece.
#[derive(Clone, Debug)]
pub struct XRayDefenseOpportunity {
    pub kind: String,
    pub validator: String,
    pub move_uci: String,
    pub xrayer: PieceRef,
    pub front_enemy: PieceRef,
    pub defended: PieceRef,
    pub ray: Vec<String>,
    pub gives_check: bool,
    pub material_gain: i32,
}

/// Winning the exchange: a capture of a rook by a knight or bishop that nets
/// a rook for a minor piece.
#[derive(Clone, Debug)]
pub struct WinExchangeOpportunity {
    pub kind: String,
    pub validator: String,
    pub move_uci: String,
    /// The capturing minor piece, on its square after the move.
    pub mover: PieceRef,
    /// The captured rook.
    pub victim: PieceRef,
    pub gives_check: bool,
    /// Our least net over the enemy's replies, in centipawns.
    pub material_gain: i32,
}

impl crate::order::Keyed for WinExchangeOpportunity {
    open spec fn key(&self) -> Seq<char> {
        self.move_uci@
    }

    fn key_text(&self) -> (k: &str) {
        self.move_uci.as_str()
    }
}

/// The board facts of a position, with the motif collections that were asked
/// for (those not asked for are uncomputed).
#[derive(Clone, Debug)]
pub struct PositionFacts {
    pub side_to_move: Side,
    pub pieces: Vec<PieceFact>,
    pub pawn_structure: crate::facts::pawn_structure::PawnStructureFacts,
    pub king_safety: FactCollection<KingSafetyFact>,
    pub available_captures: FactCollection<CaptureOpportunity>,
    pub opponent_available_captures: FactCollection<CaptureOpportunity>,
    pub available_motifs: FactCollection<MotifOpportunity>,
    pub available_pins: FactCollection<PinOpportunity>,
    pub available_skewers: FactCollection<SkewerOpportunity>,
    pub available_discoveries: FactCollection<DiscoveryOpportunity>,
    pub available_discovered_defense: FactCollection<DiscoveredDefenseOpportunity>,
    pub available_remove_guard: FactCollection<RemoveGuardOpportunity>,
    pub available_trapped: FactCollection<TrappedPieceOpportunity>,
    pub available_mate_patterns: FactCollection<MatePatternFact>,
    pub available_overload: FactCollection<OverloadOpportunity>,
    pub available_attack_defender: FactCollection<AttackDefenderOpportunity>,
    pub available_deflection: FactCollection<DeflectionOpportunity>,
    pub available_lure_defender: FactCollection<LureDefenderOpportunity>,
    pub available_interference: FactCollection<InterferenceOpportunity>,
    pub available_double_attack: FactCollection<DoubleAttackOpportunity>,
    pub available_xray_attack: FactCollection<XRayOpportunity>,
    pub available_xray_defense: FactCollection<XRayDefenseOpportunity>,
    pub available_win_exchange: FactCollection<WinExchangeOpportunity>,
    /// The same for the side not to move, seen with it to move.
    pub opponent_available_motifs: FactCollection<MotifOpportunity>,
    pub opponent_available_pins: FactCollection<PinOpportunity>,
    pub opponent_available_skewers: FactCollection<SkewerOpportunity>,
    pub opponent_available_discoveries: FactCollection<DiscoveryOpportunity>,
    pub opponent_available_discovered_defense: FactCollection<DiscoveredDefenseOpportunity>,
    pub opponent_available_remove_guard: FactCollection<RemoveGuardOpportunity>,
    pub opponent_available_trapped: FactCollection<TrappedPieceOpportunity>,
    pub opponent_available_mate_patterns: FactCollection<MatePatternFact>,
    pub opponent_available_overload: FactCollection<OverloadOpportunity>,
    pub opponent_available_attack_defender: FactCollection<AttackDefenderOpportunity>,
    pub opponent_available_deflection: FactCollection<DeflectionOpportunity>,
    pub opponent_available_lure_defender: FactCollection<LureDefenderOpportunity>,
    pub opponent_available_interference: FactCollection<InterferenceOpportunity>,
    pub opponent_available_double_attack: FactCollection<DoubleAttackOpportunity>,
    pub opponent_available_xray_attack: FactCollection<XRayOpportunity>,
    pub opponent_available_xray_defense: FactCollection<XRayDefenseOpportunity>,
    pub opponent_available_win_exchange: FactCollection<WinExchangeOpportunity>,
    pub hazards: FactCollection<crate::facts::hazards::HazardFact>,
    pub square_facts: FactCollection<SquareFact>,
}

} // verus!
