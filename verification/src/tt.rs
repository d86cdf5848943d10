//! Lock-free shared transposition table. Each slot is two 64-bit atomics: the
//! entry packed into one word, and the position hash XORed with that word, so a
//! torn read or write (two threads racing on one slot) fails the XOR check and
//! probes as a miss. The table is a cache: stale or lost entries only cost
//! re-search.
//!
//! Packed layout (low to high): score 32 bits (i32), move 16 bits (0 = none),
//! depth 6 bits (clamped 0..63), flag 2 bits, generation 6 bits (mod 64), lane
//! 2 bits (specialist-lane provenance: Fast/King/See/Tactics).
use vstd::prelude::*;
use crate::{Move, MoveFlag};
use std::sync::atomic::{AtomicU64, AtomicU8, Ordering};

verus! {

/// Bound type of a stored score.
#[derive(Clone, Copy, PartialEq, Eq, Debug, Structural)]
pub enum Flag {
    Exact,
    Lower,
    Upper,
}

#[derive(Clone, Copy)]
pub struct TtEntry {
    pub depth: i32,
    pub score: i32,
    pub flag: Flag,
    pub mv: Option<Move>,
    pub generation: u8,
    /// Specialist-lane provenance (0 = Fast, 1 = King, 2 = See, 3 = Tactics).
    pub lane: u8,
}

/// The move flags in the order of their 4-bit codes.
pub const FLAGS: [MoveFlag; 14] = [
    MoveFlag::Quiet,
    MoveFlag::DoublePush,
    MoveFlag::KingCastle,
    MoveFlag::QueenCastle,
    MoveFlag::Capture,
    MoveFlag::EnPassant,
    MoveFlag::PromoN,
    MoveFlag::PromoB,
    MoveFlag::PromoR,
    MoveFlag::PromoQ,
    MoveFlag::PromoNCap,
    MoveFlag::PromoBCap,
    MoveFlag::PromoRCap,
    MoveFlag::PromoQCap,
];

/// The 4-bit code of a move flag (its position in `FLAGS`).
pub open spec fn flag_code(f: MoveFlag) -> u64 {
    match f {
        MoveFlag::Quiet => 0,
        MoveFlag::DoublePush => 1,
        MoveFlag::KingCastle => 2,
        MoveFlag::QueenCastle => 3,
        MoveFlag::Capture => 4,
        MoveFlag::EnPassant => 5,
        MoveFlag::PromoN => 6,
        MoveFlag::PromoB => 7,
        MoveFlag::PromoR => 8,
        MoveFlag::PromoQ => 9,
        MoveFlag::PromoNCap => 10,
        MoveFlag::PromoBCap => 11,
        MoveFlag::PromoRCap => 12,
        MoveFlag::PromoQCap => 13,
    }
}

/// The move flag with code `c` (below 14).
pub open spec fn flag_of_code(c: u64) -> MoveFlag {
    if c == 0 {
        MoveFlag::Quiet
    } else if c == 1 {
        MoveFlag::DoublePush
    } else if c == 2 {
        MoveFlag::KingCastle
    } else if c == 3 {
        MoveFlag::QueenCastle
    } else if c == 4 {
        MoveFlag::Capture
    } else if c == 5 {
        MoveFlag::EnPassant
    } else if c == 6 {
        MoveFlag::PromoN
    } else if c == 7 {
        MoveFlag::PromoB
    } else if c == 8 {
        MoveFlag::PromoR
    } else if c == 9 {
        MoveFlag::PromoQ
    } else if c == 10 {
        MoveFlag::PromoNCap
    } else if c == 11 {
        MoveFlag::PromoBCap
    } else if c == 12 {
        MoveFlag::PromoRCap
    } else {
        MoveFlag::PromoQCap
    }
}

fn code_of_flag(f: MoveFlag) -> (c: u64)
    ensures
        c == flag_code(f),
{
    match f {
        MoveFlag::Quiet => 0,
        MoveFlag::DoublePush => 1,
        MoveFlag::KingCastle => 2,
        MoveFlag::QueenCastle => 3,
        MoveFlag::Capture => 4,
        MoveFlag::EnPassant => 5,
        MoveFlag::PromoN => 6,
        MoveFlag::PromoB => 7,
        MoveFlag::PromoR => 8,
        MoveFlag::PromoQ => 9,
        MoveFlag::PromoNCap => 10,
        MoveFlag::PromoBCap => 11,
        MoveFlag::PromoRCap => 12,
        MoveFlag::PromoQCap => 13,
    }
}

fn flag_of(c: u64) -> (f: MoveFlag)
    requires
        c < 14,
    ensures
        f == flag_of_code(c),
{
    if c == 0 {
        MoveFlag::Quiet
    } else if c == 1 {
        MoveFlag::DoublePush
    } else if c == 2 {
        MoveFlag::KingCastle
    } else if c == 3 {
        MoveFlag::QueenCastle
    } else if c == 4 {
        MoveFlag::Capture
    } else if c == 5 {
        MoveFlag::EnPassant
    } else if c == 6 {
        MoveFlag::PromoN
    } else if c == 7 {
        MoveFlag::PromoB
    } else if c == 8 {
        MoveFlag::PromoR
    } else if c == 9 {
        MoveFlag::PromoQ
    } else if c == 10 {
        MoveFlag::PromoNCap
    } else if c == 11 {
        MoveFlag::PromoBCap
    } else if c == 12 {
        MoveFlag::PromoRCap
    } else {
        MoveFlag::PromoQCap
    }
}

/// The 16-bit code of an optional move: 0 for none, otherwise one plus
/// from | to << 6 | flag code << 12.
pub open spec fn move_bits(mv: Option<Move>) -> u64 {
    match mv {
        Some(m) => (1 + ((m.from as u64) | ((m.to as u64) << 6u64) | (flag_code(m.flag) << 12u64))) as u64,
        None => 0,
    }
}

/// The flag field of a move code (4 bits above the squares).
pub open spec fn code_flag_bits(bits: u64) -> u64 {
    (((bits - 1) as u64) >> 12u64) & 15
}

/// The optional move a 16-bit code stands for.
pub open spec fn move_of_bits(bits: u64) -> Option<Move> {
    if bits == 0 {
        None
    } else {
        let b = (bits - 1) as u64;
        Some(Move { from: (b & 63) as u8, to: ((b >> 6u64) & 63) as u8, flag: flag_of_code((b >> 12u64) & 15) })
    }
}

pub fn pack_move(mv: Option<Move>) -> (bits: u64)
    ensures
        bits == move_bits(mv),
{
    match mv {
        Some(m) => {
            let c = code_of_flag(m.flag);
            let f = m.from as u64;
            let t = m.to as u64;
            assert((f | (t << 6u64) | (c << 12u64)) < 0x10000) by (bit_vector)
                requires
                    f < 256,
                    t < 256,
                    c < 14,
            ;
            1 + (f | (t << 6) | (c << 12))
        },
        None => 0,
    }
}

/// Decode a move code (a code whose flag field is not a valid flag would index
/// past the flag table, so it is excluded).
pub fn unpack_move(bits: u64) -> (mv: Option<Move>)
    requires
        bits == 0 || code_flag_bits(bits) < 14,
    ensures
        mv == move_of_bits(bits),
{
    if bits == 0 {
        return None;
    }
    let b = bits - 1;
    Some(Move { from: (b & 63) as u8, to: ((b >> 6) & 63) as u8, flag: flag_of((b >> 12) & 15) })
}

/// A move whose squares are on the board survives packing.
pub proof fn lemma_move_roundtrip(mv: Option<Move>)
    requires
        mv matches Some(m) ==> m.from < 64 && m.to < 64,
    ensures
        move_bits(mv) == 0 <==> mv is None,
        move_bits(mv) < 0x10000,
        move_bits(mv) == 0 || code_flag_bits(move_bits(mv)) < 14,
        move_of_bits(move_bits(mv)) == mv,
{
    if let Some(m) = mv {
        let f = m.from as u64;
        let t = m.to as u64;
        let c = flag_code(m.flag);
        let x = f | (t << 6u64) | (c << 12u64);
        assert(x & 63 == f && (x >> 6u64) & 63 == t && (x >> 12u64) & 15 == c && x < 0xFFFF) by (bit_vector)
            requires
                f < 64,
                t < 64,
                c < 14,
                x == f | (t << 6u64) | (c << 12u64),
        ;
        assert(((1 + x) as u64 - 1) as u64 == x);
        assert(flag_of_code(c) == m.flag);
    }
}

/// Depth clamped to the 6-bit field.
pub open spec fn clamp_depth(d: i32) -> i32 {
    if d < 0 {
        0
    } else if d > 63 {
        63
    } else {
        d
    }
}

pub open spec fn flag_bits(f: Flag) -> u64 {
    match f {
        Flag::Exact => 0,
        Flag::Lower => 1,
        Flag::Upper => 2,
    }
}

pub open spec fn flag_of_bits(b: u64) -> Flag {
    if b == 0 {
        Flag::Exact
    } else if b == 1 {
        Flag::Lower
    } else {
        Flag::Upper
    }
}

/// The packed word of an entry.
pub open spec fn entry_bits(e: TtEntry) -> u64 {
    ((e.score as u32) as u64) | (move_bits(e.mv) << 32u64) | ((clamp_depth(e.depth) as u64) << 48u64) | (flag_bits(e.flag)
        << 54u64) | (((e.generation & 63) as u64) << 56u64) | (((e.lane & 3) as u64) << 62u64)
}

/// The move field of a packed word holds no out-of-table flag code.
pub open spec fn entry_bits_valid(d: u64) -> bool {
    let mb = (d >> 32u64) & 0xFFFF;
    mb == 0 || code_flag_bits(mb) < 14
}

/// The entry a packed word stands for.
pub open spec fn entry_of_bits(d: u64) -> TtEntry {
    TtEntry {
        depth: ((d >> 48u64) & 63) as i32,
        score: (d as u32) as i32,
        flag: flag_of_bits((d >> 54u64) & 3),
        mv: move_of_bits((d >> 32u64) & 0xFFFF),
        generation: ((d >> 56u64) & 63) as u8,
        lane: ((d >> 62u64) & 3) as u8,
    }
}

/// An entry as it comes back from the table: depth clamped to 0..63,
/// generation taken mod 64, lane mod 4.
pub open spec fn stored(e: TtEntry) -> TtEntry {
    TtEntry {
        depth: clamp_depth(e.depth),
        score: e.score,
        flag: e.flag,
        mv: e.mv,
        generation: e.generation & 63,
        lane: e.lane & 3,
    }
}

pub fn pack(e: &TtEntry) -> (d: u64)
    ensures
        d == entry_bits(*e),
{
    let m = pack_move(e.mv);
    let depth = if e.depth < 0 {
        0
    } else if e.depth > 63 {
        63
    } else {
        e.depth
    };
    let f: u64 = match e.flag {
        Flag::Exact => 0,
        Flag::Lower => 1,
        Flag::Upper => 2,
    };
    ((e.score as u32) as u64) | (m << 32) | ((depth as u64) << 48) | (f << 54) | (((e.generation & 63) as u64) << 56) | (((
    e.lane & 3) as u64) << 62)
}

pub fn unpack(d: u64) -> (e: TtEntry)
    requires
        entry_bits_valid(d),
    ensures
        e == entry_of_bits(d),
{
    let fb = (d >> 54) & 3;
    TtEntry {
        score: (d as u32) as i32,
        mv: unpack_move((d >> 32) & 0xFFFF),
        depth: ((d >> 48) & 63) as i32,
        flag: if fb == 0 {
            Flag::Exact
        } else if fb == 1 {
            Flag::Lower
        } else {
            Flag::Upper
        },
        generation: ((d >> 56) & 63) as u8,
        lane: ((d >> 62) & 3) as u8,
    }
}

/// Packing then unpacking gives the entry back, up to the field widths.
pub proof fn lemma_entry_roundtrip(e: TtEntry)
    requires
        e.mv matches Some(m) ==> m.from < 64 && m.to < 64,
    ensures
        entry_bits_valid(entry_bits(e)),
        entry_of_bits(entry_bits(e)) == stored(e),
{
    lemma_move_roundtrip(e.mv);
    let s = (e.score as u32) as u64;
    let m = move_bits(e.mv);
    let dd = clamp_depth(e.depth) as u64;
    let fl = flag_bits(e.flag);
    let g = (e.generation & 63) as u64;
    let l = (e.lane & 3) as u64;
    let gg = e.generation;
    let ll = e.lane;
    assert(gg & 63 < 64 && ll & 3 < 4) by (bit_vector);
    let x = entry_bits(e);
    assert(x == s | (m << 32u64) | (dd << 48u64) | (fl << 54u64) | (g << 56u64) | (l << 62u64));
    assert((x as u32) as u64 == s && (x >> 32u64) & 0xFFFF == m && (x >> 48u64) & 63 == dd && (x >> 54u64) & 3 == fl
        && (x >> 56u64) & 63 == g && (x >> 62u64) & 3 == l) by (bit_vector)
        requires
            s < 0x1_0000_0000,
            m < 0x10000,
            dd < 64,
            fl < 4,
            g < 64,
            l < 4,
            x == s | (m << 32u64) | (dd << 48u64) | (fl << 54u64) | (g << 56u64) | (l << 62u64),
    ;
    let sc = e.score;
    assert(((sc as u32) as i32) == sc) by (bit_vector);
    assert((((x as u32) as u64) as u32) == (x as u32)) by (bit_vector);
    assert(((s as u32) as i32) == sc) by (bit_vector)
        requires
            s == (sc as u32) as u64,
    ;
    assert((((gg & 63) as u64) as u8) == gg & 63) by (bit_vector);
    assert((((ll & 3) as u64) as u8) == ll & 3) by (bit_vector);
}

/// What a probe answers for the words read from a slot: the entry when the
/// data word is set, the key word matches the hash, and the move field decodes
/// (every word the table writes does); a miss otherwise.
pub open spec fn slot_probe(hash: u64, key: u64, data: u64) -> Option<TtEntry> {
    if data != 0 && key ^ data == hash && entry_bits_valid(data) {
        Some(entry_of_bits(data))
    } else {
        None
    }
}

pub fn probe_slot(hash: u64, key: u64, data: u64) -> (r: Option<TtEntry>)
    ensures
        r == slot_probe(hash, key, data),
{
    if data != 0 && key ^ data == hash {
        let mb = (data >> 32) & 0xFFFF;
        if mb == 0 || ((mb - 1) >> 12) & 15 < 14 {
            return Some(unpack(data));
        }
    }
    None
}

/// A slot written by `store` for `hash` answers a probe for `hash` with the
/// stored entry (unless the packed word is zero, which reads as empty), and any
/// other hash misses.
pub proof fn lemma_probe_written(hash: u64, other: u64, e: TtEntry)
    requires
        e.mv matches Some(m) ==> m.from < 64 && m.to < 64,
    ensures
        slot_probe(hash, hash ^ entry_bits(e), entry_bits(e)) == (if entry_bits(e) != 0 {
            Some(stored(e))
        } else {
            None
        }),
        other != hash ==> slot_probe(other, hash ^ entry_bits(e), entry_bits(e)) is None,
{
    lemma_entry_roundtrip(e);
    let d = entry_bits(e);
    assert((hash ^ d) ^ d == hash) by (bit_vector);
}

/// The replacement policy: an empty slot is always taken; the same position
/// keeps the deeper entry; an entry of another position from an older
/// generation always loses; otherwise depth decides.
pub open spec fn slot_replace(hash: u64, cur_key: u64, cur_data: u64, depth: i32, generation: u8) -> bool {
    if cur_data == 0 {
        true
    } else {
        let same = cur_key ^ cur_data == hash;
        let cur_depth = ((cur_data >> 48u64) & 63) as i32;
        let cur_gen = ((cur_data >> 56u64) & 63) as u8;
        (same && depth >= cur_depth) || (!same && (cur_gen != generation || depth >= cur_depth))
    }
}

pub fn replace_slot(hash: u64, cur_key: u64, cur_data: u64, depth: i32, generation: u8) -> (r: bool)
    ensures
        r == slot_replace(hash, cur_key, cur_data, depth, generation),
{
    if cur_data == 0 {
        true
    } else {
        let same = cur_key ^ cur_data == hash;
        let cur_depth = ((cur_data >> 48) & 63) as i32;
        let cur_gen = ((cur_data >> 56) & 63) as u8;
        (same && depth >= cur_depth) || (!same && (cur_gen != generation || depth >= cur_depth))
    }
}

/// The generation that follows `prev` (mod 64).
pub fn next_generation(prev: u8) -> (g: u8)
    ensures
        g == (((prev + 1) % 256) as u8) & 63,
        g < 64,
{
    let n = prev.wrapping_add(1);
    assert(n & 63 < 64) by (bit_vector);
    n & 63
}

pub struct SharedTt {
    /// (hash ^ data, data) per slot.
    slots: Vec<[AtomicU64; 2]>,
    mask: u64,
    generation: AtomicU8,
}

impl SharedTt {
    /// One slot per index under the mask.
    pub closed spec fn wf(&self) -> bool {
        self.slots@.len() == self.mask + 1
    }

    /// The number of slots.
    pub closed spec fn size(&self) -> nat {
        self.slots@.len()
    }

    /// A table of `2^bits` empty slots.
    pub fn new(bits: u32) -> (t: SharedTt)
        requires
            bits < usize::BITS,
        ensures
            t.wf(),
            t.size() == vstd::arithmetic::power2::pow2(bits as nat),
    {
        let size: usize = 1usize << bits;
        proof {
            vstd::bits::lemma_usize_pow2_no_overflow(bits as nat);
            vstd::arithmetic::power2::lemma_pow2_pos(bits as nat);
            vstd::bits::lemma_usize_shl_is_mul(1, bits as usize);
        }
        let mut slots: Vec<[AtomicU64; 2]> = Vec::new();
        let mut i: usize = 0;
        while i < size
            invariant
                i <= size,
                slots@.len() == i,
            decreases size - i,
        {
            slots.push([AtomicU64::new(0), AtomicU64::new(0)]);
            i = i + 1;
        }
        SharedTt { slots, mask: (size as u64) - 1, generation: AtomicU8::new(0) }
    }

    /// Bump the search generation (main thread, once per search); the new
    /// generation is the one after the value the counter held.
    pub fn new_generation(&self) -> (g: u8)
        ensures
            g < 64,
    {
        let prev = self.generation.fetch_add(1, Ordering::Relaxed);
        next_generation(prev)
    }

    fn slot_index(&self, hash: u64) -> (i: usize)
        requires
            self.wf(),
        ensures
            i < self.slots@.len(),
            i == hash & self.mask,
    {
        let m = self.mask;
        let n = self.slots.len();
        assert(hash & m <= m) by (bit_vector);
        (hash & m) as usize
    }

    /// Look `hash` up: the answer is what `slot_probe` gives for some pair of
    /// words read from its slot.
    pub fn probe(&self, hash: u64) -> (r: Option<TtEntry>)
        requires
            self.wf(),
        ensures
            exists|key: u64, data: u64| r == slot_probe(hash, key, data),
    {
        let i = self.slot_index(hash);
        let s = &self.slots[i];
        let key = s[0].load(Ordering::Relaxed);
        let data = s[1].load(Ordering::Relaxed);
        probe_slot(hash, key, data)
    }

    /// Store an entry for `hash` when `slot_replace` allows it over the words
    /// read from its slot.
    #[allow(clippy::too_many_arguments)]
    pub fn store(&self, hash: u64, depth: i32, score: i32, flag: Flag, mv: Option<Move>, generation: u8, lane: u8)
        requires
            self.wf(),
    {
        let i = self.slot_index(hash);
        let s = &self.slots[i];
        let cur_key = s[0].load(Ordering::Relaxed);
        let cur_data = s[1].load(Ordering::Relaxed);
        if !replace_slot(hash, cur_key, cur_data, depth, generation) {
            return;
        }
        let data = pack(&TtEntry { depth, score, flag, mv, generation, lane });
        s[1].store(data, Ordering::Relaxed);
        s[0].store(hash ^ data, Ordering::Relaxed);
    }
}

} // verus!
