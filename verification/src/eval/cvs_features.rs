//! CVS feature registry: the identities of the geometry feature families (king
//! danger, hanging material, rook files, passed pawns, ...), their bucketed
//! feature IDs, readable names, and the registry hash that trained models embed.
//!
//! Feature IDs are a pure function of the family order and the bucket count:
//! family index * 8 + side * 4 + bucket (bucket 1..=3, 0 = inactive; side 0 =
//! favors White, 1 = favors Black). Changing either is a new registry version.
//! Family thresholds are floating-point magnitudes; the registry keeps their
//! IEEE-754 bit patterns, which is also what the hash reads.
use vstd::prelude::*;
use vstd::string::StringSliceAdditionalSpecFns;
use crate::text::{push_decimal, decimal};
use crate::Color;

verus! {

/// Registry version: bumped on any change to the families or the bucketing.
pub const CVS_REGISTRY_VERSION: u32 = 1;
/// Magnitude buckets per side (1..=3; 0 = inactive).
pub const BUCKETS_PER_SIDE: u32 = 3;
/// ID stride per family: two sides times (buckets + 1).
pub const FAMILY_STRIDE: u32 = 8;
/// Number of families in the full registry and in the core registry.
pub const CVS_FAMILIES: usize = 21;
pub const CVS_CORE_FAMILIES: usize = 13;
/// Total feature-ID space of each registry.
pub const CVS_INPUT_DIM: usize = 168;
pub const CVS_CORE_INPUT_DIM: usize = 104;

/// IEEE-754 bit patterns of the threshold magnitudes used by the registry.
pub const F_HALF: u64 = 0x3fe0000000000000;
pub const F_ONE: u64 = 0x3ff0000000000000;
pub const F_ONE_HALF: u64 = 0x3ff8000000000000;
pub const F_TWO: u64 = 0x4000000000000000;
pub const F_THREE: u64 = 0x4008000000000000;
pub const F_FOUR: u64 = 0x4010000000000000;
pub const F_FIVE: u64 = 0x4014000000000000;
pub const F_SIX: u64 = 0x4018000000000000;
pub const F_EIGHT: u64 = 0x4020000000000000;
pub const F_NINE: u64 = 0x4022000000000000;
pub const F_ELEVEN: u64 = 0x4026000000000000;
pub const F_TWELVE: u64 = 0x4028000000000000;
pub const F_SIXTEEN: u64 = 0x4030000000000000;
pub const F_TWENTY: u64 = 0x4034000000000000;

/// The key of family `i` of the full registry (order is the contract).
pub open spec fn family_key_spec(i: int) -> &'static str {
    if i == 0 {
        "KING_DANGER"
    } else if i == 1 {
        "KING_ZONE_PRESSURE"
    } else if i == 2 {
        "KING_OPEN_FILE"
    } else if i == 3 {
        "KING_SHIELD"
    } else if i == 4 {
        "KING_CENTRAL_EXPOSURE"
    } else if i == 5 {
        "ENEMY_QUEEN_NEAR_KING"
    } else if i == 6 {
        "OPEN_CENTER_KING"
    } else if i == 7 {
        "KING_ESCAPE_DEFICIT"
    } else if i == 8 {
        "HANGING_MATERIAL"
    } else if i == 9 {
        "MOBILITY_KNIGHT"
    } else if i == 10 {
        "MOBILITY_BISHOP"
    } else if i == 11 {
        "MOBILITY_ROOK"
    } else if i == 12 {
        "MOBILITY_QUEEN"
    } else if i == 13 {
        "PASSED_PAWN"
    } else if i == 14 {
        "CONNECTED_PASSED_PAWN"
    } else if i == 15 {
        "ROOK_OPEN_FILE"
    } else if i == 16 {
        "ROOK_SEMI_OPEN_FILE"
    } else if i == 17 {
        "ROOK_SEVENTH"
    } else if i == 18 {
        "DOUBLED_PAWN"
    } else if i == 19 {
        "ISOLATED_PAWN"
    } else {
        "BISHOP_PAIR"
    }
}

/// The threshold bit patterns of family `i` of the full registry (buckets 1, 2, 3).
pub open spec fn family_thresholds_spec(i: int) -> [u64; 3] {
    if i == 0 {
        [F_TWO, F_EIGHT, F_TWENTY]
    } else if i == 1 || i == 8 {
        [F_ONE, F_THREE, F_SIX]
    } else if i == 4 {
        [F_ONE, F_TWO, F_FOUR]
    } else if i == 9 {
        [F_TWO, F_FIVE, F_NINE]
    } else if i == 10 {
        [F_TWO, F_SIX, F_ELEVEN]
    } else if i == 11 {
        [F_TWO, F_SIX, F_TWELVE]
    } else if i == 12 {
        [F_THREE, F_NINE, F_SIXTEEN]
    } else if i == 20 {
        [F_HALF, F_ONE, F_ONE_HALF]
    } else {
        [F_ONE, F_TWO, F_THREE]
    }
}

/// The full-registry index of core family `i`.
pub open spec fn core_index_spec(i: int) -> int {
    if i <= 4 {
        i + 2
    } else {
        i + 8
    }
}

pub fn family_key(i: usize) -> (k: &'static str)
    requires
        i < CVS_FAMILIES,
    ensures
        k == family_key_spec(i as int),
{
    if i == 0 {
        "KING_DANGER"
    } else if i == 1 {
        "KING_ZONE_PRESSURE"
    } else if i == 2 {
        "KING_OPEN_FILE"
    } else if i == 3 {
        "KING_SHIELD"
    } else if i == 4 {
        "KING_CENTRAL_EXPOSURE"
    } else if i == 5 {
        "ENEMY_QUEEN_NEAR_KING"
    } else if i == 6 {
        "OPEN_CENTER_KING"
    } else if i == 7 {
        "KING_ESCAPE_DEFICIT"
    } else if i == 8 {
        "HANGING_MATERIAL"
    } else if i == 9 {
        "MOBILITY_KNIGHT"
    } else if i == 10 {
        "MOBILITY_BISHOP"
    } else if i == 11 {
        "MOBILITY_ROOK"
    } else if i == 12 {
        "MOBILITY_QUEEN"
    } else if i == 13 {
        "PASSED_PAWN"
    } else if i == 14 {
        "CONNECTED_PASSED_PAWN"
    } else if i == 15 {
        "ROOK_OPEN_FILE"
    } else if i == 16 {
        "ROOK_SEMI_OPEN_FILE"
    } else if i == 17 {
        "ROOK_SEVENTH"
    } else if i == 18 {
        "DOUBLED_PAWN"
    } else if i == 19 {
        "ISOLATED_PAWN"
    } else {
        "BISHOP_PAIR"
    }
}

/// Threshold bit patterns of family `i`: of the core registry when `core`,
/// otherwise of the full registry.
pub fn family_threshold_bits(core: bool, i: usize) -> (t: [u64; 3])
    requires
        i < (if core { CVS_CORE_FAMILIES } else { CVS_FAMILIES }),
    ensures
        t == family_thresholds_spec(if core { core_index_spec(i as int) } else { i as int }),
{
    let j = if core {
        if i <= 4 { i + 2 } else { i + 8 }
    } else {
        i
    };
    if j == 0 {
        [F_TWO, F_EIGHT, F_TWENTY]
    } else if j == 1 || j == 8 {
        [F_ONE, F_THREE, F_SIX]
    } else if j == 4 {
        [F_ONE, F_TWO, F_FOUR]
    } else if j == 9 {
        [F_TWO, F_FIVE, F_NINE]
    } else if j == 10 {
        [F_TWO, F_SIX, F_ELEVEN]
    } else if j == 11 {
        [F_TWO, F_SIX, F_TWELVE]
    } else if j == 12 {
        [F_THREE, F_NINE, F_SIXTEEN]
    } else if j == 20 {
        [F_HALF, F_ONE, F_ONE_HALF]
    } else {
        [F_ONE, F_TWO, F_THREE]
    }
}

/// The feature ID of family `family` in bucket `bucket` (1..=3), favoring
/// White (side 0) or Black (side 1).
pub open spec fn feature_id_spec(family: int, black: bool, bucket: int) -> int {
    family * FAMILY_STRIDE + (if black { 1int } else { 0int }) * (BUCKETS_PER_SIDE + 1) + bucket
}

pub fn feature_id(family: u32, black: bool, bucket: u32) -> (id: u32)
    requires
        family < 1000,
        1 <= bucket <= BUCKETS_PER_SIDE,
    ensures
        id == feature_id_spec(family as int, black, bucket as int),
{
    family * FAMILY_STRIDE + (if black { 1 } else { 0 }) * (BUCKETS_PER_SIDE + 1) + bucket
}

/// The readable name of a feature ID: side, family key and bucket, or
/// `UNKNOWN_<id>` outside the registry.
pub open spec fn feature_name_spec(id: u32) -> Seq<char> {
    let fam = id / FAMILY_STRIDE;
    let within = id % FAMILY_STRIDE;
    let side = within / 4;
    let bucket = within % 4;
    if fam < CVS_FAMILIES {
        (if side == 0 { "WHITE"@ } else { "BLACK"@ }) + "_"@ + family_key_spec(fam as int)@ + "_BUCKET_"@ + decimal(bucket as nat)
    } else {
        "UNKNOWN_"@ + decimal(id as nat)
    }
}

/// Readable name of a feature ID (debug and explanation alignment only).
pub fn feature_name(id: u32) -> (s: String)
    ensures
        s@ == feature_name_spec(id),
{
    let fam = id / FAMILY_STRIDE;
    let within = id % FAMILY_STRIDE;
    let side = within / (BUCKETS_PER_SIDE + 1);
    let bucket = within % (BUCKETS_PER_SIDE + 1);
    if (fam as usize) < CVS_FAMILIES {
        let mut s = String::from_str(if side == 0 { "WHITE" } else { "BLACK" });
        s.append("_");
        s.append(family_key(fam as usize));
        s.append("_BUCKET_");
        push_decimal(&mut s, bucket);
        s
    } else {
        let mut s = String::from_str("UNKNOWN_");
        push_decimal(&mut s, id);
        s
    }
}

/// Naming an encoded feature names its family, side and bucket.
pub proof fn lemma_feature_name_roundtrip(family: int, black: bool, bucket: int)
    requires
        0 <= family < CVS_FAMILIES,
        1 <= bucket <= BUCKETS_PER_SIDE,
    ensures
        feature_name_spec(feature_id_spec(family, black, bucket) as u32) == (if black { "BLACK"@ } else { "WHITE"@ }) + "_"@
            + family_key_spec(family)@ + "_BUCKET_"@ + decimal(bucket as nat),
{
    let id = feature_id_spec(family, black, bucket);
    assert(id as u32 == id);
    assert((id as u32) / FAMILY_STRIDE == family);
    assert((id as u32) % FAMILY_STRIDE == (if black { 4int } else { 0int }) + bucket);
}

/// Active CVS features of a position: sparse IDs (for the net) and readable
/// names (for debugging and explanation).
pub struct CvsActiveFeatures {
    pub ids: Vec<u32>,
    pub names: Vec<String>,
}

/// The names of `ids`, in order.
pub fn features_named(ids: Vec<u32>) -> (f: CvsActiveFeatures)
    ensures
        f.ids@ == ids@,
        f.names@.len() == ids@.len(),
        forall|i: int| 0 <= i < ids@.len() ==> #[trigger] f.names@[i]@ == feature_name_spec(ids@[i]),
{
    let mut names: Vec<String> = Vec::new();
    let n = ids.len();
    let mut i: usize = 0;
    while i < n
        invariant
            n == ids@.len(),
            i <= n,
            names@.len() == i,
            forall|k: int| 0 <= k < i ==> #[trigger] names@[k]@ == feature_name_spec(ids@[k]),
        decreases n - i,
    {
        names.push(feature_name(ids[i]));
        i = i + 1;
    }
    CvsActiveFeatures { ids, names }
}

/// Parent feature set and mover of a root geometry comparison.
#[derive(Clone, Debug)]
pub struct RootGeometryContext {
    pub parent_bitset: [u64; 3],
    pub mover: Color,
}

/// The set of IDs below 192 as three 64-bit words.
pub fn ids_to_bitset(ids: &[u32]) -> (b: [u64; 3])
    ensures
        forall|t: u32| t < 192 ==> #[trigger] crate::bits::bit(b[(t / 64) as int], (t % 64) as u64) == ids@.contains(t),
{
    let mut bitset: [u64; 3] = [0; 3];
    let n = ids.len();
    let mut i: usize = 0;
    proof {
        assert forall|t: u32| t < 192 implies #[trigger] crate::bits::bit(bitset[(t / 64) as int], (t % 64) as u64)
            == ids@.take(0).contains(t) by {
            crate::bits::lemma_bit_zero((t % 64) as u64);
        }
    }
    while i < n
        invariant
            n == ids@.len(),
            i <= n,
            forall|t: u32| t < 192 ==> #[trigger] crate::bits::bit(bitset[(t / 64) as int], (t % 64) as u64)
                == ids@.take(i as int).contains(t),
        decreases n - i,
    {
        let id = ids[i];
        let word = (id / 64) as usize;
        let b = (id % 64) as u64;
        let ghost before = bitset;
        if word < 3 {
            bitset[word] = bitset[word] | (1u64 << b);
        }
        proof {
            assert(ids@.take(i + 1) =~= ids@.take(i as int).push(id));
            assert forall|t: u32| t < 192 implies #[trigger] crate::bits::bit(bitset[(t / 64) as int], (t % 64) as u64)
                == ids@.take(i + 1).contains(t) by {
                let tw = (t / 64) as int;
                let tb = (t % 64) as u64;
                if word < 3 && tw == word {
                    crate::bits::lemma_bit_set(before[tw], b, tb);
                    assert(bitset[tw] == before[tw] | (1u64 << b));
                    if tb == b {
                        assert(t == id);
                    }
                } else {
                    assert(bitset[tw] == before[tw]);
                    assert(t != id);
                }
                if ids@.take(i + 1).contains(t) && t != id {
                    let k = choose|k: int| 0 <= k < i + 1 && #[trigger] ids@.take(i + 1)[k] == t;
                    assert(ids@.take(i as int)[k] == t);
                }
                if ids@.take(i as int).contains(t) {
                    let k = choose|k: int| 0 <= k < i && #[trigger] ids@.take(i as int)[k] == t;
                    assert(ids@.take(i + 1)[k] == t);
                }
                if t == id {
                    assert(ids@.take(i + 1)[i as int] == t);
                }
            }
        }
        i = i + 1;
    }
    assert(ids@.take(n as int) =~= ids@);
    bitset
}

pub const FNV_OFFSET: u64 = 0xcbf29ce484222325;
pub const FNV_PRIME: u64 = 0x100000001b3;

/// FNV-1a of `bytes`, continuing from state `h`.
pub open spec fn fnv(h: u64, bytes: Seq<u8>) -> u64
    decreases bytes.len(),
{
    if bytes.len() == 0 {
        h
    } else {
        vstd::wrapping::u64_specs::wrapping_mul(fnv(h, bytes.drop_last()) ^ (bytes.last() as u64), FNV_PRIME)
    }
}

/// Hashing two byte strings one after the other hashes their concatenation.
pub proof fn lemma_fnv_concat(h: u64, a: Seq<u8>, b: Seq<u8>)
    ensures
        fnv(h, a + b) == fnv(fnv(h, a), b),
    decreases b.len(),
{
    if b.len() == 0 {
        assert(a + b =~= a);
    } else {
        lemma_fnv_concat(h, a, b.drop_last());
        assert((a + b).drop_last() =~= a + b.drop_last());
        assert((a + b).last() == b.last());
    }
}

/// Little-endian bytes of a 32-bit and of a 64-bit word.
pub open spec fn le32(v: u32) -> Seq<u8> {
    seq![(v & 0xff) as u8, ((v >> 8u32) & 0xff) as u8, ((v >> 16u32) & 0xff) as u8, ((v >> 24u32) & 0xff) as u8]
}

pub open spec fn le64(v: u64) -> Seq<u8> {
    seq![(v & 0xff) as u8, ((v >> 8u64) & 0xff) as u8, ((v >> 16u64) & 0xff) as u8, ((v >> 24u64) & 0xff) as u8,
        ((v >> 32u64) & 0xff) as u8, ((v >> 40u64) & 0xff) as u8, ((v >> 48u64) & 0xff) as u8, ((v >> 56u64) & 0xff) as u8]
}

/// The bytes a family contributes to the registry hash: its key, then its
/// three thresholds.
pub open spec fn family_bytes(i: int) -> Seq<u8> {
    let t = family_thresholds_spec(i);
    family_key_spec(i).spec_bytes() + le64(t[0]) + le64(t[1]) + le64(t[2])
}

/// The registry definition as bytes: version, bucket count, then the first
/// `k` families (of the core registry when `core`).
pub open spec fn registry_bytes(k: int, core: bool) -> Seq<u8>
    decreases k,
{
    if k <= 0 {
        le32(CVS_REGISTRY_VERSION) + le32(BUCKETS_PER_SIDE)
    } else {
        registry_bytes(k - 1, core) + family_bytes(if core { core_index_spec(k - 1) } else { k - 1 })
    }
}

fn mix_bytes(h: u64, bytes: &[u8]) -> (r: u64)
    ensures
        r == fnv(h, bytes@),
{
    let mut x = h;
    let n = bytes.len();
    let mut i: usize = 0;
    while i < n
        invariant
            n == bytes@.len(),
            i <= n,
            x == fnv(h, bytes@.take(i as int)),
        decreases n - i,
    {
        assert(bytes@.take(i + 1).drop_last() =~= bytes@.take(i as int));
        x = (x ^ bytes[i] as u64).wrapping_mul(FNV_PRIME);
        i = i + 1;
    }
    assert(bytes@.take(n as int) =~= bytes@);
    x
}

fn mix_le32(h: u64, v: u32) -> (r: u64)
    ensures
        r == fnv(h, le32(v)),
{
    let b = [(v & 0xff) as u8, ((v >> 8) & 0xff) as u8, ((v >> 16) & 0xff) as u8, ((v >> 24) & 0xff) as u8];
    assert(b@ =~= le32(v));
    mix_bytes(h, &b)
}

fn mix_le64(h: u64, v: u64) -> (r: u64)
    ensures
        r == fnv(h, le64(v)),
{
    let b = [(v & 0xff) as u8, ((v >> 8) & 0xff) as u8, ((v >> 16) & 0xff) as u8, ((v >> 24) & 0xff) as u8,
        ((v >> 32) & 0xff) as u8, ((v >> 40) & 0xff) as u8, ((v >> 48) & 0xff) as u8, ((v >> 56) & 0xff) as u8];
    assert(b@ =~= le64(v));
    mix_bytes(h, &b)
}

/// Hash the definition of the first `count` families of a registry.
fn hash_registry(core: bool, count: usize) -> (h: u64)
    requires
        count == (if core { CVS_CORE_FAMILIES } else { CVS_FAMILIES }),
    ensures
        h == fnv(FNV_OFFSET, registry_bytes(count as int, core)),
{
    let mut h = mix_le32(FNV_OFFSET, CVS_REGISTRY_VERSION);
    h = mix_le32(h, BUCKETS_PER_SIDE);
    proof {
        lemma_fnv_concat(FNV_OFFSET, le32(CVS_REGISTRY_VERSION), le32(BUCKETS_PER_SIDE));
    }
    let mut i: usize = 0;
    while i < count
        invariant
            i <= count,
            count == (if core { CVS_CORE_FAMILIES } else { CVS_FAMILIES }),
            h == fnv(FNV_OFFSET, registry_bytes(i as int, core)),
        decreases count - i,
    {
        let j = if core {
            if i <= 4 { i + 2 } else { i + 8 }
        } else {
            i
        };
        let key = family_key(j);
        let t = family_threshold_bits(core, i);
        let ghost base = registry_bytes(i as int, core);
        let ghost kb = key.spec_bytes();
        let h1 = mix_bytes(h, key.as_bytes());
        let h2 = mix_le64(h1, t[0]);
        let h3 = mix_le64(h2, t[1]);
        let h4 = mix_le64(h3, t[2]);
        proof {
            lemma_fnv_concat(FNV_OFFSET, base, kb);
            lemma_fnv_concat(FNV_OFFSET, base + kb, le64(t[0]));
            lemma_fnv_concat(FNV_OFFSET, base + kb + le64(t[0]), le64(t[1]));
            lemma_fnv_concat(FNV_OFFSET, base + kb + le64(t[0]) + le64(t[1]), le64(t[2]));
            assert(registry_bytes(i + 1, core) =~= base + kb + le64(t[0]) + le64(t[1]) + le64(t[2]));
        }
        h = h4;
        i = i + 1;
    }
    h
}

/// Deterministic hash of the full registry definition (version, bucket count,
/// family keys and thresholds): FNV-1a over its bytes. Trained models embed it
/// and a mismatch is rejected.
pub fn registry_hash() -> (h: u64)
    ensures
        h == fnv(FNV_OFFSET, registry_bytes(CVS_FAMILIES as int, false)),
{
    hash_registry(false, CVS_FAMILIES)
}

/// Deterministic hash of the core registry definition.
pub fn core_registry_hash() -> (h: u64)
    ensures
        h == fnv(FNV_OFFSET, registry_bytes(CVS_CORE_FAMILIES as int, true)),
{
    hash_registry(true, CVS_CORE_FAMILIES)
}

} // verus!
