//! Hazards from one position to the next: which appear, which disappear and
//! which grow.
use vstd::prelude::*;
use crate::facts::types::{FactCollection, Side};

verus! {

/// A hazard on the board, identified by its id.
#[derive(Clone, Debug)]
pub struct HazardFact {
    pub id: String,
    pub kind: String,
    pub side: Side,
    pub squares: Vec<String>,
    pub magnitude_cp: Option<i32>,
    pub move_uci: Option<String>,
}

/// The texts of `v`.
pub open spec fn texts(v: Seq<String>) -> Seq<Seq<char>> {
    v.map_values(|s: String| s@)
}

pub open spec fn opt_text(o: Option<String>) -> Option<Seq<char>> {
    match o {
        Some(s) => Some(s@),
        None => None,
    }
}

/// `a` and `b` hold the same hazard.
pub open spec fn same_hazard(a: HazardFact, b: HazardFact) -> bool {
    &&& a.id@ == b.id@
    &&& a.kind@ == b.kind@
    &&& a.side == b.side
    &&& texts(a.squares@) == texts(b.squares@)
    &&& a.magnitude_cp == b.magnitude_cp
    &&& opt_text(a.move_uci) == opt_text(b.move_uci)
}

/// `out` holds the hazards of `want`, one for one.
pub open spec fn same_hazards(out: Seq<HazardFact>, want: Seq<HazardFact>) -> bool {
    &&& out.len() == want.len()
    &&& forall|i: int| 0 <= i < out.len() ==> #[trigger] same_hazard(out[i], want[i])
}

/// Some hazard of `facts` has the id `id`.
pub open spec fn has_id(facts: Seq<HazardFact>, id: Seq<char>) -> bool {
    exists|i: int| 0 <= i < facts.len() && (#[trigger] facts[i]).id@ == id
}

/// The magnitude (zero when absent) of the last hazard of `facts` with the id `id`.
pub open spec fn last_magnitude(facts: Seq<HazardFact>, id: Seq<char>) -> int
    decreases facts.len(),
{
    if facts.len() == 0 {
        0
    } else if facts.last().id@ == id {
        match facts.last().magnitude_cp {
            Some(m) => m as int,
            None => 0,
        }
    } else {
        last_magnitude(facts.drop_last(), id)
    }
}

pub open spec fn magnitude(f: HazardFact) -> int {
    match f.magnitude_cp {
        Some(m) => m as int,
        None => 0,
    }
}

/// The hazards of `after` whose id does not occur in `before`, in order.
pub open spec fn created(before: Seq<HazardFact>, after: Seq<HazardFact>) -> Seq<HazardFact> {
    after.filter(is_new(before))
}

pub open spec fn is_new(before: Seq<HazardFact>) -> spec_fn(HazardFact) -> bool {
    |f: HazardFact| !has_id(before, f.id@)
}

pub open spec fn grew(before: Seq<HazardFact>) -> spec_fn(HazardFact) -> bool {
    |f: HazardFact| has_id(before, f.id@) && magnitude(f) > last_magnitude(before, f.id@)
}

/// The hazards of `after` whose id occurs in `before` with a smaller magnitude
/// (that of its last occurrence there), in order.
pub open spec fn worsened(before: Seq<HazardFact>, after: Seq<HazardFact>) -> Seq<HazardFact> {
    after.filter(grew(before))
}

pub open spec fn deltas_ok(
    before: FactCollection<HazardFact>,
    after: FactCollection<HazardFact>,
    r: (FactCollection<HazardFact>, FactCollection<HazardFact>, FactCollection<HazardFact>),
) -> bool {
    match (before, after) {
        (FactCollection::Computed { items: b }, FactCollection::Computed { items: a }) => match r {
            (FactCollection::Computed { items: c }, FactCollection::Computed { items: d }, FactCollection::Computed {
                items: w,
            }) => same_hazards(c@, created(b@, a@)) && same_hazards(d@, created(a@, b@)) && same_hazards(w@, worsened(b@, a@)),
            _ => false,
        },
        _ => {
            &&& r.0 matches FactCollection::Unavailable { reason } && reason@ == "hazards_unavailable_for_delta"@
            &&& r.1 matches FactCollection::Unavailable { reason } && reason@ == "hazards_unavailable_for_delta"@
            &&& r.2 matches FactCollection::Unavailable { reason } && reason@ == "hazards_unavailable_for_delta"@
        },
    }
}

} // verus!

verus! {

fn copy_texts(v: &Vec<String>) -> (out: Vec<String>)
    ensures
        texts(out@) == texts(v@),
{
    let mut out: Vec<String> = Vec::new();
    let mut i: usize = 0;
    while i < v.len()
        invariant
            i <= v@.len(),
            out@.len() == i,
            forall|j: int| 0 <= j < i ==> #[trigger] out@[j]@ == v@[j]@,
        decreases v@.len() - i,
    {
        out.push(v[i].clone());
        i = i + 1;
    }
    assert(texts(out@) =~= texts(v@));
    out
}

fn copy_hazard(f: &HazardFact) -> (c: HazardFact)
    ensures
        same_hazard(c, *f),
{
    let move_uci = match &f.move_uci {
        Some(m) => Some(m.clone()),
        None => None,
    };
    HazardFact {
        id: f.id.clone(),
        kind: f.kind.clone(),
        side: f.side,
        squares: copy_texts(&f.squares),
        magnitude_cp: f.magnitude_cp,
        move_uci,
    }
}

fn id_present(facts: &Vec<HazardFact>, id: &String) -> (b: bool)
    ensures
        b == has_id(facts@, id@),
{
    let mut i: usize = 0;
    while i < facts.len()
        invariant
            i <= facts@.len(),
            forall|j: int| 0 <= j < i ==> (#[trigger] facts@[j]).id@ != id@,
        decreases facts@.len() - i,
    {
        if facts[i].id == *id {
            return true;
        }
        i = i + 1;
    }
    false
}

fn magnitude_of(f: &HazardFact) -> (m: i32)
    ensures
        m == magnitude(*f),
{
    match f.magnitude_cp {
        Some(m) => m,
        None => 0,
    }
}

fn last_magnitude_of(facts: &Vec<HazardFact>, id: &String) -> (m: i32)
    ensures
        m == last_magnitude(facts@, id@),
{
    let mut m: i32 = 0;
    let mut i: usize = 0;
    assert(facts@.take(0) =~= Seq::<HazardFact>::empty());
    while i < facts.len()
        invariant
            i <= facts@.len(),
            m == last_magnitude(facts@.take(i as int), id@),
        decreases facts@.len() - i,
    {
        assert(facts@.take(i as int + 1).drop_last() =~= facts@.take(i as int));
        if facts[i].id == *id {
            m = magnitude_of(&facts[i]);
        }
        i = i + 1;
    }
    assert(facts@.take(facts@.len() as int) =~= facts@);
    m
}

/// The hazards of `after` that `keep` selects (new ids when `new_only`,
/// else grown ones), copied in order.
fn select(before: &Vec<HazardFact>, after: &Vec<HazardFact>, new_only: bool) -> (out: Vec<HazardFact>)
    ensures
        new_only ==> same_hazards(out@, after@.filter(is_new(before@))),
        !new_only ==> same_hazards(out@, after@.filter(grew(before@))),
{
    let ghost keep = if new_only { is_new(before@) } else { grew(before@) };
    let mut out: Vec<HazardFact> = Vec::new();
    let mut i: usize = 0;
    assert(after@.take(0).filter(keep) =~= Seq::<HazardFact>::empty());
    while i < after.len()
        invariant
            i <= after@.len(),
            keep == (if new_only { is_new(before@) } else { grew(before@) }),
            same_hazards(out@, after@.take(i as int).filter(keep)),
        decreases after@.len() - i,
    {
        let f = &after[i];
        let present = id_present(before, &f.id);
        let wanted = if new_only {
            !present
        } else {
            present && magnitude_of(f) > last_magnitude_of(before, &f.id)
        };
        assert(wanted == keep(after@[i as int]));
        let ghost prev = after@.take(i as int).filter(keep);
        assert(after@.take(i as int + 1) =~= after@.take(i as int).push(after@[i as int]));
        proof {
            after@.take(i as int).lemma_filter_push(after@[i as int], keep);
        }
        let ghost before_out = out@;
        if wanted {
            out.push(copy_hazard(f));
            assert forall|j: int| 0 <= j < out@.len() implies #[trigger] same_hazard(out@[j], after@.take(i as int + 1).filter(keep)[j]) by {
                if j < before_out.len() {
                    assert(out@[j] == before_out[j]);
                }
            }
        }
        i = i + 1;
    }
    assert(after@.take(after@.len() as int) =~= after@);
    out
}

/// The hazards that appear (ids new in `after`), disappear (ids gone from
/// `before`) and grow (a larger magnitude than that of the id's last entry in
/// `before`, absent counting as zero), each in the order of its list; all
/// three unavailable unless both lists were computed.
pub fn hazard_deltas(
    before: &FactCollection<HazardFact>,
    after: &FactCollection<HazardFact>,
) -> (r: (FactCollection<HazardFact>, FactCollection<HazardFact>, FactCollection<HazardFact>))
    ensures
        deltas_ok(*before, *after, r),
{
    match (before, after) {
        (FactCollection::Computed { items: b }, FactCollection::Computed { items: a }) => {
            let created = select(b, a, true);
            let removed = select(a, b, true);
            let worsened = select(b, a, false);
            (FactCollection::computed(created), FactCollection::computed(removed), FactCollection::computed(worsened))
        },
        _ => {
            let reason = "hazards_unavailable_for_delta";
            (FactCollection::unavailable(reason), FactCollection::unavailable(reason), FactCollection::unavailable(reason))
        },
    }
}

} // verus!
