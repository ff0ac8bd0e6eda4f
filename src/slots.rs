use vstd::prelude::*;

use crate::error::RenderGraphError;
use crate::resources::ResourceId;

verus! {

/// The resource bound to `slot` in a slot table; a later entry overrides an
/// earlier one with the same name.
pub open spec fn slot_lookup(m: Seq<(String, ResourceId)>, slot: Seq<char>) -> Option<ResourceId>
    decreases m.len(),
{
    if m.len() == 0 {
        None
    } else if m.last().0@ == slot {
        Some(m.last().1)
    } else {
        slot_lookup(m.drop_last(), slot)
    }
}

/// Every slot of `slots` has an entry in `m`.
pub open spec fn all_mapped(m: Seq<(String, ResourceId)>, slots: Seq<String>) -> bool {
    forall|i: int| 0 <= i < slots.len() ==> (#[trigger] slot_lookup(m, slots[i]@)) is Some
}

/// The resources that `m` binds to `slots`, in order.
pub open spec fn resolved(m: Seq<(String, ResourceId)>, slots: Seq<String>) -> Seq<ResourceId> {
    Seq::new(slots.len(), |i: int| slot_lookup(m, slots[i]@).unwrap())
}

pub proof fn lemma_slot_lookup_in_table(m: Seq<(String, ResourceId)>, slot: Seq<char>)
    ensures
        slot_lookup(m, slot) matches Some(r) ==> exists|i: int| 0 <= i < m.len() && (#[trigger] m[i]).1 == r,
    decreases m.len(),
{
    if m.len() > 0 && m.last().0@ != slot {
        lemma_slot_lookup_in_table(m.drop_last(), slot);
        if slot_lookup(m, slot) is Some {
            let i = choose|i: int| 0 <= i < m.drop_last().len() && (#[trigger] m.drop_last()[i]).1 == slot_lookup(m, slot).unwrap();
            assert(m[i] == m.drop_last()[i]);
        }
    } else if m.len() > 0 {
        assert(m[m.len() - 1] == m.last());
    }
}

/// Looks `slot` up in the table `m`.
pub fn find_slot(m: &Vec<(String, ResourceId)>, slot: &String) -> (r: Option<ResourceId>)
    ensures
        r == slot_lookup(m@, slot@),
{
    let mut i: usize = m.len();
    proof {
        assert(m@.take(m@.len() as int) =~= m@);
    }
    while i > 0
        invariant
            i <= m@.len(),
            slot_lookup(m@, slot@) == slot_lookup(m@.take(i as int), slot@),
        decreases i,
    {
        proof {
            let t = m@.take(i as int);
            assert(t.last() == m@[i - 1]);
            assert(t.drop_last() =~= m@.take(i - 1));
        }
        if m[i - 1].0 == *slot {
            return Some(m[i - 1].1);
        }
        i = i - 1;
    }
    None
}

/// Resolves each slot through `m`; the first slot without an entry fails
/// with `SlotNotMapped`.
pub fn resolve_slots(m: &Vec<(String, ResourceId)>, slots: &Vec<String>, pass: &String) -> (r: Result<
    Vec<ResourceId>,
    RenderGraphError,
>)
    ensures
        r is Ok <==> all_mapped(m@, slots@),
        r matches Ok(v) ==> v@ == resolved(m@, slots@),
        r matches Err(e) ==> e matches RenderGraphError::SlotNotMapped { slot, pass: p } && p@ == pass@
            && exists|i: int| 0 <= i < slots@.len() && slots@[i]@ == slot@ && slot_lookup(m@, slot@) is None,
{
    let mut out: Vec<ResourceId> = Vec::new();
    let mut i: usize = 0;
    while i < slots.len()
        invariant
            i <= slots@.len(),
            out@ == resolved(m@, slots@.take(i as int)),
            all_mapped(m@, slots@.take(i as int)),
        decreases slots@.len() - i,
    {
        match find_slot(m, &slots[i]) {
            Some(id) => {
                out.push(id);
                proof {
                    assert(slots@.take(i + 1) =~= slots@.take(i as int).push(slots@[i as int]));
                    assert(out@ =~= resolved(m@, slots@.take(i + 1)));
                }
            },
            None => {
                proof {
                    assert(slots@.take(i as int + 1)[i as int] == slots@[i as int]);
                }
                return Err(RenderGraphError::SlotNotMapped { pass: pass.clone(), slot: slots[i].clone() });
            },
        }
        i = i + 1;
    }
    proof {
        assert(slots@.take(slots@.len() as int) =~= slots@);
    }
    Ok(out)
}

} // verus!
