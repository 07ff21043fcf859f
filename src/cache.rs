use vstd::prelude::*;
use crate::pixel::{Pixel, clear_pixel, hash_of, color_hash};

verus! {

/// The 64 slots of a colour cache before anything is written.
pub open spec fn clear_slots() -> Seq<Pixel> {
    Seq::new(64, |_j: int| clear_pixel())
}

/// The cache contents after the pixels `writes` were remembered in order,
/// starting from a clear cache.
pub open spec fn slots_after(writes: Seq<Pixel>) -> Seq<Pixel>
    decreases writes.len(),
{
    if writes.len() == 0 {
        clear_slots()
    } else {
        let p = writes.last();
        slots_after(writes.drop_last()).update(hash_of(p), p)
    }
}

/// Direct-mapped table of 64 recently seen pixels.
pub struct ColorCache {
    pub slots: [Pixel; 64],
}

impl ColorCache {
    pub open spec fn view(&self) -> Seq<Pixel> {
        self.slots@
    }

    /// A cache whose every slot holds (0, 0, 0, 0).
    pub fn new() -> (c: ColorCache)
        ensures
            c.view() == clear_slots(),
    {
        let c = ColorCache { slots: [Pixel { r: 0, g: 0, b: 0, a: 0 }; 64] };
        assert(c.view() =~= clear_slots());
        c
    }

    /// The pixel in slot `idx`.
    pub fn get(&self, idx: usize) -> (p: Pixel)
        requires
            idx < 64,
        ensures
            p == self.view()[idx as int],
    {
        self.slots[idx]
    }

    /// Writes `p` into the slot it hashes to, overwriting what was there.
    pub fn remember(&mut self, p: Pixel)
        ensures
            final(self).view() == old(self).view().update(hash_of(p), p),
    {
        let slot = color_hash(p);
        self.slots[slot] = p;
    }
}

/// A cache slot that no remembered pixel hashed to still holds (0, 0, 0, 0).
pub proof fn lemma_unwritten_slot_is_clear(writes: Seq<Pixel>, k: int)
    requires
        0 <= k < 64,
        forall|j: int| 0 <= j < writes.len() ==> hash_of(#[trigger] writes[j]) != k,
    ensures
        slots_after(writes).len() == 64,
        slots_after(writes)[k] == clear_pixel(),
    decreases writes.len(),
{
    if writes.len() > 0 {
        let w = writes.drop_last();
        assert forall|j: int| 0 <= j < w.len() implies hash_of(#[trigger] w[j]) != k by {
            assert(w[j] == writes[j]);
        }
        lemma_unwritten_slot_is_clear(w, k);
        assert(hash_of(writes[writes.len() - 1]) != k);
    }
}

} // verus!
