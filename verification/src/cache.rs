//! The rasterized pages that are kept.

use crate::app::RenderKey;
use crate::pdf::renderer::Bitmap;
use vstd::prelude::*;

verus! {

/// Some entry of `entries` pairs `key` with `bitmap`.
spec fn holds(entries: Seq<(RenderKey, Bitmap)>, key: RenderKey, bitmap: Bitmap) -> bool {
    exists|i: int| 0 <= i < entries.len() && #[trigger] entries[i] == (key, bitmap)
}

spec fn has_key(entries: Seq<(RenderKey, Bitmap)>, key: RenderKey) -> bool {
    exists|i: int| 0 <= i < entries.len() && (#[trigger] entries[i]).0 == key
}

spec fn distinct(entries: Seq<(RenderKey, Bitmap)>) -> bool {
    forall|i: int, j: int|
        0 <= i < j < entries.len() ==> (#[trigger] entries[i]).0 != (#[trigger] entries[j]).0
}

/// The bitmap of the entry with this key.
spec fn value_of(entries: Seq<(RenderKey, Bitmap)>, key: RenderKey) -> Bitmap {
    choose|bitmap: Bitmap| holds(entries, key, bitmap)
}

spec fn as_map(entries: Seq<(RenderKey, Bitmap)>) -> Map<RenderKey, Bitmap> {
    Map::new(|key: RenderKey| has_key(entries, key), |key: RenderKey| value_of(entries, key))
}

/// The key is of the same generation and dimensions as `active`, and its page
/// is the same or a neighbour.
pub open spec fn near(key: RenderKey, active: RenderKey) -> bool {
    &&& key.generation == active.generation
    &&& key.width == active.width
    &&& key.height == active.height
    &&& key.page <= active.page + 1
    &&& active.page <= key.page + 1
}

/// Bitmaps by what they are bitmaps of.
#[derive(Debug)]
pub struct BitmapCache {
    entries: Vec<(RenderKey, Bitmap)>,
}

impl View for BitmapCache {
    type V = Map<RenderKey, Bitmap>;

    closed spec fn view(&self) -> Map<RenderKey, Bitmap> {
        as_map(self.entries@)
    }
}

proof fn lemma_value(entries: Seq<(RenderKey, Bitmap)>, i: int)
    requires
        distinct(entries),
        0 <= i < entries.len(),
    ensures
        has_key(entries, entries[i].0),
        value_of(entries, entries[i].0) == entries[i].1,
{
    let key = entries[i].0;
    assert(entries[i] == (key, entries[i].1));
    assert(holds(entries, key, entries[i].1));
    let bitmap = value_of(entries, key);
    assert(holds(entries, key, bitmap));
    let j = choose|j: int| 0 <= j < entries.len() && #[trigger] entries[j] == (key, bitmap);
    if i < j {
        assert(entries[i].0 != entries[j].0);
    } else if j < i {
        assert(entries[j].0 != entries[i].0);
    }
}

/// The entry stands in `entries`, at `from` or behind it, and is near `active`.
spec fn sifted(
    entries: Seq<(RenderKey, Bitmap)>,
    from: int,
    active: RenderKey,
    e: (RenderKey, Bitmap),
) -> bool {
    near(e.0, active) && exists|j: int| from <= j < entries.len() && #[trigger] entries[j] == e
}

proof fn lemma_sift(
    entries: Seq<(RenderKey, Bitmap)>,
    at: int,
    active: RenderKey,
    kept: Seq<(RenderKey, Bitmap)>,
)
    requires
        distinct(entries),
        distinct(kept),
        0 <= at < entries.len(),
        near(entries[at].0, active),
        forall|e: (RenderKey, Bitmap)| #[trigger]
            kept.contains(e) <==> sifted(entries, at + 1, active, e),
    ensures
        distinct(kept.push(entries[at])),
        forall|e: (RenderKey, Bitmap)| #[trigger]
            kept.push(entries[at]).contains(e) <==> sifted(entries, at, active, e),
{
    let last = entries[at];
    let more = kept.push(last);
    assert forall|i: int| 0 <= i < kept.len() implies (#[trigger] kept[i]).0 != last.0 by {
        assert(kept.contains(kept[i]));
        let j = choose|j: int| at + 1 <= j < entries.len() && #[trigger] entries[j] == kept[i];
        assert(entries[at].0 != entries[j].0);
    }
    assert forall|e: (RenderKey, Bitmap)| #[trigger] more.contains(e) <==> sifted(
        entries,
        at,
        active,
        e,
    ) by {
        if more.contains(e) {
            let i = choose|i: int| 0 <= i < more.len() && more[i] == e;
            if i < kept.len() {
                assert(kept[i] == e);
                assert(kept.contains(e));
            } else {
                assert(entries[at] == e);
            }
        }
        if sifted(entries, at, active, e) {
            let j = choose|j: int| at <= j < entries.len() && #[trigger] entries[j] == e;
            if j == at {
                assert(more[kept.len() as int] == e);
            } else {
                assert(kept.contains(e));
                let i = choose|i: int| 0 <= i < kept.len() && kept[i] == e;
                assert(more[i] == e);
            }
        }
    }
}

proof fn lemma_sift_out(entries: Seq<(RenderKey, Bitmap)>, at: int, active: RenderKey)
    requires
        0 <= at < entries.len(),
        !near(entries[at].0, active),
    ensures
        forall|e: (RenderKey, Bitmap)|
            sifted(entries, at + 1, active, e) == #[trigger] sifted(entries, at, active, e),
{
    assert forall|e: (RenderKey, Bitmap)|
        sifted(entries, at + 1, active, e) == #[trigger] sifted(entries, at, active, e) by {
        if sifted(entries, at, active, e) {
            let j = choose|j: int| at <= j < entries.len() && #[trigger] entries[j] == e;
            assert(j != at);
        }
    }
}

proof fn lemma_sifted_map(
    before: Seq<(RenderKey, Bitmap)>,
    active: RenderKey,
    after: Seq<(RenderKey, Bitmap)>,
)
    requires
        distinct(before),
        distinct(after),
        forall|e: (RenderKey, Bitmap)| #[trigger]
            after.contains(e) <==> sifted(before, 0, active, e),
    ensures
        as_map(after) == as_map(before).restrict(Set::new(|key: RenderKey| near(key, active))),
{
    let m = as_map(before).restrict(Set::new(|key: RenderKey| near(key, active)));
    assert forall|k: RenderKey| as_map(after).contains_key(k) == m.contains_key(k) by {
        if m.contains_key(k) {
            let j = choose|j: int| 0 <= j < before.len() && (#[trigger] before[j]).0 == k;
            assert(sifted(before, 0, active, before[j]));
            assert(after.contains(before[j]));
        }
        if has_key(after, k) {
            let i = choose|i: int| 0 <= i < after.len() && (#[trigger] after[i]).0 == k;
            assert(after.contains(after[i]));
            let j = choose|j: int| 0 <= j < before.len() && #[trigger] before[j] == after[i];
            assert(before[j].0 == k);
        }
    }
    assert forall|k: RenderKey| as_map(after).contains_key(k) implies as_map(after)[k] == m[k] by {
        let i = choose|i: int| 0 <= i < after.len() && (#[trigger] after[i]).0 == k;
        assert(after.contains(after[i]));
        let j = choose|j: int| 0 <= j < before.len() && #[trigger] before[j] == after[i];
        lemma_value(after, i);
        lemma_value(before, j);
    }
    assert(as_map(after) =~= m);
}

impl BitmapCache {
    /// No key occurs twice.
    #[verifier::type_invariant]
    spec fn unique(self) -> bool {
        distinct(self.entries@)
    }

    pub fn new() -> (r: Self)
        ensures
            r@ == Map::<RenderKey, Bitmap>::empty(),
    {
        let r = BitmapCache { entries: Vec::new() };
        assert(r@ =~= Map::<RenderKey, Bitmap>::empty());
        r
    }

    pub fn clear(&mut self)
        ensures
            final(self)@ == Map::<RenderKey, Bitmap>::empty(),
    {
        self.entries = Vec::new();
        assert(self@ =~= Map::<RenderKey, Bitmap>::empty());
    }

    pub fn get(&self, key: &RenderKey) -> (r: Option<&Bitmap>)
        ensures
            match r {
                Some(bitmap) => self@.contains_key(*key) && *bitmap == self@[*key],
                None => !self@.contains_key(*key),
            },
    {
        proof {
            use_type_invariant(self);
        }
        let mut i: usize = 0;
        while i < self.entries.len()
            invariant
                distinct(self.entries@),
                i <= self.entries@.len(),
                forall|j: int| 0 <= j < i ==> (#[trigger] self.entries@[j]).0 != *key,
            decreases self.entries@.len() - i,
        {
            if self.entries[i].0 == *key {
                proof {
                    lemma_value(self.entries@, i as int);
                }
                return Some(&self.entries[i].1);
            }
            i = i + 1;
        }
        None
    }

    /// Takes a bitmap in, in place of one with the same key.
    pub fn insert(&mut self, key: RenderKey, bitmap: Bitmap)
        ensures
            final(self)@ == old(self)@.insert(key, bitmap),
    {
        proof {
            use_type_invariant(&*self);
        }
        let ghost before = self.entries@;
        let mut entries: Vec<(RenderKey, Bitmap)> = Vec::new();
        std::mem::swap(&mut entries, &mut self.entries);
        let mut i: usize = 0;
        while i < entries.len() && entries[i].0 != key
            invariant
                entries@ == before,
                i <= entries@.len(),
                forall|j: int| 0 <= j < i ==> (#[trigger] entries@[j]).0 != key,
            decreases entries@.len() - i,
        {
            i = i + 1;
        }
        if i < entries.len() {
            entries.set(i, (key, bitmap));
        } else {
            entries.push((key, bitmap));
        }
        let ghost after = entries@;
        proof {
            let at = i as int;
            assert(after[at] == (key, bitmap));
            assert(forall|j: int| 0 <= j < before.len() && j != at ==> after[j] == before[j]);
            assert forall|j: int, k: int| 0 <= j < k < after.len() implies (#[trigger] after[j]).0
                != (#[trigger] after[k]).0 by {
                if k < before.len() {
                    assert(before[j].0 != before[k].0);
                }
            }
            let m = as_map(before).insert(key, bitmap);
            assert forall|k: RenderKey| as_map(after).contains_key(k) == m.contains_key(k) by {
                if has_key(before, k) {
                    let j = choose|j: int| 0 <= j < before.len() && (#[trigger] before[j]).0 == k;
                    assert(after[j].0 == k);
                }
                if has_key(after, k) {
                    let j = choose|j: int| 0 <= j < after.len() && (#[trigger] after[j]).0 == k;
                    if j != at {
                        assert(before[j].0 == k);
                    }
                }
            }
            assert forall|k: RenderKey| as_map(after).contains_key(k) implies as_map(after)[k]
                == m[k] by {
                let j = choose|j: int| 0 <= j < after.len() && (#[trigger] after[j]).0 == k;
                lemma_value(after, j);
                if j == at {
                    assert(k == key);
                } else {
                    assert(after[j] == before[j]);
                    assert(after[at].0 != after[j].0);
                    lemma_value(before, j);
                }
            }
            assert(as_map(after) =~= m);
        }
        self.entries = entries;
    }

    /// Drops every bitmap that is not near `active`.
    pub fn retain_near(&mut self, active: RenderKey)
        ensures
            final(self)@ == old(self)@.restrict(Set::new(|key: RenderKey| near(key, active))),
    {
        proof {
            use_type_invariant(&*self);
        }
        let ghost before = self.entries@;
        let mut entries: Vec<(RenderKey, Bitmap)> = Vec::new();
        std::mem::swap(&mut entries, &mut self.entries);
        let mut kept: Vec<(RenderKey, Bitmap)> = Vec::new();
        while entries.len() > 0
            invariant
                distinct(before),
                distinct(kept@),
                entries@ == before.take(entries@.len() as int),
                entries@.len() <= before.len(),
                forall|e: (RenderKey, Bitmap)| #[trigger]
                    kept@.contains(e) <==> sifted(before, entries@.len() as int, active, e),
            decreases entries@.len(),
        {
            let ghost at = entries@.len() - 1;
            let last = entries.pop();
            if let Some((key, bitmap)) = last {
                assert(before[at] == (key, bitmap));
                if key.generation == active.generation && key.width == active.width && key.height
                    == active.height && (key.page <= active.page || key.page - active.page == 1) && (
                active.page <= key.page || active.page - key.page == 1) {
                    proof {
                        lemma_sift(before, at, active, kept@);
                    }
                    kept.push((key, bitmap));
                } else {
                    proof {
                        lemma_sift_out(before, at, active);
                    }
                }
            }
        }
        proof {
            lemma_sifted_map(before, active, kept@);
        }
        self.entries = kept;
    }
}

} // verus!
