//! The glyph list and sequence map a builder accumulates.
//!
//! The map from sequences to atlas slots is held as a list of `(sequence, slot)` entries with
//! distinct sequences; [`entries_map`] is the map such a list stands for.
use vstd::prelude::*;

use super::UTokenProps;
use crate::atlas_index::AtlasIndex;
use crate::grammar::TokenModel;
use crate::token::{Sequence, Token};

verus! {


/// The map from sequences to atlas slots held by a list of distinct-key entries.
pub open spec fn entries_map(v: Seq<(Sequence, AtlasIndex)>) -> Map<Seq<char>, nat> {
    Map::new(
        |k: Seq<char>| exists|i: int| 0 <= i < v.len() && (#[trigger] v[i]).0@ == k,
        |k: Seq<char>| v[choose|i: int| 0 <= i < v.len() && (#[trigger] v[i]).0@ == k].1.spec_index(),
    )
}

/// Whether no two entries share a sequence.
pub open spec fn distinct_entries(v: Seq<(Sequence, AtlasIndex)>) -> bool {
    forall|i: int, j: int| 0 <= i < j < v.len() ==> (#[trigger] v[i]).0@ != (#[trigger] v[j]).0@
}

/// The map after binding every sequence of `t` to `idx`.
pub open spec fn insert_all(m: Map<Seq<char>, nat>, t: TokenModel, idx: nat) -> Map<Seq<char>, nat>
    decreases t.len(),
{
    if t.len() == 0 {
        m
    } else {
        insert_all(m, t.drop_last(), idx).insert(t.last(), idx)
    }
}

pub proof fn lemma_entries_lookup(v: Seq<(Sequence, AtlasIndex)>, i: int)
    requires
        distinct_entries(v),
        0 <= i < v.len(),
    ensures
        entries_map(v).contains_key(v[i].0@),
        entries_map(v)[v[i].0@] == v[i].1.spec_index(),
{
    let k = v[i].0@;
    assert(exists|j: int| 0 <= j < v.len() && (#[trigger] v[j]).0@ == k);
    let j = choose|j: int| 0 <= j < v.len() && (#[trigger] v[j]).0@ == k;
    if j != i {
        if j < i {
            assert(v[j].0@ != v[i].0@);
        } else {
            assert(v[i].0@ != v[j].0@);
        }
    }
}

proof fn lemma_entries_update(v: Seq<(Sequence, AtlasIndex)>, i: int, e: (Sequence, AtlasIndex))
    requires
        distinct_entries(v),
        0 <= i < v.len(),
        e.0@ == v[i].0@,
    ensures
        distinct_entries(v.update(i, e)),
        entries_map(v.update(i, e)) == entries_map(v).insert(e.0@, e.1.spec_index()),
{
    let w = v.update(i, e);
    assert forall|a: int, b: int| 0 <= a < b < w.len() implies (#[trigger] w[a]).0@ != (
    #[trigger] w[b]).0@ by {
        assert(w[a].0@ == v[a].0@ && w[b].0@ == v[b].0@);
    }
    assert forall|a: int| 0 <= a < w.len() implies entries_map(w).contains_key(
        (#[trigger] w[a]).0@,
    ) && entries_map(w)[w[a].0@] == w[a].1.spec_index() by {
        lemma_entries_lookup(w, a);
    }
    assert forall|a: int| 0 <= a < v.len() implies entries_map(v).contains_key(
        (#[trigger] v[a]).0@,
    ) && entries_map(v)[v[a].0@] == v[a].1.spec_index() by {
        lemma_entries_lookup(v, a);
    }
    let m1 = entries_map(w);
    let m2 = entries_map(v).insert(e.0@, e.1.spec_index());
    assert forall|k: Seq<char>| m1.contains_key(k) <==> m2.contains_key(k) by {
        if m1.contains_key(k) {
            let a = choose|a: int| 0 <= a < w.len() && (#[trigger] w[a]).0@ == k;
            assert(v[a].0@ == k);
        }
        if entries_map(v).contains_key(k) {
            let a = choose|a: int| 0 <= a < v.len() && (#[trigger] v[a]).0@ == k;
            assert(w[a].0@ == k);
        }
    }
    assert forall|k: Seq<char>| #[trigger] m1.contains_key(k) implies m1[k] == m2[k] by {
        let a = choose|a: int| 0 <= a < w.len() && (#[trigger] w[a]).0@ == k;
        assert(v[a].0@ == k);
    }
    assert(m1 =~= m2);
}

proof fn lemma_entries_push(v: Seq<(Sequence, AtlasIndex)>, e: (Sequence, AtlasIndex))
    requires
        distinct_entries(v),
        !entries_map(v).contains_key(e.0@),
    ensures
        distinct_entries(v.push(e)),
        entries_map(v.push(e)) == entries_map(v).insert(e.0@, e.1.spec_index()),
{
    let w = v.push(e);
    assert forall|a: int| 0 <= a < v.len() implies entries_map(v).contains_key(
        (#[trigger] v[a]).0@,
    ) && entries_map(v)[v[a].0@] == v[a].1.spec_index() by {
        lemma_entries_lookup(v, a);
    }
    assert forall|a: int, b: int| 0 <= a < b < w.len() implies (#[trigger] w[a]).0@ != (
    #[trigger] w[b]).0@ by {
        if b == v.len() {
            assert(w[a] == v[a]);
        } else {
            assert(w[a] == v[a] && w[b] == v[b]);
        }
    }
    assert forall|a: int| 0 <= a < w.len() implies entries_map(w).contains_key(
        (#[trigger] w[a]).0@,
    ) && entries_map(w)[w[a].0@] == w[a].1.spec_index() by {
        lemma_entries_lookup(w, a);
    }
    let m1 = entries_map(w);
    let m2 = entries_map(v).insert(e.0@, e.1.spec_index());
    assert forall|k: Seq<char>| m1.contains_key(k) <==> m2.contains_key(k) by {
        if m1.contains_key(k) {
            let a = choose|a: int| 0 <= a < w.len() && (#[trigger] w[a]).0@ == k;
            if a < v.len() {
                assert(v[a].0@ == k);
            }
        }
        if entries_map(v).contains_key(k) {
            let a = choose|a: int| 0 <= a < v.len() && (#[trigger] v[a]).0@ == k;
            assert(w[a].0@ == k);
        }
        if k == e.0@ {
            assert(w[v.len() as int].0@ == k);
        }
    }
    assert forall|k: Seq<char>| #[trigger] m1.contains_key(k) implies m1[k] == m2[k] by {
        let a = choose|a: int| 0 <= a < w.len() && (#[trigger] w[a]).0@ == k;
        if a < v.len() {
            assert(v[a].0@ == k);
        }
    }
    assert(m1 =~= m2);
}

/// Glyph data accumulated during the build: the glyph list (indexed by atlas slot) and the map
/// from sequences to slots.
#[derive(Debug)]
pub(crate) struct Scratch {
    glyphs: Vec<UTokenProps>,
    sequence_map: Vec<(Sequence, AtlasIndex)>,
}

/// The effective height of a glyph: its region's height plus its vertical offset, saturating.
pub open spec fn effective_height(g: UTokenProps) -> u32 {
    let h = g.region.spec_height() + g.offset.y;
    if h < 0 {
        0
    } else if h > u32::MAX {
        u32::MAX
    } else {
        h as u32
    }
}

/// `u32::saturating_add_signed`.
fn saturating_add_signed(a: u32, b: i32) -> (r: u32)
    ensures
        r == (if a + b < 0 {
            0
        } else if a + b > u32::MAX {
            u32::MAX
        } else {
            (a + b) as u32
        }),
{
    if b < 0 {
        let d: u32 = if b == i32::MIN {
            2147483648u32
        } else {
            (-b) as u32
        };
        if a < d {
            0
        } else {
            a - d
        }
    } else {
        let d = b as u32;
        if a > u32::MAX - d {
            u32::MAX
        } else {
            a + d
        }
    }
}

impl Scratch {
    /// The entries' sequences are distinct and every slot refers to a glyph.
    pub closed spec fn wf(&self) -> bool {
        &&& distinct_entries(self.sequence_map@)
        &&& forall|i: int|
            0 <= i < self.sequence_map@.len() ==> (#[trigger] self.sequence_map@[i]).1.spec_index()
                < self.glyphs@.len()
    }

    pub closed spec fn glyphs(&self) -> Seq<UTokenProps> {
        self.glyphs@
    }

    pub closed spec fn map(&self) -> Map<Seq<char>, nat> {
        entries_map(self.sequence_map@)
    }

    /// Every slot in the map refers to a glyph, and the map is finite.
    pub proof fn lemma_map_in_bounds(&self)
        requires
            self.wf(),
        ensures
            forall|k: Seq<char>| #[trigger]
                self.map().contains_key(k) ==> self.map()[k] < self.glyphs().len(),
            self.map().dom().finite(),
    {
        let v = self.sequence_map@;
        assert forall|k: Seq<char>| #[trigger] self.map().contains_key(k) implies self.map()[k]
            < self.glyphs().len() by {
            let a = choose|a: int| 0 <= a < v.len() && (#[trigger] v[a]).0@ == k;
            lemma_entries_lookup(v, a);
        }
        let keys = v.map_values(|e: (Sequence, AtlasIndex)| e.0@);
        assert(self.map().dom() =~= keys.to_set()) by {
            assert forall|k: Seq<char>| self.map().dom().contains(k) implies keys.contains(k) by {
                let a = choose|a: int| 0 <= a < v.len() && (#[trigger] v[a]).0@ == k;
                assert(keys[a] == k);
            }
            assert forall|k: Seq<char>| keys.contains(k) implies self.map().dom().contains(k) by {
                let a = choose|a: int| 0 <= a < keys.len() && #[trigger] keys[a] == k;
                assert(v[a].0@ == k);
            }
        }
        vstd::seq_lib::seq_to_set_is_finite(keys);
    }

    /// An empty scratch.
    pub fn empty(num_glyphs: usize, num_sequences: usize) -> (r: Scratch)
        ensures
            r.wf(),
            r.glyphs() == Seq::<UTokenProps>::empty(),
            r.map() == Map::<Seq<char>, nat>::empty(),
    {
        let r = Scratch {
            glyphs: Vec::with_capacity(num_glyphs),
            sequence_map: Vec::with_capacity(num_sequences),
        };
        assert(r.map() =~= Map::<Seq<char>, nat>::empty());
        r
    }

    /// Binds `q` to `index`, replacing any earlier binding of `q`.
    fn bind(&mut self, q: Sequence, index: AtlasIndex)
        requires
            old(self).wf(),
            index.spec_index() < old(self).glyphs().len(),
        ensures
            final(self).wf(),
            final(self).glyphs() == old(self).glyphs(),
            final(self).map() == old(self).map().insert(q@, index.spec_index()),
    {
        let ghost key = q@;
        let mut i: usize = 0;
        while i < self.sequence_map.len()
            invariant
                i <= self.sequence_map@.len(),
                self.wf(),
                key == q@,
                index.spec_index() < self.glyphs().len(),
                self.glyphs() == old(self).glyphs(),
                self.sequence_map@ == old(self).sequence_map@,
                forall|k: int| 0 <= k < i ==> (#[trigger] self.sequence_map@[k]).0@ != key,
            decreases self.sequence_map.len() - i,
        {
            if self.sequence_map[i].0.same_as(&q) {
                let ghost v = self.sequence_map@;
                proof {
                    lemma_entries_update(v, i as int, (q, index));
                }
                self.sequence_map.set(i, (q, index));
                assert forall|j: int| 0 <= j < self.sequence_map@.len() implies (
                #[trigger] self.sequence_map@[j]).1.spec_index() < self.glyphs@.len() by {
                    if j != i {
                        assert(self.sequence_map@[j] == v[j]);
                    }
                }
                return;
            }
            i = i + 1;
        }
        let ghost v = self.sequence_map@;
        proof {
            assert(!entries_map(v).contains_key(key)) by {
                if entries_map(v).contains_key(key) {
                    let a = choose|a: int| 0 <= a < v.len() && (#[trigger] v[a]).0@ == key;
                }
            }
            lemma_entries_push(v, (q, index));
        }
        self.sequence_map.push((q, index));
        assert forall|j: int| 0 <= j < self.sequence_map@.len() implies (
        #[trigger] self.sequence_map@[j]).1.spec_index() < self.glyphs@.len() by {
            if j < v.len() {
                assert(self.sequence_map@[j] == v[j]);
            }
        }
    }

    /// Adds a glyph in the next atlas slot and binds every sequence of `token` to it.
    pub fn add_token(&mut self, token: &Token, props: UTokenProps)
        requires
            old(self).wf(),
        ensures
            final(self).wf(),
            final(self).glyphs() == old(self).glyphs().push(props),
            final(self).map() == insert_all(old(self).map(), token@, old(self).glyphs().len()),
    {
        let index = AtlasIndex::new(self.glyphs.len());
        self.glyphs.push(props);
        let seqs = token.sequences();
        let ghost t = token@;
        let ghost m0 = old(self).map();
        let mut j: usize = 0;
        assert(t.take(0) =~= seq![]);
        while j < seqs.len()
            invariant
                j <= seqs.len(),
                self.wf(),
                t == crate::token::seqs_view(seqs@),
                index.spec_index() == old(self).glyphs().len(),
                self.glyphs() == old(self).glyphs().push(props),
                self.map() == insert_all(m0, t.take(j as int), index.spec_index()),
            decreases seqs.len() - j,
        {
            let q = seqs[j].duplicate();
            self.bind(q, index);
            assert(t.take(j + 1).drop_last() =~= t.take(j as int));
            assert(t.take(j + 1).last() == t[j as int]);
            j = j + 1;
        }
        assert(t.take(seqs.len() as int) =~= t);
    }

    /// The glyph bound to `q`, if any.
    pub fn get(&self, q: &Sequence) -> (r: Option<&UTokenProps>)
        requires
            self.wf(),
        ensures
            self.map().contains_key(q@) ==> (r matches Some(g) && *g == self.glyphs()[self.map()[q@] as int]),
            !self.map().contains_key(q@) ==> r is None,
    {
        let mut i: usize = 0;
        while i < self.sequence_map.len()
            invariant
                i <= self.sequence_map@.len(),
                self.wf(),
                forall|k: int| 0 <= k < i ==> (#[trigger] self.sequence_map@[k]).0@ != q@,
            decreases self.sequence_map.len() - i,
        {
            if self.sequence_map[i].0.same_as(q) {
                proof {
                    lemma_entries_lookup(self.sequence_map@, i as int);
                }
                let idx = self.sequence_map[i].1.index();
                return Some(&self.glyphs[idx]);
            }
            i = i + 1;
        }
        proof {
            if self.map().contains_key(q@) {
                let v = self.sequence_map@;
                let a = choose|a: int| 0 <= a < v.len() && (#[trigger] v[a]).0@ == q@;
            }
        }
        None
    }

    /// Whether the height of every registered glyph's region is defined.
    pub open spec fn heights_defined(&self) -> bool {
        forall|i: int| 0 <= i < self.glyphs().len() ==> (#[trigger] self.glyphs()[i]).region.height_defined()
    }

    /// The largest effective height of the registered glyphs; `None` when none is registered.
    pub fn max_glyph_height(&self) -> (r: Option<u32>)
        requires
            self.heights_defined(),
        ensures
            r is None <==> self.glyphs().len() == 0,
            r matches Some(h) ==> (exists|i: int|
                0 <= i < self.glyphs().len() && effective_height(#[trigger] self.glyphs()[i]) == h),
            r matches Some(h) ==> (forall|i: int|
                0 <= i < self.glyphs().len() ==> effective_height(#[trigger] self.glyphs()[i]) <= h),
    {
        let mut best: Option<u32> = None;
        let mut i: usize = 0;
        while i < self.glyphs.len()
            invariant
                i <= self.glyphs@.len(),
                self.heights_defined(),
                best is None <==> i == 0,
                best matches Some(h) ==> exists|j: int|
                    0 <= j < i && effective_height(#[trigger] self.glyphs@[j]) == h,
                best matches Some(h) ==> forall|j: int|
                    0 <= j < i ==> effective_height(#[trigger] self.glyphs@[j]) <= h,
            decreases self.glyphs.len() - i,
        {
            let g = self.glyphs[i];
            assert(self.glyphs()[i as int] == g);
            let height = g.region.height();
            let e = saturating_add_signed(height, g.offset.y);
            assert(e == effective_height(g));
            best = match best {
                Some(b) => if e > b { Some(e) } else { Some(b) },
                None => Some(e),
            };
            i = i + 1;
        }
        best
    }

    /// Whether the height of every registered glyph's region is defined.
    pub fn heights_defined_exec(&self) -> (r: bool)
        ensures
            r == self.heights_defined(),
    {
        let mut i: usize = 0;
        while i < self.glyphs.len()
            invariant
                i <= self.glyphs@.len(),
                forall|k: int| 0 <= k < i ==> (#[trigger] self.glyphs()[k]).region.height_defined(),
            decreases self.glyphs.len() - i,
        {
            let g = &self.glyphs[i];
            if g.region.min.y > g.region.max.y {
                assert(!self.glyphs()[i as int].region.height_defined());
                return false;
            }
            i = i + 1;
        }
        true
    }

    /// The glyph list, consumed.
    pub fn into_parts(self) -> (r: (Vec<UTokenProps>, Vec<(Sequence, AtlasIndex)>))
        requires
            self.wf(),
        ensures
            r.0@ == self.glyphs(),
            distinct_entries(r.1@),
            entries_map(r.1@) == self.map(),
            forall|i: int| 0 <= i < r.1@.len() ==> (#[trigger] r.1@[i]).1.spec_index() < r.0@.len(),
    {
        (self.glyphs, self.sequence_map)
    }
}

} // verus!
