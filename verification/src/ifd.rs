//! An image file directory: a mapping from 16-bit tag to entry value.
//!
//! Tag uniqueness is an invariant of the type. The directory is viewed as a
//! mathematical map from tag to the value's shape; insertion order does not
//! matter to that view, and a repeated insertion replaces the earlier value.

use crate::data::{Data, DataView};
use vstd::prelude::*;

verus! {

/// The map denoted by a sequence of tagged entries, later entries winning.
pub open spec fn map_of(s: Seq<(u16, Data)>) -> Map<u16, DataView>
    decreases s.len(),
{
    if s.len() == 0 {
        Map::empty()
    } else {
        map_of(s.drop_last()).insert(s.last().0, s.last().1@)
    }
}

/// No two entries of the sequence carry the same tag.
pub open spec fn unique_tags(s: Seq<(u16, Data)>) -> bool {
    forall|a: int, b: int| 0 <= a < b < s.len() ==> s[a].0 != s[b].0
}

/// A tag is in the denoted map exactly when some entry carries it.
pub proof fn lemma_map_of_dom(s: Seq<(u16, Data)>, k: u16)
    ensures
        map_of(s).dom().contains(k) <==> exists|i: int| 0 <= i < s.len() && s[i].0 == k,
    decreases s.len(),
{
    if s.len() > 0 {
        lemma_map_of_dom(s.drop_last(), k);
        if s.last().0 == k {
            assert(s[s.len() - 1].0 == k);
        } else {
            if map_of(s).dom().contains(k) {
                let i = choose|i: int| 0 <= i < s.drop_last().len() && s.drop_last()[i].0 == k;
                assert(s[i].0 == k);
            }
            if exists|i: int| 0 <= i < s.len() && s[i].0 == k {
                let i = choose|i: int| 0 <= i < s.len() && s[i].0 == k;
                assert(s.drop_last()[i].0 == k);
            }
        }
    }
}

/// Under unique tags, the denoted map sends an entry's tag to its value.
pub proof fn lemma_map_of_index(s: Seq<(u16, Data)>, i: int)
    requires
        unique_tags(s),
        0 <= i < s.len(),
    ensures
        map_of(s).dom().contains(s[i].0),
        map_of(s)[s[i].0] == s[i].1@,
    decreases s.len(),
{
    if i < s.len() - 1 {
        assert(s.drop_last()[i] == s[i]);
        lemma_map_of_index(s.drop_last(), i);
        assert(s[i].0 != s.last().0);
    }
}

/// An image file directory: tag-unique entries, read as a map.
pub struct Ifd {
    entries: Vec<(u16, Data)>,
}

impl View for Ifd {
    type V = Map<u16, DataView>;

    closed spec fn view(&self) -> Map<u16, DataView> {
        map_of(self.entries@)
    }
}

impl Ifd {
    #[verifier::type_invariant]
    spec fn wf(&self) -> bool {
        unique_tags(self.entries@)
    }

    /// An empty directory.
    pub fn new() -> (r: Ifd)
        ensures
            r@ == Map::<u16, DataView>::empty(),
    {
        Ifd { entries: Vec::new() }
    }

    /// How many tags the directory holds.
    pub fn len(&self) -> (r: usize)
        ensures
            r == self@.dom().len(),
    {
        proof {
            use_type_invariant(&*self);
            lemma_dom_len(self.entries@);
        }
        self.entries.len()
    }

    /// Whether the directory holds the tag.
    pub fn contains_key(&self, tag: u16) -> (r: bool)
        ensures
            r == self@.dom().contains(tag),
    {
        proof {
            use_type_invariant(&*self);
            lemma_map_of_dom(self.entries@, tag);
        }
        let n = self.entries.len();
        let mut i: usize = 0;
        while i < n
            invariant
                i <= n == self.entries@.len(),
                forall|m: int| 0 <= m < i ==> self.entries@[m].0 != tag,
            decreases n - i,
        {
            if self.entries[i].0 == tag {
                proof {
                    lemma_map_of_dom(self.entries@, tag);
                    assert(self.entries@[i as int].0 == tag);
                }
                return true;
            }
            i = i + 1;
        }
        false
    }

    /// The value under the tag, if the directory holds it.
    pub fn get(&self, tag: u16) -> (r: Option<&Data>)
        ensures
            r is Some <==> self@.dom().contains(tag),
            r matches Some(d) ==> d@ == self@[tag],
    {
        proof {
            use_type_invariant(&*self);
            lemma_map_of_dom(self.entries@, tag);
        }
        let n = self.entries.len();
        let mut i: usize = 0;
        while i < n
            invariant
                i <= n == self.entries@.len(),
                forall|m: int| 0 <= m < i ==> self.entries@[m].0 != tag,
            decreases n - i,
        {
            if self.entries[i].0 == tag {
                proof {
                    use_type_invariant(&*self);
                    lemma_map_of_index(self.entries@, i as int);
                    lemma_map_of_dom(self.entries@, tag);
                    assert(self.entries@[i as int].0 == tag);
                }
                return Some(&self.entries[i].1);
            }
            i = i + 1;
        }
        None
    }

    /// Puts the value under the tag, replacing an earlier value.
    pub fn insert(&mut self, tag: u16, data: Data)
        ensures
            final(self)@ == old(self)@.insert(tag, data@),
    {
        proof {
            use_type_invariant(&*self);
        }
        let mut v: Vec<(u16, Data)> = Vec::new();
        std::mem::swap(&mut v, &mut self.entries);
        let ghost s0 = v@;
        let n = v.len();
        let mut idx: usize = n;
        let mut i: usize = 0;
        while i < n
            invariant
                i <= n == v@.len(),
                v@ == s0,
                idx <= n,
                idx < n ==> s0[idx as int].0 == tag,
                idx == n ==> forall|m: int| 0 <= m < i ==> s0[m].0 != tag,
            decreases n - i,
        {
            if idx == n && v[i].0 == tag {
                idx = i;
            }
            i = i + 1;
        }
        if idx < n {
            proof {
                lemma_map_of_set(s0, idx as int, data);
            }
            v.set(idx, (tag, data));
            self.entries = v;
        } else {
            proof {
                let t = s0.push((tag, data));
                assert(t.drop_last() =~= s0);
                assert(map_of(t) == map_of(s0).insert(tag, data@));
                assert(forall|a: int, b: int|
                    0 <= a < b < t.len() && b < s0.len() ==> t[a].0 == s0[a].0 && t[b].0
                        == s0[b].0);
                assert(forall|a: int| 0 <= a < s0.len() ==> t[a].0 == s0[a].0);
                assert(unique_tags(t));
            }
            v.push((tag, data));
            self.entries = v;
        }
    }
}

/// Under unique tags, the denoted map has exactly one key per entry.
proof fn lemma_dom_len(s: Seq<(u16, Data)>)
    requires
        unique_tags(s),
    ensures
        map_of(s).dom().finite(),
        map_of(s).dom().len() == s.len(),
    decreases s.len(),
{
    if s.len() > 0 {
        lemma_dom_len(s.drop_last());
        lemma_map_of_dom(s.drop_last(), s.last().0);
        assert(forall|i: int|
            0 <= i < s.drop_last().len() ==> s.drop_last()[i] == s[i] && s[i].0 != s.last().0);
        assert(!map_of(s.drop_last()).dom().contains(s.last().0));
        assert(map_of(s).dom() =~= map_of(s.drop_last()).dom().insert(s.last().0));
    }
}

/// Replacing the entry that carries a tag updates the denoted map in place.
proof fn lemma_map_of_set(s: Seq<(u16, Data)>, i: int, d: Data)
    requires
        unique_tags(s),
        0 <= i < s.len(),
    ensures
        map_of(s.update(i, (s[i].0, d))) == map_of(s).insert(s[i].0, d@),
        unique_tags(s.update(i, (s[i].0, d))),
    decreases s.len(),
{
    let k = s[i].0;
    let t = s.update(i, (k, d));
    assert(unique_tags(t)) by {
        assert(forall|a: int, b: int|
            0 <= a < b < t.len() ==> t[a].0 == s[a].0 && t[b].0 == s[b].0);
    }
    if i == s.len() - 1 {
        assert(t.drop_last() =~= s.drop_last());
        assert(map_of(t) == map_of(s.drop_last()).insert(k, d@));
        assert(map_of(s.drop_last()).insert(k, d@) =~= map_of(s).insert(k, d@));
    } else {
        assert(t.drop_last() =~= s.drop_last().update(i, (k, d)));
        assert(s.drop_last()[i] == s[i]);
        lemma_map_of_set(s.drop_last(), i, d);
        assert(k != s.last().0);
        assert(map_of(t) == map_of(s.drop_last()).insert(k, d@).insert(s.last().0, s.last().1@));
        assert(map_of(s.drop_last()).insert(k, d@).insert(s.last().0, s.last().1@) =~= map_of(
            s,
        ).insert(k, d@));
    }
}

} // verus!
