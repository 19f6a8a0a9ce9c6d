//! The pending table: a per-connection mapping from in-flight request id to
//! its single-use completion handle. At most one entry per id at any time;
//! entries are created when a request is handed over for transmission and
//! moved out when the matching result arrives or the connection closes.

use vstd::prelude::*;

verus! {

/// The map an association list stands for; a later entry for an id would
/// shadow an earlier one, but a well-formed table never holds two.
pub open spec fn pairs_map<H>(s: Seq<(u32, H)>) -> Map<u32, H>
    decreases s.len(),
{
    if s.len() == 0 {
        Map::empty()
    } else {
        pairs_map(s.drop_last()).insert(s.last().0, s.last().1)
    }
}

/// Whether no id occurs twice in the list.
pub open spec fn ids_distinct<H>(s: Seq<(u32, H)>) -> bool {
    forall|i: int, j: int| 0 <= i < j < s.len() ==> (#[trigger] s[i]).0 != (#[trigger] s[j]).0
}

/// An id is in the map exactly when some entry carries it.
pub proof fn lemma_pairs_map_dom<H>(s: Seq<(u32, H)>, k: u32)
    ensures
        pairs_map(s).dom().contains(k) <==> exists|i: int| 0 <= i < s.len() && (#[trigger] s[i]).0
            == k,
    decreases s.len(),
{
    if s.len() > 0 {
        lemma_pairs_map_dom(s.drop_last(), k);
        if s.last().0 == k {
            assert((#[trigger] s[s.len() - 1]).0 == k);
        } else if pairs_map(s).dom().contains(k) {
            let i = choose|i: int| 0 <= i < s.drop_last().len() && (#[trigger] s.drop_last()[i]).0
                == k;
            assert((#[trigger] s[i]).0 == k);
        } else {
            if exists|i: int| 0 <= i < s.len() && (#[trigger] s[i]).0 == k {
                let i = choose|i: int| 0 <= i < s.len() && (#[trigger] s[i]).0 == k;
                assert(i < s.len() - 1);
                assert((#[trigger] s.drop_last()[i]).0 == k);
            }
        }
    }
}

/// With distinct ids, the entry carrying `k` holds exactly the map's value.
pub proof fn lemma_pairs_map_index<H>(s: Seq<(u32, H)>, i: int)
    requires
        ids_distinct(s),
        0 <= i < s.len(),
    ensures
        pairs_map(s).dom().contains(s[i].0),
        pairs_map(s)[s[i].0] == s[i].1,
    decreases s.len(),
{
    if i == s.len() - 1 {
    } else {
        assert(s.drop_last()[i] == s[i]);
        lemma_pairs_map_index(s.drop_last(), i);
        assert(s[s.len() - 1].0 != s[i].0);
    }
}

/// With distinct ids, removing the entry carrying an id removes exactly that
/// id from the map.
pub proof fn lemma_pairs_map_remove<H>(s: Seq<(u32, H)>, i: int)
    requires
        ids_distinct(s),
        0 <= i < s.len(),
    ensures
        pairs_map(s.remove(i)) == pairs_map(s).remove(s[i].0),
    decreases s.len(),
{
    let k = s[i].0;
    if i == s.len() - 1 {
        assert(s.remove(i) =~= s.drop_last());
        lemma_pairs_map_dom(s.drop_last(), k);
        assert forall|j: int| 0 <= j < s.drop_last().len() implies (#[trigger] s.drop_last()[j]).0
            != k by {
            assert(s[j] == s.drop_last()[j]);
        }
        assert(!pairs_map(s.drop_last()).dom().contains(k));
        assert(pairs_map(s).remove(k) =~= pairs_map(s.drop_last()));
    } else {
        let short = s.drop_last();
        assert(ids_distinct(short)) by {
            assert forall|a: int, b: int| 0 <= a < b < short.len() implies (#[trigger] short[a]).0
                != (#[trigger] short[b]).0 by {
                assert(s[a] == short[a]);
                assert(s[b] == short[b]);
            }
        }
        assert(short[i] == s[i]);
        lemma_pairs_map_remove(short, i);
        assert(s.remove(i) =~= short.remove(i).push(s.last()));
        assert(pairs_map(short.remove(i).push(s.last()))
            == pairs_map(short.remove(i)).insert(s.last().0, s.last().1)) by {
            assert(short.remove(i).push(s.last()).drop_last() =~= short.remove(i));
            assert(short.remove(i).push(s.last()).last() == s.last());
        }
        assert(s.last().0 != k);
        assert(pairs_map(short.remove(i)).insert(s.last().0, s.last().1)
            =~= pairs_map(short).insert(s.last().0, s.last().1).remove(k));
    }
}

/// A per-connection table of in-flight request ids and their completion
/// handles, at most one entry per id.
pub struct PendingTable<H> {
    entries: Vec<(u32, H)>,
}

impl<H> View for PendingTable<H> {
    type V = Map<u32, H>;

    closed spec fn view(&self) -> Map<u32, H> {
        pairs_map(self.entries@)
    }
}

impl<H> PendingTable<H> {
    /// The entries in insertion order.
    pub closed spec fn pairs(&self) -> Seq<(u32, H)> {
        self.entries@
    }

    /// The table's invariant: no id occurs twice.
    pub closed spec fn wf(&self) -> bool {
        ids_distinct(self.entries@)
    }

    /// An empty table.
    pub fn new() -> (t: PendingTable<H>)
        ensures
            t.wf(),
            t@ == Map::<u32, H>::empty(),
            t.pairs() == Seq::<(u32, H)>::empty(),
    {
        PendingTable { entries: Vec::new() }
    }

    /// Whether an entry for `id` is pending.
    pub fn contains(&self, id: u32) -> (b: bool)
        requires
            self.wf(),
        ensures
            b == self@.dom().contains(id),
    {
        let mut i: usize = 0;
        while i < self.entries.len()
            invariant
                i <= self.entries@.len(),
                forall|j: int| 0 <= j < i ==> (#[trigger] self.entries@[j]).0 != id,
            decreases self.entries@.len() - i,
        {
            if self.entries[i].0 == id {
                proof {
                    lemma_pairs_map_dom(self.entries@, id);
                }
                return true;
            }
            i = i + 1;
        }
        proof {
            lemma_pairs_map_dom(self.entries@, id);
        }
        false
    }

    /// Adds the entry `id -> handle`; the id must not be pending yet.
    pub fn insert(&mut self, id: u32, handle: H)
        requires
            old(self).wf(),
            !old(self)@.dom().contains(id),
        ensures
            final(self).wf(),
            final(self)@ == old(self)@.insert(id, handle),
            final(self).pairs() == old(self).pairs().push((id, handle)),
    {
        proof {
            lemma_pairs_map_dom(self.entries@, id);
        }
        self.entries.push((id, handle));
        proof {
            assert(self.entries@.drop_last() =~= old(self).entries@);
        }
    }

    /// Takes the entry for `id` out, if one is pending, consuming it.
    pub fn remove(&mut self, id: u32) -> (r: Option<H>)
        requires
            old(self).wf(),
        ensures
            final(self).wf(),
            match r {
                Some(h) => {
                    &&& old(self)@.dom().contains(id)
                    &&& h == old(self)@[id]
                    &&& final(self)@ == old(self)@.remove(id)
                },
                None => {
                    &&& !old(self)@.dom().contains(id)
                    &&& final(self)@ == old(self)@
                    &&& final(self).pairs() == old(self).pairs()
                },
            },
    {
        let mut i: usize = 0;
        while i < self.entries.len()
            invariant
                self.entries@ == old(self).entries@,
                ids_distinct(self.entries@),
                i <= self.entries@.len(),
                forall|j: int| 0 <= j < i ==> (#[trigger] self.entries@[j]).0 != id,
            decreases self.entries@.len() - i,
        {
            if self.entries[i].0 == id {
                proof {
                    lemma_pairs_map_index(self.entries@, i as int);
                    lemma_pairs_map_remove(self.entries@, i as int);
                    assert forall|a: int, b: int|
                        0 <= a < b < self.entries@.remove(i as int).len() implies (
                        #[trigger] self.entries@.remove(i as int)[a]).0 != (
                        #[trigger] self.entries@.remove(i as int)[b]).0 by {
                        let s = self.entries@;
                        let aa = if a < i { a } else { a + 1 };
                        let bb = if b < i { b } else { b + 1 };
                        assert(s.remove(i as int)[a] == s[aa]);
                        assert(s.remove(i as int)[b] == s[bb]);
                    }
                }
                let (_k, h) = self.entries.remove(i);
                return Some(h);
            }
            i = i + 1;
        }
        proof {
            lemma_pairs_map_dom(self.entries@, id);
        }
        None
    }

    /// Takes every entry out, in insertion order, leaving the table empty.
    /// The returned pairs carry distinct ids and stand for exactly the map
    /// that was pending: every outstanding handle leaves exactly once.
    pub fn drain(&mut self) -> (out: Vec<(u32, H)>)
        requires
            old(self).wf(),
        ensures
            final(self).wf(),
            final(self)@ == Map::<u32, H>::empty(),
            out@ == old(self).pairs(),
            ids_distinct(out@),
            pairs_map(out@) == old(self)@,
    {
        let mut out: Vec<(u32, H)> = Vec::new();
        core::mem::swap(&mut self.entries, &mut out);
        out
    }
}

} // verus!
