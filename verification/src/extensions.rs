use vstd::prelude::*;

verus! {

/// The map described by a key/value pair list: a later pair for the same
/// key supersedes an earlier one.
pub open spec fn entries_map(s: Seq<(u64, Vec<u8>)>) -> Map<u64, Seq<u8>>
    decreases s.len(),
{
    if s.len() == 0 {
        Map::empty()
    } else {
        entries_map(s.drop_last()).insert(s.last().0, s.last().1@)
    }
}

pub open spec fn unique_keys(s: Seq<(u64, Vec<u8>)>) -> bool {
    forall|i: int, j: int| 0 <= i < j < s.len() ==> (#[trigger] s[i].0) != (#[trigger] s[j].0)
}

proof fn lemma_entries_map_props(s: Seq<(u64, Vec<u8>)>, t: u64)
    requires
        unique_keys(s),
    ensures
        entries_map(s).dom().contains(t) <==> (exists|i: int| 0 <= i < s.len() && (#[trigger] s[i].0) == t),
        forall|i: int|
            0 <= i < s.len() && (#[trigger] s[i].0) == t ==> entries_map(s)[t] == s[i].1@,
    decreases s.len(),
{
    if s.len() > 0 {
        let d = s.drop_last();
        assert(forall|i: int| 0 <= i < d.len() ==> d[i] == s[i]);
        lemma_entries_map_props(d, t);
        if s.last().0 == t {
            assert(s[s.len() - 1].0 == t);
        } else {
            if entries_map(s).dom().contains(t) {
                let i = choose|i: int| 0 <= i < d.len() && (#[trigger] d[i].0) == t;
                assert(s[i].0 == t);
            }
        }
    }
}

proof fn lemma_entries_map_update(s: Seq<(u64, Vec<u8>)>, i: int, v: Vec<u8>)
    requires
        unique_keys(s),
        0 <= i < s.len(),
    ensures
        entries_map(s.update(i, (s[i].0, v))) == entries_map(s).insert(s[i].0, v@),
    decreases s.len(),
{
    let t = s[i].0;
    let u = s.update(i, (t, v));
    let d = s.drop_last();
    assert(forall|j: int| 0 <= j < d.len() ==> d[j] == s[j]);
    if i == s.len() - 1 {
        assert(u.drop_last() =~= d);
        assert(u.last() == (t, v));
        assert(entries_map(u) == entries_map(d).insert(t, v@));
        assert(entries_map(s) == entries_map(d).insert(t, s.last().1@));
        assert(entries_map(d).insert(t, v@) =~= entries_map(d).insert(t, s.last().1@).insert(
            t,
            v@,
        ));
    } else {
        assert(u.drop_last() =~= d.update(i, (t, v)));
        assert(u.last() == s.last());
        lemma_entries_map_update(d, i, v);
        assert(s.last().0 != t);
        assert(entries_map(u) == entries_map(d).insert(t, v@).insert(s.last().0, s.last().1@));
        assert(entries_map(d).insert(t, v@).insert(s.last().0, s.last().1@) =~= entries_map(
            d,
        ).insert(s.last().0, s.last().1@).insert(t, v@));
    }
}

/// The per-request extension map: an open bag of side-data that
/// middleware attaches under a capability tag and reads back later in
/// the same request's handling.
pub struct Extensions {
    entries: Vec<(u64, Vec<u8>)>,
}

impl View for Extensions {
    type V = Map<u64, Seq<u8>>;

    closed spec fn view(&self) -> Map<u64, Seq<u8>> {
        entries_map(self.entries@)
    }
}

impl Extensions {
    #[verifier::type_invariant]
    closed spec fn wf(&self) -> bool {
        unique_keys(self.entries@)
    }

    /// A fresh, empty map: a new request observes nothing stored during
    /// any other request's handling.
    pub fn new() -> (r: Extensions)
        ensures
            r@ == Map::<u64, Seq<u8>>::empty(),
    {
        Extensions { entries: Vec::new() }
    }

    fn find_slot(&self, tag: u64) -> (r: Option<usize>)
        ensures
            match r {
                Some(i) => i < self.entries@.len() && self.entries@[i as int].0 == tag,
                None => forall|i: int|
                    0 <= i < self.entries@.len() ==> (#[trigger] self.entries@[i].0) != tag,
            },
    {
        let n = self.entries.len();
        let mut i: usize = 0;
        while i < n
            invariant
                i <= n,
                n == self.entries@.len(),
                forall|j: int| 0 <= j < i ==> (#[trigger] self.entries@[j].0) != tag,
            decreases n - i,
        {
            if self.entries[i].0 == tag {
                return Some(i);
            }
            i = i + 1;
        }
        None
    }

    /// Store `value` under `tag`, superseding any earlier value for the
    /// same tag.  Returns whether the tag was previously unused.
    pub fn insert(&mut self, tag: u64, value: Vec<u8>) -> (fresh: bool)
        ensures
            final(self)@ == old(self)@.insert(tag, value@),
            fresh == !old(self)@.dom().contains(tag),
    {
        proof {
            use_type_invariant(&*self);
            lemma_entries_map_props(self.entries@, tag);
        }
        match self.find_slot(tag) {
            Some(i) => {
                let ghost before = self.entries@;
                let mut es: Vec<(u64, Vec<u8>)> = Vec::new();
                core::mem::swap(&mut es, &mut self.entries);
                es[i] = (tag, value);
                core::mem::swap(&mut es, &mut self.entries);
                proof {
                    assert(self.entries@ =~= before.update(i as int, (tag, self.entries@[i as int].1)));
                    lemma_entries_map_update(before, i as int, self.entries@[i as int].1);
                    assert forall|a: int, b: int|
                        0 <= a < b < self.entries@.len() implies (#[trigger] self.entries@[a].0)
                        != (#[trigger] self.entries@[b].0) by {
                        assert(self.entries@[a].0 == before[a].0);
                        assert(self.entries@[b].0 == before[b].0);
                    }
                }
                false
            },
            None => {
                let ghost before = self.entries@;
                let mut es: Vec<(u64, Vec<u8>)> = Vec::new();
                core::mem::swap(&mut es, &mut self.entries);
                es.push((tag, value));
                core::mem::swap(&mut es, &mut self.entries);
                proof {
                    assert(self.entries@.drop_last() =~= before);
                    assert forall|a: int, b: int|
                        0 <= a < b < self.entries@.len() implies (#[trigger] self.entries@[a].0)
                        != (#[trigger] self.entries@[b].0) by {
                        if b < before.len() {
                            assert(self.entries@[a] == before[a]);
                            assert(self.entries@[b] == before[b]);
                        } else {
                            assert(self.entries@[a] == before[a]);
                            assert(self.entries@[b].0 == tag);
                        }
                    }
                }
                true
            },
        }
    }

    /// The value stored under `tag`, if any.
    pub fn find(&self, tag: u64) -> (r: Option<&Vec<u8>>)
        ensures
            match r {
                Some(v) => self@.dom().contains(tag) && v@ == self@[tag],
                None => !self@.dom().contains(tag),
            },
    {
        proof {
            use_type_invariant(self);
            lemma_entries_map_props(self.entries@, tag);
        }
        match self.find_slot(tag) {
            Some(i) => Some(&self.entries[i].1),
            None => None,
        }
    }

    /// Whether anything is stored under `tag`.
    pub fn contains(&self, tag: u64) -> (r: bool)
        ensures
            r == self@.dom().contains(tag),
    {
        match self.find(tag) {
            Some(_) => true,
            None => false,
        }
    }
}

/// Extension-map scoping: what one stores under a tag, one reads back
/// under that tag, and an empty map yields nothing for any tag.
pub proof fn lemma_extension_scoping(m: Map<u64, Seq<u8>>, tag: u64, v: Seq<u8>, other: u64)
    ensures
        m.insert(tag, v).dom().contains(tag),
        m.insert(tag, v)[tag] == v,
        !Map::<u64, Seq<u8>>::empty().dom().contains(other),
{
}

} // verus!
