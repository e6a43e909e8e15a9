//! The resource registry: datasets grouped under a company key.
use vstd::prelude::*;

verus! {

/// One record of the dataset configuration: a company and its datasets.
pub struct GuidEntry {
    pub id: u32,
    pub guid: Vec<String>,
}

/// A company and the datasets refreshed for it, in their stored order.
pub struct ResourceGroup {
    pub key: u32,
    pub members: Vec<String>,
}

/// Resource groups with pairwise distinct keys.
pub struct ResourceRegistry {
    groups: Vec<ResourceGroup>,
}

/// The members that the last group keyed `k` holds, searching from the end.
pub open spec fn group_lookup(g: Seq<(u32, Seq<String>)>, k: u32) -> Option<Seq<String>>
    decreases g.len(),
{
    if g.len() == 0 {
        None
    } else if g.last().0 == k {
        Some(g.last().1)
    } else {
        group_lookup(g.drop_last(), k)
    }
}

/// The datasets of the last configuration record for company `k`: later
/// records replace earlier ones.
pub open spec fn entry_lookup(e: Seq<GuidEntry>, k: u32) -> Option<Seq<String>>
    decreases e.len(),
{
    if e.len() == 0 {
        None
    } else if e.last().id == k {
        Some(e.last().guid@)
    } else {
        entry_lookup(e.drop_last(), k)
    }
}

/// No two groups share a key.
pub open spec fn keys_unique(g: Seq<(u32, Seq<String>)>) -> bool {
    forall|i: int, j: int| 0 <= i < j < g.len() ==> g[i].0 != g[j].0
}

/// Some group is keyed `k`.
pub open spec fn has_key(g: Seq<(u32, Seq<String>)>, k: u32) -> bool {
    exists|i: int| 0 <= i < g.len() && g[i].0 == k
}

/// With distinct keys, the lookup finds the one group keyed `k`, if any.
pub proof fn lemma_lookup_unique(g: Seq<(u32, Seq<String>)>, k: u32)
    requires
        keys_unique(g),
    ensures
        forall|j: int| 0 <= j < g.len() && g[j].0 == k ==> group_lookup(g, k) == Some(#[trigger] g[j].1),
        !has_key(g, k) ==> group_lookup(g, k) is None,
    decreases g.len(),
{
    if g.len() > 0 {
        let p = g.drop_last();
        lemma_lookup_unique(p, k);
        assert forall|j: int| 0 <= j < g.len() && g[j].0 == k implies group_lookup(g, k) == Some(
            #[trigger] g[j].1,
        ) by {
            if j < g.len() - 1 {
                assert(p[j] == g[j]);
            }
        }
        if !has_key(g, k) {
            assert(!has_key(p, k)) by {
                if has_key(p, k) {
                    let i = choose|i: int| 0 <= i < p.len() && p[i].0 == k;
                    assert(g[i].0 == k);
                }
            }
        }
    }
}

/// Groups as (key, members) pairs.
pub open spec fn pairs_of(gs: Seq<ResourceGroup>) -> Seq<(u32, Seq<String>)> {
    gs.map_values(|g: ResourceGroup| (g.key, g.members@))
}

/// A copy of a list of strings.
fn copy_strings(v: &Vec<String>) -> (r: Vec<String>)
    ensures
        r@ == v@,
{
    let mut r: Vec<String> = Vec::new();
    let mut i: usize = 0;
    while i < v.len()
        invariant
            i <= v.len(),
            r@ == v@.take(i as int),
        decreases v.len() - i,
    {
        r.push(v[i].clone());
        i = i + 1;
        assert(r@ =~= v@.take(i as int));
    }
    assert(v@.take(v.len() as int) =~= v@);
    r
}

impl ResourceRegistry {
    /// The groups as (key, members) pairs.
    pub closed spec fn view(&self) -> Seq<(u32, Seq<String>)> {
        pairs_of(self.groups@)
    }

    /// How many groups there are.
    pub fn len(&self) -> (r: usize)
        ensures
            r == self.view().len(),
    {
        self.groups.len()
    }

    /// The group at position `i`.
    pub fn group(&self, i: usize) -> (r: &ResourceGroup)
        requires
            i < self.view().len(),
        ensures
            (r.key, r.members@) == self.view()[i as int],
    {
        &self.groups[i]
    }

    /// The members of the group keyed `key`, if there is one.
    pub fn find(&self, key: u32) -> (r: Option<&Vec<String>>)
        ensures
            match r {
                Some(m) => group_lookup(self.view(), key) == Some(m@),
                None => group_lookup(self.view(), key) is None,
            },
    {
        let ghost v = self.view();
        let mut i: usize = self.groups.len();
        assert(v.take(i as int) =~= v);
        while i > 0
            invariant
                i <= self.groups.len(),
                v == self.view(),
                group_lookup(v, key) == group_lookup(v.take(i as int), key),
            decreases i,
        {
            let ghost head = v.take(i as int);
            assert(head.drop_last() =~= v.take(i as int - 1));
            assert(head.last() == v[i as int - 1]);
            assert(v[i as int - 1] == (self.groups@[i as int - 1].key, self.groups@[i as int - 1].members@));
            if self.groups[i - 1].key == key {
                return Some(&self.groups[i - 1].members);
            }
            i = i - 1;
        }
        assert(v.take(0) =~= Seq::<(u32, Seq<String>)>::empty());
        None
    }

    /// Folds configuration records into groups keyed by company; a later
    /// record for a company replaces an earlier one.
    pub fn from_entries(entries: &Vec<GuidEntry>) -> (r: ResourceRegistry)
        ensures
            keys_unique(r.view()),
            forall|k: u32| #[trigger] group_lookup(r.view(), k) == entry_lookup(entries@, k),
    {
        let mut groups: Vec<ResourceGroup> = Vec::new();
        let mut i: usize = 0;
        while i < entries.len()
            invariant
                i <= entries.len(),
                keys_unique(pairs_of(groups@)),
                forall|j: int|
                    0 <= j < groups@.len() ==> entry_lookup(entries@.take(i as int), #[trigger] groups@[j].key)
                        == Some(groups@[j].members@),
                forall|k: u32|
                    #[trigger] entry_lookup(entries@.take(i as int), k) is Some ==> has_key(
                        pairs_of(groups@),
                        k,
                    ),
            decreases entries.len() - i,
        {
            let ghost before = groups@;
            let ghost pre = entries@.take(i as int);
            let ghost post = entries@.take(i as int + 1);
            assert(post.drop_last() =~= pre);
            let key = entries[i].id;
            let members = copy_strings(&entries[i].guid);
            let mut j: usize = 0;
            let mut found = false;
            while j < groups.len() && !found
                invariant
                    j <= groups.len(),
                    groups@ == before,
                    found ==> j < groups.len() && groups@[j as int].key == key,
                    forall|t: int| 0 <= t < j ==> groups@[t].key != key,
                decreases groups.len() - j + (if found { 0int } else { 1int }),
            {
                if groups[j].key == key {
                    found = true;
                } else {
                    j = j + 1;
                }
            }
            let ghost bv = pairs_of(before);
            let ghost entry = (key, members@);
            assert(members@ == entries@[i as int].guid@);
            if found {
                groups.set(j, ResourceGroup { key, members });
                proof {
                    let gv = pairs_of(groups@);
                    assert(gv =~= bv.update(j as int, entry));
                    assert forall|a: int, b: int| 0 <= a < b < gv.len() implies gv[a].0 != gv[b].0 by {
                        assert(gv[a].0 == bv[a].0 && gv[b].0 == bv[b].0);
                    }
                }
            } else {
                groups.push(ResourceGroup { key, members });
                proof {
                    let gv = pairs_of(groups@);
                    assert(gv =~= bv.push(entry));
                    assert forall|a: int, b: int| 0 <= a < b < gv.len() implies gv[a].0 != gv[b].0 by {
                        if b == bv.len() {
                            assert(before[a].key == bv[a].0);
                        }
                    }
                }
            }
            let ghost gv = pairs_of(groups@);
            assert(gv[j as int] == entry);
            assert forall|t: int| 0 <= t < groups@.len() implies entry_lookup(post, #[trigger] groups@[t].key)
                == Some(groups@[t].members@) by {
                assert(gv[t] == (groups@[t].key, groups@[t].members@));
                assert(post.last() == entries@[i as int]);
                if t != j {
                    assert(gv[t] == bv[t]);
                    assert(bv[t] == (before[t].key, before[t].members@));
                    assert(bv[t].0 != key) by {
                        if found {
                            assert(bv[j as int].0 == key);
                        }
                    }
                    assert(entry_lookup(pre, before[t].key) == Some(before[t].members@));
                }
            }
            assert forall|k: u32| #[trigger] entry_lookup(post, k) is Some implies has_key(gv, k) by {
                if k == key {
                    assert(gv[j as int].0 == k);
                } else {
                    assert(entry_lookup(pre, k) is Some);
                    let t = choose|t: int| 0 <= t < bv.len() && bv[t].0 == k;
                    assert(gv[t].0 == k);
                }
            }
            i = i + 1;
        }
        assert(entries@.take(entries.len() as int) =~= entries@);
        let r = ResourceRegistry { groups };
        proof {
            assert forall|k: u32| #[trigger] group_lookup(r.view(), k) == entry_lookup(entries@, k) by {
                lemma_lookup_unique(r.view(), k);
                if has_key(r.view(), k) {
                    let t = choose|t: int| 0 <= t < r.view().len() && r.view()[t].0 == k;
                    assert(r.view()[t] == (r.groups@[t].key, r.groups@[t].members@));
                    assert(group_lookup(r.view(), k) == Some(r.view()[t].1));
                    assert(entry_lookup(entries@, r.groups@[t].key) == Some(r.groups@[t].members@));
                } else {
                    assert(entry_lookup(entries@.take(entries.len() as int), k) is None);
                }
            }
        }
        r
    }
}

} // verus!
