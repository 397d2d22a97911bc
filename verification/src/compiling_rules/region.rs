//! Regions: named lexical contexts delimited by fixed opening and closing
//! strings, arranged in a tree whose root is the global context.

use vstd::prelude::*;
use crate::text::string_of_str;

verus! {

broadcast use vstd::std_specs::vec::group_vec_axioms;

/// A lexical context with fixed delimiters.
///
/// `interp` lists the regions that may open inside this one. A region whose
/// `tokenize` flag is unset keeps its body verbatim as one token together
/// with its delimiters; a tokenizing region has its body lexed normally.
/// `references` names another region whose `interp` list this region uses
/// in place of its own once it is open.
#[derive(Debug, PartialEq)]
pub struct Region {
    pub id: String,
    pub name: String,
    pub begin: String,
    pub end: String,
    pub interp: Vec<Region>,
    pub tokenize: bool,
    pub allow_unclosed: bool,
    pub global: bool,
    pub singleline: bool,
    pub references: Option<String>,
}

/// The regions of the tree rooted at `region`, parents before children and
/// siblings in declaration order.
pub open spec fn preorder(region: Region) -> Seq<Region>
    decreases region,
{
    seq![region] + preorder_all(region.interp@, region.interp@.len())
}

/// The preorder listing of the first `upto` trees of `regions`, concatenated.
pub open spec fn preorder_all(regions: Seq<Region>, upto: nat) -> Seq<Region>
    decreases regions, upto,
{
    if upto == 0 || upto > regions.len() {
        Seq::empty()
    } else {
        preorder_all(regions, (upto - 1) as nat) + preorder(regions[upto - 1])
    }
}

/// The region that `id` names among `entries`: the last one carrying that
/// id, so that a later declaration shadows an earlier one.
pub open spec fn lookup(entries: Seq<Region>, id: Seq<char>) -> Option<Region>
    decreases entries.len(),
{
    if entries.len() == 0 {
        None
    } else if entries.last().id@ == id {
        Some(entries.last())
    } else {
        lookup(entries.drop_last(), id)
    }
}

/// Every `references` found in the tree rooted at `region` names a region
/// listed in `entries`.
pub open spec fn references_resolve(region: Region, entries: Seq<Region>) -> bool {
    forall|k: int|
        0 <= k < preorder(region).len() ==> reference_resolves(
            #[trigger] preorder(region)[k],
            entries,
        )
}

/// The `references` of this one region, if it has one, names a region
/// listed in `entries`.
pub open spec fn reference_resolves(region: Region, entries: Seq<Region>) -> bool {
    region.references matches Some(id) ==> lookup(entries, id@) is Some
}

/// The `interp` list in force while `region` is open: that of the region it
/// references, or its own.
pub open spec fn effective_interp(region: Region, entries: Seq<Region>) -> Seq<Region> {
    match region.references {
        Some(id) => match lookup(entries, id@) {
            Some(target) => target.interp@,
            None => region.interp@,
        },
        None => region.interp@,
    }
}

/// Whatever is listed for one of the first `upto` trees is listed for all of
/// them together.
pub proof fn lemma_listed_in_all(regions: Seq<Region>, upto: nat, j: int, x: Region)
    requires
        0 <= j < upto <= regions.len(),
        preorder(regions[j]).contains(x),
    ensures
        preorder_all(regions, upto).contains(x),
    decreases upto,
{
    let head = preorder_all(regions, (upto - 1) as nat);
    let tail = preorder(regions[upto - 1]);
    if j == upto - 1 {
        let k = choose|k: int| 0 <= k < tail.len() && tail[k] == x;
        assert((head + tail)[head.len() + k] == x);
    } else {
        lemma_listed_in_all(regions, (upto - 1) as nat, j, x);
        let k = choose|k: int| 0 <= k < head.len() && head[k] == x;
        assert((head + tail)[k] == x);
    }
}

/// Whatever is listed for the first `upto` trees together is listed for one
/// of them.
pub proof fn lemma_listed_in_one(regions: Seq<Region>, upto: nat, x: Region) -> (j: int)
    requires
        upto <= regions.len(),
        preorder_all(regions, upto).contains(x),
    ensures
        0 <= j < upto,
        preorder(regions[j]).contains(x),
    decreases upto,
{
    let head = preorder_all(regions, (upto - 1) as nat);
    let tail = preorder(regions[upto - 1]);
    let k = choose|k: int| 0 <= k < (head + tail).len() && (head + tail)[k] == x;
    if k < head.len() {
        assert(head[k] == x);
        lemma_listed_in_one(regions, (upto - 1) as nat, x)
    } else {
        assert(tail[k - head.len()] == x);
        upto - 1
    }
}

/// The children of every region listed for a tree are listed for it too.
pub proof fn lemma_children_listed(root: Region, x: Region, j: int)
    requires
        preorder(root).contains(x),
        0 <= j < x.interp@.len(),
    ensures
        preorder(root).contains(x.interp@[j]),
    decreases root,
{
    let rest = preorder_all(root.interp@, root.interp@.len());
    let child = x.interp@[j];
    let k = choose|k: int| 0 <= k < preorder(root).len() && preorder(root)[k] == x;
    if k == 0 {
        assert(preorder(child)[0] == child);
        lemma_listed_in_all(root.interp@, root.interp@.len(), j, child);
    } else {
        assert(rest[k - 1] == x);
        let c = lemma_listed_in_one(root.interp@, root.interp@.len(), x);
        lemma_children_listed(root.interp@[c], x, j);
        lemma_listed_in_all(root.interp@, root.interp@.len(), c, child);
    }
    let m = choose|m: int| 0 <= m < rest.len() && rest[m] == child;
    assert(preorder(root)[m + 1] == child);
}

/// A region found by id is one of the regions listed, and carries that id.
pub proof fn lemma_lookup_listed(entries: Seq<Region>, id: Seq<char>)
    requires
        lookup(entries, id) is Some,
    ensures
        entries.contains(lookup(entries, id)->0),
        lookup(entries, id)->0.id@ == id,
    decreases entries.len(),
{
    if entries.last().id@ == id {
        assert(entries[entries.len() - 1] == entries.last());
    } else {
        lemma_lookup_listed(entries.drop_last(), id);
        let found = lookup(entries, id)->0;
        let k = choose|k: int| 0 <= k < entries.drop_last().len() && entries.drop_last()[k] == found;
        assert(entries[k] == found);
    }
}

/// Two regions that say the same: their texts and flags agree, and so do
/// the regions nested in them, one by one.
pub open spec fn same_region(a: Region, b: Region) -> bool
    decreases a,
{
    &&& a.id@ == b.id@
    &&& a.name@ == b.name@
    &&& a.begin@ == b.begin@
    &&& a.end@ == b.end@
    &&& a.tokenize == b.tokenize
    &&& a.allow_unclosed == b.allow_unclosed
    &&& a.global == b.global
    &&& a.singleline == b.singleline
    &&& a.references == b.references
    &&& a.interp@.len() == b.interp@.len()
    &&& forall|i: int|
        0 <= i < a.interp@.len() ==> same_region(#[trigger] a.interp@[i], b.interp@[i])
}

impl Clone for Region {
    fn clone(&self) -> (out: Region)
        ensures
            same_region(*self, out),
        decreases *self,
    {
        let mut interp: Vec<Region> = Vec::new();
        let mut i: usize = 0;
        while i < self.interp.len()
            invariant
                i <= self.interp@.len(),
                interp@.len() == i,
                forall|k: int| 0 <= k < i ==> same_region(#[trigger] self.interp@[k], interp@[k]),
            decreases self.interp@.len() - i,
        {
            let child = self.interp[i].clone();
            interp.push(child);
            i += 1;
        }
        Region {
            id: self.id.clone(),
            name: self.name.clone(),
            begin: self.begin.clone(),
            end: self.end.clone(),
            interp,
            tokenize: self.tokenize,
            allow_unclosed: self.allow_unclosed,
            global: self.global,
            singleline: self.singleline,
            references: crate::text::clone_text(&self.references),
        }
    }
}

impl Region {
    /// A region with the given delimiters and nested regions. It is opaque
    /// (not tokenized), must be closed, may span lines and is not global.
    pub fn new(
        id: &str,
        name: &str,
        begin: &str,
        end: &str,
        interp: Vec<Region>,
        references: Option<&str>,
    ) -> (region: Region)
        ensures
            region.id@ == id@,
            region.name@ == name@,
            region.begin@ == begin@,
            region.end@ == end@,
            region.interp == interp,
            !region.tokenize,
            !region.allow_unclosed,
            !region.global,
            !region.singleline,
            match references {
                Some(target) => region.references matches Some(id) && id@ == target@,
                None => region.references is None,
            },
    {
        Region {
            id: string_of_str(id),
            name: string_of_str(name),
            begin: string_of_str(begin),
            end: string_of_str(end),
            interp,
            tokenize: false,
            allow_unclosed: false,
            global: false,
            singleline: false,
            references: match references {
                Some(value) => Some(string_of_str(value)),
                None => None,
            },
        }
    }

    /// The synthetic root of a region tree: empty delimiters, tokenized,
    /// never closed, and allowed to stay open at the end of the input.
    pub fn new_global(interp: Vec<Region>) -> (region: Region)
        ensures
            region.id@ == "global"@,
            region.name@ == "Global context"@,
            region.begin@.len() == 0,
            region.end@.len() == 0,
            region.interp == interp,
            region.tokenize,
            region.allow_unclosed,
            region.global,
            !region.singleline,
            region.references is None,
    {
        let mut region = Region::new("global", "Global context", "", "", interp, None);
        proof {
            reveal_strlit("");
        }
        region.allow_unclosed = true;
        region.global = true;
        region.tokenize = true;
        region
    }
}

/// The regions of a tree listed once each, for resolving `references` by id.
pub struct RegionMap<'a> {
    entries: Vec<&'a Region>,
}

impl<'a> View for RegionMap<'a> {
    type V = Seq<Region>;

    closed spec fn view(&self) -> Seq<Region> {
        self.entries@.map_values(|r: &Region| *r)
    }
}

impl<'a> RegionMap<'a> {
    /// The number of regions listed, regions sharing an id counted apart.
    pub fn len(&self) -> (n: usize)
        ensures
            n == self@.len(),
    {
        self.entries.len()
    }

    /// The region listed at position `i`.
    pub fn entry(&self, i: usize) -> (region: &'a Region)
        requires
            i < self@.len(),
        ensures
            *region == self@[i as int],
    {
        self.entries[i]
    }

    /// The region that `id` names, if any: the last one listed with that id.
    pub fn get(&self, id: &String) -> (found: Option<&'a Region>)
        ensures
            match found {
                Some(region) => lookup(self@, id@) == Some(*region),
                None => lookup(self@, id@) is None,
            },
    {
        let mut i: usize = self.entries.len();
        proof {
            assert(self@.take(i as int) =~= self@);
        }
        while i > 0
            invariant
                i <= self.entries.len(),
                lookup(self@, id@) == lookup(self@.take(i as int), id@),
            decreases i,
        {
            let region: &'a Region = self.entries[i - 1];
            proof {
                let prefix = self@.take(i as int);
                assert(prefix.last() == *region);
                assert(prefix.drop_last() =~= self@.take(i - 1));
            }
            if region.id == *id {
                return Some(region);
            }
            i -= 1;
        }
        proof {
            assert(self@.take(0).len() == 0);
        }
        None
    }
}

impl Region {
    /// Lists this region and everything below it, parents first, so that a
    /// `references` can be resolved by id.
    pub fn generate_region_map<'a>(&'a self) -> (map: RegionMap<'a>)
        ensures
            map@ == preorder(*self),
    {
        let mut entries: Vec<&'a Region> = Vec::new();
        self.collect_into(&mut entries);
        let map = RegionMap { entries };
        proof {
            assert(map@ =~= preorder(*self));
        }
        map
    }

    fn collect_into<'a>(&'a self, entries: &mut Vec<&'a Region>)
        ensures
            final(entries)@.map_values(|r: &Region| *r) == old(entries)@.map_values(|r: &Region| *r)
                + preorder(*self),
        decreases *self,
    {
        let ghost before = entries@.map_values(|r: &Region| *r);
        entries.push(self);
        proof {
            assert(entries@.map_values(|r: &Region| *r) =~= before + seq![*self]);
        }
        let mut i: usize = 0;
        while i < self.interp.len()
            invariant
                i <= self.interp.len(),
                entries@.map_values(|r: &Region| *r) == before + seq![*self] + preorder_all(
                    self.interp@,
                    i as nat,
                ),
            decreases self.interp.len() - i,
        {
            let ghost so_far = entries@.map_values(|r: &Region| *r);
            let child: &'a Region = &self.interp[i];
            child.collect_into(entries);
            proof {
                assert(entries@.map_values(|r: &Region| *r) =~= before + seq![*self]
                    + preorder_all(self.interp@, (i + 1) as nat));
            }
            i += 1;
        }
        proof {
            assert(before + seq![*self] + preorder_all(self.interp@, self.interp@.len()) =~= before
                + preorder(*self));
        }
    }
}

} // verus!
