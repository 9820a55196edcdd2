//! The full set of objects to mirror: every release's artifacts and assets.
use vstd::prelude::*;
use crate::asset_manifest::{AssetIndex, asset_pairs};
use crate::mapping::{ReconciliationSet, inserted, pair_views};
use crate::version_manifest::{Version, version_links};

verus! {

/// The objects of releases `0..n`: for each release, its artifacts, then the
/// assets of its asset index.
pub open spec fn release_pairs(versions: Seq<Version>, indexes: Seq<AssetIndex>, n: int) -> Seq<(Seq<char>, Seq<u8>)>
    decreases n,
{
    if n <= 0 {
        seq![]
    } else {
        release_pairs(versions, indexes, n - 1) + version_links(versions[n - 1]) + asset_pairs(indexes[n - 1].objects@)
    }
}

proof fn lemma_inserted_append(m: Map<Seq<char>, Seq<u8>>, a: Seq<(Seq<char>, Seq<u8>)>, b: Seq<(Seq<char>, Seq<u8>)>)
    ensures
        inserted(m, a + b) == inserted(inserted(m, a), b),
    decreases b.len(),
{
    if b.len() == 0 {
        assert(a + b =~= a);
    } else {
        assert((a + b).drop_last() =~= a + b.drop_last());
        lemma_inserted_append(m, a, b.drop_last());
    }
}

/// Everything the releases need, by address: each release's artifacts and the
/// assets of its asset index (`indexes[i]` belongs to `versions[i]`). An
/// address that stands more than once keeps the digest it was given last.
pub fn resolve(versions: &Vec<Version>, indexes: &Vec<AssetIndex>) -> (r: ReconciliationSet)
    requires
        versions@.len() == indexes@.len(),
    ensures
        r.wf(),
        r@ == inserted(Map::empty(), release_pairs(versions@, indexes@, versions@.len() as int)),
{
    let mut r = ReconciliationSet::new();
    let mut i: usize = 0;
    while i < versions.len()
        invariant
            0 <= i <= versions@.len(),
            versions@.len() == indexes@.len(),
            r.wf(),
            r@ == inserted(Map::empty(), release_pairs(versions@, indexes@, i as int)),
        decreases versions@.len() - i,
    {
        let links = versions[i].links();
        let assets = indexes[i].urls();
        assert(pair_views(assets@) =~= asset_pairs(indexes@[i as int].objects@));
        let ghost before = release_pairs(versions@, indexes@, i as int);
        r.extend(&links);
        r.extend(&assets);
        proof {
            lemma_inserted_append(Map::empty(), before, pair_views(links@));
            lemma_inserted_append(Map::empty(), before + pair_views(links@), pair_views(assets@));
        }
        i = i + 1;
    }
    r
}

} // verus!
