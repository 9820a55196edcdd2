//! The asset index of a release: content-addressed assets.
use vstd::prelude::*;
use vstd::string::*;
use crate::Sha1;
use crate::hexdigits::{encode_hex, hex_lower};
use crate::mapping::{ReconciliationSet, inserted};
use crate::version_manifest::Version;

verus! {

/// The host that serves assets by their digest.
pub const ASSET_REPO_URL: &'static str = "https://resources.download.minecraft.net/";

/// The address of the asset with the digest `h`: the asset host, the first two
/// hex digits, `/`, then all the hex digits.
pub open spec fn asset_address(h: Seq<u8>) -> Seq<char> {
    ASSET_REPO_URL@ + hex_lower(h).subrange(0, 2) + seq!['/'] + hex_lower(h)
}

/// The address of the asset with the digest `hash`.
pub fn asset_url(hash: &Sha1) -> (r: String)
    ensures
        r@ == asset_address(hash@),
{
    let hex = encode_hex(&hash.0);
    assert(hex@.len() == 40);
    let mut r = String::from_str(ASSET_REPO_URL);
    r.append(hex.as_str().substring_char(0, 2));
    r.append("/");
    proof {
        reveal_strlit("/");
    }
    r.append(hex.as_str());
    r
}

/// The objects of an asset index: each asset's name and digest.
pub struct AssetIndex {
    pub objects: Vec<(String, Sha1)>,
}

impl AssetIndex {
    /// The address and digest of every asset, in the order of the index.
    pub fn urls(&self) -> (r: Vec<(String, Sha1)>)
        ensures
            r@.len() == self.objects@.len(),
            forall|i: int|
                0 <= i < r@.len() ==> (#[trigger] r@[i]).0@ == asset_address(self.objects@[i].1@)
                    && r@[i].1 == self.objects@[i].1,
    {
        let mut r: Vec<(String, Sha1)> = Vec::new();
        let mut i: usize = 0;
        while i < self.objects.len()
            invariant
                0 <= i <= self.objects@.len(),
                r@.len() == i,
                forall|j: int|
                    0 <= j < i ==> (#[trigger] r@[j]).0@ == asset_address(self.objects@[j].1@)
                        && r@[j].1 == self.objects@[j].1,
            decreases self.objects@.len() - i,
        {
            let hash = self.objects[i].1;
            r.push((asset_url(&hash), hash));
            i = i + 1;
        }
        r
    }
}

/// The asset address identifies the digest: two 20-byte digests derive the
/// same address exactly when they are equal.
pub proof fn lemma_asset_address_identifies(h1: Seq<u8>, h2: Seq<u8>)
    requires
        h1.len() == 20,
        h2.len() == 20,
    ensures
        (asset_address(h1) == asset_address(h2)) <==> (h1 == h2),
{
    if asset_address(h1) == asset_address(h2) {
        lemma_asset_address_injective(h1, h2);
    }
}

proof fn lemma_asset_address_injective(h1: Seq<u8>, h2: Seq<u8>)
    requires
        h1.len() == 20,
        h2.len() == 20,
        asset_address(h1) == asset_address(h2),
    ensures
        h1 == h2,
{
    let a = asset_address(h1);
    let x = hex_lower(h1);
    let y = hex_lower(h2);
    assert(x.len() == 40 && y.len() == 40);
    let n = a.len() as int;
    assert(x =~= a.subrange(n - 40, n));
    assert(y =~= asset_address(h2).subrange(n - 40, n));
    crate::hexdigits::lemma_hex_lower_injective(h1, h2);
}

/// The address and digest of every asset of an index.
pub open spec fn asset_pairs(objects: Seq<(String, Sha1)>) -> Seq<(Seq<char>, Seq<u8>)> {
    objects.map_values(|o: (String, Sha1)| (asset_address(o.1@), o.1@))
}

/// The asset index of each release, as address and digest.
pub open spec fn index_pairs(versions: Seq<Version>) -> Seq<(Seq<char>, Seq<u8>)> {
    versions.map_values(|v: Version| (v.asset_index.url@, v.asset_index.sha1@))
}

/// The asset indexes of the releases, by address.
pub fn asset_indexes(versions: &Vec<Version>) -> (r: ReconciliationSet)
    ensures
        r.wf(),
        r@ == inserted(Map::empty(), index_pairs(versions@)),
{
    let mut r = ReconciliationSet::new();
    let mut i: usize = 0;
    while i < versions.len()
        invariant
            0 <= i <= versions@.len(),
            r.wf(),
            r@ == inserted(Map::empty(), index_pairs(versions@).take(i as int)),
        decreases versions@.len() - i,
    {
        assert(index_pairs(versions@).take(i as int + 1).drop_last() =~= index_pairs(versions@).take(i as int));
        let (url, hash) = versions[i].asset_index();
        r.insert(url, hash);
        i = i + 1;
    }
    assert(index_pairs(versions@).take(versions@.len() as int) =~= index_pairs(versions@));
    r
}

} // verus!
