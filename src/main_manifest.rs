//! The root index: every release descriptor with its digest.
use vstd::prelude::*;
use crate::mapping::{ReconciliationSet, inserted, pair_views};
use crate::url::{AddressError, LocalPath, path, path_of, wf_address};
use crate::version_manifest::{FileRef, ref_pair};

verus! {

/// The well-known address of the root index.
pub const MANIFEST_URL: &'static str = "https://piston-meta.mojang.com/mc/game/version_manifest_v2.json";

/// The root index: one entry per release.
pub struct Manifest {
    pub versions: Vec<FileRef>,
}

pub open spec fn ref_pairs(v: Seq<FileRef>) -> Seq<(Seq<char>, Seq<u8>)> {
    v.map_values(|f: FileRef| ref_pair(f))
}

/// The fetch list of the root index: its address and local path. The root index
/// has no known digest, so it is fetched on every run.
pub fn sync() -> (r: Result<Vec<(String, LocalPath)>, AddressError>)
    ensures
        r is Ok <==> wf_address(MANIFEST_URL@),
        match r {
            Ok(v) => v@.len() == 1 && v@[0].0@ == MANIFEST_URL@ && v@[0].1@ == path_of(MANIFEST_URL@),
            Err(e) => e == AddressError::MalformedAddress,
        },
{
    let p = path(MANIFEST_URL)?;
    let mut v: Vec<(String, LocalPath)> = Vec::new();
    v.push((MANIFEST_URL.to_owned(), p));
    Ok(v)
}

/// The release descriptors of the root index, by address.
pub fn manifests(manifest: &Manifest) -> (r: ReconciliationSet)
    ensures
        r.wf(),
        r@ == inserted(Map::empty(), ref_pairs(manifest.versions@)),
{
    let mut r = ReconciliationSet::new();
    let mut i: usize = 0;
    while i < manifest.versions.len()
        invariant
            0 <= i <= manifest.versions@.len(),
            r.wf(),
            r@ == inserted(Map::empty(), ref_pairs(manifest.versions@).take(i as int)),
        decreases manifest.versions@.len() - i,
    {
        assert(ref_pairs(manifest.versions@).take(i as int + 1).drop_last() =~= ref_pairs(manifest.versions@).take(i as int));
        r.insert(manifest.versions[i].url.clone(), manifest.versions[i].sha1);
        i = i + 1;
    }
    assert(ref_pairs(manifest.versions@).take(manifest.versions@.len() as int) =~= ref_pairs(manifest.versions@));
    r
}

} // verus!
