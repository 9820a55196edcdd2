//! Release descriptors: the artifacts of one release and its asset index.
use vstd::prelude::*;
use crate::Sha1;
use crate::mapping::pair_views;

verus! {

/// One downloadable object: its address and digest.
pub struct FileRef {
    pub url: String,
    pub sha1: Sha1,
}

/// The downloads of a library: a direct artifact and platform classifiers, each
/// optional.
pub struct LibDownload {
    pub artifact: Option<FileRef>,
    pub classifiers: Option<Vec<(String, FileRef)>>,
}

/// A library that a release needs.
pub struct Library {
    pub downloads: LibDownload,
}

/// A logging configuration entry.
pub struct Logging {
    pub file: FileRef,
}

/// A release descriptor.
pub struct Version {
    pub asset_index: FileRef,
    pub downloads: Vec<(String, FileRef)>,
    pub libraries: Vec<Library>,
    pub logging: Option<Vec<(String, Logging)>>,
}

pub open spec fn ref_pair(f: FileRef) -> (Seq<char>, Seq<u8>) {
    (f.url@, f.sha1@)
}

/// The objects of named entries, in order.
pub open spec fn named_pairs(v: Seq<(String, FileRef)>) -> Seq<(Seq<char>, Seq<u8>)> {
    v.map_values(|e: (String, FileRef)| ref_pair(e.1))
}

/// The objects of one library: its artifact, then its classifiers.
pub open spec fn library_pairs(l: Library) -> Seq<(Seq<char>, Seq<u8>)> {
    (match l.downloads.artifact {
        Some(a) => seq![ref_pair(a)],
        None => seq![],
    }) + (match l.downloads.classifiers {
        Some(c) => named_pairs(c@),
        None => seq![],
    })
}

/// The objects of the libraries, library by library.
pub open spec fn libraries_pairs(ls: Seq<Library>) -> Seq<(Seq<char>, Seq<u8>)>
    decreases ls.len(),
{
    if ls.len() == 0 {
        seq![]
    } else {
        libraries_pairs(ls.drop_last()) + library_pairs(ls.last())
    }
}

/// The logging configuration files.
pub open spec fn logging_pairs(l: Option<Vec<(String, Logging)>>) -> Seq<(Seq<char>, Seq<u8>)> {
    match l {
        Some(v) => v@.map_values(|e: (String, Logging)| ref_pair(e.1.file)),
        None => seq![],
    }
}

/// Every object of a release but its asset index: the downloads, the libraries'
/// objects, then the logging files.
pub open spec fn version_links(v: Version) -> Seq<(Seq<char>, Seq<u8>)> {
    named_pairs(v.downloads@) + libraries_pairs(v.libraries@) + logging_pairs(v.logging)
}

fn push_ref(out: &mut Vec<(String, Sha1)>, f: &FileRef)
    ensures
        pair_views(final(out)@) == pair_views(old(out)@).push(ref_pair(*f)),
{
    let ghost before = pair_views(out@);
    out.push((f.url.clone(), f.sha1));
    assert(pair_views(out@) =~= before.push(ref_pair(*f)));
}

fn push_named(out: &mut Vec<(String, Sha1)>, v: &Vec<(String, FileRef)>)
    ensures
        pair_views(final(out)@) == pair_views(old(out)@) + named_pairs(v@),
{
    let ghost before = pair_views(out@);
    let mut i: usize = 0;
    while i < v.len()
        invariant
            0 <= i <= v@.len(),
            pair_views(out@) == before + named_pairs(v@).take(i as int),
        decreases v@.len() - i,
    {
        push_ref(out, &v[i].1);
        assert(named_pairs(v@).take(i as int + 1) =~= named_pairs(v@).take(i as int).push(ref_pair(v@[i as int].1)));
        assert(before + named_pairs(v@).take(i as int + 1) =~= (before + named_pairs(v@).take(i as int)).push(ref_pair(v@[i as int].1)));
        i = i + 1;
    }
    assert(named_pairs(v@).take(v@.len() as int) =~= named_pairs(v@));
}

impl Version {
    /// Every object of the release but its asset index, as address and digest:
    /// the downloads, each library's artifact and classifiers, then the logging
    /// files. Absent sections add nothing.
    pub fn links(&self) -> (r: Vec<(String, Sha1)>)
        ensures
            pair_views(r@) == version_links(*self),
    {
        let mut r: Vec<(String, Sha1)> = Vec::new();
        assert(pair_views(r@) =~= Seq::<(Seq<char>, Seq<u8>)>::empty());
        push_named(&mut r, &self.downloads);
        assert(pair_views(r@) =~= named_pairs(self.downloads@));
        let ghost base = pair_views(r@);
        let mut i: usize = 0;
        while i < self.libraries.len()
            invariant
                0 <= i <= self.libraries@.len(),
                base == named_pairs(self.downloads@),
                pair_views(r@) == base + libraries_pairs(self.libraries@.take(i as int)),
            decreases self.libraries@.len() - i,
        {
            let ghost mid = pair_views(r@);
            let d = &self.libraries[i].downloads;
            match &d.artifact {
                Some(a) => push_ref(&mut r, a),
                None => {},
            }
            match &d.classifiers {
                Some(c) => push_named(&mut r, c),
                None => {},
            }
            let ghost lib = self.libraries@[i as int];
            assert(self.libraries@.take(i as int + 1).drop_last() =~= self.libraries@.take(i as int));
            assert(pair_views(r@) =~= mid + library_pairs(lib));
            assert(base + libraries_pairs(self.libraries@.take(i as int + 1)) =~= mid + library_pairs(lib));
            i = i + 1;
        }
        assert(self.libraries@.take(self.libraries@.len() as int) =~= self.libraries@);
        let ghost mid = pair_views(r@);
        match &self.logging {
            Some(l) => {
                let mut j: usize = 0;
                while j < l.len()
                    invariant
                        0 <= j <= l@.len(),
                        pair_views(r@) == mid + logging_pairs(Some(*l)).take(j as int),
                    decreases l@.len() - j,
                {
                    push_ref(&mut r, &l[j].1.file);
                    assert(logging_pairs(Some(*l)).take(j as int + 1) =~= logging_pairs(Some(*l)).take(j as int).push(ref_pair(l@[j as int].1.file)));
                    assert(mid + logging_pairs(Some(*l)).take(j as int + 1) =~= (mid + logging_pairs(Some(*l)).take(j as int)).push(ref_pair(l@[j as int].1.file)));
                    j = j + 1;
                }
                assert(logging_pairs(Some(*l)).take(l@.len() as int) =~= logging_pairs(Some(*l)));
            },
            None => {
                assert(mid + logging_pairs(None) =~= mid);
            },
        }
        r
    }

    /// The address and digest of the release's asset index.
    pub fn asset_index(&self) -> (r: (String, Sha1))
        ensures
            r.0@ == self.asset_index.url@,
            r.1 == self.asset_index.sha1,
    {
        (self.asset_index.url.clone(), self.asset_index.sha1)
    }
}

} // verus!
