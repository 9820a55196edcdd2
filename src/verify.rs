//! Integrity verification of mirrored files.
use vstd::prelude::*;
use sha1::Digest;
use crate::Sha1;
use crate::url::{AddressError, LocalPath, path, path_of, wf_address, wf_path};

verus! {

/// The SHA-1 digest of a byte string, as `sha1::Sha1` computes it.
pub uninterp spec fn sha1_of(data: Seq<u8>) -> Seq<u8>;

/// Relies on `sha1::Sha1::digest`: the 20-byte SHA-1 digest of the data.
#[verifier::external_body]
fn sha1_digest(data: &[u8]) -> (r: [u8; 20])
    ensures
        r@ == sha1_of(data@),
{
    sha1::Sha1::digest(data).into()
}

/// The state of one file against its expected digest.
#[derive(Clone, Copy, Debug, PartialEq, Eq, Structural)]
pub enum CorruptedReason {
    /// The file holds the expected bytes; such entries never leave `verify`.
    Intact,
    /// The file does not exist.
    Missing,
    /// The file exists with a different digest.
    Corrupted,
}

/// The state of a file whose digest was observed as `observed` (`None`: the
/// file does not exist) against the digest `expected`.
pub open spec fn outcome(observed: Option<Seq<u8>>, expected: Seq<u8>) -> CorruptedReason {
    match observed {
        None => CorruptedReason::Missing,
        Some(d) => if d == expected {
            CorruptedReason::Intact
        } else {
            CorruptedReason::Corrupted
        },
    }
}

pub open spec fn digest_views(v: Seq<Option<Sha1>>) -> Seq<Option<Seq<u8>>> {
    v.map_values(|o: Option<Sha1>| match o {
        Some(h) => Some(h@),
        None => None,
    })
}

pub open spec fn entry_views(v: Seq<(LocalPath, Sha1)>) -> Seq<(Seq<Seq<char>>, Seq<u8>)> {
    v.map_values(|e: (LocalPath, Sha1)| (e.0@, e.1@))
}

pub open spec fn report_views(v: Seq<(LocalPath, CorruptedReason)>) -> Seq<(Seq<Seq<char>>, CorruptedReason)> {
    v.map_values(|e: (LocalPath, CorruptedReason)| (e.0@, e.1))
}

/// The entries of `files` that are not in order, each with its state, in the
/// order of `files`; `observed[i]` is what was found for `files[i]`.
pub open spec fn failures(
    files: Seq<(Seq<Seq<char>>, Seq<u8>)>,
    observed: Seq<Option<Seq<u8>>>,
) -> Seq<(Seq<Seq<char>>, CorruptedReason)>
    decreases files.len(),
{
    if files.len() == 0 {
        seq![]
    } else {
        let rest = failures(files.drop_last(), observed.take(files.len() - 1));
        let o = outcome(observed[files.len() - 1], files.last().1);
        if o == CorruptedReason::Intact {
            rest
        } else {
            rest.push((files.last().0, o))
        }
    }
}

/// The SHA-1 digest of a file's contents.
pub fn hash_file(contents: &[u8]) -> (r: Sha1)
    ensures
        r@ == sha1_of(contents@),
{
    Sha1(sha1_digest(contents))
}

/// The state of a file whose observed digest is `observed` (`None`: the file
/// does not exist) against the digest `hash`.
pub fn classify(observed: &Option<Sha1>, hash: &Sha1) -> (r: CorruptedReason)
    ensures
        r == outcome(
            match observed {
                Some(h) => Some(h@),
                None => None,
            },
            hash@,
        ),
{
    match observed {
        None => CorruptedReason::Missing,
        Some(d) => if d.same_as(hash) {
            CorruptedReason::Intact
        } else {
            CorruptedReason::Corrupted
        },
    }
}

/// The state of a file with the contents `contents` (`None`: the file does not
/// exist) against the digest `hash`.
pub fn verify_file(contents: Option<&[u8]>, hash: &Sha1) -> (r: CorruptedReason)
    ensures
        r == outcome(
            match contents {
                Some(c) => Some(sha1_of(c@)),
                None => None,
            },
            hash@,
        ),
{
    let observed = match contents {
        Some(c) => Some(hash_file(c)),
        None => None,
    };
    classify(&observed, hash)
}

/// The entries of `files` whose file is missing or corrupted, each with its
/// state, in the order of `files`. `observed[i]` is the digest of the file of
/// `files[i]`, or `None` where that file does not exist.
pub fn verify(files: &Vec<(LocalPath, Sha1)>, observed: &Vec<Option<Sha1>>) -> (r: Vec<(LocalPath, CorruptedReason)>)
    requires
        observed@.len() == files@.len(),
    ensures
        report_views(r@) == failures(entry_views(files@), digest_views(observed@)),
{
    let ghost fv = entry_views(files@);
    let ghost ov = digest_views(observed@);
    let mut r: Vec<(LocalPath, CorruptedReason)> = Vec::new();
    let mut i: usize = 0;
    while i < files.len()
        invariant
            0 <= i <= files@.len(),
            observed@.len() == files@.len(),
            fv == entry_views(files@),
            ov == digest_views(observed@),
            report_views(r@) == failures(fv.take(i as int), ov.take(i as int)),
        decreases files@.len() - i,
    {
        let c = classify(&observed[i], &files[i].1);
        let ghost prev = r@;
        assert(fv.take(i as int + 1).drop_last() =~= fv.take(i as int));
        assert(ov.take(i as int + 1).take(i as int) =~= ov.take(i as int));
        if c != CorruptedReason::Intact {
            r.push((files[i].0.duplicate(), c));
            assert(report_views(r@) =~= report_views(prev).push((fv[i as int].0, c)));
        }
        i = i + 1;
    }
    assert(fv.take(files@.len() as int) =~= fv);
    assert(ov.take(files@.len() as int) =~= ov);
    r
}

pub open spec fn url_entry_views(v: Seq<(String, Sha1)>) -> Seq<(Seq<Seq<char>>, Seq<u8>)> {
    v.map_values(|e: (String, Sha1)| (path_of(e.0@), e.1@))
}

/// `verify` over entries keyed by remote address: each address is first turned
/// into its local path. Fails where an address is not well formed.
pub fn verify_url(urls: &Vec<(String, Sha1)>, observed: &Vec<Option<Sha1>>) -> (r: Result<Vec<(LocalPath, CorruptedReason)>, AddressError>)
    requires
        observed@.len() == urls@.len(),
    ensures
        r is Ok <==> forall|i: int| 0 <= i < urls@.len() ==> wf_address(#[trigger] urls@[i].0@),
        match r {
            Ok(v) => report_views(v@) == failures(url_entry_views(urls@), digest_views(observed@)),
            Err(e) => e == AddressError::MalformedAddress,
        },
{
    let mut files: Vec<(LocalPath, Sha1)> = Vec::new();
    let mut i: usize = 0;
    while i < urls.len()
        invariant
            0 <= i <= urls@.len(),
            entry_views(files@) =~= url_entry_views(urls@).take(i as int),
            forall|j: int| 0 <= j < i ==> wf_address(#[trigger] urls@[j].0@),
        decreases urls@.len() - i,
    {
        let ghost prev = entry_views(files@);
        match path(urls[i].0.as_str()) {
            Ok(p) => {
                files.push((p, urls[i].1));
                assert(entry_views(files@) =~= prev.push((path_of(urls@[i as int].0@), urls@[i as int].1@)));
            },
            Err(e) => {
                return Err(e);
            },
        }
        i = i + 1;
    }
    assert(url_entry_views(urls@).take(urls@.len() as int) =~= url_entry_views(urls@));
    Ok(verify(&files, observed))
}

/// Each entry that is not in order shows up in `failures`, with its state.
pub proof fn lemma_failures_complete(
    files: Seq<(Seq<Seq<char>>, Seq<u8>)>,
    observed: Seq<Option<Seq<u8>>>,
    i: int,
)
    requires
        observed.len() == files.len(),
        0 <= i < files.len(),
        outcome(observed[i], files[i].1) != CorruptedReason::Intact,
    ensures
        failures(files, observed).contains((files[i].0, outcome(observed[i], files[i].1))),
    decreases files.len(),
{
    let n = files.len() - 1;
    let f = failures(files, observed);
    let rest = failures(files.drop_last(), observed.take(n));
    if i == n {
        assert(f.last() == (files[i].0, outcome(observed[i], files[i].1)));
    } else {
        lemma_failures_complete(files.drop_last(), observed.take(n), i);
        let k = choose|k: int| 0 <= k < rest.len() && rest[k] == (files[i].0, outcome(observed[i], files[i].1));
        assert(f[k] == rest[k]);
    }
}

/// Everything in `failures` is an entry of `files` that is not in order, with
/// its state.
pub proof fn lemma_failures_sound(
    files: Seq<(Seq<Seq<char>>, Seq<u8>)>,
    observed: Seq<Option<Seq<u8>>>,
    k: int,
)
    requires
        observed.len() == files.len(),
        0 <= k < failures(files, observed).len(),
    ensures
        exists|j: int|
            0 <= j < files.len() && failures(files, observed)[k] == (files[j].0, outcome(observed[j], files[j].1))
                && outcome(observed[j], files[j].1) != CorruptedReason::Intact,
    decreases files.len(),
{
    let n = files.len() - 1;
    let f = failures(files, observed);
    let rest = failures(files.drop_last(), observed.take(n));
    if k < rest.len() {
        lemma_failures_sound(files.drop_last(), observed.take(n), k);
        let j = choose|j: int|
            0 <= j < n && rest[k] == (files.drop_last()[j].0, outcome(observed.take(n)[j], files.drop_last()[j].1))
                && outcome(observed.take(n)[j], files.drop_last()[j].1) != CorruptedReason::Intact;
        assert(f[k] == rest[k]);
        assert(files.drop_last()[j] == files[j]);
        assert(observed.take(n)[j] == observed[j]);
    } else {
        assert(f[k] == (files[n].0, outcome(observed[n], files[n].1)));
    }
}

/// Each path stands once among the entries.
pub open spec fn unique_paths(files: Seq<(Seq<Seq<char>>, Seq<u8>)>) -> bool {
    forall|i: int, j: int| 0 <= i < files.len() && 0 <= j < files.len() && files[i].0 == files[j].0 ==> i == j
}

/// A mirror whose every file still has its expected digest verifies clean.
pub proof fn lemma_converged_mirror_verifies_clean(
    files: Seq<(Seq<Seq<char>>, Seq<u8>)>,
    observed: Seq<Option<Seq<u8>>>,
)
    requires
        observed.len() == files.len(),
        forall|i: int| 0 <= i < files.len() ==> #[trigger] observed[i] == Some(files[i].1),
    ensures
        failures(files, observed).len() == 0,
{
    let f = failures(files, observed);
    if f.len() > 0 {
        lemma_failures_sound(files, observed, 0);
    }
}

/// An entry whose file is absent is reported as missing, and never as corrupted.
pub proof fn lemma_absent_is_missing(
    files: Seq<(Seq<Seq<char>>, Seq<u8>)>,
    observed: Seq<Option<Seq<u8>>>,
    i: int,
)
    requires
        observed.len() == files.len(),
        unique_paths(files),
        0 <= i < files.len(),
        observed[i] is None,
    ensures
        failures(files, observed).contains((files[i].0, CorruptedReason::Missing)),
        !failures(files, observed).contains((files[i].0, CorruptedReason::Corrupted)),
{
    lemma_failures_complete(files, observed, i);
    let f = failures(files, observed);
    if f.contains((files[i].0, CorruptedReason::Corrupted)) {
        let k = choose|k: int| 0 <= k < f.len() && f[k] == (files[i].0, CorruptedReason::Corrupted);
        lemma_failures_sound(files, observed, k);
    }
}

/// An entry whose file exists with another digest is reported as corrupted, and
/// never as missing.
pub proof fn lemma_different_is_corrupted(
    files: Seq<(Seq<Seq<char>>, Seq<u8>)>,
    observed: Seq<Option<Seq<u8>>>,
    i: int,
)
    requires
        observed.len() == files.len(),
        unique_paths(files),
        0 <= i < files.len(),
        observed[i] is Some,
        observed[i]->0 != files[i].1,
    ensures
        failures(files, observed).contains((files[i].0, CorruptedReason::Corrupted)),
        !failures(files, observed).contains((files[i].0, CorruptedReason::Missing)),
{
    lemma_failures_complete(files, observed, i);
    let f = failures(files, observed);
    if f.contains((files[i].0, CorruptedReason::Missing)) {
        let k = choose|k: int| 0 <= k < f.len() && f[k] == (files[i].0, CorruptedReason::Missing);
        lemma_failures_sound(files, observed, k);
    }
}

} // verus!
