//! Resolution and integrity reconciliation of a mirrored, hash-addressed file tree.
use vstd::prelude::*;

pub mod url;
pub mod hexdigits;
pub mod verify;
pub mod asset_manifest;
pub mod mapping;
pub mod version_manifest;
pub mod main_manifest;
pub mod aria2;
pub mod asset;
pub mod reconcile;

verus! {

/// A SHA-1 digest: the expected or the actual content of one object.
#[derive(Clone, Copy, Debug, PartialEq, Eq)]
pub struct Sha1(pub [u8; 20]);

impl View for Sha1 {
    type V = Seq<u8>;

    open spec fn view(&self) -> Seq<u8> {
        self.0@
    }
}

impl Sha1 {
    /// The digest written as 40 hex digits (either case), or `None` for any
    /// other string.
    pub fn from_hex(s: &str) -> (r: Option<Sha1>)
        ensures
            match r {
                Some(h) => hexdigits::hex_decoded(s@) == Some(h@),
                None => !(hexdigits::hex_decoded(s@) is Some && hexdigits::hex_decoded(s@)->0.len() == 20),
            },
    {
        let bytes = hexdigits::decode_hex(s);
        match bytes {
            None => None,
            Some(v) => {
                if v.len() != 20 {
                    return None;
                }
                let mut a: [u8; 20] = [0u8; 20];
                let mut i: usize = 0;
                while i < 20
                    invariant
                        v@.len() == 20,
                        0 <= i <= 20,
                        a@.len() == 20,
                        forall|j: int| 0 <= j < i ==> a@[j] == v@[j],
                    decreases 20 - i,
                {
                    a[i] = v[i];
                    i = i + 1;
                }
                assert(a@ =~= v@);
                Some(Sha1(a))
            },
        }
    }

    /// Whether two digests hold the same bytes.
    pub fn same_as(&self, other: &Sha1) -> (r: bool)
        ensures
            r == (self@ == other@),
    {
        let mut i: usize = 0;
        while i < 20
            invariant
                self@.len() == 20,
                other@.len() == 20,
                0 <= i <= 20,
                forall|j: int| 0 <= j < i ==> self@[j] == other@[j],
            decreases 20 - i,
        {
            if self.0[i] != other.0[i] {
                return false;
            }
            i = i + 1;
        }
        assert(self@ =~= other@);
        true
    }
}

} // verus!
