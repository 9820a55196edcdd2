//! Mapping between remote addresses and local mirror paths.
use vstd::prelude::*;
use vstd::string::*;

verus! {

/// Percent-encoding of a string, as produced by `urlencoding::encode`.
pub uninterp spec fn percent_encoded(s: Seq<char>) -> Seq<char>;

/// Percent-decoding of a string, as produced by `urlencoding::decode`
/// (`None` where the decoded bytes are not UTF-8).
pub uninterp spec fn percent_decoded(s: Seq<char>) -> Option<Seq<char>>;

/// Relies on `urlencoding::encode`: it keeps ASCII alphanumerics and `-_.~` and
/// writes every other byte as `%XX`, so no `/` is left in the result, and
/// `urlencoding::decode` turns the result back into the input.
#[verifier::external_body]
fn percent_encode(s: &str) -> (r: String)
    ensures
        r@ == percent_encoded(s@),
        !r@.contains('/'),
        percent_decoded(r@) == Some(s@),
{
    urlencoding::encode(s).into_owned()
}

/// Relies on `urlencoding::decode`, which fails only where the decoded bytes are
/// not UTF-8.
#[verifier::external_body]
fn percent_decode(s: &str) -> (r: Option<String>)
    ensures
        match r {
            Some(d) => percent_decoded(s@) == Some(d@),
            None => percent_decoded(s@) is None,
        },
{
    match urlencoding::decode(s) {
        Ok(d) => Some(d.into_owned()),
        Err(_) => None,
    }
}

/// The failures of the address codec.
#[derive(Clone, Copy, Debug, PartialEq, Eq, Structural)]
pub enum AddressError {
    /// The address is not `<scheme>://<host>/<segments>` with a plain host and
    /// canonically encoded segments.
    MalformedAddress,
    /// The path has no component, or a component that cannot stand in a path.
    MalformedPath,
}

/// The fixed scheme prefix of the addresses that paths are turned into.
pub open spec fn scheme() -> Seq<char> {
    seq!['h', 't', 't', 'p', 's', ':', '/', '/']
}

pub open spec fn ascii_letter(c: char) -> bool {
    ('a' <= c && c <= 'z') || ('A' <= c && c <= 'Z')
}

/// A character that a URI scheme may hold.
pub open spec fn scheme_char(c: char) -> bool {
    ascii_letter(c) || ('0' <= c && c <= '9') || c == '+' || c == '-' || c == '.'
}

/// `a` opens with a scheme of `k` characters (a letter, then letters, digits,
/// `+`, `-` or `.`) followed by `://`.
pub open spec fn scheme_at(a: Seq<char>, k: int) -> bool {
    &&& 1 <= k && k + 3 <= a.len()
    &&& ascii_letter(a[0])
    &&& forall|j: int| 0 <= j < k ==> scheme_char(#[trigger] a[j])
    &&& a[k] == ':' && a[k + 1] == '/' && a[k + 2] == '/'
}

/// The length of the scheme that `a` opens with.
pub open spec fn scheme_len(a: Seq<char>) -> int {
    choose|k: int| scheme_at(a, k)
}

/// A host as it stands in a path: a valid component without user info, port,
/// query or fragment.
pub open spec fn valid_host(c: Seq<char>) -> bool {
    &&& valid_component(c)
    &&& !c.contains(':')
    &&& !c.contains('@')
    &&& !c.contains('?')
    &&& !c.contains('#')
}

/// A component that a local path can hold: non-empty, no separator, and not a
/// reference to the current or the parent directory.
pub open spec fn valid_component(c: Seq<char>) -> bool {
    &&& c.len() > 0
    &&& !c.contains('/')
    &&& c != seq!['.']
    &&& c != seq!['.', '.']
}

/// A component whose percent-encoding is a single address segment that decodes
/// back to the component.
pub open spec fn encodable_component(c: Seq<char>) -> bool {
    &&& valid_component(c)
    &&& !percent_encoded(c).contains('/')
    &&& percent_decoded(percent_encoded(c)) == Some(c)
}

/// A well-formed local path: a host followed by encodable components.
pub open spec fn wf_path(p: Seq<Seq<char>>) -> bool {
    &&& p.len() >= 1
    &&& valid_host(p[0])
    &&& forall|i: int| 1 <= i < p.len() ==> encodable_component(#[trigger] p[i])
}

/// The parts joined with `/` between them.
pub open spec fn joined(parts: Seq<Seq<char>>) -> Seq<char>
    decreases parts.len(),
{
    if parts.len() == 0 {
        seq![]
    } else if parts.len() == 1 {
        parts[0]
    } else {
        joined(parts.drop_last()) + seq!['/'] + parts.last()
    }
}

/// No part holds a `/`.
pub open spec fn slash_free(parts: Seq<Seq<char>>) -> bool {
    forall|i: int| 0 <= i < parts.len() ==> !(#[trigger] parts[i]).contains('/')
}

/// The segments of an address: the host, then each component percent-encoded.
pub open spec fn wire_parts(p: Seq<Seq<char>>) -> Seq<Seq<char>> {
    Seq::new(p.len(), |i: int| if i == 0 { p[0] } else { percent_encoded(p[i]) })
}

/// The remote address of a local path.
pub open spec fn address_of(p: Seq<Seq<char>>) -> Seq<char> {
    scheme() + joined(wire_parts(p))
}

/// The pieces of `s` between its `/` characters.
pub open spec fn split_parts(s: Seq<char>) -> Seq<Seq<char>> {
    choose|parts: Seq<Seq<char>>| parts.len() >= 1 && slash_free(parts) && joined(parts) == s
}

/// A segment in canonical encoding of a valid component.
pub open spec fn canonical_segment(s: Seq<char>) -> bool {
    match percent_decoded(s) {
        Some(d) => valid_component(d) && percent_encoded(d) == s,
        None => false,
    }
}

/// The segments of a well-formed address after its scheme (host first).
pub open spec fn address_parts(a: Seq<char>) -> Seq<Seq<char>> {
    split_parts(a.subrange(scheme_len(a) + 3, a.len() as int))
}

/// A well-formed address: a scheme and `://`, a plain host, then canonical
/// segments.
pub open spec fn wf_address(a: Seq<char>) -> bool {
    &&& exists|k: int| scheme_at(a, k)
    &&& valid_host(address_parts(a)[0])
    &&& forall|i: int| 1 <= i < address_parts(a).len() ==> canonical_segment(#[trigger] address_parts(a)[i])
}

/// The local path of a well-formed address: its host, then each segment decoded.
pub open spec fn path_of(a: Seq<char>) -> Seq<Seq<char>> {
    let parts = address_parts(a);
    Seq::new(parts.len(), |i: int| if i == 0 { parts[0] } else { percent_decoded(parts[i])->0 })
}

pub open spec fn string_views(v: Seq<String>) -> Seq<Seq<char>> {
    v.map_values(|s: String| s@)
}

proof fn lemma_joined_push_char(parts: Seq<Seq<char>>, cur: Seq<char>, c: char)
    ensures
        joined(parts.push(cur.push(c))) == joined(parts.push(cur)).push(c),
{
    let a = parts.push(cur.push(c));
    let b = parts.push(cur);
    assert(a.drop_last() == parts);
    assert(b.drop_last() == parts);
    if parts.len() == 0 {
        assert(joined(a) == cur.push(c));
    } else {
        assert(joined(a) == joined(parts) + seq!['/'] + cur.push(c));
        assert(joined(b) == joined(parts) + seq!['/'] + cur);
        assert(joined(a) =~= joined(b).push(c));
    }
}

proof fn lemma_joined_push_empty(parts: Seq<Seq<char>>)
    requires
        parts.len() >= 1,
    ensures
        joined(parts.push(seq![])) == joined(parts).push('/'),
{
    let a = parts.push(seq![]);
    assert(a.drop_last() == parts);
    assert(joined(a) =~= joined(parts).push('/'));
}

proof fn lemma_joined_len(parts: Seq<Seq<char>>)
    requires
        parts.len() >= 2,
    ensures
        joined(parts).len() == joined(parts.drop_last()).len() + 1 + parts.last().len(),
        joined(parts)[joined(parts.drop_last()).len() as int] == '/',
        joined(parts).contains('/'),
{
    let j = joined(parts);
    let k = joined(parts.drop_last()).len() as int;
    assert(j[k] == '/');
}

/// Joining slash-free parts with `/` loses nothing: the parts are recovered.
proof fn lemma_joined_injective(x: Seq<Seq<char>>, y: Seq<Seq<char>>)
    requires
        x.len() >= 1,
        y.len() >= 1,
        slash_free(x),
        slash_free(y),
        joined(x) == joined(y),
    ensures
        x == y,
    decreases x.len() + y.len(),
{
    if x.len() == 1 && y.len() == 1 {
        assert(x =~= y);
    } else if x.len() == 1 {
        lemma_joined_len(y);
        assert(!x[0].contains('/'));
    } else if y.len() == 1 {
        lemma_joined_len(x);
        assert(!y[0].contains('/'));
    } else {
        lemma_joined_len(x);
        lemma_joined_len(y);
        let s = joined(x);
        let xl = x.last();
        let yl = y.last();
        assert(!xl.contains('/'));
        assert(!yl.contains('/'));
        let n = s.len() as int;
        if xl.len() < yl.len() {
            let k = n - xl.len() - 1;
            assert(s[k] == '/');
            assert(s == joined(y.drop_last()) + seq!['/'] + yl);
            assert(yl[k - (n - yl.len())] == s[k]);
            assert(yl.contains('/'));
        } else if yl.len() < xl.len() {
            let k = n - yl.len() - 1;
            assert(s[k] == '/');
            assert(s == joined(x.drop_last()) + seq!['/'] + xl);
            assert(xl[k - (n - xl.len())] == s[k]);
            assert(xl.contains('/'));
        } else {
            let m = n - xl.len() - 1;
            assert(joined(x) == joined(x.drop_last()) + seq!['/'] + xl);
            assert(joined(y) == joined(y.drop_last()) + seq!['/'] + yl);
            assert(xl =~= s.subrange(n - xl.len(), n));
            assert(yl =~= s.subrange(n - yl.len(), n));
            assert(joined(x.drop_last()) =~= s.subrange(0, m));
            assert(joined(y.drop_last()) =~= s.subrange(0, m));
            assert(slash_free(x.drop_last()));
            assert(slash_free(y.drop_last()));
            lemma_joined_injective(x.drop_last(), y.drop_last());
            assert(x =~= x.drop_last().push(xl));
            assert(y =~= y.drop_last().push(yl));
        }
    }
}

/// `split_parts` gives back the parts of any slash-free split.
proof fn lemma_split_parts_of(parts: Seq<Seq<char>>)
    requires
        parts.len() >= 1,
        slash_free(parts),
    ensures
        split_parts(joined(parts)) == parts,
{
    let s = joined(parts);
    let q = split_parts(s);
    assert(parts.len() >= 1 && slash_free(parts) && joined(parts) == s);
    lemma_joined_injective(q, parts);
}


/// A path in the local mirror: a host, then the decoded components of the
/// remote path.
pub struct LocalPath {
    components: Vec<String>,
}

impl View for LocalPath {
    type V = Seq<Seq<char>>;

    closed spec fn view(&self) -> Seq<Seq<char>> {
        string_views(self.components@)
    }
}

impl LocalPath {
    /// Every local path is well formed.
    #[verifier::type_invariant]
    spec fn inv(&self) -> bool {
        wf_path(string_views(self.components@))
    }

    /// Builds a path from its components, host first.
    pub fn new(components: Vec<String>) -> (r: Result<LocalPath, AddressError>)
        ensures
            match r {
                Ok(p) => p@ == string_views(components@) && wf_path(p@),
                Err(e) => e == AddressError::MalformedPath && !wf_path(string_views(components@)),
            },
    {
        let ghost v = string_views(components@);
        if components.len() == 0 {
            return Err(AddressError::MalformedPath);
        }
        if !is_valid_host(components[0].as_str()) {
            return Err(AddressError::MalformedPath);
        }
        let mut i: usize = 1;
        while i < components.len()
            invariant
                1 <= i <= components.len(),
                v == string_views(components@),
                valid_host(v[0]),
                forall|j: int| 1 <= j < i ==> encodable_component(#[trigger] v[j]),
            decreases components.len() - i,
        {
            if !is_valid_component(components[i].as_str()) {
                assert(!encodable_component(v[i as int]));
                return Err(AddressError::MalformedPath);
            }
            // What `percent_encode` guarantees of its result makes the component encodable.
            let _wire = percent_encode(components[i].as_str());
            i = i + 1;
        }
        Ok(LocalPath { components })
    }

    /// The components, host first.
    pub fn components(&self) -> (r: &Vec<String>)
        ensures
            string_views(r@) == self@,
    {
        &self.components
    }

    /// A copy of the path.
    pub fn duplicate(&self) -> (r: LocalPath)
        ensures
            r@ == self@,
    {
        proof {
            use_type_invariant(self);
        }
        let mut components: Vec<String> = Vec::new();
        let mut i: usize = 0;
        while i < self.components.len()
            invariant
                0 <= i <= self.components@.len(),
                string_views(components@) =~= self@.subrange(0, i as int),
            decreases self.components@.len() - i,
        {
            let ghost prev = string_views(components@);
            let c = self.components[i].clone();
            components.push(c);
            assert(string_views(components@) =~= prev.push(self@[i as int]));
            assert(self@.subrange(0, i as int + 1) =~= self@.subrange(0, i as int).push(self@[i as int]));
            i = i + 1;
        }
        assert(self@.subrange(0, self@.len() as int) =~= self@);
        LocalPath { components }
    }

    /// The number of components.
    pub fn len(&self) -> (r: usize)
        ensures
            r == self@.len(),
    {
        self.components.len()
    }

    /// The components joined with `/`, as the path is written relative to the
    /// mirror root.
    pub fn display(&self) -> (r: String)
        ensures
            r@ == joined(self@),
    {
        let mut r = String::new();
        let mut i: usize = 0;
        while i < self.components.len()
            invariant
                0 <= i <= self.components.len(),
                r@ == joined(self@.subrange(0, i as int)),
            decreases self.components.len() - i,
        {
            let ghost pre = self@.subrange(0, i as int);
            let ghost next = self@.subrange(0, i as int + 1);
            assert(next.drop_last() == pre);
            if i > 0 {
                r.append("/");
                proof {
                    reveal_strlit("/");
                }
            }
            r.append(self.components[i].as_str());
            assert(r@ == joined(next));
            i = i + 1;
        }
        assert(self@.subrange(0, self@.len() as int) == self@);
        r
    }
}

fn is_valid_component(c: &str) -> (r: bool)
    ensures
        r == valid_component(c@),
{
    let n = c.unicode_len();
    if n == 0 {
        return false;
    }
    let mut i: usize = 0;
    while i < n
        invariant
            n == c@.len(),
            0 <= i <= n,
            forall|j: int| 0 <= j < i ==> c@[j] != '/',
        decreases n - i,
    {
        if c.get_char(i) == '/' {
            assert(c@.contains('/'));
            return false;
        }
        i = i + 1;
    }
    if n == 1 && c.get_char(0) == '.' {
        assert(c@ =~= seq!['.']);
        return false;
    }
    if n == 2 && c.get_char(0) == '.' && c.get_char(1) == '.' {
        assert(c@ =~= seq!['.', '.']);
        return false;
    }
    assert(c@ != seq!['.']) by {
        if n == 1 {
            assert(seq!['.'][0] == '.');
        }
    }
    assert(c@ != seq!['.', '.']) by {
        if n == 2 {
            assert(seq!['.', '.'][0] == '.');
            assert(seq!['.', '.'][1] == '.');
        }
    }
    true
}

/// A scheme opens an address at one length at most: the first `:`.
proof fn lemma_scheme_unique(a: Seq<char>, k1: int, k2: int)
    requires
        scheme_at(a, k1),
        scheme_at(a, k2),
    ensures
        k1 == k2,
{
    if k1 < k2 {
        assert(scheme_char(a[k1]));
    } else if k2 < k1 {
        assert(scheme_char(a[k2]));
    }
}

fn is_scheme_char(c: char) -> (r: bool)
    ensures
        r == scheme_char(c),
{
    ('a' <= c && c <= 'z') || ('A' <= c && c <= 'Z') || ('0' <= c && c <= '9') || c == '+' || c == '-' || c == '.'
}

/// Where the host of `a` starts, after its scheme and `://`, if `a` opens with
/// a scheme.
fn authority_start(a: &str) -> (r: Option<usize>)
    ensures
        match r {
            Some(s) => s >= 3 && scheme_at(a@, s - 3),
            None => !exists|k: int| scheme_at(a@, k),
        },
{
    let n = a.unicode_len();
    let mut k: usize = 0;
    let mut scanning = true;
    while scanning && k < n
        invariant
            n == a@.len(),
            k <= n,
            forall|j: int| 0 <= j < k ==> scheme_char(#[trigger] a@[j]),
            !scanning ==> k < n && !scheme_char(a@[k as int]),
        decreases n - k + (if scanning { 1int } else { 0int }),
    {
        if is_scheme_char(a.get_char(k)) {
            k = k + 1;
        } else {
            scanning = false;
        }
    }
    let found = k >= 1 && k < n && n - k >= 3 && ascii_letter_at(a, 0) && a.get_char(k) == ':' && a.get_char(k + 1) == '/'
        && a.get_char(k + 2) == '/';
    if found {
        Some(k + 3)
    } else {
        assert forall|k2: int| !scheme_at(a@, k2) by {
            if scheme_at(a@, k2) {
                if k2 < k {
                    assert(scheme_char(a@[k2]));
                } else if k2 > k {
                    assert(scheme_char(a@[k as int]));
                }
            }
        }
        None
    }
}

fn ascii_letter_at(a: &str, i: usize) -> (r: bool)
    requires
        i < a@.len(),
    ensures
        r == ascii_letter(a@[i as int]),
{
    let c = a.get_char(i);
    ('a' <= c && c <= 'z') || ('A' <= c && c <= 'Z')
}

/// Whether `c` holds no `x`.
fn lacks(c: &str, x: char) -> (r: bool)
    ensures
        r == !c@.contains(x),
{
    let n = c.unicode_len();
    let mut i: usize = 0;
    while i < n
        invariant
            n == c@.len(),
            0 <= i <= n,
            forall|j: int| 0 <= j < i ==> c@[j] != x,
        decreases n - i,
    {
        if c.get_char(i) == x {
            assert(c@[i as int] == x);
            return false;
        }
        i = i + 1;
    }
    true
}

fn is_valid_host(c: &str) -> (r: bool)
    ensures
        r == valid_host(c@),
{
    is_valid_component(c) && lacks(c, ':') && lacks(c, '@') && lacks(c, '?') && lacks(c, '#')
}

/// The pieces of `s` from `from` on, cut at each `/`.
fn split_slashes(s: &str, from: usize) -> (parts: Vec<String>)
    requires
        from <= s@.len(),
    ensures
        parts@.len() >= 1,
        slash_free(string_views(parts@)),
        joined(string_views(parts@)) == s@.subrange(from as int, s@.len() as int),
{
    let n = s.unicode_len();
    let mut parts: Vec<String> = Vec::new();
    let mut start: usize = from;
    let mut i: usize = from;
    while i < n
        invariant
            n == s@.len(),
            from <= start <= i <= n,
            slash_free(string_views(parts@)),
            !s@.subrange(start as int, i as int).contains('/'),
            joined(string_views(parts@).push(s@.subrange(start as int, i as int)))
                == s@.subrange(from as int, i as int),
        decreases n - i,
    {
        let ghost cur = s@.subrange(start as int, i as int);
        let ghost old_parts = string_views(parts@);
        let c = s.get_char(i);
        if c == '/' {
            let piece = s.substring_char(start, i).to_owned();
            parts.push(piece);
            assert(string_views(parts@) =~= old_parts.push(cur));
            proof {
                lemma_joined_push_empty(old_parts.push(cur));
                assert(s@.subrange(i as int + 1, i as int + 1) =~= Seq::<char>::empty());
                assert(s@.subrange(from as int, i as int + 1) =~= s@.subrange(from as int, i as int).push('/'));
            }
            start = i + 1;
        } else {
            proof {
                lemma_joined_push_char(old_parts, cur, c);
                assert(s@.subrange(start as int, i as int + 1) =~= cur.push(c));
                assert(s@.subrange(from as int, i as int + 1) =~= s@.subrange(from as int, i as int).push(c));
                assert(!cur.push(c).contains('/')) by {
                    if cur.push(c).contains('/') {
                        let k = choose|k: int| 0 <= k < cur.push(c).len() && cur.push(c)[k] == '/';
                        if k < cur.len() {
                            assert(cur.contains('/'));
                        }
                    }
                }
            }
        }
        i = i + 1;
    }
    let ghost cur = s@.subrange(start as int, n as int);
    let ghost old_parts = string_views(parts@);
    let last = s.substring_char(start, n).to_owned();
    parts.push(last);
    assert(string_views(parts@) =~= old_parts.push(cur));
    parts
}

/// The local path of a remote address: its host, then its segments
/// percent-decoded.
pub fn path(url_str: &str) -> (r: Result<LocalPath, AddressError>)
    ensures
        r is Ok <==> wf_address(url_str@),
        match r {
            Ok(p) => p@ == path_of(url_str@) && wf_path(p@),
            Err(e) => e == AddressError::MalformedAddress,
        },
{
    let start = match authority_start(url_str) {
        Some(s) => s,
        None => {
            return Err(AddressError::MalformedAddress);
        },
    };
    proof {
        lemma_scheme_unique(url_str@, start - 3, scheme_len(url_str@));
    }
    let parts = split_slashes(url_str, start);
    let ghost pv = string_views(parts@);
    proof {
        lemma_split_parts_of(pv);
    }
    assert(address_parts(url_str@) == pv);
    if !is_valid_host(parts[0].as_str()) {
        return Err(AddressError::MalformedAddress);
    }
    let mut components: Vec<String> = Vec::new();
    components.push(parts[0].clone());
    let mut i: usize = 1;
    while i < parts.len()
        invariant
            pv == string_views(parts@),
            pv == address_parts(url_str@),
            1 <= i <= parts.len(),
            components@.len() == i,
            valid_host(pv[0]),
            forall|j: int| 1 <= j < i ==> canonical_segment(#[trigger] pv[j]),
            string_views(components@) =~= path_of(url_str@).subrange(0, i as int),
        decreases parts.len() - i,
    {
        let decoded = percent_decode(parts[i].as_str());
        match decoded {
            None => {
                assert(!canonical_segment(pv[i as int]));
                return Err(AddressError::MalformedAddress);
            },
            Some(d) => {
                if !is_valid_component(d.as_str()) {
                    assert(!canonical_segment(pv[i as int]));
                    return Err(AddressError::MalformedAddress);
                }
                let wire = percent_encode(d.as_str());
                if wire != parts[i] {
                    assert(!canonical_segment(pv[i as int]));
                    return Err(AddressError::MalformedAddress);
                }
                components.push(d);
            },
        }
        i = i + 1;
    }
    let ghost pp = string_views(components@);
    assert(pp =~= path_of(url_str@));
    assert forall|j: int| 1 <= j < pp.len() implies encodable_component(#[trigger] pp[j]) by {
        assert(canonical_segment(pv[j]));
    }
    Ok(LocalPath { components })
}

/// The remote address of a local path: the fixed scheme, the host, then each
/// further component percent-encoded, all joined with `/`.
pub fn url(path: &LocalPath) -> (r: String)
    ensures
        r@ == address_of(path@),
{
    proof {
        use_type_invariant(path);
    }
    let ghost p = path@;
    let ghost w = wire_parts(p);
    let mut r = String::from_str("https://");
    proof {
        reveal_strlit("https://");
    }
    r.append(path.components[0].as_str());
    assert(w.subrange(0, 1) =~= seq![p[0]]);
    assert(r@ =~= scheme() + joined(w.subrange(0, 1)));
    let mut i: usize = 1;
    while i < path.components.len()
        invariant
            p == path@,
            w == wire_parts(p),
            wf_path(p),
            1 <= i <= p.len(),
            r@ =~= scheme() + joined(w.subrange(0, i as int)),
        decreases p.len() - i,
    {
        let seg = percent_encode(path.components[i].as_str());
        r.append("/");
        proof {
            reveal_strlit("/");
        }
        r.append(seg.as_str());
        assert(w.subrange(0, i as int + 1).drop_last() =~= w.subrange(0, i as int));
        assert(w.subrange(0, i as int + 1).last() == seg@);
        i = i + 1;
    }
    assert(w.subrange(0, p.len() as int) =~= w);
    r
}

/// Every string splits at its `/` characters into slash-free pieces.
proof fn lemma_split_exists(s: Seq<char>)
    ensures
        exists|parts: Seq<Seq<char>>| parts.len() >= 1 && slash_free(parts) && joined(parts) == s,
    decreases s.len(),
{
    if s.len() == 0 {
        let parts = seq![Seq::<char>::empty()];
        assert(joined(parts) == s);
    } else {
        let t = s.drop_last();
        let c = s.last();
        lemma_split_exists(t);
        let q = choose|parts: Seq<Seq<char>>| parts.len() >= 1 && slash_free(parts) && joined(parts) == t;
        let front = q.drop_last();
        let cur = q.last();
        assert(q =~= front.push(cur));
        assert(s =~= t.push(c));
        if c == '/' {
            lemma_joined_push_empty(q);
            let parts = q.push(Seq::<char>::empty());
            assert(slash_free(parts));
            assert(joined(parts) == s);
        } else {
            lemma_joined_push_char(front, cur, c);
            let parts = front.push(cur.push(c));
            assert(!cur.contains('/'));
            assert(!cur.push(c).contains('/')) by {
                if cur.push(c).contains('/') {
                    let k = choose|k: int| 0 <= k < cur.push(c).len() && cur.push(c)[k] == '/';
                    assert(cur[k] == '/');
                }
            }
            assert forall|i: int| 0 <= i < parts.len() implies !(#[trigger] parts[i]).contains('/') by {
                if i < front.len() {
                    assert(parts[i] == q[i]);
                }
            }
            assert(joined(parts) == s);
        }
    }
}

/// Decoding the address of a well-formed local path gives the path back.
pub proof fn lemma_path_of_address(p: Seq<Seq<char>>)
    requires
        wf_path(p),
    ensures
        wf_address(address_of(p)),
        path_of(address_of(p)) == p,
{
    let a = address_of(p);
    let w = wire_parts(p);
    assert(slash_free(w)) by {
        assert forall|i: int| 0 <= i < w.len() implies !(#[trigger] w[i]).contains('/') by {
            if i > 0 {
                assert(encodable_component(p[i]));
            }
        }
    }
    lemma_split_parts_of(w);
    assert(scheme_at(a, 5));
    lemma_scheme_unique(a, 5, scheme_len(a));
    assert(a.subrange(8, a.len() as int) =~= joined(w));
    assert(address_parts(a) == w);
    assert forall|i: int| 1 <= i < address_parts(a).len() implies canonical_segment(#[trigger] address_parts(a)[i]) by {
        assert(encodable_component(p[i]));
    }
    assert(path_of(a) =~= p) by {
        assert forall|i: int| 1 <= i < p.len() implies path_of(a)[i] == p[i] by {
            assert(encodable_component(p[i]));
        }
    }
}

/// The address of the path of a well-formed address has the same host and the
/// same decoded segments; for an `https` address it is the address itself.
pub proof fn lemma_address_of_path(a: Seq<char>)
    requires
        wf_address(a),
    ensures
        wf_path(path_of(a)),
        wf_address(address_of(path_of(a))),
        path_of(address_of(path_of(a))) == path_of(a),
        a.len() >= 8 && a.subrange(0, 8) == scheme() ==> address_of(path_of(a)) == a,
{
    let k = scheme_len(a);
    let rest = a.subrange(k + 3, a.len() as int);
    lemma_split_exists(rest);
    let parts = address_parts(a);
    let p = path_of(a);
    assert(parts.len() >= 1 && slash_free(parts) && joined(parts) == rest);
    assert forall|i: int| 1 <= i < p.len() implies encodable_component(#[trigger] p[i]) by {
        assert(canonical_segment(parts[i]));
        assert(!parts[i].contains('/'));
    }
    assert(wire_parts(p) =~= parts) by {
        assert forall|i: int| 1 <= i < p.len() implies wire_parts(p)[i] == parts[i] by {
            assert(canonical_segment(parts[i]));
        }
    }
    lemma_path_of_address(p);
    if a.len() >= 8 && a.subrange(0, 8) == scheme() {
        assert(scheme_at(a, 5));
        lemma_scheme_unique(a, 5, k);
        assert(a =~= scheme() + rest);
    }
}

} // verus!
