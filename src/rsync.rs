//! rsync URIs.

use vstd::prelude::*;
use vstd::string::StringSliceAdditionalSpecFns;

verus! {

/// Whether a byte may stand in an rsync URI: no control character, no space,
/// none of the punctuation that RFC 3986 excludes or reserves for delimiting
/// (quote, hash, angle brackets, question mark, square brackets, backslash,
/// caret, backtick, braces and bar), and nothing at or above 0x7F.
pub open spec fn uri_char(ch: u8) -> bool {
    &&& ch > 0x20
    &&& ch != 0x22 && ch != 0x23 && ch != 0x3C && ch != 0x3E
    &&& ch != 0x3F && ch != 0x5B && ch != 0x5C && ch != 0x5D
    &&& ch != 0x5E && ch != 0x60 && ch != 0x7B && ch != 0x7C
    &&& ch != 0x7D && ch < 0x7F
}

/// Every byte of `s` may stand in an rsync URI.
pub open spec fn uri_ascii(s: Seq<u8>) -> bool {
    forall|i: int| 0 <= i < s.len() ==> uri_char(#[trigger] s[i])
}

fn is_uri_char(ch: u8) -> (r: bool)
    ensures
        r == uri_char(ch),
{
    ch > 0x20 && ch != 0x22 && ch != 0x23 && ch != 0x3C && ch != 0x3E
        && ch != 0x3F && ch != 0x5B && ch != 0x5C && ch != 0x5D
        && ch != 0x5E && ch != 0x60 && ch != 0x7B && ch != 0x7C
        && ch != 0x7D && ch < 0x7F
}

/// Checks that every byte of `slice` is allowed in an rsync URI.
pub fn is_uri_ascii(slice: &[u8]) -> (r: bool)
    ensures
        r == uri_ascii(slice@),
{
    let mut i: usize = 0;
    while i < slice.len()
        invariant
            i <= slice@.len(),
            uri_ascii(slice@.subrange(0, i as int)),
        decreases slice@.len() - i,
    {
        if !is_uri_char(slice[i]) {
            return false;
        }
        assert(slice@.subrange(0, i + 1) =~= slice@.subrange(0, i as int).push(slice@[i as int]));
        i = i + 1;
    }
    assert(slice@.subrange(0, i as int) =~= slice@);
    true
}


/// The bytes `rsync://`.
pub open spec fn scheme() -> Seq<u8> {
    seq![0x72u8, 0x73, 0x79, 0x6E, 0x63, 0x3A, 0x2F, 0x2F]
}

/// The text that ASCII bytes spell.
pub open spec fn ascii_text(s: Seq<u8>) -> Seq<char> {
    s.map_values(|b: u8| b as char)
}

/// Where the first `/` of `s` stands, or the length of `s` if none does.
pub open spec fn slash_pos(s: Seq<u8>) -> int
    decreases s.len(),
{
    if s.len() == 0 {
        0
    } else if s[0] == 0x2F {
        0
    } else {
        1 + slash_pos(s.drop_first())
    }
}

/// The length of the last `/`-delimited segment of `s`.
pub open spec fn last_segment_len(s: Seq<u8>) -> int
    decreases s.len(),
{
    if s.len() == 0 {
        0
    } else if s.last() == 0x2F {
        0
    } else {
        1 + last_segment_len(s.drop_last())
    }
}

/// What parsing `b` as an rsync URI gives: authority, module and path.
pub open spec fn parse_uri(b: Seq<u8>) -> Result<(Seq<u8>, Seq<u8>, Seq<u8>), UriError> {
    if !uri_ascii(b) {
        Err(UriError::NotAscii)
    } else if !(b.len() >= 8 && b.take(8) == scheme()) {
        Err(UriError::BadScheme)
    } else {
        let rest = b.skip(8);
        let i = slash_pos(rest);
        if i == rest.len() {
            Err(UriError::BadUri)
        } else {
            let tail = rest.skip(i + 1);
            let j = slash_pos(tail);
            if j == tail.len() {
                Ok((rest.take(i), tail, Seq::empty()))
            } else {
                Ok((rest.take(i), tail.take(j), tail.skip(j + 1)))
            }
        }
    }
}

/// The text form of a URI: `rsync://`, authority, `/`, module, `/`, then
/// the path.
pub open spec fn uri_bytes(authority: Seq<u8>, module: Seq<u8>, path: Seq<u8>) -> Seq<u8> {
    scheme() + authority + seq![0x2Fu8] + module + seq![0x2Fu8] + path
}

/// The path after appending `rel` to `path`, with one separating `/`
/// where `path` is not empty and does not end in one.
pub open spec fn joined(path: Seq<u8>, rel: Seq<u8>) -> Seq<u8> {
    if path.len() == 0 {
        rel
    } else if path.last() == 0x2F {
        path + rel
    } else {
        path + seq![0x2Fu8] + rel
    }
}

/// The path one segment up, or none at the module root.
pub open spec fn parent_path(path: Seq<u8>) -> Option<Seq<u8>> {
    let tail = last_segment_len(path);
    if path.len() == 0 {
        None
    } else if tail == path.len() {
        Some(Seq::empty())
    } else {
        Some(path.take(path.len() - tail - 1))
    }
}

proof fn lemma_slash_pos(s: Seq<u8>, i: int)
    requires
        0 <= i <= s.len(),
        forall|j: int| 0 <= j < i ==> s[j] != 0x2F,
        i == s.len() || s[i] == 0x2F,
    ensures
        slash_pos(s) == i,
    decreases i,
{
    if i > 0 {
        lemma_slash_pos(s.drop_first(), i - 1);
    }
}

proof fn lemma_last_segment_len(s: Seq<u8>, k: int)
    requires
        0 <= k <= s.len(),
        forall|j: int| s.len() - k <= j < s.len() ==> s[j] != 0x2F,
        k == s.len() || s[s.len() - k - 1] == 0x2F,
    ensures
        last_segment_len(s) == k,
    decreases k,
{
    if k > 0 {
        lemma_last_segment_len(s.drop_last(), k - 1);
    }
}

proof fn lemma_last_segment_bound(s: Seq<u8>)
    ensures
        0 <= last_segment_len(s) <= s.len(),
        last_segment_len(s) < s.len() ==> s[s.len() - last_segment_len(s) - 1] == 0x2F,
    decreases s.len(),
{
    if s.len() > 0 && s.last() != 0x2F {
        lemma_last_segment_bound(s.drop_last());
    }
}

/// The first position at or after `from` in `s` that holds a `/`, or the
/// length of `s`.
fn find_slash(s: &[u8], from: usize) -> (r: usize)
    requires
        from <= s@.len(),
    ensures
        from <= r <= s@.len(),
        slash_pos(s@.skip(from as int)) == r - from,
{
    let mut i: usize = from;
    while i < s.len() && s[i] != 0x2F
        invariant
            from <= i <= s@.len(),
            forall|j: int| from <= j < i ==> s@[j] != 0x2F,
        decreases s@.len() - i,
    {
        i = i + 1;
    }
    proof {
        lemma_slash_pos(s@.skip(from as int), i - from);
    }
    i
}

/// A copy of `s[from..to]`.
pub(crate) fn copy_range(s: &[u8], from: usize, to: usize) -> (r: Vec<u8>)
    requires
        from <= to <= s@.len(),
    ensures
        r@ == s@.subrange(from as int, to as int),
{
    let mut r: Vec<u8> = Vec::new();
    let mut i: usize = from;
    while i < to
        invariant
            from <= i <= to <= s@.len(),
            r@ == s@.subrange(from as int, i as int),
        decreases to - i,
    {
        r.push(s[i]);
        assert(r@ =~= s@.subrange(from as int, i + 1));
        i = i + 1;
    }
    r
}

/// Appends all of `s` to `out`.
fn push_all(out: &mut Vec<u8>, s: &[u8])
    ensures
        final(out)@ == old(out)@ + s@,
{
    let mut i: usize = 0;
    while i < s.len()
        invariant
            i <= s@.len(),
            out@ == old(out)@ + s@.take(i as int),
        decreases s@.len() - i,
    {
        out.push(s[i]);
        assert(s@.take(i + 1) =~= s@.take(i as int).push(s@[i as int]));
        assert(out@ =~= old(out)@ + s@.take(i + 1));
        i = i + 1;
    }
    assert(s@.take(s@.len() as int) =~= s@);
}

/// Relies on `String::from_utf8`: bytes below 0x80 are valid UTF-8, and
/// each stands for the character of the same code.
#[verifier::external_body]
fn ascii_string(bytes: Vec<u8>) -> (r: String)
    requires
        forall|i: int| 0 <= i < bytes@.len() ==> bytes@[i] < 0x80,
    ensures
        r@ == ascii_text(bytes@),
{
    String::from_utf8(bytes).unwrap_or_default()
}

/// The text of URI-safe bytes.
fn text_of(s: &[u8]) -> (r: String)
    requires
        uri_ascii(s@),
    ensures
        r@ == ascii_text(s@),
{
    let mut v: Vec<u8> = Vec::new();
    push_all(&mut v, s);
    assert(v@ =~= s@);
    ascii_string(v)
}

//------------ Laws ----------------------------------------------------------

/// Parsing the text form of a URI whose authority and module hold no `/`
/// gives back its authority, module and path: formatting what `from_bytes`
/// returns for such a text gives the text again.
pub proof fn lemma_round_trip(authority: Seq<u8>, module: Seq<u8>, path: Seq<u8>)
    requires
        uri_ascii(authority),
        uri_ascii(module),
        uri_ascii(path),
        forall|i: int| 0 <= i < authority.len() ==> authority[i] != 0x2F,
        forall|i: int| 0 <= i < module.len() ==> module[i] != 0x2F,
    ensures
        parse_uri(uri_bytes(authority, module, path)) == Ok::<_, UriError>(
            (authority, module, path),
        ),
{
    let b = uri_bytes(authority, module, path);
    let la = authority.len() as int;
    let lm = module.len() as int;
    assert forall|i: int| 0 <= i < b.len() implies uri_char(#[trigger] b[i]) by {
        if i < 8 {
            assert(b[i] == scheme()[i]);
        } else if i < 8 + la {
            assert(b[i] == authority[i - 8]);
        } else if i == 8 + la {
        } else if i < 9 + la + lm {
            assert(b[i] == module[i - 9 - la]);
        } else if i == 9 + la + lm {
        } else {
            assert(b[i] == path[i - 10 - la - lm]);
        }
    }
    assert(b.take(8) =~= scheme());
    let rest = b.skip(8);
    assert(rest =~= authority + seq![0x2Fu8] + module + seq![0x2Fu8] + path);
    assert forall|j: int| 0 <= j < la implies rest[j] != 0x2F by {
        assert(rest[j] == authority[j]);
    }
    lemma_slash_pos(rest, la);
    let tail = rest.skip(la + 1);
    assert(tail =~= module + seq![0x2Fu8] + path);
    assert forall|j: int| 0 <= j < lm implies tail[j] != 0x2F by {
        assert(tail[j] == module[j]);
    }
    lemma_slash_pos(tail, lm);
    assert(rest.take(la) =~= authority);
    assert(tail.take(lm) =~= module);
    assert(tail.skip(lm + 1) =~= path);
}

/// Any forbidden byte makes parsing fail with `NotAscii`.
pub proof fn lemma_forbidden_byte(b: Seq<u8>, i: int)
    requires
        0 <= i < b.len(),
        !uri_char(b[i]),
    ensures
        parse_uri(b) == Err::<(Seq<u8>, Seq<u8>, Seq<u8>), UriError>(UriError::NotAscii),
{
}

/// Without the `rsync://` prefix, parsing clean bytes fails with
/// `BadScheme`.
pub proof fn lemma_missing_scheme(b: Seq<u8>)
    requires
        uri_ascii(b),
        !(b.len() >= 8 && b.take(8) == scheme()),
    ensures
        parse_uri(b) == Err::<(Seq<u8>, Seq<u8>, Seq<u8>), UriError>(UriError::BadScheme),
{
}

/// Without a `/` after the authority, parsing fails with `BadUri`.
pub proof fn lemma_missing_module(b: Seq<u8>)
    requires
        uri_ascii(b),
        b.len() >= 8 && b.take(8) == scheme(),
        forall|i: int| 8 <= i < b.len() ==> b[i] != 0x2F,
    ensures
        parse_uri(b) == Err::<(Seq<u8>, Seq<u8>, Seq<u8>), UriError>(UriError::BadUri),
{
    let rest = b.skip(8);
    assert forall|j: int| 0 <= j < rest.len() implies rest[j] != 0x2F by {
        assert(rest[j] == b[j + 8]);
    }
    lemma_slash_pos(rest, rest.len() as int);
}

/// The module root has no parent; one segment joined to a path that does
/// not end in `/` is undone by going to the parent.
pub proof fn lemma_join_parent(path: Seq<u8>, segment: Seq<u8>)
    requires
        segment.len() > 0,
        forall|i: int| 0 <= i < segment.len() ==> segment[i] != 0x2F,
        !(path.len() > 0 && path.last() == 0x2F),
    ensures
        parent_path(Seq::empty()) is None,
        parent_path(joined(path, segment)) == Some(path),
{
    let j = joined(path, segment);
    let k = segment.len() as int;
    assert forall|x: int| j.len() - k <= x < j.len() implies j[x] != 0x2F by {
        assert(j[x] == segment[x - (j.len() - k)]);
    }
    lemma_last_segment_len(j, k);
    if path.len() > 0 {
        assert(j.take(j.len() - k - 1) =~= path);
    }
}

//------------ Uri -----------------------------------------------------------

/// An rsync URI: a module and a path relative to its root.
///
/// A simplified form of the rsync URI of RFC 5781: only absolute URIs with
/// an authority, checked for structure and forbidden bytes only. The path
/// is kept as given, never normalised.
#[derive(Clone, Debug, PartialEq, Eq, Hash)]
pub struct Uri {
    module: Module,
    path: Vec<u8>,
}

impl View for Uri {
    /// Authority, module and path.
    type V = (Seq<u8>, Seq<u8>, Seq<u8>);

    closed spec fn view(&self) -> (Seq<u8>, Seq<u8>, Seq<u8>) {
        (self.module@.0, self.module@.1, self.path@)
    }
}

impl Uri {
    /// No part holds a forbidden byte.
    pub open spec fn wf(&self) -> bool {
        uri_ascii(self@.0) && uri_ascii(self@.1) && uri_ascii(self@.2)
    }

    /// The URI of `path` relative to the root of `module`.
    pub fn new(module: Module, path: Vec<u8>) -> (r: Uri)
        requires
            uri_ascii(path@),
        ensures
            r@ == (module@.0, module@.1, path@),
    {
        Uri { module, path }
    }

    /// Parses a URI from a copy of `slice`.
    pub fn from_slice(slice: &[u8]) -> (r: Result<Uri, UriError>)
        ensures
            match r {
                Ok(u) => parse_uri(slice@) == Ok::<_, UriError>(u@) && u.wf(),
                Err(e) => parse_uri(slice@) == Err::<(Seq<u8>, Seq<u8>, Seq<u8>), UriError>(e),
            },
    {
        let bytes = copy_range(slice, 0, slice.len());
        assert(bytes@ =~= slice@);
        Self::from_bytes(bytes)
    }

    /// Parses `rsync://authority/module/path`.
    ///
    /// Fails with `NotAscii` if any byte is forbidden, with `BadScheme`
    /// without the `rsync://` prefix, and with `BadUri` if no `/` follows
    /// the authority. Without a `/` after the module the path is empty.
    pub fn from_bytes(bytes: Vec<u8>) -> (r: Result<Uri, UriError>)
        ensures
            match r {
                Ok(u) => parse_uri(bytes@) == Ok::<_, UriError>(u@) && u.wf(),
                Err(e) => parse_uri(bytes@) == Err::<(Seq<u8>, Seq<u8>, Seq<u8>), UriError>(e),
            },
    {
        if !is_uri_ascii(bytes.as_slice()) {
            return Err(UriError::NotAscii);
        }
        let b = bytes.as_slice();
        if b.len() < 8 || b[0] != 0x72 || b[1] != 0x73 || b[2] != 0x79 || b[3] != 0x6E
            || b[4] != 0x63 || b[5] != 0x3A || b[6] != 0x2F || b[7] != 0x2F {
            proof {
                if b@.len() >= 8 && b@.take(8) == scheme() {
                    assert(b@.take(8)[0] == scheme()[0]);
                    assert(b@.take(8)[1] == scheme()[1]);
                    assert(b@.take(8)[2] == scheme()[2]);
                    assert(b@.take(8)[3] == scheme()[3]);
                    assert(b@.take(8)[4] == scheme()[4]);
                    assert(b@.take(8)[5] == scheme()[5]);
                    assert(b@.take(8)[6] == scheme()[6]);
                    assert(b@.take(8)[7] == scheme()[7]);
                }
            }
            return Err(UriError::BadScheme);
        }
        assert(b@.take(8) =~= scheme());
        let ghost rest = b@.skip(8);
        let i = find_slash(b, 8);
        assert(b@.skip(8) =~= rest);
        if i == b.len() {
            return Err(UriError::BadUri);
        }
        let j = find_slash(b, i + 1);
        assert(rest.skip(i - 8 + 1) =~= b@.skip(i + 1));
        let authority = copy_range(b, 8, i);
        assert(authority@ =~= rest.take(i - 8));
        let module;
        let path;
        if j == b.len() {
            module = copy_range(b, i + 1, j);
            path = Vec::new();
            assert(module@ =~= rest.skip(i - 8 + 1));
        } else {
            module = copy_range(b, i + 1, j);
            path = copy_range(b, j + 1, b.len());
            assert(module@ =~= rest.skip(i - 8 + 1).take(j - i - 1));
            assert(path@ =~= rest.skip(i - 8 + 1).skip(j - i));
        }
        assert(uri_ascii(authority@));
        assert(uri_ascii(module@));
        assert(uri_ascii(path@));
        Ok(Uri { module: Module { authority, module }, path })
    }

    /// The module this URI lies in.
    pub fn module(&self) -> (r: &Module)
        ensures
            r@ == (self@.0, self@.1),
    {
        &self.module
    }

    /// A copy of the module this URI lies in.
    pub fn to_module(&self) -> (r: Module)
        ensures
            r@ == (self@.0, self@.1),
    {
        self.module.copy()
    }

    /// The path, relative to the module root.
    pub fn path(&self) -> (r: String)
        requires
            self.wf(),
        ensures
            r@ == ascii_text(self@.2),
    {
        text_of(self.path.as_slice())
    }

    /// The text form, `rsync://authority/module/path`.
    pub fn to_string(&self) -> (r: String)
        requires
            self.wf(),
        ensures
            r@ == ascii_text(uri_bytes(self@.0, self@.1, self@.2)),
    {
        let mut v = self.module.text_bytes();
        push_all(&mut v, self.path.as_slice());
        proof {
            assert(v@ =~= uri_bytes(self@.0, self@.1, self@.2));
            assert forall|i: int| 0 <= i < v@.len() implies v@[i] < 0x80 by {
                if i >= 8 + self@.0.len() + 1 + self@.1.len() + 1 {
                    assert(uri_char(self@.2[i - (8 + self@.0.len() + 1 + self@.1.len() + 1)]));
                } else if i >= 8 + self@.0.len() + 1 {
                    if i < 8 + self@.0.len() + 1 + self@.1.len() {
                        assert(uri_char(self@.1[i - (8 + self@.0.len() + 1)]));
                    }
                } else if i >= 8 && i < 8 + self@.0.len() {
                    assert(uri_char(self@.0[i - 8]));
                }
            }
        }
        ascii_string(v)
    }

    /// This URI one path segment up, or none at the module root.
    pub fn parent(&self) -> (r: Option<Uri>)
        requires
            self.wf(),
        ensures
            match r {
                None => parent_path(self@.2) is None,
                Some(p) => parent_path(self@.2) == Some(p@.2) && p@.0 == self@.0 && p@.1
                    == self@.1 && p.wf(),
            },
    {
        let len = self.path.len();
        if len == 0 {
            return None;
        }
        let mut k: usize = 0;
        while k < len && self.path[len - 1 - k] != 0x2F
            invariant
                k <= len == self.path@.len(),
                forall|j: int| len - k <= j < len ==> self.path@[j] != 0x2F,
            decreases len - k,
        {
            k = k + 1;
        }
        proof {
            lemma_last_segment_len(self.path@, k as int);
        }
        let path = if k == len {
            Vec::new()
        } else {
            copy_range(self.path.as_slice(), 0, len - k - 1)
        };
        assert(path@ =~= parent_path(self@.2)->0);
        Some(Uri { module: self.module.copy(), path })
    }

    /// This URI with `path` appended to its path.
    pub fn join(&self, path: &[u8]) -> (r: Uri)
        requires
            self.wf(),
            uri_ascii(path@),
        ensures
            r@ == (self@.0, self@.1, joined(self@.2, path@)),
            r.wf(),
    {
        let mut res: Vec<u8> = Vec::new();
        if self.path.len() > 0 {
            push_all(&mut res, self.path.as_slice());
            if self.path[self.path.len() - 1] != 0x2F {
                res.push(0x2F);
            }
        }
        push_all(&mut res, path);
        assert(res@ =~= joined(self@.2, path@));
        proof {
            assert forall|i: int| 0 <= i < res@.len() implies uri_char(#[trigger] res@[i]) by {
                if i >= res@.len() - path@.len() {
                    assert(uri_char(path@[i - (res@.len() - path@.len())]));
                } else if i < self@.2.len() {
                    assert(uri_char(self@.2[i]));
                }
            }
        }
        Uri { module: self.module.copy(), path: res }
    }

    /// Whether the path ends in the bytes of `extension`.
    pub fn ends_with(&self, extension: &str) -> (r: bool)
        ensures
            r == (extension.spec_bytes().len() <= self@.2.len() && self@.2.skip(
                self@.2.len() - extension.spec_bytes().len(),
            ) == extension.spec_bytes()),
    {
        let e = extension.as_bytes();
        let n = self.path.len();
        assert(self@.2 == self.path@);
        assert(e@ == extension.spec_bytes());
        if e.len() > n {
            return false;
        }
        let off = n - e.len();
        let mut i: usize = 0;
        while i < e.len()
            invariant
                i <= e@.len(),
                off + e@.len() == n == self.path@.len(),
                e@ == extension.spec_bytes(),
                self@.2 == self.path@,
                forall|j: int| 0 <= j < i ==> self.path@[off + j] == e@[j],
            decreases e@.len() - i,
        {
            if self.path[off + i] != e[i] {
                assert(self@.2.skip(off as int)[i as int] != e@[i as int]);
                assert(self@.2.skip(off as int) != e@);
                return false;
            }
            i = i + 1;
        }
        assert(self@.2.skip(off as int) =~= e@);
        true
    }
}

//------------ Module --------------------------------------------------------

/// An rsync module: an authority and a module name.
#[derive(Clone, Debug, PartialEq, Eq, Hash)]
pub struct Module {
    authority: Vec<u8>,
    module: Vec<u8>,
}

impl View for Module {
    /// Authority and module name.
    type V = (Seq<u8>, Seq<u8>);

    closed spec fn view(&self) -> (Seq<u8>, Seq<u8>) {
        (self.authority@, self.module@)
    }
}

impl Module {
    /// The module `module` at `authority`, neither holding a forbidden
    /// byte.
    pub fn new(authority: Vec<u8>, module: Vec<u8>) -> (r: Module)
        requires
            uri_ascii(authority@),
            uri_ascii(module@),
        ensures
            r@ == (authority@, module@),
    {
        Module { authority, module }
    }

    fn copy(&self) -> (r: Module)
        ensures
            r@ == self@,
    {
        Module {
            authority: copy_range(self.authority.as_slice(), 0, self.authority.len()),
            module: copy_range(self.module.as_slice(), 0, self.module.len()),
        }
    }

    /// The URI of the module root.
    pub fn to_uri(&self) -> (r: Uri)
        ensures
            r@ == (self@.0, self@.1, Seq::<u8>::empty()),
    {
        Uri { module: self.copy(), path: Vec::new() }
    }

    /// `rsync://authority/module/` as bytes.
    fn text_bytes(&self) -> (r: Vec<u8>)
        ensures
            r@ == uri_bytes(self@.0, self@.1, Seq::empty()),
    {
        let mut v: Vec<u8> = Vec::new();
        v.push(0x72);
        v.push(0x73);
        v.push(0x79);
        v.push(0x6E);
        v.push(0x63);
        v.push(0x3A);
        v.push(0x2F);
        v.push(0x2F);
        push_all(&mut v, self.authority.as_slice());
        v.push(0x2F);
        push_all(&mut v, self.module.as_slice());
        v.push(0x2F);
        assert(v@ =~= uri_bytes(self@.0, self@.1, Seq::empty()));
        v
    }

    /// The text form, `rsync://authority/module/`.
    pub fn to_string(&self) -> (r: String)
        requires
            uri_ascii(self@.0),
            uri_ascii(self@.1),
        ensures
            r@ == ascii_text(uri_bytes(self@.0, self@.1, Seq::empty())),
    {
        let v = self.text_bytes();
        proof {
            assert forall|i: int| 0 <= i < v@.len() implies v@[i] < 0x80 by {
                if i >= 8 + self@.0.len() + 1 && i < 8 + self@.0.len() + 1 + self@.1.len() {
                    assert(uri_char(self@.1[i - (8 + self@.0.len() + 1)]));
                } else if i >= 8 && i < 8 + self@.0.len() {
                    assert(uri_char(self@.0[i - 8]));
                }
            }
        }
        ascii_string(v)
    }

    /// The authority, host and optional port.
    pub fn authority(&self) -> (r: String)
        requires
            uri_ascii(self@.0),
        ensures
            r@ == ascii_text(self@.0),
    {
        text_of(self.authority.as_slice())
    }

    /// The module name.
    pub fn module(&self) -> (r: String)
        requires
            uri_ascii(self@.1),
        ensures
            r@ == ascii_text(self@.1),
    {
        text_of(self.module.as_slice())
    }
}

//------------ UriError ------------------------------------------------------

#[derive(Clone, Copy, Debug, PartialEq, Eq, Structural)]
pub enum UriError {
    NotAscii,
    BadUri,
    BadScheme,
}

} // verus!
