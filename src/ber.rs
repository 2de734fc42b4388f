//! A cursor over BER encoded values.
//!
//! Values have a one-byte tag (low tag numbers only) and a definite length
//! in short form or in long form of one to eight bytes.

use vstd::prelude::*;
use vstd::slice::{slice_subrange, slice_to_vec};

verus! {

/// An encoding error.
#[derive(Clone, Copy, Debug, PartialEq, Eq, Structural)]
pub enum Error {
    Malformed,
}

pub const SEQUENCE: u8 = 0x30;
pub const OID: u8 = 0x06;
pub const NULL: u8 = 0x05;
pub const BIT_STRING: u8 = 0x03;
pub const UTC_TIME: u8 = 0x17;
pub const GENERALIZED_TIME: u8 = 0x18;

/// The unsigned big-endian number that the bytes `s` spell.
pub open spec fn be_value(s: Seq<u8>) -> int
    decreases s.len(),
{
    if s.len() == 0 {
        0
    } else {
        be_value(s.drop_last()) * 256 + s.last() as int
    }
}

/// The header of the value at the start of `s`: its tag, the length of
/// the header and the length of the content, all of which `s` holds.
pub open spec fn header(s: Seq<u8>) -> Option<(u8, int, int)> {
    if s.len() < 2 || s[0] % 32 == 31 {
        None
    } else {
        let (h, l) = if s[1] < 0x80 {
            (2int, s[1] as int)
        } else if 0x81 <= s[1] <= 0x88 && s.len() >= 2 + (s[1] - 0x80) {
            let n = s[1] - 0x80;
            (2 + n, be_value(s.subrange(2, 2 + n)))
        } else {
            (0int, -1int)
        };
        if l >= 0 && h + l <= s.len() {
            Some((s[0], h, l))
        } else {
            None
        }
    }
}

proof fn lemma_be_value_prefix(s: Seq<u8>, k: int)
    requires
        0 <= k <= s.len(),
    ensures
        0 <= be_value(s.take(k)) <= be_value(s),
    decreases s.len(),
{
    if s.len() > 0 {
        lemma_be_value_prefix(s.drop_last(), if k == s.len() {
            k - 1
        } else {
            k
        });
        if k < s.len() {
            assert(s.take(k) =~= s.drop_last().take(k));
        } else {
            assert(s.take(k) =~= s);
            assert(s.drop_last().take(k - 1) =~= s.drop_last());
        }
    }
}

/// The value at the start of `s`: its tag, its content, and what follows.
pub open spec fn tlv(s: Seq<u8>) -> Option<(u8, Seq<u8>, Seq<u8>)> {
    match header(s) {
        Some((t, h, l)) => Some((t, s.subrange(h, h + l), s.skip(h + l))),
        None => None,
    }
}

/// The value at the start of `s` with tag `tag`: its content and what
/// follows.
pub open spec fn tagged(s: Seq<u8>, tag: u8) -> Option<(Seq<u8>, Seq<u8>)> {
    match tlv(s) {
        Some((t, c, rest)) => if t == tag {
            Some((c, rest))
        } else {
            None
        },
        None => None,
    }
}

/// A cursor over a run of encoded values.
pub struct Constructed {
    data: Vec<u8>,
    pos: usize,
}

impl Constructed {
    /// The bytes not yet taken.
    pub closed spec fn rest(&self) -> Seq<u8> {
        self.data@.skip(self.pos as int)
    }

    pub closed spec fn wf(&self) -> bool {
        self.pos <= self.data@.len()
    }

    /// A cursor over `data`.
    pub fn new(data: Vec<u8>) -> (r: Constructed)
        ensures
            r.wf(),
            r.rest() == data@,
    {
        let r = Constructed { data, pos: 0 };
        assert(r.data@.skip(0) =~= r.data@);
        r
    }

    /// Whether every value has been taken.
    pub fn is_exhausted(&self) -> (r: bool)
        requires
            self.wf(),
        ensures
            r == (self.rest().len() == 0),
    {
        self.pos == self.data.len()
    }

    /// Reads the header of the next value without taking it.
    fn read_header(&self) -> (r: Result<(u8, usize, usize), Error>)
        requires
            self.wf(),
        ensures
            match r {
                Ok((t, h, l)) => header(self.rest()) == Some((t, h as int, l as int)) && self.pos
                    + h + l <= self.data@.len(),
                Err(_) => header(self.rest()) is None,
            },
    {
        let ghost s = self.rest();
        let avail = self.data.len() - self.pos;
        if avail < 2 {
            return Err(Error::Malformed);
        }
        let t = self.data[self.pos];
        if t % 32 == 31 {
            return Err(Error::Malformed);
        }
        let b = self.data[self.pos + 1];
        assert(s[0] == t && s[1] == b);
        let h: usize;
        let l: usize;
        if b < 0x80 {
            h = 2;
            l = b as usize;
        } else if 0x81 <= b && b <= 0x88 && avail >= 2 + (b - 0x80) as usize {
            let n = (b - 0x80) as usize;
            let ghost len_bytes = s.subrange(2, 2 + n as int);
            let total = self.data.len();
            let mut v: usize = 0;
            let mut k: usize = 0;
            while k < n
                invariant
                    s == self.data@.skip(self.pos as int),
                    total == self.data@.len(),
                    s.len() == avail,
                    s[1] == b,
                    n == b - 0x80,
                    self.pos + avail == self.data@.len(),
                    2 + n <= avail,
                    len_bytes == s.subrange(2, 2 + n as int),
                    k <= n,
                    v <= avail,
                    v == be_value(len_bytes.take(k as int)),
                decreases n - k,
            {
                let byte = self.data[self.pos + 2 + k] as usize;
                assert(byte == len_bytes[k as int]);
                assert(len_bytes.take(k + 1).drop_last() =~= len_bytes.take(k as int));
                if byte > avail || v > (avail - byte) / 256 {
                    proof {
                        assert(v * 256 + byte > avail) by (nonlinear_arith)
                            requires
                                byte > avail || v > (avail - byte) / 256,
                                v >= 0,
                        ;
                        assert(be_value(len_bytes.take(k + 1)) == v * 256 + byte);
                        lemma_be_value_prefix(len_bytes, k + 1);
                    }
                    return Err(Error::Malformed);
                }
                assert(v * 256 + byte <= avail) by (nonlinear_arith)
                    requires
                        byte <= avail,
                        v <= (avail - byte) / 256,
                ;
                v = v * 256 + byte;
                k = k + 1;
            }
            assert(len_bytes.take(n as int) =~= len_bytes);
            h = 2 + n;
            l = v;
        } else {
            return Err(Error::Malformed);
        }
        if l > avail - h {
            return Err(Error::Malformed);
        }
        Ok((t, h, l))
    }

    /// Takes the next value, returning its tag and content.
    pub fn take_value(&mut self) -> (r: Result<(u8, Vec<u8>), Error>)
        requires
            old(self).wf(),
        ensures
            final(self).wf(),
            match r {
                Ok((t, c)) => tlv(old(self).rest()) == Some((t, c@, final(self).rest())),
                Err(_) => tlv(old(self).rest()) is None && final(self).rest() == old(self).rest(),
            },
    {
        let (t, h, l) = match self.read_header() {
            Ok(x) => x,
            Err(e) => {
                return Err(e);
            },
        };
        let n = self.data.len();
        assert(self.pos + h + l <= n);
        let start = self.pos + h;
        let end = start + l;
        let c = slice_to_vec(slice_subrange(self.data.as_slice(), start, end));
        let ghost s = old(self).rest();
        self.pos = end;
        assert(c@ =~= s.subrange(h as int, h + l));
        assert(self.rest() =~= s.skip(h + l));
        Ok((t, c))
    }

    /// Takes the next value, which must have tag `tag`, returning its
    /// content.
    pub fn take_tagged(&mut self, tag: u8) -> (r: Result<Vec<u8>, Error>)
        requires
            old(self).wf(),
        ensures
            final(self).wf(),
            match r {
                Ok(c) => tagged(old(self).rest(), tag) == Some((c@, final(self).rest())),
                Err(_) => tagged(old(self).rest(), tag) is None,
            },
    {
        match self.take_value() {
            Ok((t, c)) => if t == tag {
                Ok(c)
            } else {
                Err(Error::Malformed)
            },
            Err(e) => Err(e),
        }
    }

    /// Takes the next value if its tag is `tag`, returning its content.
    pub fn take_opt_tagged(&mut self, tag: u8) -> (r: Result<Option<Vec<u8>>, Error>)
        requires
            old(self).wf(),
        ensures
            final(self).wf(),
            !(old(self).rest().len() > 0 && old(self).rest()[0] == tag) ==> r == Ok::<
                Option<Vec<u8>>,
                Error,
            >(None) && final(self).rest() == old(self).rest(),
            old(self).rest().len() > 0 && old(self).rest()[0] == tag ==> match r {
                Ok(Some(c)) => tagged(old(self).rest(), tag) == Some((c@, final(self).rest())),
                Ok(None) => false,
                Err(_) => tagged(old(self).rest(), tag) is None,
            },
    {
        if self.pos < self.data.len() && self.data[self.pos] == tag {
            match self.take_tagged(tag) {
                Ok(c) => Ok(Some(c)),
                Err(e) => Err(e),
            }
        } else {
            Ok(None)
        }
    }

    /// Takes the next value whole, header included, as it is encoded.
    pub fn capture_one(&mut self) -> (r: Result<Vec<u8>, Error>)
        requires
            old(self).wf(),
        ensures
            final(self).wf(),
            match r {
                Ok(v) => match tlv(old(self).rest()) {
                    Some((_, _, after)) => old(self).rest() == v@ + after && final(self).rest()
                        == after,
                    None => false,
                },
                Err(_) => tlv(old(self).rest()) is None,
            },
    {
        let (_t, h, l) = match self.read_header() {
            Ok(x) => x,
            Err(e) => {
                return Err(e);
            },
        };
        let n = self.data.len();
        assert(self.pos + h + l <= n);
        let start = self.pos;
        let end = start + h + l;
        let v = slice_to_vec(slice_subrange(self.data.as_slice(), start, end));
        let ghost s = old(self).rest();
        self.pos = end;
        assert(self.rest() =~= s.skip(h + l));
        assert(s =~= v@ + self.rest());
        Ok(v)
    }

    /// Takes the next value, a sequence, returning a cursor over its
    /// content.
    pub fn take_sequence(&mut self) -> (r: Result<Constructed, Error>)
        requires
            old(self).wf(),
        ensures
            final(self).wf(),
            match r {
                Ok(c) => c.wf() && tagged(old(self).rest(), SEQUENCE) == Some(
                    (c.rest(), final(self).rest()),
                ),
                Err(_) => tagged(old(self).rest(), SEQUENCE) is None,
            },
    {
        match self.take_tagged(SEQUENCE) {
            Ok(c) => Ok(Constructed::new(c)),
            Err(e) => Err(e),
        }
    }
}

} // verus!
