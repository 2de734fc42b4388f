//! Types common to all things X.509.

use crate::ber::{
    tagged, tlv, Constructed, Error, BIT_STRING, GENERALIZED_TIME, NULL, OID, SEQUENCE, UTC_TIME,
};
use chrono::{Datelike, TimeZone, Timelike};
use ring::signature::VerificationAlgorithm;
use vstd::prelude::*;

verus! {

//------------ Functions -----------------------------------------------------

/// Sets `opt` to what `op` returns, unless it has been set before.
pub fn update_once<F, T>(opt: &mut Option<T>, op: F) -> (r: Result<(), Error>) where
    F: FnOnce() -> Result<T, Error>,
    requires
        op.requires(()),
    ensures
        (*old(opt)) is Some ==> r == Err::<(), Error>(Error::Malformed) && *final(opt) == *old(opt),
        (*old(opt)) is None ==> exists|res: Result<T, Error>|
            op.ensures((), res) && match res {
                Ok(v) => r is Ok && *final(opt) == Some(v),
                Err(e) => r == Err::<(), Error>(e) && *final(opt) == *old(opt),
            },
{
    if opt.is_some() {
        Err(Error::Malformed)
    } else {
        match op() {
            Ok(v) => {
                *opt = Some(v);
                Ok(())
            },
            Err(e) => Err(e),
        }
    }
}

//------------ Name ----------------------------------------------------------

/// A distinguished name, kept as the encoded content of its sequence.
#[derive(Clone, Debug, PartialEq, Eq)]
pub struct Name(Vec<u8>);

impl View for Name {
    type V = Seq<u8>;

    closed spec fn view(&self) -> Seq<u8> {
        self.0@
    }
}

impl Name {
    /// Takes a sequence and keeps its content as it is encoded.
    pub fn take_from(cons: &mut Constructed) -> (r: Result<Name, Error>)
        requires
            old(cons).wf(),
        ensures
            final(cons).wf(),
            match r {
                Ok(n) => tagged(old(cons).rest(), SEQUENCE) == Some((n@, final(cons).rest())),
                Err(_) => tagged(old(cons).rest(), SEQUENCE) is None,
            },
    {
        match cons.take_tagged(SEQUENCE) {
            Ok(c) => Ok(Name(c)),
            Err(e) => Err(e),
        }
    }

    /// The encoded content.
    pub fn as_slice(&self) -> (r: &[u8])
        ensures
            r@ == self@,
    {
        self.0.as_slice()
    }
}

//------------ SignatureAlgorithm --------------------------------------------

/// The object identifier 1.2.840.113549.1.1.11, sha256WithRSAEncryption.
pub open spec fn sha256_with_rsa_oid() -> Seq<u8> {
    seq![42u8, 134, 72, 134, 247, 13, 1, 1, 11]
}

/// What follows an algorithm identifier's content at the start of `s`:
/// the SHA-256 with RSA object identifier and an optional NULL.
pub open spec fn algorithm_content(s: Seq<u8>) -> Option<Seq<u8>> {
    match tagged(s, OID) {
        Some((oid, after)) => if oid != sha256_with_rsa_oid() {
            None
        } else if after.len() > 0 && after[0] == NULL {
            match tagged(after, NULL) {
                Some((n, after2)) => if n.len() == 0 {
                    Some(after2)
                } else {
                    None
                },
                None => None,
            }
        } else {
            Some(after)
        },
        None => None,
    }
}

/// What follows the algorithm identifier sequence at the start of `s`.
pub open spec fn algorithm_at(s: Seq<u8>) -> Option<Seq<u8>> {
    match tagged(s, SEQUENCE) {
        Some((c, after)) => if algorithm_content(c) == Some(Seq::<u8>::empty()) {
            Some(after)
        } else {
            None
        },
        None => None,
    }
}

fn is_sha256_with_rsa_oid(c: &[u8]) -> (r: bool)
    ensures
        r == (c@ == sha256_with_rsa_oid()),
{
    if c.len() != 9 {
        return false;
    }
    let r = c[0] == 42 && c[1] == 134 && c[2] == 72 && c[3] == 134 && c[4] == 247 && c[5] == 13
        && c[6] == 1 && c[7] == 1 && c[8] == 11;
    proof {
        let o = sha256_with_rsa_oid();
        if r {
            assert(c@ =~= o);
        } else if c@ == o {
            assert(c@[0] == o[0] && c@[1] == o[1] && c@[2] == o[2] && c@[3] == o[3]);
            assert(c@[4] == o[4] && c@[5] == o[5] && c@[6] == o[6] && c@[7] == o[7]);
            assert(c@[8] == o[8]);
        }
    }
    r
}

/// A signature algorithm. RPKI allows one only.
#[derive(Clone, Copy, Debug, PartialEq, Eq, Structural)]
pub enum SignatureAlgorithm {
    Sha256WithRsaEncryption,
}

impl SignatureAlgorithm {
    /// Takes an algorithm identifier sequence.
    pub fn take_from(cons: &mut Constructed) -> (r: Result<SignatureAlgorithm, Error>)
        requires
            old(cons).wf(),
        ensures
            final(cons).wf(),
            match r {
                Ok(_) => algorithm_at(old(cons).rest()) == Some(final(cons).rest()),
                Err(_) => algorithm_at(old(cons).rest()) is None,
            },
    {
        let mut inner = match cons.take_sequence() {
            Ok(c) => c,
            Err(e) => {
                return Err(e);
            },
        };
        let alg = match Self::take_content_from(&mut inner) {
            Ok(a) => a,
            Err(e) => {
                return Err(e);
            },
        };
        if !inner.is_exhausted() {
            return Err(Error::Malformed);
        }
        assert(inner.rest() =~= Seq::<u8>::empty());
        Ok(alg)
    }

    /// Takes the content of an algorithm identifier.
    pub fn take_content_from(cons: &mut Constructed) -> (r: Result<SignatureAlgorithm, Error>)
        requires
            old(cons).wf(),
        ensures
            final(cons).wf(),
            match r {
                Ok(_) => algorithm_content(old(cons).rest()) == Some(final(cons).rest()),
                Err(_) => algorithm_content(old(cons).rest()) is None,
            },
    {
        let oid = match cons.take_tagged(OID) {
            Ok(c) => c,
            Err(e) => {
                return Err(e);
            },
        };
        if !is_sha256_with_rsa_oid(oid.as_slice()) {
            return Err(Error::Malformed);
        }
        match cons.take_opt_tagged(NULL) {
            Ok(Some(n)) => if n.len() != 0 {
                Err(Error::Malformed)
            } else {
                Ok(SignatureAlgorithm::Sha256WithRsaEncryption)
            },
            Ok(None) => Ok(SignatureAlgorithm::Sha256WithRsaEncryption),
            Err(e) => Err(e),
        }
    }
}

//------------ BitString -----------------------------------------------------

/// The content of a bit string: the count of unused bits in the last
/// octet, at most seven and none without octets, then the octets.
pub open spec fn bit_string_ok(c: Seq<u8>) -> bool {
    c.len() >= 1 && c[0] <= 7 && (c.len() == 1 ==> c[0] == 0)
}

/// A bit string.
#[derive(Clone, Debug, PartialEq, Eq)]
pub struct BitString {
    unused: u8,
    bits: Vec<u8>,
}

impl View for BitString {
    /// Unused bits and octets.
    type V = (u8, Seq<u8>);

    closed spec fn view(&self) -> (u8, Seq<u8>) {
        (self.unused, self.bits@)
    }
}

impl BitString {
    /// Takes a bit string.
    pub fn take_from(cons: &mut Constructed) -> (r: Result<BitString, Error>)
        requires
            old(cons).wf(),
        ensures
            final(cons).wf(),
            match r {
                Ok(b) => match tagged(old(cons).rest(), BIT_STRING) {
                    Some((c, after)) => bit_string_ok(c) && b@ == (c[0], c.skip(1))
                        && final(cons).rest() == after,
                    None => false,
                },
                Err(_) => match tagged(old(cons).rest(), BIT_STRING) {
                    Some((c, _)) => !bit_string_ok(c),
                    None => true,
                },
            },
    {
        let c = match cons.take_tagged(BIT_STRING) {
            Ok(c) => c,
            Err(e) => {
                return Err(e);
            },
        };
        if c.len() == 0 || c[0] > 7 || (c.len() == 1 && c[0] != 0) {
            return Err(Error::Malformed);
        }
        let bits = crate::rsync::copy_range(c.as_slice(), 1, c.len());
        assert(bits@ =~= c@.skip(1));
        Ok(BitString { unused: c[0], bits })
    }

    /// The number of unused bits in the last octet.
    pub fn unused(&self) -> (r: u8)
        ensures
            r == self@.0,
    {
        self.unused
    }

    /// The octets, if every bit of them is used.
    pub fn octet_slice(&self) -> (r: Option<&[u8]>)
        ensures
            self@.0 == 0 ==> r is Some && r->0@ == self@.1,
            self@.0 != 0 ==> r is None,
    {
        if self.unused == 0 {
            Some(self.bits.as_slice())
        } else {
            None
        }
    }
}

//------------ SignedData ----------------------------------------------------

/// Whether `sig` is a valid RSA PKCS#1 v1.5 signature with SHA-256 over
/// `msg` by the DER encoded RSA public key `key` of 2048 to 8192 bits.
pub uninterp spec fn rsa_sha256_valid(key: Seq<u8>, msg: Seq<u8>, sig: Seq<u8>) -> bool;

/// Relies on ring's `RSA_PKCS1_2048_8192_SHA256` verification: whether it
/// accepts depends on the three byte strings alone.
#[verifier::external_body]
fn verify_rsa_sha256(key: &[u8], msg: &[u8], sig: &[u8]) -> (r: bool)
    ensures
        r == rsa_sha256_valid(key@, msg@, sig@),
{
    ring::signature::RSA_PKCS1_2048_8192_SHA256.verify(
        untrusted::Input::from(key),
        untrusted::Input::from(msg),
        untrusted::Input::from(sig),
    ).is_ok()
}

/// The content of a signed data sequence at the start of `s`: the signed
/// value as encoded, the unused bits and octets of the signature, and
/// what follows.
pub open spec fn signed_data_content(s: Seq<u8>) -> Option<(Seq<u8>, u8, Seq<u8>, Seq<u8>)> {
    match tlv(s) {
        Some((_, _, a1)) => match algorithm_at(a1) {
            Some(a2) => match tagged(a2, BIT_STRING) {
                Some((b, a3)) => if bit_string_ok(b) {
                    Some((s.take(s.len() - a1.len()), b[0], b.skip(1), a3))
                } else {
                    None
                },
                None => None,
            },
            None => None,
        },
        None => None,
    }
}

/// The signed data sequence at the start of `s`, and what follows it.
pub open spec fn signed_data_at(s: Seq<u8>) -> Option<(Seq<u8>, u8, Seq<u8>, Seq<u8>)> {
    match tagged(s, SEQUENCE) {
        Some((c, after)) => match signed_data_content(c) {
            Some((d, u, b, rest)) => if rest.len() == 0 {
                Some((d, u, b, after))
            } else {
                None
            },
            None => None,
        },
        None => None,
    }
}

/// A signed value: its encoding as it came, the algorithm, the signature.
#[derive(Clone, Debug, PartialEq, Eq)]
pub struct SignedData {
    data: Vec<u8>,
    signature_algorithm: SignatureAlgorithm,
    signature_value: BitString,
}

impl View for SignedData {
    /// The signed bytes, and the unused bits and octets of the signature.
    type V = (Seq<u8>, u8, Seq<u8>);

    closed spec fn view(&self) -> (Seq<u8>, u8, Seq<u8>) {
        (self.data@, self.signature_value@.0, self.signature_value@.1)
    }
}

impl SignedData {
    /// Takes a signed data sequence.
    pub fn take_from(cons: &mut Constructed) -> (r: Result<SignedData, Error>)
        requires
            old(cons).wf(),
        ensures
            final(cons).wf(),
            match r {
                Ok(d) => signed_data_at(old(cons).rest()) == Some(
                    (d@.0, d@.1, d@.2, final(cons).rest()),
                ),
                Err(_) => signed_data_at(old(cons).rest()) is None,
            },
    {
        let mut inner = match cons.take_sequence() {
            Ok(c) => c,
            Err(e) => {
                return Err(e);
            },
        };
        let res = match Self::take_content_from(&mut inner) {
            Ok(d) => d,
            Err(e) => {
                return Err(e);
            },
        };
        if !inner.is_exhausted() {
            return Err(Error::Malformed);
        }
        Ok(res)
    }

    /// Takes the content of a signed data sequence.
    pub fn take_content_from(cons: &mut Constructed) -> (r: Result<SignedData, Error>)
        requires
            old(cons).wf(),
        ensures
            final(cons).wf(),
            match r {
                Ok(d) => signed_data_content(old(cons).rest()) == Some(
                    (d@.0, d@.1, d@.2, final(cons).rest()),
                ),
                Err(_) => signed_data_content(old(cons).rest()) is None,
            },
    {
        let ghost s = cons.rest();
        let data = match cons.capture_one() {
            Ok(d) => d,
            Err(e) => {
                return Err(e);
            },
        };
        let ghost a1 = cons.rest();
        assert(s.take(s.len() - a1.len()) =~= data@);
        let signature_algorithm = match SignatureAlgorithm::take_from(cons) {
            Ok(a) => a,
            Err(e) => {
                return Err(e);
            },
        };
        let signature_value = match BitString::take_from(cons) {
            Ok(b) => b,
            Err(e) => {
                return Err(e);
            },
        };
        Ok(SignedData { data, signature_algorithm, signature_value })
    }

    /// The signed bytes, as they were encoded.
    pub fn data(&self) -> (r: &[u8])
        ensures
            r@ == self@.0,
    {
        self.data.as_slice()
    }

    /// The algorithm the signature was made with.
    pub fn signature_algorithm(&self) -> (r: SignatureAlgorithm)
        ensures
            r == SignatureAlgorithm::Sha256WithRsaEncryption,
    {
        self.signature_algorithm
    }

    /// Checks the signature over the signed bytes with `public_key`.
    ///
    /// Fails, without saying why, where the key, the signature or the
    /// digest does not match, or the signature has unused bits.
    pub fn verify_signature(&self, public_key: &[u8]) -> (r: Result<(), ValidationError>)
        ensures
            r is Ok <==> (self@.1 == 0 && rsa_sha256_valid(public_key@, self@.0, self@.2)),
    {
        match self.signature_value.octet_slice() {
            Some(sig) => if verify_rsa_sha256(public_key, self.data.as_slice(), sig) {
                Ok(())
            } else {
                Err(ValidationError)
            },
            None => Err(ValidationError),
        }
    }
}

//------------ Time ----------------------------------------------------------

pub open spec fn is_leap_year(y: int) -> bool {
    (y % 4 == 0 && y % 100 != 0) || y % 400 == 0
}

pub open spec fn days_in_month(y: int, m: int) -> int {
    if m == 2 {
        if is_leap_year(y) {
            29
        } else {
            28
        }
    } else if m == 4 || m == 6 || m == 9 || m == 11 {
        30
    } else {
        31
    }
}

/// A date and time of day of the proleptic Gregorian calendar.
pub open spec fn valid_instant(p: (int, int, int, int, int, int)) -> bool {
    &&& 1 <= p.1 <= 12
    &&& 1 <= p.2 <= days_in_month(p.0, p.1)
    &&& 0 <= p.3 < 24
    &&& 0 <= p.4 < 60
    &&& 0 <= p.5 < 60
}

pub open spec fn is_digit(b: u8) -> bool {
    0x30 <= b <= 0x39
}

/// The two decimal digits at `i` as a number.
pub open spec fn two_digits(s: Seq<u8>, i: int) -> int {
    (s[i] - 0x30) * 10 + (s[i + 1] - 0x30)
}

/// Digits only, but for a final `Z`.
pub open spec fn digits_then_z(s: Seq<u8>) -> bool {
    &&& s.len() > 0
    &&& s.last() == 0x5A
    &&& forall|k: int| 0 <= k < s.len() - 1 ==> is_digit(#[trigger] s[k])
}

/// The parts of a UTCTime, `YYMMDDHHMMSSZ`, with years from 1950 to 2049.
pub open spec fn utc_time_parts(c: Seq<u8>) -> Option<(int, int, int, int, int, int)> {
    if c.len() == 13 && digits_then_z(c) {
        let yy = two_digits(c, 0);
        Some(
            (
                if yy >= 50 {
                    1900 + yy
                } else {
                    2000 + yy
                },
                two_digits(c, 2),
                two_digits(c, 4),
                two_digits(c, 6),
                two_digits(c, 8),
                two_digits(c, 10),
            ),
        )
    } else {
        None
    }
}

/// The parts of a GeneralizedTime, `YYYYMMDDHHMMSSZ`.
pub open spec fn generalized_time_parts(c: Seq<u8>) -> Option<(int, int, int, int, int, int)> {
    if c.len() == 15 && digits_then_z(c) {
        Some(
            (
                two_digits(c, 0) * 100 + two_digits(c, 2),
                two_digits(c, 4),
                two_digits(c, 6),
                two_digits(c, 8),
                two_digits(c, 10),
                two_digits(c, 12),
            ),
        )
    } else {
        None
    }
}

/// The instant that a time value with tag `tag` and content `c` encodes.
pub open spec fn time_value(tag: u8, c: Seq<u8>) -> Option<(int, int, int, int, int, int)> {
    let p = if tag == UTC_TIME {
        utc_time_parts(c)
    } else if tag == GENERALIZED_TIME {
        generalized_time_parts(c)
    } else {
        None
    };
    match p {
        Some(x) => if valid_instant(x) {
            Some(x)
        } else {
            None
        },
        None => None,
    }
}

/// The time value at the start of `s`, and what follows it.
pub open spec fn time_at(s: Seq<u8>) -> Option<((int, int, int, int, int, int), Seq<u8>)> {
    match tlv(s) {
        Some((t, c, after)) => match time_value(t, c) {
            Some(p) => Some((p, after)),
            None => None,
        },
        None => None,
    }
}

/// The next value is tagged as a time.
pub open spec fn starts_time(s: Seq<u8>) -> bool {
    s.len() > 0 && (s[0] == UTC_TIME || s[0] == GENERALIZED_TIME)
}

/// `a` is strictly earlier than `b`.
pub open spec fn earlier(a: (int, int, int, int, int, int), b: (int, int, int, int, int, int)) -> bool {
    if a.0 != b.0 {
        a.0 < b.0
    } else if a.1 != b.1 {
        a.1 < b.1
    } else if a.2 != b.2 {
        a.2 < b.2
    } else if a.3 != b.3 {
        a.3 < b.3
    } else if a.4 != b.4 {
        a.4 < b.4
    } else {
        a.5 < b.5
    }
}

/// Relies on chrono's `Utc.with_ymd_and_hms`, which gives a single time
/// exactly for a valid date of its range and a time of day without leap
/// second.
#[verifier::external_body]
fn chrono_instant_valid(year: i32, month: u32, day: u32, hour: u32, min: u32, sec: u32) -> (r:
    bool)
    requires
        0 <= year <= 9999,
    ensures
        r == valid_instant(
            (year as int, month as int, day as int, hour as int, min as int, sec as int),
        ),
{
    chrono::Utc.with_ymd_and_hms(year, month, day, hour, min, sec).single().is_some()
}

/// Relies on std's `SystemTime::now` and chrono's
/// `DateTime::from_timestamp`, whose parts always form a valid date and
/// time of day. A clock set before 1970, or outside chrono's range, gives
/// none.
#[verifier::external_body]
fn utc_now() -> (r: Option<Time>)
    ensures
        r matches Some(t) ==> valid_instant(t.parts()),
{
    let since = std::time::SystemTime::now().duration_since(std::time::UNIX_EPOCH).ok()?;
    let now = chrono::DateTime::from_timestamp(since.as_secs() as i64, since.subsec_nanos())?;
    Some(Time {
        year: now.year(),
        month: now.month(),
        day: now.day(),
        hour: now.hour(),
        minute: now.minute(),
        second: now.second(),
    })
}

/// A UTC instant, to the second.
#[derive(Clone, Copy, Debug, PartialEq, Eq, Structural, PartialOrd, Ord, Hash)]
pub struct Time {
    year: i32,
    month: u32,
    day: u32,
    hour: u32,
    minute: u32,
    second: u32,
}

fn read_two_char(c: &[u8], i: usize) -> (r: Result<u32, Error>)
    requires
        i + 2 <= c@.len(),
    ensures
        match r {
            Ok(v) => is_digit(c@[i as int]) && is_digit(c@[i + 1]) && v == two_digits(
                c@,
                i as int,
            ),
            Err(_) => !(is_digit(c@[i as int]) && is_digit(c@[i + 1])),
        },
{
    let a = c[i];
    let b = c[i + 1];
    if a < 0x30 || a > 0x39 || b < 0x30 || b > 0x39 {
        return Err(Error::Malformed);
    }
    Ok(((a - 0x30) as u32) * 10 + ((b - 0x30) as u32))
}

fn read_four_char(c: &[u8], i: usize) -> (r: Result<u32, Error>)
    requires
        i + 4 <= c@.len(),
    ensures
        match r {
            Ok(v) => is_digit(c@[i as int]) && is_digit(c@[i + 1]) && is_digit(c@[i + 2])
                && is_digit(c@[i + 3]) && v == two_digits(c@, i as int) * 100 + two_digits(
                c@,
                i + 2,
            ),
            Err(_) => !(is_digit(c@[i as int]) && is_digit(c@[i + 1]) && is_digit(c@[i + 2])
                && is_digit(c@[i + 3])),
        },
{
    let hi = match read_two_char(c, i) {
        Ok(v) => v,
        Err(e) => {
            return Err(e);
        },
    };
    let n: usize = c.len();
    assert(i + 2 <= n);
    let lo = match read_two_char(c, i + 2) {
        Ok(v) => v,
        Err(e) => {
            return Err(e);
        },
    };
    Ok(hi * 100 + lo)
}

/// Whether the bytes before the last are digits and the last is `Z`.
fn check_digits_then_z(c: &[u8]) -> (r: bool)
    ensures
        r == digits_then_z(c@),
{
    let n = c.len();
    if n == 0 || c[n - 1] != 0x5A {
        return false;
    }
    let mut k: usize = 0;
    while k < n - 1
        invariant
            n == c@.len() > 0,
            k <= n - 1,
            forall|j: int| 0 <= j < k ==> is_digit(#[trigger] c@[j]),
        decreases n - 1 - k,
    {
        if c[k] < 0x30 || c[k] > 0x39 {
            return false;
        }
        k = k + 1;
    }
    true
}

impl Time {
    /// Year, month, day, hour, minute and second.
    pub closed spec fn parts(&self) -> (int, int, int, int, int, int) {
        (
            self.year as int,
            self.month as int,
            self.day as int,
            self.hour as int,
            self.minute as int,
            self.second as int,
        )
    }

    /// The instant of the given parts, if they form a valid date and time
    /// of day.
    pub fn from_parts(parts: (i32, u32, u32, u32, u32, u32)) -> (r: Result<Time, Error>)
        requires
            0 <= parts.0 <= 9999,
        ensures
            match r {
                Ok(t) => valid_instant(t.parts()) && t.parts() == (
                    parts.0 as int,
                    parts.1 as int,
                    parts.2 as int,
                    parts.3 as int,
                    parts.4 as int,
                    parts.5 as int,
                ),
                Err(_) => !valid_instant(
                    (
                        parts.0 as int,
                        parts.1 as int,
                        parts.2 as int,
                        parts.3 as int,
                        parts.4 as int,
                        parts.5 as int,
                    ),
                ),
            },
    {
        if chrono_instant_valid(parts.0, parts.1, parts.2, parts.3, parts.4, parts.5) {
            Ok(
                Time {
                    year: parts.0,
                    month: parts.1,
                    day: parts.2,
                    hour: parts.3,
                    minute: parts.4,
                    second: parts.5,
                },
            )
        } else {
            Err(Error::Malformed)
        }
    }

    /// Decodes the content of a UTCTime, `YYMMDDHHMMSSZ`.
    pub fn from_utc_time(c: &[u8]) -> (r: Result<Time, Error>)
        ensures
            match r {
                Ok(t) => time_value(UTC_TIME, c@) == Some(t.parts()),
                Err(_) => time_value(UTC_TIME, c@) is None,
            },
    {
        if c.len() != 13 || !check_digits_then_z(c) {
            return Err(Error::Malformed);
        }
        let yy = read_two_char(c, 0).unwrap();
        let year: i32 = if yy >= 50 {
            yy as i32 + 1900
        } else {
            yy as i32 + 2000
        };
        let month = read_two_char(c, 2).unwrap();
        let day = read_two_char(c, 4).unwrap();
        let hour = read_two_char(c, 6).unwrap();
        let minute = read_two_char(c, 8).unwrap();
        let second = read_two_char(c, 10).unwrap();
        Self::from_parts((year, month, day, hour, minute, second))
    }

    /// Decodes the content of a GeneralizedTime, `YYYYMMDDHHMMSSZ`.
    pub fn from_generalized_time(c: &[u8]) -> (r: Result<Time, Error>)
        ensures
            match r {
                Ok(t) => time_value(GENERALIZED_TIME, c@) == Some(t.parts()),
                Err(_) => time_value(GENERALIZED_TIME, c@) is None,
            },
    {
        if c.len() != 15 || !check_digits_then_z(c) {
            return Err(Error::Malformed);
        }
        let year = read_four_char(c, 0).unwrap();
        let month = read_two_char(c, 4).unwrap();
        let day = read_two_char(c, 6).unwrap();
        let hour = read_two_char(c, 8).unwrap();
        let minute = read_two_char(c, 10).unwrap();
        let second = read_two_char(c, 12).unwrap();
        Self::from_parts((year as i32, month, day, hour, minute, second))
    }

    /// Takes a UTCTime or GeneralizedTime value.
    pub fn take_from(cons: &mut Constructed) -> (r: Result<Time, Error>)
        requires
            old(cons).wf(),
        ensures
            final(cons).wf(),
            match r {
                Ok(t) => time_at(old(cons).rest()) == Some((t.parts(), final(cons).rest())),
                Err(_) => time_at(old(cons).rest()) is None,
            },
    {
        let (tag, c) = match cons.take_value() {
            Ok(x) => x,
            Err(e) => {
                return Err(e);
            },
        };
        if tag == UTC_TIME {
            Self::from_utc_time(c.as_slice())
        } else if tag == GENERALIZED_TIME {
            Self::from_generalized_time(c.as_slice())
        } else {
            Err(Error::Malformed)
        }
    }

    /// Takes a UTCTime or GeneralizedTime value if one is next.
    pub fn take_opt_from(cons: &mut Constructed) -> (r: Result<Option<Time>, Error>)
        requires
            old(cons).wf(),
        ensures
            final(cons).wf(),
            !starts_time(old(cons).rest()) ==> r == Ok::<Option<Time>, Error>(None)
                && final(cons).rest() == old(cons).rest(),
            starts_time(old(cons).rest()) ==> match r {
                Ok(Some(t)) => time_at(old(cons).rest()) == Some((t.parts(), final(cons).rest())),
                Ok(None) => false,
                Err(_) => time_at(old(cons).rest()) is None,
            },
    {
        match cons.take_opt_tagged(UTC_TIME) {
            Ok(Some(c)) => {
                return match Self::from_utc_time(c.as_slice()) {
                    Ok(t) => Ok(Some(t)),
                    Err(e) => Err(e),
                };
            },
            Ok(None) => {},
            Err(e) => {
                return Err(e);
            },
        }
        match cons.take_opt_tagged(GENERALIZED_TIME) {
            Ok(Some(c)) => match Self::from_generalized_time(c.as_slice()) {
                Ok(t) => Ok(Some(t)),
                Err(e) => Err(e),
            },
            Ok(None) => Ok(None),
            Err(e) => Err(e),
        }
    }

    /// The year of the Gregorian calendar.
    pub fn year(&self) -> (r: i32)
        ensures
            r == self.parts().0,
    {
        self.year
    }

    /// Fails if `now` is earlier than this time.
    pub fn validate_not_before_at(&self, now: &Time) -> (r: Result<(), ValidationError>)
        ensures
            r is Err <==> earlier(now.parts(), self.parts()),
    {
        if now.is_earlier_than(self) {
            Err(ValidationError)
        } else {
            Ok(())
        }
    }

    /// Fails if `now` is later than this time.
    pub fn validate_not_after_at(&self, now: &Time) -> (r: Result<(), ValidationError>)
        ensures
            r is Err <==> earlier(self.parts(), now.parts()),
    {
        if self.is_earlier_than(now) {
            Err(ValidationError)
        } else {
            Ok(())
        }
    }

    /// Fails if the current time is earlier than this time, or if the
    /// clock cannot be read.
    pub fn validate_not_before(&self) -> (r: Result<(), ValidationError>)
        ensures
            r is Ok ==> exists|now: (int, int, int, int, int, int)|
                valid_instant(now) && !earlier(now, self.parts()),
    {
        match utc_now() {
            Some(now) => self.validate_not_before_at(&now),
            None => Err(ValidationError),
        }
    }

    /// Fails if the current time is later than this time, or if the clock
    /// cannot be read.
    pub fn validate_not_after(&self) -> (r: Result<(), ValidationError>)
        ensures
            r is Ok ==> exists|now: (int, int, int, int, int, int)|
                valid_instant(now) && !earlier(self.parts(), now),
    {
        match utc_now() {
            Some(now) => self.validate_not_after_at(&now),
            None => Err(ValidationError),
        }
    }

    /// Whether this time is strictly earlier than `other`.
    pub fn is_earlier_than(&self, other: &Time) -> (r: bool)
        ensures
            r == earlier(self.parts(), other.parts()),
    {
        if self.year != other.year {
            self.year < other.year
        } else if self.month != other.month {
            self.month < other.month
        } else if self.day != other.day {
            self.day < other.day
        } else if self.hour != other.hour {
            self.hour < other.hour
        } else if self.minute != other.minute {
            self.minute < other.minute
        } else {
            self.second < other.second
        }
    }
}

//------------ Laws ----------------------------------------------------------

/// An algorithm identifier with any object identifier but that of
/// SHA-256 with RSA is rejected.
pub proof fn lemma_other_oid_rejected(s: Seq<u8>, oid: Seq<u8>, after: Seq<u8>)
    requires
        tagged(s, OID) == Some((oid, after)),
        oid != sha256_with_rsa_oid(),
    ensures
        algorithm_content(s) is None,
{
}

/// A time value whose last byte is not `Z` is rejected.
pub proof fn lemma_time_needs_z(tag: u8, c: Seq<u8>)
    requires
        c.len() == 0 || c.last() != 0x5A,
    ensures
        time_value(tag, c) is None,
{
}

/// A time is valid at its own instant, both as a lower and as an upper
/// bound: neither check is strict at equality.
pub proof fn lemma_bounds_inclusive(t: (int, int, int, int, int, int))
    ensures
        !earlier(t, t),
{
}

//------------ ValidationError -----------------------------------------------

/// A failed validation, deliberately without detail.
#[derive(Clone, Copy, Debug, PartialEq, Eq, Structural)]
pub struct ValidationError;

} // verus!
