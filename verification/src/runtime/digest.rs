//! Fingerprints of bytes.
use sha2::{Digest, Sha256};
use vstd::prelude::*;
use crate::integers;
use crate::integers::NumberFault;

verus! {

/// The SHA-256 digest of the bytes.
pub uninterp spec fn sha256(bytes: Seq<u8>) -> Seq<u8>;

/// `sha2::Sha256::digest`: the digest of the bytes, which has 32 bytes.
#[verifier::external_body]
pub(crate) fn sha256_digest(bytes: &[u8]) -> (r: Vec<u8>)
    ensures
        r@ == sha256(bytes@),
        r@.len() == 32,
{
    Sha256::digest(bytes).to_vec()
}

/// The `sha2::Sha256` of a digest that is made piece by piece.
#[verifier::external_body]
pub struct DigestState {
    hasher: Sha256,
}

/// The bytes that a digest has taken so far.
pub uninterp spec fn digested(state: DigestState) -> Seq<u8>;

/// `sha2::Sha256::new`: a digest that has taken nothing.
#[verifier::external_body]
fn new_state() -> (r: DigestState)
    ensures
        digested(r) == Seq::<u8>::empty(),
{
    DigestState { hasher: Sha256::new() }
}

/// `sha2::Sha256::update`: the digest takes the bytes after those it took before.
#[verifier::external_body]
fn update_state(state: &mut DigestState, bytes: &[u8])
    ensures
        digested(*final(state)) == digested(*old(state)) + bytes@,
{
    state.hasher.update(bytes);
}

/// `sha2::Sha256::finalize`: the digest of the bytes that were taken, as if they had been taken at
/// once. It has 32 bytes.
#[verifier::external_body]
fn finalize_state(state: DigestState) -> (r: Vec<u8>)
    ensures
        r@ == sha256(digested(state)),
        r@.len() == 32,
{
    state.hasher.finalize().to_vec()
}

/// A digest that is made piece by piece, as a file is read.
pub struct RunningDigest {
    state: DigestState,
}

impl View for RunningDigest {
    type V = Seq<u8>;

    closed spec fn view(&self) -> Seq<u8> {
        digested(self.state)
    }
}

impl RunningDigest {
    /// A digest of nothing yet.
    pub fn begin() -> (r: RunningDigest)
        ensures
            r@ == Seq::<u8>::empty(),
    {
        RunningDigest { state: new_state() }
    }

    /// Takes the next piece.
    pub fn take(&mut self, bytes: &[u8])
        ensures
            final(self)@ == old(self)@ + bytes@,
    {
        update_state(&mut self.state, bytes);
    }

    /// The digest of all pieces in hexadecimal digits.
    pub fn hex(self) -> (r: String)
        ensures
            r@ == spec_encode_hex(sha256(self@)),
            r@.len() == 64,
    {
        let digest: Vec<u8> = finalize_state(self.state);
        proof {
            encoded_length(digest@);
        }
        encode_hex(digest.as_slice())
    }
}

/// The small hexadecimal digit of a number below sixteen.
pub open spec fn hex_digit(value: int) -> char {
    if value < 10 {
        ('0' as int + value) as char
    } else {
        ('a' as int + (value - 10)) as char
    }
}

/// The small hexadecimal digit of a number below sixteen.
fn hex_digit_of(value: u8) -> (r: char)
    requires
        value < 16,
    ensures
        r == hex_digit(value as int),
{
    if value < 10 {
        (48 + value) as char
    } else {
        (87 + value) as char
    }
}

/// Two hexadecimal digits for each byte.
pub open spec fn spec_encode_hex(bytes: Seq<u8>) -> Seq<char>
    decreases bytes.len(),
{
    if bytes.len() == 0 {
        Seq::empty()
    } else {
        spec_encode_hex(bytes.drop_last()).push(hex_digit(bytes.last() as int / 16)).push(
            hex_digit(bytes.last() as int % 16),
        )
    }
}

/// Two hexadecimal digits for each byte.
pub fn encode_hex(bytes: &[u8]) -> (r: String)
    ensures
        r@ == spec_encode_hex(bytes@),
{
    let mut encoded: String = String::new();
    let mut i: usize = 0;
    while i < bytes.len()
        invariant
            i <= bytes@.len(),
            encoded@ == spec_encode_hex(bytes@.take(i as int)),
        decreases bytes@.len() - i,
    {
        assert(bytes@.take(i + 1).drop_last() =~= bytes@.take(i as int));
        let byte: u8 = bytes[i];
        encoded.push(hex_digit_of(byte / 16));
        encoded.push(hex_digit_of(byte % 16));
        i = i + 1;
    }
    assert(bytes@.take(bytes@.len() as int) =~= bytes@);
    encoded
}

/// A digest in hexadecimal digits has two for each byte.
pub proof fn encoded_length(bytes: Seq<u8>)
    ensures
        spec_encode_hex(bytes).len() == 2 * bytes.len(),
    decreases bytes.len(),
{
    if bytes.len() > 0 {
        encoded_length(bytes.drop_last());
    }
}

/// The SHA-256 digest of the bytes in hexadecimal digits.
pub fn sha256_hex(bytes: &[u8]) -> (r: String)
    ensures
        r@ == spec_encode_hex(sha256(bytes@)),
        r@.len() == 64,
{
    let digest: Vec<u8> = sha256_digest(bytes);
    proof {
        encoded_length(digest@);
    }
    encode_hex(digest.as_slice())
}

/// Equal digits stand for equal bytes.
proof fn hex_digit_is_injective(a: int, b: int)
    requires
        0 <= a < 16,
        0 <= b < 16,
        hex_digit(a) == hex_digit(b),
    ensures
        a == b,
{
    assert(hex_digit(a) as int == (if a < 10 {
        48 + a
    } else {
        87 + a
    }));
    assert(hex_digit(b) as int == (if b < 10 {
        48 + b
    } else {
        87 + b
    }));
}

/// Two lists of bytes with the same hexadecimal digits are the same.
pub proof fn hex_is_injective(a: Seq<u8>, b: Seq<u8>)
    requires
        spec_encode_hex(a) == spec_encode_hex(b),
    ensures
        a == b,
    decreases a.len(),
{
    encoded_length(a);
    encoded_length(b);
    if a.len() > 0 {
        let x = spec_encode_hex(a);
        let y = spec_encode_hex(b);
        assert(x.drop_last().drop_last() =~= spec_encode_hex(a.drop_last()));
        assert(y.drop_last().drop_last() =~= spec_encode_hex(b.drop_last()));
        hex_is_injective(a.drop_last(), b.drop_last());
        assert(x[x.len() - 2] == hex_digit(a.last() as int / 16));
        assert(y[y.len() - 2] == hex_digit(b.last() as int / 16));
        assert(x.last() == hex_digit(a.last() as int % 16));
        assert(y.last() == hex_digit(b.last() as int % 16));
        hex_digit_is_injective(a.last() as int / 16, b.last() as int / 16);
        hex_digit_is_injective(a.last() as int % 16, b.last() as int % 16);
        assert(a.last() == b.last());
        assert(a =~= a.drop_last().push(a.last()));
        assert(b =~= b.drop_last().push(b.last()));
    } else {
        assert(a =~= b);
    }
}

/// A byte is written as two digits to the base of sixteen, the higher one first, in lower case.
pub proof fn bytes_are_written_by_two_digits(byte: u8)
    ensures
        spec_encode_hex(seq![byte]).len() == 2,
        integers::spec_parse(spec_encode_hex(seq![byte]), 16, 255) == Ok::<int, NumberFault>(
            byte as int,
        ),
        forall|i: int|
            0 <= i < 2 ==> '0' <= #[trigger] spec_encode_hex(seq![byte])[i] <= '9' || 'a'
                <= spec_encode_hex(seq![byte])[i] <= 'f',
{
    let written = spec_encode_hex(seq![byte]);
    assert(seq![byte].drop_last() =~= Seq::empty());
    assert(spec_encode_hex(Seq::empty()) =~= Seq::empty());
    let high = byte as int / 16;
    let low = byte as int % 16;
    assert(written =~= seq![hex_digit(high), hex_digit(low)]);
    assert(written[0] == hex_digit(high) && written[1] == hex_digit(low));
    reveal_with_fuel(integers::digits_from, 3);
    assert(high * 16 + low == byte);
}

/// Bytes are written one after the other.
pub proof fn bytes_are_written_in_order(a: Seq<u8>, b: Seq<u8>)
    ensures
        spec_encode_hex(a + b) == spec_encode_hex(a) + spec_encode_hex(b),
    decreases b.len(),
{
    if b.len() == 0 {
        assert(a + b =~= a);
        assert(spec_encode_hex(a) + spec_encode_hex(b) =~= spec_encode_hex(a));
    } else {
        bytes_are_written_in_order(a, b.drop_last());
        assert((a + b).drop_last() =~= a + b.drop_last());
        assert((a + b).last() == b.last());
        assert(spec_encode_hex(a + b) =~= spec_encode_hex(a) + spec_encode_hex(b));
    }
}

} // verus!
