//! The transaction version field and its four-byte little-endian wire form.

use vstd::prelude::*;

verus! {

/// Little-endian two's-complement bytes of a 32-bit signed integer.
pub open spec fn i32_le_bytes(v: i32) -> Seq<u8> {
    let u: int = if v >= 0 { v as int } else { v as int + 0x1_0000_0000 };
    seq![
        (u % 256) as u8,
        ((u / 0x100) % 256) as u8,
        ((u / 0x1_0000) % 256) as u8,
        (u / 0x100_0000) as u8,
    ]
}

/// The 32-bit signed integer whose little-endian bytes are the first four of `b`.
pub open spec fn i32_from_le(b: Seq<u8>) -> i32
    recommends
        b.len() >= 4,
{
    let u: int = b[0] as int + b[1] as int * 0x100 + b[2] as int * 0x1_0000 + b[3] as int
        * 0x100_0000;
    (if u >= 0x8000_0000 { u - 0x1_0000_0000 } else { u }) as i32
}

/// The lowercase hexadecimal digit of a value below sixteen.
pub open spec fn hex_digit(n: int) -> char {
    seq!['0', '1', '2', '3', '4', '5', '6', '7', '8', '9', 'a', 'b', 'c', 'd', 'e', 'f'][n]
}

/// Two lowercase hexadecimal digits per byte, high half first.
pub open spec fn hex_of(b: Seq<u8>) -> Seq<char>
    decreases b.len(),
{
    if b.len() == 0 {
        seq![]
    } else {
        hex_of(b.drop_last()) + seq![
            hex_digit(b.last() as int / 16),
            hex_digit(b.last() as int % 16),
        ]
    }
}

/// Relies on hex::encode: each byte becomes two digits of "0123456789abcdef",
/// the high half first, in the order of the bytes.
#[verifier::external_body]
fn hex_encode(b: &[u8]) -> (r: String)
    ensures
        r@ == hex_of(b@),
{
    hex::encode(b)
}

/// Decoding ran out of input.
#[derive(Debug, Clone, Copy, PartialEq, Eq, Structural)]
pub enum DecodeError {
    /// Fewer bytes remained than the field needs.
    UnexpectedEnd { needed: usize, available: usize },
}

/// The transaction version, a signed 32-bit integer.
///
/// Only versions 1 and 2 are standard, but any value is a legal version:
/// transactions with other versions are merely not relayed by the network.
#[derive(Debug, Clone, Copy, PartialEq, Eq, Structural)]
pub struct Version(pub i32);

/// The number of bytes in an encoded version.
pub const VERSION_LEN: usize = 4;

impl Version {
    /// The wire form of this version.
    pub open spec fn spec_bytes(self) -> Seq<u8> {
        i32_le_bytes(self.0)
    }

    /// Appends the four little-endian bytes of the version to `w`.
    pub fn encode(&self, w: &mut Vec<u8>)
        ensures
            final(w)@ == old(w)@ + self.spec_bytes(),
    {
        let bytes = self.to_vec();
        let mut i: usize = 0;
        while i < bytes.len()
            invariant
                i <= bytes@.len(),
                bytes@ == self.spec_bytes(),
                w@ == old(w)@ + bytes@.take(i as int),
            decreases bytes@.len() - i,
        {
            w.push(bytes[i]);
            assert(bytes@.take(i + 1) == bytes@.take(i as int).push(bytes@[i as int]));
            i = i + 1;
        }
        assert(bytes@.take(bytes@.len() as int) == bytes@);
    }

    /// Reads a version from the first four bytes of `r`, little-endian.
    /// Fails when fewer than four bytes are there.
    pub fn decode(r: &[u8]) -> (res: Result<Version, DecodeError>)
        ensures
            r@.len() < 4 ==> res == Err::<Version, DecodeError>(
                DecodeError::UnexpectedEnd { needed: VERSION_LEN, available: r@.len() as usize },
            ),
            r@.len() >= 4 ==> res == Ok::<Version, DecodeError>(Version(i32_from_le(r@))),
    {
        if r.len() < VERSION_LEN {
            return Err(DecodeError::UnexpectedEnd { needed: VERSION_LEN, available: r.len() });
        }
        let u: u32 = r[0] as u32 + (r[1] as u32) * 0x100 + (r[2] as u32) * 0x1_0000 + (r[3] as u32)
            * 0x100_0000;
        let v: i32 = if u >= 0x8000_0000 {
            (u as i64 - 0x1_0000_0000i64) as i32
        } else {
            u as i32
        };
        Ok(Version(v))
    }

    /// The lowercase hexadecimal text of the encoded version.
    pub fn to_hex(&self) -> (r: String)
        ensures
            r@ == hex_of(self.spec_bytes()),
    {
        let bytes = self.to_vec();
        hex_encode(bytes.as_slice())
    }

    /// The encoded version as a fresh vector.
    pub fn to_vec(&self) -> (r: Vec<u8>)
        ensures
            r@ == self.spec_bytes(),
    {
        let u: u32 = if self.0 >= 0 {
            self.0 as u32
        } else {
            (self.0 as i64 + 0x1_0000_0000i64) as u32
        };
        let r = vec![
            (u % 256) as u8,
            ((u / 0x100) % 256) as u8,
            ((u / 0x1_0000) % 256) as u8,
            (u / 0x100_0000) as u8,
        ];
        assert(r@ =~= self.spec_bytes());
        r
    }
}

/// Decoding the encoding of a version gives the version back.
pub proof fn lemma_version_round_trip(v: Version)
    ensures
        v.spec_bytes().len() == 4,
        Version(i32_from_le(v.spec_bytes())) == v,
{
    let u: int = if v.0 >= 0 { v.0 as int } else { v.0 as int + 0x1_0000_0000 };
    let b = v.spec_bytes();
    assert(0 <= u < 0x1_0000_0000);
    assert(b[0] as int + b[1] as int * 0x100 + b[2] as int * 0x1_0000 + b[3] as int * 0x100_0000
        == u) by (nonlinear_arith)
        requires
            0 <= u < 0x1_0000_0000,
            b[0] as int == u % 256,
            b[1] as int == (u / 0x100) % 256,
            b[2] as int == (u / 0x1_0000) % 256,
            b[3] as int == u / 0x100_0000,
    ;
}

} // verus!
