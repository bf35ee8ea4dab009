//! Building blocks of the canonical binary form: length prefixes, integers,
//! strings, keys and signatures, with writers and readers for each.

use vstd::prelude::*;
use vstd::bytes::{
    lemma_auto_spec_u128_to_from_le_bytes, lemma_auto_spec_u32_to_from_le_bytes,
    lemma_auto_spec_u64_to_from_le_bytes, spec_u128_from_le_bytes, spec_u128_to_le_bytes,
    spec_u32_from_le_bytes, spec_u32_to_le_bytes, spec_u64_from_le_bytes, spec_u64_to_le_bytes,
    u128_from_le_bytes, u128_to_le_bytes, u32_from_le_bytes, u32_to_le_bytes, u64_from_le_bytes,
    u64_to_le_bytes,
};
use vstd::slice::slice_subrange;
use vstd::utf8::{encode_utf8, encode_utf8_decode_utf8, encode_utf8_valid_utf8, valid_utf8};
use crate::near_types::{
    account_id_valid, AccountId,
    ED25519PublicKey, ED25519Signature, PublicKey, Secp256K1PublicKey, Secp256K1Signature,
    Signature,
};

verus! {

/// A value whose canonical binary form cannot be written.
#[derive(Debug, Clone, Copy, PartialEq, Eq, Structural)]
pub enum EncodeError {
    /// A list, a string or a byte string is longer than a 32-bit length prefix can say.
    LengthOverflow,
}

/// The concatenation of two encodings, if both exist.
pub open spec fn join(a: Option<Seq<u8>>, b: Option<Seq<u8>>) -> Option<Seq<u8>> {
    match (a, b) {
        (Some(x), Some(y)) => Some(x + y),
        _ => None,
    }
}

/// A length prefix: four little-endian bytes, when the length fits in them.
pub open spec fn length_prefix(n: nat) -> Option<Seq<u8>> {
    if n <= u32::MAX {
        Some(spec_u32_to_le_bytes(n as u32))
    } else {
        None
    }
}

/// A byte string after its length.
pub open spec fn bytes_form(b: Seq<u8>) -> Option<Seq<u8>> {
    join(length_prefix(b.len()), Some(b))
}

/// A string as the length-prefixed bytes of its UTF-8 encoding.
pub open spec fn string_form(s: Seq<char>) -> Option<Seq<u8>> {
    bytes_form(encode_utf8(s))
}

/// The strings of a list, one after the other, each length-prefixed.
pub open spec fn strings_concat(v: Seq<String>) -> Option<Seq<u8>>
    decreases v.len(),
{
    if v.len() == 0 {
        Some(seq![])
    } else {
        join(strings_concat(v.drop_last()), string_form(v.last()@))
    }
}

/// An account id as a string; `None` for a text that is no valid account id.
pub open spec fn account_form(a: AccountId) -> Option<Seq<u8>> {
    if account_id_valid(a@) {
        string_form(a@)
    } else {
        None
    }
}

/// A list of strings: its length, then each string.
pub open spec fn strings_form(v: Seq<String>) -> Option<Seq<u8>> {
    join(length_prefix(v.len()), strings_concat(v))
}

/// A 64-bit integer, little-endian.
pub open spec fn u64_form(x: u64) -> Seq<u8> {
    spec_u64_to_le_bytes(x)
}

/// A 128-bit integer, little-endian.
pub open spec fn u128_form(x: u128) -> Seq<u8> {
    spec_u128_to_le_bytes(x)
}

/// An optional 128-bit integer: a tag byte, 1 before a value and 0 for none.
pub open spec fn option_u128_form(x: Option<u128>) -> Seq<u8> {
    match x {
        Some(v) => seq![1u8] + u128_form(v),
        None => seq![0u8],
    }
}

/// A public key: its curve's tag, then the key bytes.
pub open spec fn public_key_form(k: PublicKey) -> Seq<u8> {
    match k {
        PublicKey::ED25519(a) => seq![0u8] + a.0@,
        PublicKey::SECP256K1(a) => seq![1u8] + a.0@,
    }
}

/// A signature: its curve's tag, then the signature bytes.
pub open spec fn signature_form(s: Signature) -> Seq<u8> {
    match s {
        Signature::ED25519(a) => seq![0u8] + a.0@,
        Signature::SECP256K1(a) => seq![1u8] + a.0@,
    }
}

/// Appends `b` to `out`.
pub fn write_raw(out: &mut Vec<u8>, b: &[u8])
    ensures
        final(out)@ == old(out)@ + b@,
{
    let mut i: usize = 0;
    while i < b.len()
        invariant
            i <= b@.len(),
            out@ == old(out)@ + b@.take(i as int),
        decreases b@.len() - i,
    {
        out.push(b[i]);
        assert(b@.take(i + 1) == b@.take(i as int).push(b@[i as int]));
        i = i + 1;
    }
    assert(b@.take(b@.len() as int) == b@);
}

/// Appends the length prefix of a list of `n` items, or fails if `n` needs more than four bytes.
pub fn write_length(out: &mut Vec<u8>, n: usize) -> (r: Result<(), EncodeError>)
    ensures
        r is Ok <==> length_prefix(n as nat) is Some,
        r is Ok ==> final(out)@ == old(out)@ + length_prefix(n as nat)->0,
{
    if n as u64 > 0xFFFF_FFFFu64 {
        return Err(EncodeError::LengthOverflow);
    }
    let b = u32_to_le_bytes(n as u32);
    write_raw(out, b.as_slice());
    Ok(())
}

/// Appends a length-prefixed byte string.
pub fn write_bytes(out: &mut Vec<u8>, b: &[u8]) -> (r: Result<(), EncodeError>)
    ensures
        r is Ok <==> bytes_form(b@) is Some,
        r is Ok ==> final(out)@ == old(out)@ + bytes_form(b@)->0,
{
    write_length(out, b.len())?;
    write_raw(out, b);
    assert(out@ == old(out)@ + bytes_form(b@)->0);
    Ok(())
}

/// Appends a length-prefixed string.
pub fn write_string(out: &mut Vec<u8>, s: &str) -> (r: Result<(), EncodeError>)
    ensures
        r is Ok <==> string_form(s@) is Some,
        r is Ok ==> final(out)@ == old(out)@ + string_form(s@)->0,
{
    write_bytes(out, s.as_bytes())
}

/// Appends a list of strings.
pub fn write_strings(out: &mut Vec<u8>, v: &Vec<String>) -> (r: Result<(), EncodeError>)
    ensures
        r is Ok <==> strings_form(v@) is Some,
        r is Ok ==> final(out)@ == old(out)@ + strings_form(v@)->0,
{
    write_length(out, v.len())?;
    let ghost start = out@;
    let mut i: usize = 0;
    while i < v.len()
        invariant
            i <= v@.len(),
            strings_concat(v@.take(i as int)) is Some,
            out@ == start + strings_concat(v@.take(i as int))->0,
        decreases v@.len() - i,
    {
        assert(v@.take(i + 1).drop_last() == v@.take(i as int));
        if write_string(out, v[i].as_str()).is_err() {
            proof {
                lemma_strings_concat_none(v@, i as int + 1);
            }
            return Err(EncodeError::LengthOverflow);
        }
        i = i + 1;
    }
    assert(v@.take(v@.len() as int) == v@);
    Ok(())
}

/// Once a prefix of the list cannot be written, the whole list cannot.
proof fn lemma_strings_concat_none(v: Seq<String>, i: int)
    requires
        0 <= i <= v.len(),
        strings_concat(v.take(i)) is None,
    ensures
        strings_concat(v) is None,
    decreases v.len() - i,
{
    if i < v.len() {
        assert(v.take(i + 1).drop_last() == v.take(i));
        lemma_strings_concat_none(v, i + 1);
    } else {
        assert(v.take(i) == v);
    }
}

/// Appends a 64-bit integer.
pub fn write_u64(out: &mut Vec<u8>, x: u64)
    ensures
        final(out)@ == old(out)@ + u64_form(x),
{
    let b = u64_to_le_bytes(x);
    write_raw(out, b.as_slice());
}

/// Appends a 128-bit integer.
pub fn write_u128(out: &mut Vec<u8>, x: u128)
    ensures
        final(out)@ == old(out)@ + u128_form(x),
{
    let b = u128_to_le_bytes(x);
    write_raw(out, b.as_slice());
}

/// Appends an optional 128-bit integer.
pub fn write_option_u128(out: &mut Vec<u8>, x: Option<u128>)
    ensures
        final(out)@ == old(out)@ + option_u128_form(x),
{
    match x {
        Some(v) => {
            out.push(1u8);
            write_u128(out, v);
        },
        None => {
            out.push(0u8);
        },
    }
}

/// Appends a public key.
pub fn write_public_key(out: &mut Vec<u8>, k: &PublicKey)
    ensures
        final(out)@ == old(out)@ + public_key_form(*k),
{
    match k {
        PublicKey::ED25519(a) => {
            out.push(0u8);
            write_raw(out, a.0.as_slice());
        },
        PublicKey::SECP256K1(a) => {
            out.push(1u8);
            write_raw(out, a.0.as_slice());
        },
    }
}

/// Appends a signature.
pub fn write_signature(out: &mut Vec<u8>, s: &Signature)
    ensures
        final(out)@ == old(out)@ + signature_form(*s),
{
    match s {
        Signature::ED25519(a) => {
            out.push(0u8);
            write_raw(out, a.0.as_slice());
        },
        Signature::SECP256K1(a) => {
            out.push(1u8);
            write_raw(out, a.0.as_slice());
        },
    }
}


/// Why bytes could not be read as a canonical binary form.
#[derive(Debug, Clone, Copy, PartialEq, Eq, Structural)]
pub enum ReadError {
    /// The input ended inside a value.
    UnexpectedEnd,
    /// A tag byte names no variant.
    InvalidTag(u8),
    /// The bytes of a string are not UTF-8.
    InvalidUtf8,
    /// Bytes are left after the value.
    TrailingBytes,
    /// A delegated action is itself a delegation.
    NestedDelegate,
    /// A text that should name an account is no valid account id.
    InvalidAccountId,
}

/// Whether the encoding `f` exists and `b` holds it from `pos` on.
pub open spec fn holds_at(b: Seq<u8>, pos: int, f: Option<Seq<u8>>) -> bool {
    &&& f is Some
    &&& 0 <= pos
    &&& pos + f->0.len() <= b.len()
    &&& b.subrange(pos, pos + f->0.len()) == f->0
}

/// Whether the bytes of `b` from `pos` to `end` are exactly the encoding `f`.
pub open spec fn read_as(b: Seq<u8>, pos: int, end: int, f: Option<Seq<u8>>) -> bool {
    &&& 0 <= pos <= end <= b.len()
    &&& f == Some(b.subrange(pos, end))
}

/// Two encodings read one after the other are their concatenation.
pub proof fn lemma_read_join(
    b: Seq<u8>,
    p: int,
    q: int,
    r: int,
    f: Option<Seq<u8>>,
    g: Option<Seq<u8>>,
)
    requires
        read_as(b, p, q, f),
        read_as(b, q, r, g),
    ensures
        read_as(b, p, r, join(f, g)),
{
    assert(b.subrange(p, r) =~= b.subrange(p, q) + b.subrange(q, r));
}

/// Where a concatenation is held, each part is held in turn.
pub proof fn lemma_holds_join(b: Seq<u8>, p: int, f: Option<Seq<u8>>, g: Option<Seq<u8>>)
    requires
        holds_at(b, p, join(f, g)),
    ensures
        holds_at(b, p, f),
        holds_at(b, p + f->0.len(), g),
        join(f, g)->0.len() == f->0.len() + g->0.len(),
{
    let x = f->0;
    let y = g->0;
    assert(f is Some && g is Some);
    let whole = b.subrange(p, p + x.len() + y.len());
    assert(whole == x + y);
    assert((x + y).subrange(0, x.len() as int) =~= x);
    assert((x + y).subrange(x.len() as int, (x.len() + y.len()) as int) =~= y);
    assert(b.subrange(p, p + x.len()) =~= whole.subrange(0, x.len() as int));
    assert(b.subrange(p + x.len(), p + x.len() + y.len()) =~= whole.subrange(
        x.len() as int,
        (x.len() + y.len()) as int,
    ));
}

/// Relies on std::str::from_utf8, which succeeds exactly on valid UTF-8,
/// and then yields the text whose bytes those are.
#[verifier::external_body]
pub(crate) fn utf8_text(b: &[u8]) -> (r: Option<String>)
    ensures
        r is Some <==> valid_utf8(b@),
        r matches Some(s) ==> encode_utf8(s@) == b@,
{
    std::str::from_utf8(b).ok().map(|s| s.to_string())
}

/// Reads one byte.
pub fn read_u8(b: &[u8], pos: usize) -> (r: Result<(u8, usize), ReadError>)
    ensures
        r is Ok <==> pos < b@.len(),
        r matches Ok((x, e)) ==> e == pos + 1 && x == b@[pos as int] && read_as(
            b@,
            pos as int,
            e as int,
            Some(seq![x]),
        ),
{
    if pos >= b.len() {
        return Err(ReadError::UnexpectedEnd);
    }
    assert(b@.subrange(pos as int, pos + 1) =~= seq![b@[pos as int]]);
    Ok((b[pos], pos + 1))
}

/// Copies `n` bytes.
pub fn read_raw(b: &[u8], pos: usize, n: usize) -> (r: Result<(Vec<u8>, usize), ReadError>)
    ensures
        r is Ok <==> pos + n <= b@.len(),
        r matches Ok((v, e)) ==> e == pos + n && read_as(b@, pos as int, e as int, Some(v@)),
{
    if pos > b.len() || n > b.len() - pos {
        return Err(ReadError::UnexpectedEnd);
    }
    let len = b.len();
    let mut v: Vec<u8> = Vec::new();
    let mut i: usize = 0;
    while i < n
        invariant
            len == b@.len(),
            i <= n,
            pos + n <= b@.len(),
            v@ == b@.subrange(pos as int, pos + i),
        decreases n - i,
    {
        v.push(b[pos + i]);
        assert(v@ =~= b@.subrange(pos as int, pos + i + 1));
        i = i + 1;
    }
    Ok((v, pos + n))
}

/// Reads a length prefix.
pub(crate) fn read_length(b: &[u8], pos: usize, Ghost(w): Ghost<nat>) -> (r: Result<
    (usize, usize),
    ReadError,
>)
    ensures
        r is Ok <==> pos + 4 <= b@.len(),
        r matches Ok((n, e)) ==> e == pos + 4 && read_as(
            b@,
            pos as int,
            e as int,
            length_prefix(n as nat),
        ),
        holds_at(b@, pos as int, length_prefix(w)) ==> (r matches Ok((n, e)) && n == w),
{
    proof {
        lemma_auto_spec_u32_to_from_le_bytes();
    }
    if pos > b.len() || b.len() - pos < 4 {
        return Err(ReadError::UnexpectedEnd);
    }
    let s = slice_subrange(b, pos, pos + 4);
    let x = u32_from_le_bytes(s);
    proof {
        lemma_auto_spec_u32_to_from_le_bytes();
    }
    Ok((x as usize, pos + 4))
}

/// Reads a 64-bit integer.
pub fn read_u64(b: &[u8], pos: usize) -> (r: Result<(u64, usize), ReadError>)
    ensures
        r is Ok <==> pos + 8 <= b@.len(),
        r matches Ok((x, e)) ==> e == pos + 8 && read_as(b@, pos as int, e as int, Some(u64_form(x))),
{
    if pos > b.len() || b.len() - pos < 8 {
        return Err(ReadError::UnexpectedEnd);
    }
    let s = slice_subrange(b, pos, pos + 8);
    let x = u64_from_le_bytes(s);
    proof {
        lemma_auto_spec_u64_to_from_le_bytes();
    }
    Ok((x, pos + 8))
}

/// Reads a 128-bit integer.
pub fn read_u128(b: &[u8], pos: usize) -> (r: Result<(u128, usize), ReadError>)
    ensures
        r is Ok <==> pos + 16 <= b@.len(),
        r matches Ok((x, e)) ==> e == pos + 16 && read_as(
            b@,
            pos as int,
            e as int,
            Some(u128_form(x)),
        ),
{
    if pos > b.len() || b.len() - pos < 16 {
        return Err(ReadError::UnexpectedEnd);
    }
    let s = slice_subrange(b, pos, pos + 16);
    let x = u128_from_le_bytes(s);
    proof {
        lemma_auto_spec_u128_to_from_le_bytes();
    }
    Ok((x, pos + 16))
}

/// The length of a 64-bit and of a 128-bit integer's form.
pub proof fn lemma_int_form_lengths(x: u64, y: u128)
    ensures
        u64_form(x).len() == 8,
        u128_form(y).len() == 16,
{
    lemma_auto_spec_u64_to_from_le_bytes();
    lemma_auto_spec_u128_to_from_le_bytes();
}

/// Reads a length-prefixed byte string.
pub(crate) fn read_bytes(b: &[u8], pos: usize, Ghost(w): Ghost<Seq<u8>>) -> (r: Result<
    (Vec<u8>, usize),
    ReadError,
>)
    ensures
        r matches Ok((v, e)) ==> read_as(b@, pos as int, e as int, bytes_form(v@)),
        holds_at(b@, pos as int, bytes_form(w)) ==> (r matches Ok((v, e)) && v@ == w && e == pos
            + bytes_form(w)->0.len()),
{
    proof {
        if holds_at(b@, pos as int, bytes_form(w)) {
            lemma_holds_join(b@, pos as int, length_prefix(w.len()), Some(w));
        }
        lemma_auto_spec_u32_to_from_le_bytes();
    }
    let (n, p) = read_length(b, pos, Ghost(w.len()))?;
    let (v, e) = read_raw(b, p, n)?;
    proof {
        lemma_read_join(b@, pos as int, p as int, e as int, length_prefix(n as nat), Some(v@));
        if holds_at(b@, pos as int, bytes_form(w)) {
            assert(v@ == w);
        }
    }
    Ok((v, e))
}

/// Reads a length-prefixed UTF-8 string.
pub(crate) fn read_string(b: &[u8], pos: usize, Ghost(w): Ghost<Seq<char>>) -> (r: Result<
    (String, usize),
    ReadError,
>)
    ensures
        r matches Ok((s, e)) ==> read_as(b@, pos as int, e as int, string_form(s@)),
        holds_at(b@, pos as int, string_form(w)) ==> (r matches Ok((s, e)) && s@ == w && e == pos
            + string_form(w)->0.len()),
{
    let (v, e) = read_bytes(b, pos, Ghost(encode_utf8(w)))?;
    proof {
        encode_utf8_valid_utf8(w);
    }
    match utf8_text(v.as_slice()) {
        Some(s) => {
            proof {
                encode_utf8_decode_utf8(w);
                encode_utf8_decode_utf8(s@);
            }
            Ok((s, e))
        },
        None => Err(ReadError::InvalidUtf8),
    }
}


/// Reads a list of length-prefixed strings after the list's length.
pub(crate) fn read_strings(b: &[u8], pos: usize, Ghost(w): Ghost<Seq<String>>) -> (r: Result<
    (Vec<String>, usize),
    ReadError,
>)
    ensures
        r matches Ok((v, e)) ==> read_as(b@, pos as int, e as int, strings_form(v@)),
        holds_at(b@, pos as int, strings_form(w)) ==> (r matches Ok((v, e)) && e == pos
            + strings_form(w)->0.len()),
{
    let ghost complete = holds_at(b@, pos as int, strings_form(w));
    proof {
        if complete {
            lemma_holds_join(b@, pos as int, length_prefix(w.len()), strings_concat(w));
        }
    }
    let (n, start) = read_length(b, pos, Ghost(w.len()))?;
    let mut v: Vec<String> = Vec::new();
    assert(b@.subrange(start as int, start as int) =~= Seq::<u8>::empty());
    assert(w.subrange(0, w.len() as int) =~= w);
    let mut p: usize = start;
    let mut i: usize = 0;
    while i < n
        invariant
            start <= p <= b@.len(),
            i <= n,
            v@.len() == i,
            read_as(b@, start as int, p as int, strings_concat(v@)),
            complete == holds_at(b@, pos as int, strings_form(w)),
            complete ==> n == w.len() && holds_at(b@, start as int, strings_concat(w)),
            complete ==> holds_at(b@, p as int, strings_concat(w.subrange(i as int, w.len() as int)))
                && p + strings_concat(w.subrange(i as int, w.len() as int))->0.len() == start
                + strings_concat(w)->0.len(),
        decreases n - i,
    {
        let ghost item: Seq<char> = if complete { w[i as int]@ } else { seq![] };
        proof {
            if complete {
                assert(w.subrange(i as int, w.len() as int)[0] == w[i as int]);
                lemma_strings_concat_front(w.subrange(i as int, w.len() as int));
                assert(w.subrange(i as int, w.len() as int).drop_first() =~= w.subrange(
                    i + 1,
                    w.len() as int,
                ));
                assert(strings_concat(w.subrange(i as int, w.len() as int)) == join(
                    string_form(item),
                    strings_concat(w.subrange(i + 1, w.len() as int)),
                ));
                lemma_holds_join(
                    b@,
                    p as int,
                    string_form(item),
                    strings_concat(w.subrange(i + 1, w.len() as int)),
                );
                assert(holds_at(b@, p as int, string_form(item)));
            }
        }
        let (s, q) = read_string(b, p, Ghost(item))?;
        proof {
            lemma_strings_concat_push(v@, s);
            lemma_read_join(b@, start as int, p as int, q as int, strings_concat(v@), string_form(s@));
        }
        v.push(s);
        p = q;
        i = i + 1;
    }
    proof {
        lemma_read_join(b@, pos as int, start as int, p as int, length_prefix(n as nat), strings_concat(v@));
        if complete {
            assert(w.subrange(i as int, w.len() as int) =~= Seq::<String>::empty());
        }
    }
    Ok((v, p))
}

/// Appending a string to a list appends its form.
proof fn lemma_strings_concat_push(v: Seq<String>, s: String)
    ensures
        strings_concat(v.push(s)) == join(strings_concat(v), string_form(s@)),
{
    assert(v.push(s).drop_last() =~= v);
}

/// The strings of a list are its first string, then the rest.
proof fn lemma_strings_concat_front(v: Seq<String>)
    requires
        v.len() > 0,
    ensures
        strings_concat(v) == join(string_form(v[0]@), strings_concat(v.drop_first())),
    decreases v.len(),
{
    if v.len() == 1 {
        assert(v.drop_last() =~= Seq::<String>::empty());
        assert(v.drop_first() =~= Seq::<String>::empty());
        if let Some(x) = string_form(v[0]@) {
            assert(x + seq![] =~= x);
            assert(seq![] + x =~= x);
        }
    } else {
        lemma_strings_concat_front(v.drop_last());
        assert(v.drop_last().drop_first() =~= v.drop_first().drop_last());
        match (string_form(v[0]@), strings_concat(v.drop_first().drop_last()), string_form(v.last()@)) {
            (Some(x), Some(y), Some(z)) => {
                assert(x + y + z =~= x + (y + z));
            },
            _ => {},
        }
    }
}

/// Copies a fixed number of bytes into an array.
fn read_array<const N: usize>(b: &[u8], pos: usize) -> (r: Result<([u8; N], usize), ReadError>)
    ensures
        r is Ok <==> pos + N <= b@.len(),
        r matches Ok((a, e)) ==> e == pos + N && read_as(b@, pos as int, e as int, Some(a@)),
{
    if pos > b.len() || N > b.len() - pos {
        return Err(ReadError::UnexpectedEnd);
    }
    let len = b.len();
    let mut a: [u8; N] = [0u8; N];
    let mut i: usize = 0;
    while i < N
        invariant
            len == b@.len(),
            i <= N,
            pos + N <= b@.len(),
            a@.len() == N,
            forall|j: int| 0 <= j < i ==> a@[j] == b@[pos + j],
        decreases N - i,
    {
        a[i] = b[pos + i];
        i = i + 1;
    }
    assert(a@ =~= b@.subrange(pos as int, pos + N));
    Ok((a, pos + N))
}

/// The first byte held where a non-empty encoding is held is its first byte.
proof fn lemma_holds_first(b: Seq<u8>, pos: int, f: Seq<u8>)
    requires
        holds_at(b, pos, Some(f)),
        f.len() > 0,
    ensures
        b[pos] == f[0],
        pos + f.len() <= b.len(),
{
    assert(b.subrange(pos, pos + f.len())[0] == b[pos]);
}

/// Reads an optional 128-bit integer.
pub(crate) fn read_option_u128(b: &[u8], pos: usize, Ghost(w): Ghost<Option<u128>>) -> (r: Result<
    (Option<u128>, usize),
    ReadError,
>)
    ensures
        r matches Ok((x, e)) ==> read_as(b@, pos as int, e as int, Some(option_u128_form(x))),
        holds_at(b@, pos as int, Some(option_u128_form(w))) ==> (r matches Ok((x, e)) && e == pos
            + option_u128_form(w).len()),
{
    proof {
        lemma_auto_spec_u128_to_from_le_bytes();
        if holds_at(b@, pos as int, Some(option_u128_form(w))) {
            lemma_holds_first(b@, pos as int, option_u128_form(w));
        }
    }
    let (tag, p) = read_u8(b, pos)?;
    if tag == 0 {
        Ok((None, p))
    } else if tag == 1 {
        let (x, e) = read_u128(b, p)?;
        proof {
            lemma_read_join(b@, pos as int, p as int, e as int, Some(seq![1u8]), Some(u128_form(x)));
        }
        Ok((Some(x), e))
    } else {
        Err(ReadError::InvalidTag(tag))
    }
}

/// Reads a public key.
pub(crate) fn read_public_key(b: &[u8], pos: usize, Ghost(w): Ghost<PublicKey>) -> (r: Result<
    (PublicKey, usize),
    ReadError,
>)
    ensures
        r matches Ok((k, e)) ==> read_as(b@, pos as int, e as int, Some(public_key_form(k))),
        holds_at(b@, pos as int, Some(public_key_form(w))) ==> (r matches Ok((k, e)) && e == pos
            + public_key_form(w).len()),
{
    proof {
        if holds_at(b@, pos as int, Some(public_key_form(w))) {
            lemma_holds_first(b@, pos as int, public_key_form(w));
        }
    }
    let (tag, p) = read_u8(b, pos)?;
    if tag == 0 {
        let (a, e) = read_array::<32>(b, p)?;
        proof {
            lemma_read_join(b@, pos as int, p as int, e as int, Some(seq![0u8]), Some(a@));
        }
        Ok((PublicKey::ED25519(ED25519PublicKey(a)), e))
    } else if tag == 1 {
        let (a, e) = read_array::<64>(b, p)?;
        proof {
            lemma_read_join(b@, pos as int, p as int, e as int, Some(seq![1u8]), Some(a@));
        }
        Ok((PublicKey::SECP256K1(Secp256K1PublicKey(a)), e))
    } else {
        Err(ReadError::InvalidTag(tag))
    }
}

/// Reads a signature.
pub(crate) fn read_signature(b: &[u8], pos: usize, Ghost(w): Ghost<Signature>) -> (r: Result<
    (Signature, usize),
    ReadError,
>)
    ensures
        r matches Ok((s, e)) ==> read_as(b@, pos as int, e as int, Some(signature_form(s))),
        holds_at(b@, pos as int, Some(signature_form(w))) ==> (r matches Ok((s, e)) && e == pos
            + signature_form(w).len()),
{
    proof {
        if holds_at(b@, pos as int, Some(signature_form(w))) {
            lemma_holds_first(b@, pos as int, signature_form(w));
        }
    }
    let (tag, p) = read_u8(b, pos)?;
    if tag == 0 {
        let (a, e) = read_array::<64>(b, p)?;
        proof {
            lemma_read_join(b@, pos as int, p as int, e as int, Some(seq![0u8]), Some(a@));
        }
        Ok((Signature::ED25519(ED25519Signature(a)), e))
    } else if tag == 1 {
        let (a, e) = read_array::<65>(b, p)?;
        proof {
            lemma_read_join(b@, pos as int, p as int, e as int, Some(seq![1u8]), Some(a@));
        }
        Ok((Signature::SECP256K1(Secp256K1Signature(a)), e))
    } else {
        Err(ReadError::InvalidTag(tag))
    }
}

} // verus!
