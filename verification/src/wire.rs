//! Primitive pieces of the container layout: fixed-width lengths,
//! length-prefixed byte strings and length-prefixed UTF-8 text.

use vstd::bytes::*;
use vstd::prelude::*;
use vstd::slice::*;
use vstd::utf8::*;

verus! {

/// What a decoder returns at the spec level: the value and the bytes after it.
pub type Parsed<T> = Option<(T, Seq<u8>)>;

/// A length or count as eight little-endian bytes.
pub open spec fn enc_u64(x: u64) -> Seq<u8> {
    spec_u64_to_le_bytes(x)
}

/// Reads a length from the front of `b`.
pub open spec fn parse_u64(b: Seq<u8>) -> Parsed<u64> {
    if b.len() >= 8 {
        Some((spec_u64_from_le_bytes(b.subrange(0, 8)), b.skip(8)))
    } else {
        None
    }
}

/// A byte string: its length, then the bytes themselves.
pub open spec fn enc_bytes(s: Seq<u8>) -> Seq<u8> {
    enc_u64(s.len() as u64) + s
}

/// Reads a byte string from the front of `b`; a length beyond the bytes
/// that remain is refused.
pub open spec fn parse_bytes(b: Seq<u8>) -> Parsed<Seq<u8>> {
    match parse_u64(b) {
        Some((n, rest)) => if n <= rest.len() {
            Some((rest.take(n as int), rest.skip(n as int)))
        } else {
            None
        },
        None => None,
    }
}

/// Text: the UTF-8 encoding of its characters as a byte string.
pub open spec fn enc_str(s: Seq<char>) -> Seq<u8> {
    enc_bytes(encode_utf8(s))
}

/// Reads text from the front of `b`; bytes that are not UTF-8 are refused.
pub open spec fn parse_str(b: Seq<u8>) -> Parsed<Seq<char>> {
    match parse_bytes(b) {
        Some((raw, rest)) => if valid_utf8(raw) {
            Some((decode_utf8(raw), rest))
        } else {
            None
        },
        None => None,
    }
}

/// A one-byte marker: 0 for an absent sequence, 1 for a present one.
pub open spec fn parse_tag(b: Seq<u8>) -> Parsed<u8> {
    if b.len() >= 1 {
        Some((b[0], b.skip(1)))
    } else {
        None
    }
}

/// A length reads back from its bytes, whatever follows them.
pub proof fn lemma_parse_u64(x: u64, rest: Seq<u8>)
    ensures
        enc_u64(x).len() == 8,
        parse_u64(enc_u64(x) + rest) == Some((x, rest)),
{
    lemma_auto_spec_u64_to_from_le_bytes();
    let b = enc_u64(x) + rest;
    assert(b.subrange(0, 8) =~= enc_u64(x));
    assert(b.skip(8) =~= rest);
}

/// A byte string reads back from its bytes, whatever follows them.
pub proof fn lemma_parse_bytes(s: Seq<u8>, rest: Seq<u8>)
    requires
        s.len() <= u64::MAX,
    ensures
        parse_bytes(enc_bytes(s) + rest) == Some((s, rest)),
{
    lemma_parse_u64(s.len() as u64, s + rest);
    assert(enc_bytes(s) + rest =~= enc_u64(s.len() as u64) + (s + rest));
    assert((s + rest).take(s.len() as int) =~= s);
    assert((s + rest).skip(s.len() as int) =~= rest);
}

/// Text reads back from its bytes, whatever follows them.
pub proof fn lemma_parse_str(s: Seq<char>, rest: Seq<u8>)
    requires
        encode_utf8(s).len() <= u64::MAX,
    ensures
        parse_str(enc_str(s) + rest) == Some((s, rest)),
{
    lemma_parse_bytes(encode_utf8(s), rest);
    encode_utf8_valid_utf8(s);
    encode_utf8_decode_utf8(s);
}

/// A marker reads back from its byte, whatever follows it.
pub proof fn lemma_parse_tag(t: u8, rest: Seq<u8>)
    ensures
        parse_tag(seq![t] + rest) == Some((t, rest)),
{
    assert((seq![t] + rest).skip(1) =~= rest);
}

/// The first `n` of `items`, each encoded by `enc`, one after the other.
pub open spec fn enc_seq<T>(items: Seq<T>, enc: spec_fn(T) -> Seq<u8>, n: nat) -> Seq<u8>
    decreases n,
{
    if n == 0 || n > items.len() {
        Seq::empty()
    } else {
        enc_seq(items, enc, (n - 1) as nat) + enc(items[n - 1])
    }
}

/// Reads `n` items after those in `acc`. An item that takes no byte is
/// refused, so a claimed count can never exceed the bytes that remain.
pub open spec fn parse_seq<T>(
    b: Seq<u8>,
    n: nat,
    acc: Seq<T>,
    parse: spec_fn(Seq<u8>) -> Parsed<T>,
) -> Parsed<Seq<T>>
    decreases n,
{
    if n == 0 {
        Some((acc, b))
    } else {
        match parse(b) {
            Some((x, rest)) => if rest.len() < b.len() {
                parse_seq(rest, (n - 1) as nat, acc.push(x), parse)
            } else {
                None
            },
            None => None,
        }
    }
}

/// A sequence: the count of its items, then the items.
pub open spec fn enc_vec<T>(items: Seq<T>, enc: spec_fn(T) -> Seq<u8>) -> Seq<u8> {
    enc_u64(items.len() as u64) + enc_seq(items, enc, items.len())
}

/// Reads a sequence from the front of `b`.
pub open spec fn parse_vec<T>(b: Seq<u8>, parse: spec_fn(Seq<u8>) -> Parsed<T>) -> Parsed<Seq<T>> {
    match parse_u64(b) {
        Some((n, rest)) => parse_seq(rest, n as nat, Seq::empty(), parse),
        None => None,
    }
}

/// `parse` reads `x` back from its encoding, whatever follows it, and the
/// encoding is not empty.
pub open spec fn inverts<T>(
    x: T,
    enc: spec_fn(T) -> Seq<u8>,
    parse: spec_fn(Seq<u8>) -> Parsed<T>,
) -> bool {
    &&& enc(x).len() > 0
    &&& forall|rest: Seq<u8>| #[trigger] parse(enc(x) + rest) == Some((x, rest))
}

/// The items from position `k` on, encoded one after the other.
pub open spec fn enc_from<T>(items: Seq<T>, enc: spec_fn(T) -> Seq<u8>, k: nat) -> Seq<u8>
    decreases items.len() - k,
{
    if k >= items.len() {
        Seq::empty()
    } else {
        enc(items[k as int]) + enc_from(items, enc, k + 1)
    }
}

proof fn lemma_enc_split<T>(items: Seq<T>, enc: spec_fn(T) -> Seq<u8>, n: nat)
    requires
        n <= items.len(),
    ensures
        enc_seq(items, enc, n) + enc_from(items, enc, n) == enc_seq(items, enc, items.len()),
    decreases items.len() - n,
{
    if n < items.len() {
        lemma_enc_split(items, enc, n + 1);
        assert(enc_seq(items, enc, n) + enc_from(items, enc, n) =~= enc_seq(items, enc, n + 1)
            + enc_from(items, enc, n + 1));
    } else {
        assert(enc_seq(items, enc, n) + enc_from(items, enc, n) =~= enc_seq(items, enc, n));
    }
}

proof fn lemma_parse_from<T>(
    items: Seq<T>,
    enc: spec_fn(T) -> Seq<u8>,
    parse: spec_fn(Seq<u8>) -> Parsed<T>,
    k: nat,
    acc: Seq<T>,
    rest: Seq<u8>,
)
    requires
        k <= items.len(),
        forall|i: int| 0 <= i < items.len() ==> inverts(#[trigger] items[i], enc, parse),
    ensures
        parse_seq(enc_from(items, enc, k) + rest, (items.len() - k) as nat, acc, parse) == Some(
            (acc + items.skip(k as int), rest),
        ),
    decreases items.len() - k,
{
    if k < items.len() {
        let x = items[k as int];
        let tail = enc_from(items, enc, k + 1) + rest;
        assert(inverts(x, enc, parse));
        assert(enc_from(items, enc, k) + rest =~= enc(x) + tail);
        assert(parse(enc(x) + tail) == Some((x, tail)));
        lemma_parse_from(items, enc, parse, k + 1, acc.push(x), rest);
        assert(acc.push(x) + items.skip(k as int + 1) =~= acc + items.skip(k as int));
    } else {
        assert(enc_from(items, enc, k) + rest =~= rest);
        assert(acc + items.skip(k as int) =~= acc);
    }
}

/// A sequence of items that each read back reads back as a whole.
pub proof fn lemma_parse_vec<T>(
    items: Seq<T>,
    enc: spec_fn(T) -> Seq<u8>,
    parse: spec_fn(Seq<u8>) -> Parsed<T>,
    rest: Seq<u8>,
)
    requires
        items.len() <= u64::MAX,
        forall|i: int| 0 <= i < items.len() ==> inverts(#[trigger] items[i], enc, parse),
    ensures
        parse_vec(enc_vec(items, enc) + rest, parse) == Some((items, rest)),
        enc_vec(items, enc).len() >= 8,
{
    let body = enc_seq(items, enc, items.len());
    lemma_parse_u64(items.len() as u64, body + rest);
    assert(enc_vec(items, enc) + rest =~= enc_u64(items.len() as u64) + (body + rest));
    lemma_enc_split(items, enc, 0);
    assert(enc_seq(items, enc, 0) + enc_from(items, enc, 0) =~= enc_from(items, enc, 0));
    lemma_parse_from(items, enc, parse, 0, Seq::empty(), rest);
    assert(Seq::<T>::empty() + items.skip(0) =~= items);
}

/// `String::from_utf8`: succeeds exactly on well-formed UTF-8, and the text
/// it returns is the decoding of the bytes it was given.
#[verifier::external_body]
fn text_from_utf8(raw: Vec<u8>) -> (r: Option<String>)
    ensures
        r is Some <==> valid_utf8(raw@),
        r is Some ==> r->0@ == decode_utf8(raw@),
{
    String::from_utf8(raw).ok()
}

pub(crate) fn put_slice(out: &mut Vec<u8>, data: &[u8])
    ensures
        final(out)@ == old(out)@ + data@,
{
    let mut i: usize = 0;
    while i < data.len()
        invariant
            i <= data.len(),
            out@ == old(out)@ + data@.take(i as int),
        decreases data.len() - i,
    {
        out.push(data[i]);
        assert(data@.take(i + 1) =~= data@.take(i as int).push(data@[i as int]));
        i += 1;
    }
    assert(data@.take(i as int) =~= data@);
}

pub(crate) fn put_u64(out: &mut Vec<u8>, x: u64)
    ensures
        final(out)@ == old(out)@ + enc_u64(x),
{
    let raw = u64_to_le_bytes(x);
    put_slice(out, raw.as_slice());
}

pub(crate) fn put_bytes(out: &mut Vec<u8>, data: &[u8])
    ensures
        final(out)@ == old(out)@ + enc_bytes(data@),
        data@.len() <= u64::MAX,
{
    put_u64(out, data.len() as u64);
    put_slice(out, data);
    assert(out@ =~= old(out)@ + enc_bytes(data@));
}

pub(crate) fn put_str(out: &mut Vec<u8>, s: &str)
    ensures
        final(out)@ == old(out)@ + enc_str(s@),
        encode_utf8(s@).len() <= u64::MAX,
{
    put_bytes(out, s.as_bytes());
}

pub(crate) fn take_u64(bytes: &[u8], pos: usize) -> (r: Option<(u64, usize)>)
    requires
        pos <= bytes.len(),
    ensures
        match r {
            Some((x, next)) => pos < next <= bytes.len() && parse_u64(bytes@.skip(pos as int))
                == Some((x, bytes@.skip(next as int))),
            None => parse_u64(bytes@.skip(pos as int)) is None,
        },
{
    if bytes.len() - pos < 8 {
        return None;
    }
    let word = slice_subrange(bytes, pos, pos + 8);
    let x = u64_from_le_bytes(word);
    proof {
        assert(bytes@.skip(pos as int).subrange(0, 8) =~= word@);
        assert(bytes@.skip(pos as int).skip(8) =~= bytes@.skip(pos + 8));
    }
    Some((x, pos + 8))
}

pub(crate) fn take_tag(bytes: &[u8], pos: usize) -> (r: Option<(u8, usize)>)
    requires
        pos <= bytes.len(),
    ensures
        match r {
            Some((x, next)) => pos < next <= bytes.len() && parse_tag(bytes@.skip(pos as int))
                == Some((x, bytes@.skip(next as int))),
            None => parse_tag(bytes@.skip(pos as int)) is None,
        },
{
    if pos >= bytes.len() {
        return None;
    }
    proof {
        assert(bytes@.skip(pos as int).skip(1) =~= bytes@.skip(pos + 1));
    }
    Some((bytes[pos], pos + 1))
}

pub(crate) fn take_bytes(bytes: &[u8], pos: usize) -> (r: Option<(Vec<u8>, usize)>)
    requires
        pos <= bytes.len(),
    ensures
        match r {
            Some((x, next)) => pos < next <= bytes.len() && parse_bytes(bytes@.skip(pos as int))
                == Some((x@, bytes@.skip(next as int))),
            None => parse_bytes(bytes@.skip(pos as int)) is None,
        },
{
    let (n, start) = match take_u64(bytes, pos) {
        Some(p) => p,
        None => { return None; },
    };
    if n > (bytes.len() - start) as u64 {
        return None;
    }
    let len: usize = n as usize;
    let data = slice_to_vec(slice_subrange(bytes, start, start + len));
    proof {
        let rest = bytes@.skip(start as int);
        assert(rest.take(n as int) =~= data@);
        assert(rest.skip(n as int) =~= bytes@.skip(start + len));
    }
    Some((data, start + len))
}

pub(crate) fn take_str(bytes: &[u8], pos: usize) -> (r: Option<(String, usize)>)
    requires
        pos <= bytes.len(),
    ensures
        match r {
            Some((x, next)) => pos < next <= bytes.len() && parse_str(bytes@.skip(pos as int))
                == Some((x@, bytes@.skip(next as int))),
            None => parse_str(bytes@.skip(pos as int)) is None,
        },
{
    let (raw, next) = match take_bytes(bytes, pos) {
        Some(p) => p,
        None => { return None; },
    };
    match text_from_utf8(raw) {
        Some(s) => Some((s, next)),
        None => None,
    }
}

} // verus!
