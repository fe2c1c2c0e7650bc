//! What identifies a request to the cache: its path, its query, and either
//! the value of the header by which the client names the request's content
//! or, without that header, the bytes of its body.
//!
//! The three parts are written into one byte string in a way that can be read
//! back, so that two requests give the same string only when they agree in all
//! three. The fingerprint is the 128-bit hash of that string.

use crate::buffered_body::{BodyView, BufferedBody};
use vstd::bytes::spec_u64_to_le_bytes;
use vstd::prelude::*;

verus! {

/// The seed of the hash that turns a fingerprint's input into the fingerprint.
pub const FINGERPRINT_SEED: i64 = 123;

/// The header whose value stands in for the body in the fingerprint.
pub const HASH_HEADER: &'static str = "x-hash";

/// `bytes` behind its length, the length as eight bytes, least significant first.
pub open spec fn field(bytes: Seq<u8>) -> Seq<u8> {
    spec_u64_to_le_bytes(bytes.len() as u64) + bytes
}

/// A query as it is written: one byte that says whether there is one, and
/// then the query as a field.
pub open spec fn query_part(query: Option<Seq<u8>>) -> Seq<u8> {
    match query {
        None => seq![0u8],
        Some(query) => seq![1u8] + field(query),
    }
}

/// What of a request's content goes into its fingerprint: the value of the
/// hash header where the request has one, else the bytes of its body.
pub open spec fn content(hash_header: Option<Seq<u8>>, body: Seq<u8>) -> Seq<u8> {
    match hash_header {
        Some(value) => value,
        None => body,
    }
}

/// The byte string that is hashed into the fingerprint.
pub open spec fn spec_fingerprint_input(
    path: Seq<u8>,
    query: Option<Seq<u8>>,
    content: Seq<u8>,
) -> Seq<u8> {
    field(path) + query_part(query) + field(content)
}

/// The 128-bit hash of `input` under `seed`, as the hash crate defines it.
pub uninterp spec fn gxhash128_of(input: Seq<u8>, seed: i64) -> u128;

/// `gxhash::gxhash128`: the 128-bit hash of `input` under `seed`. The hash
/// is a function of the bytes and the seed alone.
#[verifier::external_body]
fn hash128(input: &[u8], seed: i64) -> (hash: u128)
    ensures
        hash == gxhash128_of(input@, seed),
{
    gxhash::gxhash128(input, seed)
}

/// The fingerprint of a request with this path, query and content.
pub open spec fn spec_fingerprint(path: Seq<u8>, query: Option<Seq<u8>>, content: Seq<u8>) -> u128 {
    gxhash128_of(spec_fingerprint_input(path, query, content), FINGERPRINT_SEED)
}

/// The bytes of an optional slice.
pub open spec fn bytes_of(slice: Option<&[u8]>) -> Option<Seq<u8>> {
    match slice {
        Some(slice) => Some(slice@),
        None => None,
    }
}

/// Appends `bytes` to `out`.
fn append(out: &mut Vec<u8>, bytes: &[u8])
    ensures
        final(out)@ == old(out)@ + bytes@,
{
    let mut i: usize = 0;
    while i < bytes.len()
        invariant
            i <= bytes@.len(),
            out@ == old(out)@ + bytes@.subrange(0, i as int),
        decreases bytes@.len() - i,
    {
        out.push(bytes[i]);
        proof {
            assert(out@ =~= old(out)@ + bytes@.subrange(0, i + 1));
        }
        i += 1;
    }
    proof {
        assert(bytes@.subrange(0, i as int) =~= bytes@);
    }
}

/// Appends `bytes` to `out` as a field.
fn append_field(out: &mut Vec<u8>, bytes: &[u8])
    ensures
        final(out)@ == old(out)@ + field(bytes@),
{
    let len = vstd::bytes::u64_to_le_bytes(bytes.len() as u64);
    append(out, len.as_slice());
    append(out, bytes);
    proof {
        assert(out@ =~= old(out)@ + field(bytes@));
    }
}

/// The byte string that is hashed into the fingerprint of a request with
/// this path, query, hash header and body. The body's trailers have no part
/// in it, and with a hash header the body has none either.
pub fn fingerprint_input(
    path: &[u8],
    query: Option<&[u8]>,
    hash_header: Option<&[u8]>,
    body: &BufferedBody,
) -> (input: Vec<u8>)
    ensures
        input@ == spec_fingerprint_input(
            path@,
            bytes_of(query),
            content(bytes_of(hash_header), body@.bytes),
        ),
{
    let mut input: Vec<u8> = Vec::new();
    append_field(&mut input, path);
    match query {
        None => {
            input.push(0);
        },
        Some(query) => {
            input.push(1);
            append_field(&mut input, query);
        },
    }
    let ghost with_query = input@;
    proof {
        assert(with_query =~= field(path@) + query_part(bytes_of(query)));
    }
    match hash_header {
        Some(value) => append_field(&mut input, value),
        None => append_field(&mut input, body.hashed_bytes()),
    }
    input
}

/// The fingerprint of a request with this path, query, hash header and
/// body: requests that agree in path, query and content have the same.
pub fn fingerprint(
    path: &[u8],
    query: Option<&[u8]>,
    hash_header: Option<&[u8]>,
    body: &BufferedBody,
) -> (key: u128)
    ensures
        key == spec_fingerprint(
            path@,
            bytes_of(query),
            content(bytes_of(hash_header), body@.bytes),
        ),
{
    let input = fingerprint_input(path, query, hash_header, body);
    hash128(input.as_slice(), FINGERPRINT_SEED)
}

/// A field at the head of a string can be read back: two strings that begin
/// with a field and are equal begin with the same field and go on alike.
pub proof fn lemma_field_reads_back(a: Seq<u8>, rest_a: Seq<u8>, b: Seq<u8>, rest_b: Seq<u8>)
    requires
        a.len() <= u64::MAX,
        b.len() <= u64::MAX,
        field(a) + rest_a == field(b) + rest_b,
    ensures
        a == b,
        rest_a == rest_b,
{
    vstd::bytes::lemma_auto_spec_u64_to_from_le_bytes();
    let whole_a = field(a) + rest_a;
    let whole_b = field(b) + rest_b;
    let len_a = spec_u64_to_le_bytes(a.len() as u64);
    let len_b = spec_u64_to_le_bytes(b.len() as u64);
    assert(whole_a.subrange(0, 8) =~= len_a);
    assert(whole_b.subrange(0, 8) =~= len_b);
    assert(vstd::bytes::spec_u64_from_le_bytes(len_a) == a.len() as u64);
    assert(vstd::bytes::spec_u64_from_le_bytes(len_b) == b.len() as u64);
    assert(a.len() == b.len());
    assert(whole_a.subrange(8, 8 + a.len() as int) =~= a);
    assert(whole_b.subrange(8, 8 + b.len() as int) =~= b);
    assert(whole_a.subrange(8 + a.len() as int, whole_a.len() as int) =~= rest_a);
    assert(whole_b.subrange(8 + b.len() as int, whole_b.len() as int) =~= rest_b);
}

/// Two requests have the same fingerprint input exactly when they have the
/// same path, the same query and the same content.
pub proof fn lemma_fingerprint_input_is_injective(
    path_a: Seq<u8>,
    query_a: Option<Seq<u8>>,
    content_a: Seq<u8>,
    path_b: Seq<u8>,
    query_b: Option<Seq<u8>>,
    content_b: Seq<u8>,
)
    requires
        path_a.len() <= u64::MAX,
        path_b.len() <= u64::MAX,
        content_a.len() <= u64::MAX,
        content_b.len() <= u64::MAX,
        query_a matches Some(query) ==> query.len() <= u64::MAX,
        query_b matches Some(query) ==> query.len() <= u64::MAX,
    ensures
        spec_fingerprint_input(path_a, query_a, content_a) == spec_fingerprint_input(
            path_b,
            query_b,
            content_b,
        ) <==> path_a == path_b && query_a == query_b && content_a == content_b,
{
    if spec_fingerprint_input(path_a, query_a, content_a) == spec_fingerprint_input(
        path_b,
        query_b,
        content_b,
    ) {
        let tail_a = query_part(query_a) + field(content_a);
        let tail_b = query_part(query_b) + field(content_b);
        assert(spec_fingerprint_input(path_a, query_a, content_a) =~= field(path_a) + tail_a);
        assert(spec_fingerprint_input(path_b, query_b, content_b) =~= field(path_b) + tail_b);
        lemma_field_reads_back(path_a, tail_a, path_b, tail_b);
        assert(tail_a[0] == tail_b[0]);
        match (query_a, query_b) {
            (Some(qa), Some(qb)) => {
                assert(tail_a.subrange(1, tail_a.len() as int) =~= field(qa) + field(content_a));
                assert(tail_b.subrange(1, tail_b.len() as int) =~= field(qb) + field(content_b));
                lemma_field_reads_back(qa, field(content_a), qb, field(content_b));
                assert(field(content_a) =~= field(content_a) + Seq::<u8>::empty());
                assert(field(content_b) =~= field(content_b) + Seq::<u8>::empty());
                lemma_field_reads_back(
                    content_a,
                    Seq::<u8>::empty(),
                    content_b,
                    Seq::<u8>::empty(),
                );
            },
            (None, None) => {
                assert(tail_a.subrange(1, tail_a.len() as int) =~= field(content_a));
                assert(tail_b.subrange(1, tail_b.len() as int) =~= field(content_b));
                assert(field(content_a) =~= field(content_a) + Seq::<u8>::empty());
                assert(field(content_b) =~= field(content_b) + Seq::<u8>::empty());
                lemma_field_reads_back(
                    content_a,
                    Seq::<u8>::empty(),
                    content_b,
                    Seq::<u8>::empty(),
                );
            },
            (Some(qa), None) => {
                assert(tail_a[0] == 1u8);
                assert(tail_b[0] == 0u8);
            },
            (None, Some(qb)) => {
                assert(tail_a[0] == 0u8);
                assert(tail_b[0] == 1u8);
            },
        }
    }
}

/// Requests that agree in path and query, and whose bodies hold the same
/// bytes, have the same fingerprint, whatever trailers the bodies have.
pub proof fn lemma_trailers_do_not_change_the_fingerprint(
    path: Seq<u8>,
    query: Option<Seq<u8>>,
    hash_header: Option<Seq<u8>>,
    body_a: BodyView,
    body_b: BodyView,
)
    requires
        body_a.bytes == body_b.bytes,
    ensures
        spec_fingerprint(path, query, content(hash_header, body_a.bytes)) == spec_fingerprint(
            path,
            query,
            content(hash_header, body_b.bytes),
        ),
{
}

/// Requests that agree in path, query and hash header have the same
/// fingerprint, whatever their bodies are.
pub proof fn lemma_hash_header_stands_in_for_the_body(
    path: Seq<u8>,
    query: Option<Seq<u8>>,
    hash_header: Seq<u8>,
    body_a: BodyView,
    body_b: BodyView,
)
    ensures
        spec_fingerprint(path, query, content(Some(hash_header), body_a.bytes))
            == spec_fingerprint(path, query, content(Some(hash_header), body_b.bytes)),
{
}

} // verus!
