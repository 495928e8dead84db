//! The binary form in which a credential is kept in a durable store.
//!
//! Numbers are eight bytes, little-endian. A text is the length of its UTF-8
//! form followed by that form. An optional value starts with a tag byte. A
//! record ends with a checksum over all that comes before it, so that a
//! damaged record is refused instead of read as something else.

use vstd::prelude::*;
use vstd::bytes::*;
use vstd::slice::*;
use vstd::string::*;
use vstd::utf8::*;
use crate::client::{PackedClient, PackedClientView, Token, TokenView};

verus! {

/// A number as it was read from the front of some bytes, with the bytes
/// that follow it.
pub open spec fn spec_take_u64(bytes: Seq<u8>) -> Option<(u64, Seq<u8>)> {
    if bytes.len() >= 8 {
        Some((spec_u64_from_le_bytes(bytes.subrange(0, 8)), bytes.skip(8)))
    } else {
        None
    }
}

/// The bytes of a text: length, then UTF-8.
pub open spec fn spec_put_text(text: Seq<char>) -> Seq<u8> {
    spec_u64_to_le_bytes(encode_utf8(text).len() as u64) + encode_utf8(text)
}

/// A text read from the front of some bytes.
pub open spec fn spec_take_text(bytes: Seq<u8>) -> Option<(Seq<char>, Seq<u8>)> {
    match spec_take_u64(bytes) {
        Some((n, rest)) => if n <= rest.len() && valid_utf8(rest.take(n as int)) {
            Some((decode_utf8(rest.take(n as int)), rest.skip(n as int)))
        } else {
            None
        },
        None => None,
    }
}

/// Whether a text's UTF-8 form has a length that fits the length field.
pub open spec fn text_fits(text: Seq<char>) -> bool {
    encode_utf8(text).len() <= u64::MAX
}

/// Reading a number back from what was written gives the number and leaves
/// what followed it.
pub proof fn lemma_take_put_u64(n: u64, rest: Seq<u8>)
    ensures
        spec_take_u64(spec_u64_to_le_bytes(n) + rest) == Some((n, rest)),
{
    lemma_auto_spec_u64_to_from_le_bytes();
    let bytes = spec_u64_to_le_bytes(n) + rest;
    assert(bytes.subrange(0, 8) =~= spec_u64_to_le_bytes(n));
    assert(bytes.skip(8) =~= rest);
}

/// Reading a text back from what was written gives the text and leaves what
/// followed it.
pub proof fn lemma_take_put_text(text: Seq<char>, rest: Seq<u8>)
    requires
        text_fits(text),
    ensures
        spec_take_text(spec_put_text(text) + rest) == Some((text, rest)),
{
    broadcast use {encode_utf8_valid_utf8, encode_utf8_decode_utf8};

    let body = encode_utf8(text);
    let n = body.len() as u64;
    assert(spec_put_text(text) + rest =~= spec_u64_to_le_bytes(n) + (body + rest));
    lemma_take_put_u64(n, body + rest);
    assert((body + rest).take(n as int) =~= body);
    assert((body + rest).skip(n as int) =~= rest);
}

/// The text of some bytes, when they are valid UTF-8. This is
/// `String::from_utf8`: it accepts exactly the valid UTF-8 byte strings, and
/// the text it gives has the given bytes as its UTF-8 form.
#[verifier::external_body]
fn text_from_utf8(bytes: Vec<u8>) -> (text: Option<String>)
    ensures
        match text {
            Some(s) => valid_utf8(bytes@) && encode_utf8(s@) == bytes@,
            None => !valid_utf8(bytes@),
        },
{
    String::from_utf8(bytes).ok()
}

/// Appends all of `src` to `out`.
fn put_bytes(out: &mut Vec<u8>, src: &[u8])
    ensures
        final(out)@ == old(out)@ + src@,
{
    let mut i: usize = 0;
    while i < src.len()
        invariant
            i <= src.len(),
            out@ == old(out)@ + src@.take(i as int),
        decreases src.len() - i,
    {
        out.push(src[i]);
        i += 1;
        assert(out@ =~= old(out)@ + src@.take(i as int));
    }
    assert(src@.take(src.len() as int) =~= src@);
}

/// Appends a number.
fn put_u64(out: &mut Vec<u8>, n: u64)
    ensures
        final(out)@ == old(out)@ + spec_u64_to_le_bytes(n),
{
    let bytes = u64_to_le_bytes(n);
    put_bytes(out, bytes.as_slice());
}

/// Appends a text.
fn put_text(out: &mut Vec<u8>, text: &str)
    ensures
        final(out)@ == old(out)@ + spec_put_text(text@),
        text_fits(text@),
{
    let bytes = text.as_bytes();
    put_u64(out, bytes.len() as u64);
    put_bytes(out, bytes);
    assert(out@ =~= old(out)@ + spec_put_text(text@));
}

/// Reads a number at `pos`.
fn take_u64(bytes: &[u8], pos: usize) -> (r: Option<(u64, usize)>)
    requires
        pos <= bytes.len(),
    ensures
        match r {
            Some((n, next)) => next <= bytes.len() && spec_take_u64(bytes@.skip(pos as int))
                == Some((n, bytes@.skip(next as int))),
            None => spec_take_u64(bytes@.skip(pos as int)) is None,
        },
{
    if bytes.len() - pos < 8 {
        return None;
    }
    let n = u64_from_le_bytes(slice_subrange(bytes, pos, pos + 8));
    assert(bytes@.skip(pos as int).subrange(0, 8) =~= bytes@.subrange(pos as int, pos + 8));
    assert(bytes@.skip(pos as int).skip(8) =~= bytes@.skip(pos + 8));
    Some((n, pos + 8))
}

/// Reads a text at `pos`.
fn take_text(bytes: &[u8], pos: usize) -> (r: Option<(String, usize)>)
    requires
        pos <= bytes.len(),
    ensures
        match r {
            Some((text, next)) => next <= bytes.len() && spec_take_text(bytes@.skip(pos as int))
                == Some((text@, bytes@.skip(next as int))),
            None => spec_take_text(bytes@.skip(pos as int)) is None,
        },
{
    broadcast use encode_utf8_decode_utf8;

    let (n, start) = match take_u64(bytes, pos) {
        Some(found) => found,
        None => { return None; },
    };
    if n > (bytes.len() - start) as u64 {
        return None;
    }
    let end: usize = start + n as usize;
    let raw = slice_to_vec(slice_subrange(bytes, start, end));
    assert(bytes@.skip(start as int).take(n as int) =~= raw@);
    assert(bytes@.skip(start as int).skip(n as int) =~= bytes@.skip(end as int));
    match text_from_utf8(raw) {
        Some(text) => Some((text, end)),
        None => None,
    }
}

/// The bytes of a time: its two's-complement form as a number.
pub open spec fn spec_put_time(t: i64) -> Seq<u8> {
    spec_u64_to_le_bytes(t as u64)
}

/// A time read from the front of some bytes.
pub open spec fn spec_take_time(bytes: Seq<u8>) -> Option<(i64, Seq<u8>)> {
    match spec_take_u64(bytes) {
        Some((n, rest)) => Some((n as i64, rest)),
        None => None,
    }
}

/// The bytes of an optional time: a tag, then the time if there is one.
pub open spec fn spec_put_opt_time(t: Option<i64>) -> Seq<u8> {
    match t {
        None => seq![0u8],
        Some(v) => seq![1u8] + spec_put_time(v),
    }
}

/// An optional time read from the front of some bytes.
pub open spec fn spec_take_opt_time(bytes: Seq<u8>) -> Option<(Option<i64>, Seq<u8>)> {
    if bytes.len() == 0 {
        None
    } else if bytes[0] == 0 {
        Some((None, bytes.skip(1)))
    } else if bytes[0] == 1 {
        match spec_take_time(bytes.skip(1)) {
            Some((t, rest)) => Some((Some(t), rest)),
            None => None,
        }
    } else {
        None
    }
}

/// The bytes of an optional text: a tag, then the text if there is one.
pub open spec fn spec_put_opt_text(text: Option<Seq<char>>) -> Seq<u8> {
    match text {
        None => seq![0u8],
        Some(s) => seq![1u8] + spec_put_text(s),
    }
}

/// An optional text read from the front of some bytes.
pub open spec fn spec_take_opt_text(bytes: Seq<u8>) -> Option<(Option<Seq<char>>, Seq<u8>)> {
    if bytes.len() == 0 {
        None
    } else if bytes[0] == 0 {
        Some((None, bytes.skip(1)))
    } else if bytes[0] == 1 {
        match spec_take_text(bytes.skip(1)) {
            Some((s, rest)) => Some((Some(s), rest)),
            None => None,
        }
    } else {
        None
    }
}

/// Whether an optional text fits its length field.
pub open spec fn opt_text_fits(text: Option<Seq<char>>) -> bool {
    match text {
        None => true,
        Some(s) => text_fits(s),
    }
}

/// The bytes of some texts, one after the other.
pub open spec fn spec_put_items(texts: Seq<Seq<char>>) -> Seq<u8>
    decreases texts.len(),
{
    if texts.len() == 0 {
        Seq::empty()
    } else {
        spec_put_text(texts[0]) + spec_put_items(texts.drop_first())
    }
}

/// The bytes of a list of texts: how many there are, then each of them.
pub open spec fn spec_put_texts(texts: Seq<Seq<char>>) -> Seq<u8> {
    spec_u64_to_le_bytes(texts.len() as u64) + spec_put_items(texts)
}

/// `count` texts read from the front of some bytes.
pub open spec fn spec_take_items(bytes: Seq<u8>, count: nat) -> Option<(Seq<Seq<char>>, Seq<u8>)>
    decreases count,
{
    if count == 0 {
        Some((Seq::empty(), bytes))
    } else {
        match spec_take_text(bytes) {
            Some((s, rest)) => match spec_take_items(rest, (count - 1) as nat) {
                Some((tail, after)) => Some((seq![s] + tail, after)),
                None => None,
            },
            None => None,
        }
    }
}

/// A list of texts read from the front of some bytes.
pub open spec fn spec_take_texts(bytes: Seq<u8>) -> Option<(Seq<Seq<char>>, Seq<u8>)> {
    match spec_take_u64(bytes) {
        Some((n, rest)) => spec_take_items(rest, n as nat),
        None => None,
    }
}

/// Whether a list of texts fits its count field and each text its length
/// field.
pub open spec fn texts_fit(texts: Seq<Seq<char>>) -> bool {
    &&& texts.len() <= u64::MAX
    &&& forall|i: int| 0 <= i < texts.len() ==> text_fits(#[trigger] texts[i])
}

/// Reading a time back from what was written gives the time.
pub proof fn lemma_take_put_time(t: i64, rest: Seq<u8>)
    ensures
        spec_take_time(spec_put_time(t) + rest) == Some((t, rest)),
{
    lemma_take_put_u64(t as u64, rest);
    assert((t as u64) as i64 == t) by (bit_vector);
}

/// Reading an optional time back from what was written gives it.
pub proof fn lemma_take_put_opt_time(t: Option<i64>, rest: Seq<u8>)
    ensures
        spec_take_opt_time(spec_put_opt_time(t) + rest) == Some((t, rest)),
{
    let bytes = spec_put_opt_time(t) + rest;
    match t {
        None => {
            assert(bytes.skip(1) =~= rest);
        },
        Some(v) => {
            assert(bytes.skip(1) =~= spec_put_time(v) + rest);
            lemma_take_put_time(v, rest);
        },
    }
}

/// Reading an optional text back from what was written gives it.
pub proof fn lemma_take_put_opt_text(text: Option<Seq<char>>, rest: Seq<u8>)
    requires
        opt_text_fits(text),
    ensures
        spec_take_opt_text(spec_put_opt_text(text) + rest) == Some((text, rest)),
{
    let bytes = spec_put_opt_text(text) + rest;
    match text {
        None => {
            assert(bytes.skip(1) =~= rest);
        },
        Some(s) => {
            assert(bytes.skip(1) =~= spec_put_text(s) + rest);
            lemma_take_put_text(s, rest);
        },
    }
}

/// Reading texts back from what was written gives them, in order.
pub proof fn lemma_take_put_items(texts: Seq<Seq<char>>, rest: Seq<u8>)
    requires
        texts_fit(texts),
    ensures
        spec_take_items(spec_put_items(texts) + rest, texts.len()) == Some((texts, rest)),
    decreases texts.len(),
{
    if texts.len() == 0 {
        assert(spec_put_items(texts) + rest =~= rest);
        assert(texts =~= Seq::empty());
    } else {
        let tail = texts.drop_first();
        assert(spec_put_items(texts) + rest =~= spec_put_text(texts[0]) + (spec_put_items(tail)
            + rest));
        lemma_take_put_text(texts[0], spec_put_items(tail) + rest);
        assert(texts_fit(tail)) by {
            assert forall|i: int| 0 <= i < tail.len() implies text_fits(#[trigger] tail[i]) by {
                assert(tail[i] == texts[i + 1]);
            }
        }
        lemma_take_put_items(tail, rest);
        assert(seq![texts[0]] + tail =~= texts);
    }
}

/// Reading a list of texts back from what was written gives the list.
pub proof fn lemma_take_put_texts(texts: Seq<Seq<char>>, rest: Seq<u8>)
    requires
        texts_fit(texts),
    ensures
        spec_take_texts(spec_put_texts(texts) + rest) == Some((texts, rest)),
{
    let n = texts.len() as u64;
    assert(spec_put_texts(texts) + rest =~= spec_u64_to_le_bytes(n) + (spec_put_items(texts)
        + rest));
    lemma_take_put_u64(n, spec_put_items(texts) + rest);
    lemma_take_put_items(texts, rest);
}

/// Appends a time.
fn put_time(out: &mut Vec<u8>, t: i64)
    ensures
        final(out)@ == old(out)@ + spec_put_time(t),
{
    put_u64(out, t as u64);
}

/// Appends an optional time.
fn put_opt_time(out: &mut Vec<u8>, t: Option<i64>)
    ensures
        final(out)@ == old(out)@ + spec_put_opt_time(t),
{
    match t {
        None => {
            out.push(0u8);
            assert(out@ =~= old(out)@ + seq![0u8]);
        },
        Some(v) => {
            out.push(1u8);
            put_time(out, v);
            assert(out@ =~= old(out)@ + (seq![1u8] + spec_put_time(v)));
        },
    }
}

/// Appends an optional text.
fn put_opt_text(out: &mut Vec<u8>, text: &Option<String>)
    ensures
        final(out)@ == old(out)@ + spec_put_opt_text(text.deep_view()),
        opt_text_fits(text.deep_view()),
{
    match text {
        None => {
            out.push(0u8);
            assert(out@ =~= old(out)@ + seq![0u8]);
        },
        Some(s) => {
            out.push(1u8);
            put_text(out, s.as_str());
            assert(out@ =~= old(out)@ + (seq![1u8] + spec_put_text(s@)));
        },
    }
}

/// Appends a list of texts.
fn put_texts(out: &mut Vec<u8>, texts: &Vec<String>)
    ensures
        final(out)@ == old(out)@ + spec_put_texts(texts.deep_view()),
        texts_fit(texts.deep_view()),
{
    let ghost all = texts.deep_view();
    put_u64(out, texts.len() as u64);
    let ghost start = out@;
    let mut i: usize = 0;
    assert(all.skip(0) =~= all);
    assert(start + spec_put_items(all) =~= old(out)@ + spec_put_texts(all));
    while i < texts.len()
        invariant
            i <= texts.len(),
            all == texts.deep_view(),
            out@ + spec_put_items(all.skip(i as int)) == old(out)@ + spec_put_texts(all),
            forall|j: int| 0 <= j < i ==> text_fits(#[trigger] all[j]),
        decreases texts.len() - i,
    {
        let ghost before = out@;
        let ghost rest = all.skip(i as int);
        put_text(out, texts[i].as_str());
        proof {
            assert(rest[0] == texts[i as int]@);
            assert(rest.drop_first() =~= all.skip(i + 1));
            assert(out@ + spec_put_items(all.skip(i + 1)) =~= before + spec_put_items(rest));
        }
        i += 1;
    }
    assert(spec_put_items(all.skip(texts.len() as int)) =~= Seq::<u8>::empty());
    assert(out@ =~= old(out)@ + spec_put_texts(all));
}

/// Reads a time at `pos`.
fn take_time(bytes: &[u8], pos: usize) -> (r: Option<(i64, usize)>)
    requires
        pos <= bytes.len(),
    ensures
        match r {
            Some((t, next)) => next <= bytes.len() && spec_take_time(bytes@.skip(pos as int))
                == Some((t, bytes@.skip(next as int))),
            None => spec_take_time(bytes@.skip(pos as int)) is None,
        },
{
    match take_u64(bytes, pos) {
        Some((n, next)) => Some((n as i64, next)),
        None => None,
    }
}

/// Reads an optional time at `pos`.
fn take_opt_time(bytes: &[u8], pos: usize) -> (r: Option<(Option<i64>, usize)>)
    requires
        pos <= bytes.len(),
    ensures
        match r {
            Some((t, next)) => next <= bytes.len() && spec_take_opt_time(
                bytes@.skip(pos as int),
            ) == Some((t, bytes@.skip(next as int))),
            None => spec_take_opt_time(bytes@.skip(pos as int)) is None,
        },
{
    if pos >= bytes.len() {
        return None;
    }
    let tag = bytes[pos];
    assert(bytes@.skip(pos as int)[0] == tag);
    assert(bytes@.skip(pos as int).skip(1) =~= bytes@.skip(pos + 1));
    if tag == 0 {
        Some((None, pos + 1))
    } else if tag == 1 {
        match take_time(bytes, pos + 1) {
            Some((t, next)) => Some((Some(t), next)),
            None => None,
        }
    } else {
        None
    }
}

/// Reads an optional text at `pos`.
fn take_opt_text(bytes: &[u8], pos: usize) -> (r: Option<(Option<String>, usize)>)
    requires
        pos <= bytes.len(),
    ensures
        match r {
            Some((text, next)) => next <= bytes.len() && spec_take_opt_text(
                bytes@.skip(pos as int),
            ) == Some((text.deep_view(), bytes@.skip(next as int))),
            None => spec_take_opt_text(bytes@.skip(pos as int)) is None,
        },
{
    if pos >= bytes.len() {
        return None;
    }
    let tag = bytes[pos];
    assert(bytes@.skip(pos as int)[0] == tag);
    assert(bytes@.skip(pos as int).skip(1) =~= bytes@.skip(pos + 1));
    if tag == 0 {
        Some((None, pos + 1))
    } else if tag == 1 {
        match take_text(bytes, pos + 1) {
            Some((text, next)) => Some((Some(text), next)),
            None => None,
        }
    } else {
        None
    }
}

/// Reads a list of texts at `pos`.
fn take_texts(bytes: &[u8], pos: usize) -> (r: Option<(Vec<String>, usize)>)
    requires
        pos <= bytes.len(),
    ensures
        match r {
            Some((texts, next)) => next <= bytes.len() && spec_take_texts(
                bytes@.skip(pos as int),
            ) == Some((texts.deep_view(), bytes@.skip(next as int))),
            None => spec_take_texts(bytes@.skip(pos as int)) is None,
        },
{
    let (count, start) = match take_u64(bytes, pos) {
        Some(found) => found,
        None => { return None; },
    };
    let ghost goal = spec_take_items(bytes@.skip(start as int), count as nat);
    let mut texts: Vec<String> = Vec::new();
    let mut cur: usize = start;
    let mut done: u64 = 0;
    assert(texts.deep_view() =~= Seq::<Seq<char>>::empty());
    assert(forall|tail: Seq<Seq<char>>| Seq::<Seq<char>>::empty() + tail =~= tail);
    while done < count
        invariant
            done <= count,
            cur <= bytes.len(),
            pos <= bytes.len(),
            spec_take_texts(bytes@.skip(pos as int)) == goal,
            goal == (match spec_take_items(bytes@.skip(cur as int), (count - done) as nat) {
                Some((tail, after)) => Some((texts.deep_view() + tail, after)),
                None => None,
            }),
        decreases count - done,
    {
        let ghost before = texts.deep_view();
        match take_text(bytes, cur) {
            Some((text, next)) => {
                proof {
                    let s = text@;
                    assert(before.push(s) =~= before + seq![s]);
                    assert forall|tail: Seq<Seq<char>>|
                        before + (seq![s] + tail) == #[trigger] (before.push(s) + tail) by {
                        assert(before + (seq![s] + tail) =~= before.push(s) + tail);
                    }
                }
                texts.push(text);
                assert(texts.deep_view() =~= before.push(text@));
                cur = next;
                done += 1;
            },
            None => {
                assert(spec_take_items(bytes@.skip(cur as int), (count - done) as nat) is None);
                return None;
            },
        }
    }
    Some((texts, cur))
}

/// The bytes of a token: its fields in the order of their declaration.
pub open spec fn spec_put_token(t: TokenView) -> Seq<u8> {
    spec_put_text(t.access_token) + (spec_put_opt_text(t.refresh_token) + (spec_put_time(
        t.expires_in,
    ) + (spec_put_opt_time(t.expires_at) + spec_put_texts(t.scopes))))
}

/// A token read from the front of some bytes.
pub open spec fn spec_take_token(bytes: Seq<u8>) -> Option<(TokenView, Seq<u8>)> {
    match spec_take_text(bytes) {
        Some((access_token, b1)) => match spec_take_opt_text(b1) {
            Some((refresh_token, b2)) => match spec_take_time(b2) {
                Some((expires_in, b3)) => match spec_take_opt_time(b3) {
                    Some((expires_at, b4)) => match spec_take_texts(b4) {
                        Some((scopes, b5)) => Some(
                            (
                                TokenView {
                                    access_token,
                                    refresh_token,
                                    expires_in,
                                    expires_at,
                                    scopes,
                                },
                                b5,
                            ),
                        ),
                        None => None,
                    },
                    None => None,
                },
                None => None,
            },
            None => None,
        },
        None => None,
    }
}

/// Whether every field of a token fits the field that holds its size.
pub open spec fn token_fits(t: TokenView) -> bool {
    &&& text_fits(t.access_token)
    &&& opt_text_fits(t.refresh_token)
    &&& texts_fit(t.scopes)
}

/// The bytes of a credential's fields, in the order of their declaration.
pub open spec fn spec_put_client(c: PackedClientView) -> Seq<u8> {
    spec_put_text(c.client_id) + (spec_put_text(c.client_secret) + (spec_put_text(c.user_id) + (
    spec_put_text(c.redirect_uri) + (spec_put_texts(c.scopes) + spec_put_token(c.token)))))
}

/// A credential's fields read from the front of some bytes.
pub open spec fn spec_take_client(bytes: Seq<u8>) -> Option<(PackedClientView, Seq<u8>)> {
    match spec_take_text(bytes) {
        Some((client_id, b1)) => match spec_take_text(b1) {
            Some((client_secret, b2)) => match spec_take_text(b2) {
                Some((user_id, b3)) => match spec_take_text(b3) {
                    Some((redirect_uri, b4)) => match spec_take_texts(b4) {
                        Some((scopes, b5)) => match spec_take_token(b5) {
                            Some((token, b6)) => Some(
                                (
                                    PackedClientView {
                                        client_id,
                                        client_secret,
                                        user_id,
                                        redirect_uri,
                                        scopes,
                                        token,
                                    },
                                    b6,
                                ),
                            ),
                            None => None,
                        },
                        None => None,
                    },
                    None => None,
                },
                None => None,
            },
            None => None,
        },
        None => None,
    }
}

/// Whether every field of a credential fits the field that holds its size.
/// This holds of every credential that exists in memory.
pub open spec fn client_fits(c: PackedClientView) -> bool {
    &&& text_fits(c.client_id)
    &&& text_fits(c.client_secret)
    &&& text_fits(c.user_id)
    &&& text_fits(c.redirect_uri)
    &&& texts_fit(c.scopes)
    &&& token_fits(c.token)
}

/// Reading a token back from what was written gives the token.
pub proof fn lemma_take_put_token(t: TokenView, rest: Seq<u8>)
    requires
        token_fits(t),
    ensures
        spec_take_token(spec_put_token(t) + rest) == Some((t, rest)),
{
    let e5 = spec_put_texts(t.scopes) + rest;
    let e4 = spec_put_opt_time(t.expires_at) + e5;
    let e3 = spec_put_time(t.expires_in) + e4;
    let e2 = spec_put_opt_text(t.refresh_token) + e3;
    assert(spec_put_token(t) + rest =~= spec_put_text(t.access_token) + e2);
    lemma_take_put_text(t.access_token, e2);
    lemma_take_put_opt_text(t.refresh_token, e3);
    lemma_take_put_time(t.expires_in, e4);
    lemma_take_put_opt_time(t.expires_at, e5);
    lemma_take_put_texts(t.scopes, rest);
}

/// Reading a credential's fields back from what was written gives them.
pub proof fn lemma_take_put_client(c: PackedClientView, rest: Seq<u8>)
    requires
        client_fits(c),
    ensures
        spec_take_client(spec_put_client(c) + rest) == Some((c, rest)),
{
    let e6 = spec_put_token(c.token) + rest;
    let e5 = spec_put_texts(c.scopes) + e6;
    let e4 = spec_put_text(c.redirect_uri) + e5;
    let e3 = spec_put_text(c.user_id) + e4;
    let e2 = spec_put_text(c.client_secret) + e3;
    assert(spec_put_client(c) + rest =~= spec_put_text(c.client_id) + e2);
    lemma_take_put_text(c.client_id, e2);
    lemma_take_put_text(c.client_secret, e3);
    lemma_take_put_text(c.user_id, e4);
    lemma_take_put_text(c.redirect_uri, e5);
    lemma_take_put_texts(c.scopes, e6);
    lemma_take_put_token(c.token, rest);
}

/// Appends a token.
fn put_token(out: &mut Vec<u8>, token: &Token)
    ensures
        final(out)@ == old(out)@ + spec_put_token(token@),
        token_fits(token@),
{
    put_text(out, token.access_token.as_str());
    put_opt_text(out, &token.refresh_token);
    put_time(out, token.expires_in);
    put_opt_time(out, token.expires_at);
    put_texts(out, &token.scopes);
    assert(out@ =~= old(out)@ + spec_put_token(token@));
}

/// Appends a credential's fields.
fn put_client(out: &mut Vec<u8>, client: &PackedClient)
    ensures
        final(out)@ == old(out)@ + spec_put_client(client@),
        client_fits(client@),
{
    put_text(out, client.client_id.as_str());
    put_text(out, client.client_secret.as_str());
    put_text(out, client.user_id.as_str());
    put_text(out, client.redirect_uri.as_str());
    put_texts(out, &client.scopes);
    put_token(out, &client.token);
    assert(out@ =~= old(out)@ + spec_put_client(client@));
}

/// Reads a token at `pos`.
fn take_token(bytes: &[u8], pos: usize) -> (r: Option<(Token, usize)>)
    requires
        pos <= bytes.len(),
    ensures
        match r {
            Some((token, next)) => next <= bytes.len() && spec_take_token(
                bytes@.skip(pos as int),
            ) == Some((token@, bytes@.skip(next as int))),
            None => spec_take_token(bytes@.skip(pos as int)) is None,
        },
{
    let (access_token, pos1) = match take_text(bytes, pos) {
        Some(found) => found,
        None => { return None; },
    };
    let (refresh_token, pos2) = match take_opt_text(bytes, pos1) {
        Some(found) => found,
        None => { return None; },
    };
    let (expires_in, pos3) = match take_time(bytes, pos2) {
        Some(found) => found,
        None => { return None; },
    };
    let (expires_at, pos4) = match take_opt_time(bytes, pos3) {
        Some(found) => found,
        None => { return None; },
    };
    let (scopes, pos5) = match take_texts(bytes, pos4) {
        Some(found) => found,
        None => { return None; },
    };
    Some((Token { access_token, refresh_token, expires_in, expires_at, scopes }, pos5))
}

/// Reads a credential's fields at `pos`.
fn take_client(bytes: &[u8], pos: usize) -> (r: Option<(PackedClient, usize)>)
    requires
        pos <= bytes.len(),
    ensures
        match r {
            Some((client, next)) => next <= bytes.len() && spec_take_client(
                bytes@.skip(pos as int),
            ) == Some((client@, bytes@.skip(next as int))),
            None => spec_take_client(bytes@.skip(pos as int)) is None,
        },
{
    let (client_id, pos1) = match take_text(bytes, pos) {
        Some(found) => found,
        None => { return None; },
    };
    let (client_secret, pos2) = match take_text(bytes, pos1) {
        Some(found) => found,
        None => { return None; },
    };
    let (user_id, pos3) = match take_text(bytes, pos2) {
        Some(found) => found,
        None => { return None; },
    };
    let (redirect_uri, pos4) = match take_text(bytes, pos3) {
        Some(found) => found,
        None => { return None; },
    };
    let (scopes, pos5) = match take_texts(bytes, pos4) {
        Some(found) => found,
        None => { return None; },
    };
    let (token, pos6) = match take_token(bytes, pos5) {
        Some(found) => found,
        None => { return None; },
    };
    Some((PackedClient { client_id, client_secret, user_id, redirect_uri, scopes, token }, pos6))
}

/// The modulus of the two running sums of the checksum.
pub const CHECKSUM_MODULUS: u64 = 65521;

/// The two running sums over some bytes: the first adds the bytes up,
/// starting from one; the second adds up the values that the first takes.
pub open spec fn spec_sums(bytes: Seq<u8>) -> (int, int)
    decreases bytes.len(),
{
    if bytes.len() == 0 {
        (1, 0)
    } else {
        let before = spec_sums(bytes.drop_last());
        let low = (before.0 + bytes.last()) % 65521;
        (low, (before.1 + low) % 65521)
    }
}

/// The checksum of some bytes: the second sum in the upper half, the first
/// in the lower.
pub open spec fn spec_checksum(bytes: Seq<u8>) -> u64 {
    (spec_sums(bytes).1 * 65536 + spec_sums(bytes).0) as u64
}

/// The four bytes that every record starts with.
pub open spec fn spec_magic() -> Seq<u8> {
    seq![0x53u8, 0x54u8, 0x46u8, 0x31u8]
}

/// A payload with its checksum behind it.
pub open spec fn spec_frame(payload: Seq<u8>) -> Seq<u8> {
    payload + spec_u64_to_le_bytes(spec_checksum(payload))
}

/// The payload of a frame, if the checksum behind it is the payload's.
pub open spec fn spec_unframe(bytes: Seq<u8>) -> Option<Seq<u8>> {
    if bytes.len() >= 8 && spec_u64_from_le_bytes(bytes.skip(bytes.len() - 8)) == spec_checksum(
        bytes.take(bytes.len() - 8),
    ) {
        Some(bytes.take(bytes.len() - 8))
    } else {
        None
    }
}

/// The stored form of a credential.
pub open spec fn spec_encode(c: PackedClientView) -> Seq<u8> {
    spec_frame(spec_magic() + spec_put_client(c))
}

/// The credential that some bytes are the stored form of, if they are one:
/// the checksum must agree, the record must start with the four marker
/// bytes, every field must read, and nothing may be left over.
pub open spec fn spec_decode(bytes: Seq<u8>) -> Option<PackedClientView> {
    match spec_unframe(bytes) {
        Some(payload) => if payload.len() >= 4 && payload.take(4) == spec_magic() {
            match spec_take_client(payload.skip(4)) {
                Some((c, rest)) => if rest.len() == 0 {
                    Some(c)
                } else {
                    None
                },
                None => None,
            }
        } else {
            None
        },
        None => None,
    }
}

/// Taking a frame apart gives back the payload it was made of.
pub proof fn lemma_unframe_frame(payload: Seq<u8>)
    ensures
        spec_unframe(spec_frame(payload)) == Some(payload),
{
    lemma_auto_spec_u64_to_from_le_bytes();
    let sum = spec_u64_to_le_bytes(spec_checksum(payload));
    let bytes = spec_frame(payload);
    assert(bytes.take(bytes.len() - 8) =~= payload);
    assert(bytes.skip(bytes.len() - 8) =~= sum);
}

/// Decoding the stored form of a credential gives back the credential.
pub proof fn lemma_decode_encode(c: PackedClientView)
    requires
        client_fits(c),
    ensures
        spec_decode(spec_encode(c)) == Some(c),
{
    let payload = spec_magic() + spec_put_client(c);
    lemma_unframe_frame(payload);
    assert(payload.take(4) =~= spec_magic());
    assert(payload.skip(4) =~= spec_put_client(c) + Seq::<u8>::empty());
    lemma_take_put_client(c, Seq::empty());
}

/// Computes the checksum of the first `end` bytes.
fn checksum(bytes: &[u8], end: usize) -> (sum: u64)
    requires
        end <= bytes.len(),
    ensures
        sum == spec_checksum(bytes@.take(end as int)),
{
    let mut low: u64 = 1;
    let mut high: u64 = 0;
    let mut i: usize = 0;
    while i < end
        invariant
            i <= end <= bytes.len(),
            low < 65521,
            high < 65521,
            (low as int, high as int) == spec_sums(bytes@.take(i as int)),
        decreases end - i,
    {
        assert(bytes@.take(i + 1).drop_last() =~= bytes@.take(i as int));
        low = (low + bytes[i] as u64) % CHECKSUM_MODULUS;
        high = (high + low) % CHECKSUM_MODULUS;
        i += 1;
    }
    high * 65536 + low
}

/// Writes a credential in its stored form.
pub fn encode(client: &PackedClient) -> (out: Vec<u8>)
    ensures
        out@ == spec_encode(client@),
        client_fits(client@),
{
    let mut out: Vec<u8> = Vec::new();
    out.push(0x53u8);
    out.push(0x54u8);
    out.push(0x46u8);
    out.push(0x31u8);
    assert(out@ =~= spec_magic());
    put_client(&mut out, client);
    let ghost payload = out@;
    let sum = checksum(out.as_slice(), out.len());
    assert(payload.take(payload.len() as int) =~= payload);
    put_u64(&mut out, sum);
    out
}

/// Reads a credential from its stored form; `None` for bytes that are not
/// the stored form of any credential.
pub fn decode(bytes: &[u8]) -> (r: Option<PackedClient>)
    ensures
        match r {
            Some(client) => spec_decode(bytes@) == Some(client@),
            None => spec_decode(bytes@) is None,
        },
{
    if bytes.len() < 8 {
        return None;
    }
    let end: usize = bytes.len() - 8;
    let sum = checksum(bytes, end);
    let stored = u64_from_le_bytes(slice_subrange(bytes, end, bytes.len()));
    assert(bytes@.skip(end as int) =~= bytes@.subrange(end as int, bytes.len() as int));
    if stored != sum {
        return None;
    }
    let payload = slice_subrange(bytes, 0, end);
    assert(payload@ =~= bytes@.take(end as int));
    if payload.len() < 4 {
        return None;
    }
    if payload[0] != 0x53u8 || payload[1] != 0x54u8 || payload[2] != 0x46u8 || payload[3]
        != 0x31u8 {
        assert(payload@.take(4) != spec_magic()) by {
            if payload@.take(4) == spec_magic() {
                assert(payload@.take(4)[0] == 0x53u8);
                assert(payload@.take(4)[1] == 0x54u8);
                assert(payload@.take(4)[2] == 0x46u8);
                assert(payload@.take(4)[3] == 0x31u8);
            }
        }
        return None;
    }
    assert(payload@.take(4) =~= spec_magic());
    match take_client(payload, 4) {
        Some((client, next)) => {
            if next == payload.len() {
                Some(client)
            } else {
                None
            }
        },
        None => None,
    }
}

/// What reads as a number was written as that number.
pub proof fn lemma_put_take_u64(bytes: Seq<u8>)
    requires
        spec_take_u64(bytes) is Some,
    ensures
        bytes == spec_u64_to_le_bytes(spec_take_u64(bytes).unwrap().0) + spec_take_u64(bytes).unwrap().1,
{
    lemma_auto_spec_u64_to_from_le_bytes();
    let head = bytes.subrange(0, 8);
    assert(spec_u64_to_le_bytes(spec_u64_from_le_bytes(head)) == head);
    assert(bytes =~= head + bytes.skip(8));
}

/// What reads as a text was written as that text.
pub proof fn lemma_put_take_text(bytes: Seq<u8>)
    requires
        spec_take_text(bytes) is Some,
    ensures
        bytes == spec_put_text(spec_take_text(bytes).unwrap().0) + spec_take_text(bytes).unwrap().1,
        text_fits(spec_take_text(bytes).unwrap().0),
{
    broadcast use decode_utf8_encode_utf8;

    lemma_put_take_u64(bytes);
    let n = spec_take_u64(bytes).unwrap().0;
    let rest = spec_take_u64(bytes).unwrap().1;
    let raw = rest.take(n as int);
    assert(encode_utf8(decode_utf8(raw)) == raw);
    assert(rest =~= raw + rest.skip(n as int));
    assert(bytes =~= spec_put_text(decode_utf8(raw)) + rest.skip(n as int));
}

/// What reads as a time was written as that time.
pub proof fn lemma_put_take_time(bytes: Seq<u8>)
    requires
        spec_take_time(bytes) is Some,
    ensures
        bytes == spec_put_time(spec_take_time(bytes).unwrap().0) + spec_take_time(bytes).unwrap().1,
{
    lemma_put_take_u64(bytes);
    let n = spec_take_u64(bytes).unwrap().0;
    assert((n as i64) as u64 == n) by (bit_vector);
}

/// What reads as an optional time was written as it.
pub proof fn lemma_put_take_opt_time(bytes: Seq<u8>)
    requires
        spec_take_opt_time(bytes) is Some,
    ensures
        bytes == spec_put_opt_time(spec_take_opt_time(bytes).unwrap().0) + spec_take_opt_time(
            bytes,
        ).unwrap().1,
{
    if bytes[0] == 0 {
        assert(bytes =~= seq![0u8] + bytes.skip(1));
    } else {
        lemma_put_take_time(bytes.skip(1));
        let t = spec_take_time(bytes.skip(1)).unwrap().0;
        let rest = spec_take_time(bytes.skip(1)).unwrap().1;
        assert(bytes =~= seq![1u8] + bytes.skip(1));
        assert(bytes =~= (seq![1u8] + spec_put_time(t)) + rest);
    }
}

/// What reads as an optional text was written as it.
pub proof fn lemma_put_take_opt_text(bytes: Seq<u8>)
    requires
        spec_take_opt_text(bytes) is Some,
    ensures
        bytes == spec_put_opt_text(spec_take_opt_text(bytes).unwrap().0) + spec_take_opt_text(
            bytes,
        ).unwrap().1,
        opt_text_fits(spec_take_opt_text(bytes).unwrap().0),
{
    if bytes[0] == 0 {
        assert(bytes =~= seq![0u8] + bytes.skip(1));
    } else {
        lemma_put_take_text(bytes.skip(1));
        let s = spec_take_text(bytes.skip(1)).unwrap().0;
        let rest = spec_take_text(bytes.skip(1)).unwrap().1;
        assert(bytes =~= seq![1u8] + bytes.skip(1));
        assert(bytes =~= (seq![1u8] + spec_put_text(s)) + rest);
    }
}

/// What reads as so many texts was written as those texts.
pub proof fn lemma_put_take_items(bytes: Seq<u8>, count: nat)
    requires
        spec_take_items(bytes, count) is Some,
    ensures
        bytes == spec_put_items(spec_take_items(bytes, count).unwrap().0) + spec_take_items(
            bytes,
            count,
        ).unwrap().1,
        spec_take_items(bytes, count).unwrap().0.len() == count,
        forall|i: int|
            0 <= i < count ==> text_fits(#[trigger] spec_take_items(bytes, count).unwrap().0[i]),
    decreases count,
{
    if count == 0 {
        assert(bytes =~= spec_put_items(Seq::empty()) + bytes);
    } else {
        lemma_put_take_text(bytes);
        let s = spec_take_text(bytes).unwrap().0;
        let rest = spec_take_text(bytes).unwrap().1;
        lemma_put_take_items(rest, (count - 1) as nat);
        let tail = spec_take_items(rest, (count - 1) as nat).unwrap().0;
        let after = spec_take_items(rest, (count - 1) as nat).unwrap().1;
        let texts = seq![s] + tail;
        assert(texts.drop_first() =~= tail);
        assert(texts[0] == s);
        assert(bytes =~= spec_put_items(texts) + after);
        assert forall|i: int| 0 <= i < count implies text_fits(#[trigger] texts[i]) by {
            if i > 0 {
                assert(texts[i] == tail[i - 1]);
            }
        }
    }
}

/// What reads as a list of texts was written as that list.
pub proof fn lemma_put_take_texts(bytes: Seq<u8>)
    requires
        spec_take_texts(bytes) is Some,
    ensures
        bytes == spec_put_texts(spec_take_texts(bytes).unwrap().0) + spec_take_texts(bytes).unwrap().1,
        texts_fit(spec_take_texts(bytes).unwrap().0),
{
    lemma_put_take_u64(bytes);
    let n = spec_take_u64(bytes).unwrap().0;
    let rest = spec_take_u64(bytes).unwrap().1;
    lemma_put_take_items(rest, n as nat);
    let texts = spec_take_items(rest, n as nat).unwrap().0;
    let after = spec_take_items(rest, n as nat).unwrap().1;
    assert(bytes =~= spec_put_texts(texts) + after);
}

/// Joining byte strings does not depend on how the joins are grouped.
proof fn lemma_concat_assoc(a: Seq<u8>, b: Seq<u8>, c: Seq<u8>)
    ensures
        (a + b) + c == a + (b + c),
{
    assert((a + b) + c =~= a + (b + c));
}

/// What reads as a token was written as that token.
pub proof fn lemma_put_take_token(bytes: Seq<u8>)
    requires
        spec_take_token(bytes) is Some,
    ensures
        bytes == spec_put_token(spec_take_token(bytes).unwrap().0) + spec_take_token(
            bytes,
        ).unwrap().1,
        token_fits(spec_take_token(bytes).unwrap().0),
{
    lemma_put_take_text(bytes);
    let b1 = spec_take_text(bytes).unwrap().1;
    lemma_put_take_opt_text(b1);
    let b2 = spec_take_opt_text(b1).unwrap().1;
    lemma_put_take_time(b2);
    let b3 = spec_take_time(b2).unwrap().1;
    lemma_put_take_opt_time(b3);
    let b4 = spec_take_opt_time(b3).unwrap().1;
    lemma_put_take_texts(b4);
    let b5 = spec_take_texts(b4).unwrap().1;
    let t = spec_take_token(bytes).unwrap().0;
    let part1 = spec_put_text(t.access_token);
    let part2 = spec_put_opt_text(t.refresh_token);
    let part3 = spec_put_time(t.expires_in);
    let part4 = spec_put_opt_time(t.expires_at);
    let part5 = spec_put_texts(t.scopes);
    assert(b4 == part5 + b5);
    assert(b3 == part4 + b4);
    assert(b2 == part3 + b3);
    assert(b1 == part2 + b2);
    assert(bytes == part1 + b1);
    lemma_concat_assoc(part4, part5, b5);
    lemma_concat_assoc(part3, part4 + part5, b5);
    lemma_concat_assoc(part2, part3 + (part4 + part5), b5);
    lemma_concat_assoc(part1, part2 + (part3 + (part4 + part5)), b5);
}

/// What reads as a credential's fields was written as them.
pub proof fn lemma_put_take_client(bytes: Seq<u8>)
    requires
        spec_take_client(bytes) is Some,
    ensures
        bytes == spec_put_client(spec_take_client(bytes).unwrap().0) + spec_take_client(
            bytes,
        ).unwrap().1,
        client_fits(spec_take_client(bytes).unwrap().0),
{
    lemma_put_take_text(bytes);
    let b1 = spec_take_text(bytes).unwrap().1;
    lemma_put_take_text(b1);
    let b2 = spec_take_text(b1).unwrap().1;
    lemma_put_take_text(b2);
    let b3 = spec_take_text(b2).unwrap().1;
    lemma_put_take_text(b3);
    let b4 = spec_take_text(b3).unwrap().1;
    lemma_put_take_texts(b4);
    let b5 = spec_take_texts(b4).unwrap().1;
    lemma_put_take_token(b5);
    let b6 = spec_take_token(b5).unwrap().1;
    let c = spec_take_client(bytes).unwrap().0;
    let part1 = spec_put_text(c.client_id);
    let part2 = spec_put_text(c.client_secret);
    let part3 = spec_put_text(c.user_id);
    let part4 = spec_put_text(c.redirect_uri);
    let part5 = spec_put_texts(c.scopes);
    let part6 = spec_put_token(c.token);
    assert(b5 == part6 + b6);
    assert(b4 == part5 + b5);
    assert(b3 == part4 + b4);
    assert(b2 == part3 + b3);
    assert(b1 == part2 + b2);
    assert(bytes == part1 + b1);
    lemma_concat_assoc(part5, part6, b6);
    lemma_concat_assoc(part4, part5 + part6, b6);
    lemma_concat_assoc(part3, part4 + (part5 + part6), b6);
    lemma_concat_assoc(part2, part3 + (part4 + (part5 + part6)), b6);
    lemma_concat_assoc(part1, part2 + (part3 + (part4 + (part5 + part6))), b6);
}

/// Only the stored form of a credential decodes to it: bytes that decode
/// are, to the last byte, what encoding the result gives.
pub proof fn lemma_encode_decode(bytes: Seq<u8>)
    requires
        spec_decode(bytes) is Some,
    ensures
        bytes == spec_encode(spec_decode(bytes)->0),
        client_fits(spec_decode(bytes)->0),
{
    lemma_auto_spec_u64_to_from_le_bytes();
    let payload = spec_unframe(bytes)->0;
    let trailer = bytes.skip(bytes.len() - 8);
    assert(spec_u64_to_le_bytes(spec_u64_from_le_bytes(trailer)) == trailer);
    assert(bytes =~= payload + trailer);
    lemma_put_take_client(payload.skip(4));
    let c = spec_take_client(payload.skip(4)).unwrap().0;
    assert(payload =~= payload.take(4) + payload.skip(4));
    assert(payload.skip(4) =~= spec_put_client(c));
}

/// The bytes of a byte string, added up.
pub open spec fn spec_total(bytes: Seq<u8>) -> int
    decreases bytes.len(),
{
    if bytes.len() == 0 {
        0
    } else {
        spec_total(bytes.drop_last()) + bytes.last()
    }
}

/// Whether two byte strings of one length differ at `at` and nowhere else.
pub open spec fn differs_only_at(a: Seq<u8>, b: Seq<u8>, at: int) -> bool {
    &&& a.len() == b.len()
    &&& 0 <= at < a.len()
    &&& a[at] != b[at]
    &&& forall|i: int| 0 <= i < a.len() && i != at ==> a[i] == b[i]
}

/// Both running sums stay below the modulus, and the first is one more than
/// the bytes added up, modulo the modulus.
proof fn lemma_sums(bytes: Seq<u8>)
    ensures
        0 <= spec_sums(bytes).0 < 65521,
        0 <= spec_sums(bytes).1 < 65521,
        spec_sums(bytes).0 == (1 + spec_total(bytes)) % 65521,
        spec_total(bytes) >= 0,
    decreases bytes.len(),
{
    if bytes.len() > 0 {
        lemma_sums(bytes.drop_last());
    }
}

/// Changing one byte changes the total by as much as the byte changed.
proof fn lemma_total_differs(a: Seq<u8>, b: Seq<u8>, at: int)
    requires
        differs_only_at(a, b, at),
    ensures
        spec_total(b) - spec_total(a) == b[at] - a[at],
    decreases a.len(),
{
    let front_a = a.drop_last();
    let front_b = b.drop_last();
    if at == a.len() - 1 {
        assert(front_a =~= front_b);
    } else {
        assert(differs_only_at(front_a, front_b, at));
        lemma_total_differs(front_a, front_b, at);
    }
}

/// A frame in which one byte was changed, anywhere, is refused.
pub proof fn lemma_damaged_frame_refused(payload: Seq<u8>, damaged: Seq<u8>, at: int)
    requires
        differs_only_at(spec_frame(payload), damaged, at),
    ensures
        spec_unframe(damaged) is None,
{
    lemma_auto_spec_u64_to_from_le_bytes();
    let frame = spec_frame(payload);
    let n = payload.len() as int;
    let trailer = spec_u64_to_le_bytes(spec_checksum(payload));
    let got = damaged.take(n);
    let got_trailer = damaged.skip(n);
    assert(frame.take(n) =~= payload);
    assert(frame.skip(n) =~= trailer);
    lemma_sums(payload);
    lemma_sums(got);
    if spec_unframe(damaged) is Some {
        assert(spec_u64_from_le_bytes(got_trailer) == spec_checksum(got));
        if at >= n {
            assert(got =~= payload);
            assert(spec_u64_to_le_bytes(spec_u64_from_le_bytes(got_trailer)) == got_trailer);
            assert(got_trailer == trailer);
            assert(got_trailer[at - n] == damaged[at]);
            assert(trailer[at - n] == frame[at]);
        } else {
            assert(got_trailer =~= trailer);
            assert(spec_checksum(got) == spec_checksum(payload));
            assert(differs_only_at(payload, got, at)) by {
                assert(payload[at] == frame[at]);
                assert(got[at] == damaged[at]);
                assert forall|i: int| 0 <= i < n && i != at implies payload[i] == got[i] by {
                    assert(payload[i] == frame[i]);
                    assert(got[i] == damaged[i]);
                }
            }
            lemma_total_differs(payload, got, at);
            let low = spec_sums(payload).0;
            let low_got = spec_sums(got).0;
            assert(low != low_got);
            assert(false);
        }
    }
}

/// The stored form of a credential in which one byte was changed, anywhere,
/// does not decode.
pub proof fn lemma_damaged_record_refused(c: PackedClientView, damaged: Seq<u8>, at: int)
    requires
        differs_only_at(spec_encode(c), damaged, at),
    ensures
        spec_decode(damaged) is None,
{
    lemma_damaged_frame_refused(spec_magic() + spec_put_client(c), damaged, at);
}

} // verus!
