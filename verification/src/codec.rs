//! The wire format: one JSON document per datagram, start to finish.
//!
//! A walk in progress is the object `{"Ping":{"source":S,"hops":H}}`, with
//! `S` and `H` as decimal numerals, and the request to stop is the string
//! `"Done"`. A reader takes the two fields in either order and takes spaces,
//! tabs and line ends between the tokens; it takes no further field, no
//! other way to write a name or a number, and nothing behind the document.

use vstd::prelude::*;
use crate::message::{Msg, Ping};
use crate::decimal::{
    digits, is_digit, number_at, pow10, read_decimal, write_decimal, lemma_digits_len,
    lemma_run_end, lemma_value_of_digits,
};

verus! {

/// The byte `{`.
pub open spec fn open_text() -> Seq<u8> {
    seq![123u8]
}

/// The byte `}`.
pub open spec fn close_text() -> Seq<u8> {
    seq![125u8]
}

/// The byte `:`.
pub open spec fn colon_text() -> Seq<u8> {
    seq![58u8]
}

/// The byte `,`.
pub open spec fn comma_text() -> Seq<u8> {
    seq![44u8]
}

/// The bytes `"Ping"`.
pub open spec fn ping_text() -> Seq<u8> {
    seq![34u8, 80u8, 105u8, 110u8, 103u8, 34u8]
}

/// The bytes `"source"`.
pub open spec fn source_text() -> Seq<u8> {
    seq![34u8, 115u8, 111u8, 117u8, 114u8, 99u8, 101u8, 34u8]
}

/// The bytes `"hops"`.
pub open spec fn hops_text() -> Seq<u8> {
    seq![34u8, 104u8, 111u8, 112u8, 115u8, 34u8]
}

/// The bytes `"Done"`.
pub open spec fn done_text() -> Seq<u8> {
    seq![34u8, 68u8, 111u8, 110u8, 101u8, 34u8]
}

/// The document that is written for a message: no spaces, the source first.
pub open spec fn wire(m: Msg) -> Seq<u8> {
    match m {
        Msg::Done => done_text(),
        Msg::Ping(p) => open_text() + ping_text() + colon_text() + open_text() + source_text()
            + colon_text() + digits(p.source as nat) + comma_text() + hops_text() + colon_text()
            + digits(p.hops as nat) + close_text() + close_text(),
    }
}

/// `pat` stands in `b` at `at`.
pub open spec fn has_at(b: Seq<u8>, at: int, pat: Seq<u8>) -> bool {
    &&& 0 <= at
    &&& at + pat.len() <= b.len()
    &&& b.subrange(at, at + pat.len()) == pat
}

/// The byte is a space, a tab or a line end.
pub open spec fn is_space(c: u8) -> bool {
    c == 32 || c == 9 || c == 10 || c == 13
}

/// Where the run of spaces that starts at `i` ends.
pub open spec fn space_end(b: Seq<u8>, i: int) -> int
    decreases b.len() - i,
{
    if 0 <= i < b.len() && is_space(b[i]) {
        space_end(b, i + 1)
    } else {
        i
    }
}

/// Reads one token: from `at` on, spaces and then `pat`. Gives the place
/// behind it; `None` where `pat` does not come next, or `at` is `None`.
pub open spec fn then_token(at: Option<int>, b: Seq<u8>, pat: Seq<u8>) -> Option<int> {
    match at {
        None => None,
        Some(i) => {
            let k = space_end(b, i);
            if has_at(b, k, pat) {
                Some(k + pat.len())
            } else {
                None
            }
        },
    }
}

/// Reads one field: `name`, a colon and a numeral of at most `limit`. Gives
/// the number and the place behind it.
pub open spec fn field(b: Seq<u8>, at: Option<int>, name: Seq<u8>, limit: nat) -> Option<
    (nat, int),
> {
    match then_token(then_token(at, b, name), b, colon_text()) {
        None => None,
        Some(k) => number_at(b, space_end(b, k), limit),
    }
}

/// Reads the two fields of a walk, with a comma between them, in either
/// order. Gives the walk and the place behind the second field.
pub open spec fn ping_body(b: Seq<u8>, at: Option<int>) -> Option<(Ping, int)> {
    match field(b, at, source_text(), 0xffff) {
        Some((source, k)) => match field(
            b,
            then_token(Some(k), b, comma_text()),
            hops_text(),
            0xffff_ffff,
        ) {
            Some((hops, end)) => Some((Ping { source: source as u16, hops: hops as u32 }, end)),
            None => None,
        },
        None => match field(b, at, hops_text(), 0xffff_ffff) {
            Some((hops, k)) => match field(
                b,
                then_token(Some(k), b, comma_text()),
                source_text(),
                0xffff,
            ) {
                Some((source, end)) => Some(
                    (Ping { source: source as u16, hops: hops as u32 }, end),
                ),
                None => None,
            },
            None => None,
        },
    }
}

/// Only spaces are left from `at` on.
pub open spec fn ends_at(b: Seq<u8>, at: Option<int>) -> bool {
    at matches Some(k) && space_end(b, k) == b.len()
}

/// Where the fields of a walk begin: behind `{`, `"Ping"`, `:` and `{`.
pub open spec fn ping_opening(b: Seq<u8>) -> Option<int> {
    then_token(
        then_token(
            then_token(then_token(Some(0), b, open_text()), b, ping_text()),
            b,
            colon_text(),
        ),
        b,
        open_text(),
    )
}

/// The message that a datagram holds, if it is a document.
pub open spec fn parse(b: Seq<u8>) -> Option<Msg> {
    if ends_at(b, then_token(Some(0), b, done_text())) {
        Some(Msg::Done)
    } else {
        match ping_body(b, ping_opening(b)) {
            None => None,
            Some((p, k)) => if ends_at(
                b,
                then_token(then_token(Some(k), b, close_text()), b, close_text()),
            ) {
                Some(Msg::Ping(p))
            } else {
                None
            },
        }
    }
}

/// A place in a datagram as a place in its bytes.
pub open spec fn place(at: Option<usize>) -> Option<int> {
    match at {
        Some(i) => Some(i as int),
        None => None,
    }
}

/// Why a datagram was turned down: it is no document of a message.
#[derive(Clone, Copy, Debug, PartialEq, Eq, Structural)]
pub struct MalformedMessageError {
    /// The length of the datagram that was turned down.
    pub len: usize,
}

/// Turns messages into datagrams and back.
#[derive(Clone, Copy, Debug)]
pub struct Codec;

/// Whether `pat` stands in `b` at `at`.
fn matches_at(b: &[u8], at: usize, pat: &Vec<u8>) -> (r: bool)
    ensures
        r == has_at(b@, at as int, pat@),
        r ==> at + pat@.len() <= usize::MAX,
{
    let n: usize = b.len();
    let m: usize = pat.len();
    if at > n || m > n - at {
        return false;
    }
    let mut k: usize = 0;
    while k < m
        invariant
            n == b@.len(),
            m == pat@.len(),
            at + m <= n,
            k <= m,
            forall|x: int| 0 <= x < k ==> b@[at + x] == pat@[x],
        decreases m - k,
    {
        if b[at + k] != pat[k] {
            proof {
                assert(b@.subrange(at as int, at + m)[k as int] == b@[at + k]);
            }
            return false;
        }
        k = k + 1;
    }
    proof {
        assert(b@.subrange(at as int, at + m) =~= pat@);
    }
    true
}

/// The token `{`, to write or to look for.
fn open_bytes() -> (v: Vec<u8>)
    ensures
        v@ == open_text(),
{
    let v = vec![123u8];
    assert(v@ =~= open_text());
    v
}

/// The token `}`, to write or to look for.
fn close_bytes() -> (v: Vec<u8>)
    ensures
        v@ == close_text(),
{
    let v = vec![125u8];
    assert(v@ =~= close_text());
    v
}

/// The token `:`, to write or to look for.
fn colon_bytes() -> (v: Vec<u8>)
    ensures
        v@ == colon_text(),
{
    let v = vec![58u8];
    assert(v@ =~= colon_text());
    v
}

/// The token `,`, to write or to look for.
fn comma_bytes() -> (v: Vec<u8>)
    ensures
        v@ == comma_text(),
{
    let v = vec![44u8];
    assert(v@ =~= comma_text());
    v
}

/// The token `"Ping"`, to write or to look for.
fn ping_bytes() -> (v: Vec<u8>)
    ensures
        v@ == ping_text(),
{
    let v = vec![34u8, 80u8, 105u8, 110u8, 103u8, 34u8];
    assert(v@ =~= ping_text());
    v
}

/// The token `"source"`, to write or to look for.
fn source_bytes() -> (v: Vec<u8>)
    ensures
        v@ == source_text(),
{
    let v = vec![34u8, 115u8, 111u8, 117u8, 114u8, 99u8, 101u8, 34u8];
    assert(v@ =~= source_text());
    v
}

/// The token `"hops"`, to write or to look for.
fn hops_bytes() -> (v: Vec<u8>)
    ensures
        v@ == hops_text(),
{
    let v = vec![34u8, 104u8, 111u8, 112u8, 115u8, 34u8];
    assert(v@ =~= hops_text());
    v
}

/// The token `"Done"`, to write or to look for.
fn done_bytes() -> (v: Vec<u8>)
    ensures
        v@ == done_text(),
{
    let v = vec![34u8, 68u8, 111u8, 110u8, 101u8, 34u8];
    assert(v@ =~= done_text());
    v
}

/// Skips the spaces from `start` on.
fn skip_spaces(b: &[u8], start: usize) -> (end: usize)
    requires
        start <= b@.len(),
    ensures
        end == space_end(b@, start as int),
        start <= end <= b@.len(),
{
    let mut i: usize = start;
    while i < b.len() && (b[i] == 32 || b[i] == 9 || b[i] == 10 || b[i] == 13)
        invariant
            start <= i <= b@.len(),
            space_end(b@, start as int) == space_end(b@, i as int),
        decreases b@.len() - i,
    {
        i = i + 1;
    }
    i
}

/// Reads one token behind `at`.
fn take_token(b: &[u8], at: Option<usize>, pat: &Vec<u8>) -> (r: Option<usize>)
    requires
        at matches Some(i) ==> i <= b@.len(),
    ensures
        place(r) == then_token(place(at), b@, pat@),
        r matches Some(k) ==> k <= b@.len(),
{
    match at {
        None => None,
        Some(i) => {
            let k = skip_spaces(b, i);
            if matches_at(b, k, pat) {
                Some(k + pat.len())
            } else {
                None
            }
        },
    }
}

/// Reads one field behind `at`.
fn take_field(b: &[u8], at: Option<usize>, name: &Vec<u8>, limit: u32) -> (r: Option<
    (u32, usize),
>)
    requires
        at matches Some(i) ==> i <= b@.len(),
    ensures
        match r {
            Some((v, k)) => k <= b@.len() && field(b@, place(at), name@, limit as nat) == Some(
                (v as nat, k as int),
            ),
            None => field(b@, place(at), name@, limit as nat) is None,
        },
{
    let colon = colon_bytes();
    match take_token(b, take_token(b, at, name), &colon) {
        None => None,
        Some(k) => {
            let start = skip_spaces(b, k);
            read_decimal(b, start, limit)
        },
    }
}

/// Reads the two fields of a walk behind `at`.
fn take_ping_body(b: &[u8], at: Option<usize>) -> (r: Option<(Ping, usize)>)
    requires
        at matches Some(i) ==> i <= b@.len(),
    ensures
        match r {
            Some((p, k)) => k <= b@.len() && ping_body(b@, place(at)) == Some((p, k as int)),
            None => ping_body(b@, place(at)) is None,
        },
{
    let comma = comma_bytes();
    let source_name = source_bytes();
    let hops_name = hops_bytes();
    match take_field(b, at, &source_name, 0xffff) {
        Some((source, k)) => {
            match take_field(b, take_token(b, Some(k), &comma), &hops_name, 0xffff_ffff) {
                Some((hops, end)) => Some((Ping { source: source as u16, hops }, end)),
                None => None,
            }
        },
        None => {
            match take_field(b, at, &hops_name, 0xffff_ffff) {
                Some((hops, k)) => {
                    match take_field(b, take_token(b, Some(k), &comma), &source_name, 0xffff) {
                        Some((source, end)) => Some((Ping { source: source as u16, hops }, end)),
                        None => None,
                    }
                },
                None => None,
            }
        },
    }
}

/// Whether only spaces are left behind `at`.
fn at_end(b: &[u8], at: Option<usize>) -> (r: bool)
    requires
        at matches Some(i) ==> i <= b@.len(),
    ensures
        r == ends_at(b@, place(at)),
{
    match at {
        None => false,
        Some(k) => skip_spaces(b, k) == b.len(),
    }
}

/// Writes the document of `item`.
pub fn to_wire(item: &Msg) -> (out: Vec<u8>)
    ensures
        out@ == wire(*item),
        parse(out@) == Some(*item),
{
    proof {
        lemma_round_trip(*item);
    }
    match item {
        Msg::Done => done_bytes(),
        Msg::Ping(p) => {
            let mut out = open_bytes();
            out.append(&mut ping_bytes());
            out.append(&mut colon_bytes());
            out.append(&mut open_bytes());
            out.append(&mut source_bytes());
            out.append(&mut colon_bytes());
            write_decimal(&mut out, p.source as u32);
            out.append(&mut comma_bytes());
            out.append(&mut hops_bytes());
            out.append(&mut colon_bytes());
            write_decimal(&mut out, p.hops);
            out.append(&mut close_bytes());
            out.append(&mut close_bytes());
            out
        },
    }
}

/// Reads a whole datagram. It gives the message that the datagram holds,
/// and turns down every datagram that is no document.
pub fn from_wire(src: &[u8]) -> (r: Result<Msg, MalformedMessageError>)
    ensures
        match r {
            Ok(m) => parse(src@) == Some(m),
            Err(e) => parse(src@) is None && e.len == src@.len(),
        },
{
    let bad = MalformedMessageError { len: src.len() };
    let done = done_bytes();
    if at_end(src, take_token(src, Some(0), &done)) {
        return Ok(Msg::Done);
    }
    let open = open_bytes();
    let close = close_bytes();
    let colon = colon_bytes();
    let name = ping_bytes();
    let outer = take_token(src, Some(0), &open);
    let named = take_token(src, outer, &name);
    let opening = take_token(src, take_token(src, named, &colon), &open);
    match take_ping_body(src, opening) {
        None => Err(bad),
        Some((p, k)) => {
            let closed = take_token(src, take_token(src, Some(k), &close), &close);
            if at_end(src, closed) {
                Ok(Msg::Ping(p))
            } else {
                Err(bad)
            }
        },
    }
}

/// `bytes::BytesMut`: the buffer that a datagram is handed over in.
#[verifier::external_type_specification]
#[verifier::external_body]
pub struct ExBytesMut(bytes::BytesMut);

/// The bytes that a buffer holds, first to last.
pub uninterp spec fn held(buf: bytes::BytesMut) -> Seq<u8>;

/// Calls `BytesMut::extend_from_slice`, which makes room and then appends
/// `data` behind what the buffer holds. It panics where the two lengths
/// together overflow `usize`, which is left out here.
#[verifier::external_body]
fn buffer_extend(dst: &mut bytes::BytesMut, data: &Vec<u8>)
    requires
        held(*old(dst)).len() + data@.len() <= usize::MAX,
    ensures
        held(*final(dst)) == held(*old(dst)) + data@,
{
    dst.extend_from_slice(data);
}

/// Calls `BytesMut::split_to` at the buffer's length, which hands out all
/// that the buffer holds and leaves it empty, and copies what came out.
#[verifier::external_body]
fn buffer_take_all(src: &mut bytes::BytesMut) -> (out: Vec<u8>)
    ensures
        out@ == held(*old(src)),
        held(*final(src)) == Seq::<u8>::empty(),
{
    let len: usize = src.len();
    src.split_to(len).to_vec()
}

impl Codec {
    pub fn new() -> (c: Codec) {
        Codec
    }

    /// Appends the document of `item` to `dst`: on an empty buffer, the
    /// whole of one outgoing datagram.
    pub fn encode(&mut self, item: Msg, dst: &mut bytes::BytesMut)
        requires
            held(*old(dst)).len() + wire(item).len() <= usize::MAX,
        ensures
            held(*final(dst)) == held(*old(dst)) + wire(item),
            held(*old(dst)).len() == 0 ==> parse(held(*final(dst))) == Some(item),
    {
        let out = to_wire(&item);
        buffer_extend(dst, &out);
        proof {
            if held(*old(dst)).len() == 0 {
                assert(held(*final(dst)) =~= wire(item));
            }
        }
    }

    /// Takes all that `src` holds as one incoming datagram and reads it:
    /// the buffer is empty afterwards, whatever it held. The result is
    /// never `Ok(None)`: a datagram is a whole message or none.
    pub fn decode(&mut self, src: &mut bytes::BytesMut) -> (r: Result<
        Option<Msg>,
        MalformedMessageError,
    >)
        ensures
            held(*final(src)) == Seq::<u8>::empty(),
            match r {
                Ok(found) => found is Some && parse(held(*old(src))) == found,
                Err(e) => parse(held(*old(src))) is None && e.len == held(*old(src)).len(),
            },
    {
        let datagram = buffer_take_all(src);
        match from_wire(datagram.as_slice()) {
            Ok(m) => Ok(Some(m)),
            Err(e) => Err(e),
        }
    }
}

/// What is written for a message is short: at most 43 bytes.
pub proof fn lemma_wire_len(m: Msg)
    ensures
        6 <= wire(m).len() <= 43,
{
    reveal_with_fuel(pow10, 11);
    match m {
        Msg::Done => {},
        Msg::Ping(p) => {
            lemma_wire_shape(p);
            lemma_digits_len(p.source as nat, 5);
            lemma_digits_len(p.hops as nat, 10);
        },
    }
}

/// A token that stands right at `i` is read there: no space comes first.
proof fn lemma_token_here(b: Seq<u8>, i: int, pat: Seq<u8>)
    requires
        has_at(b, i, pat),
        pat.len() > 0,
        !is_space(pat[0]),
    ensures
        space_end(b, i) == i,
        then_token(Some(i), b, pat) == Some(i + pat.len()),
{
    assert(b[i] == b.subrange(i, i + pat.len())[0]);
}

/// The bytes `{"Ping":{"source":`, which a written walk begins with.
pub open spec fn head_text() -> Seq<u8> {
    seq![
        123u8, 34u8, 80u8, 105u8, 110u8, 103u8, 34u8, 58u8, 123u8, 34u8, 115u8, 111u8, 117u8,
        114u8, 99u8, 101u8, 34u8, 58u8,
    ]
}

/// The bytes `,"hops":`, which stand between the numerals of a written walk.
pub open spec fn mid_text() -> Seq<u8> {
    seq![44u8, 34u8, 104u8, 111u8, 112u8, 115u8, 34u8, 58u8]
}

/// The bytes `}}`, which a written walk ends with.
pub open spec fn tail_text() -> Seq<u8> {
    seq![125u8, 125u8]
}

/// A written walk is its two numerals between three fixed runs of bytes.
pub proof fn lemma_wire_shape(p: Ping)
    ensures
        wire(Msg::Ping(p)) == head_text() + digits(p.source as nat) + mid_text() + digits(
            p.hops as nat,
        ) + tail_text(),
{
    let ds = digits(p.source as nat);
    let dh = digits(p.hops as nat);
    let head = open_text() + ping_text() + colon_text() + open_text() + source_text()
        + colon_text();
    assert(head =~= head_text());
    let mid = comma_text() + hops_text() + colon_text();
    assert(mid =~= mid_text());
    assert(close_text() + close_text() =~= tail_text());
    assert(head + ds + comma_text() + hops_text() + colon_text() =~= head + ds + mid);
    assert(head + ds + mid + dh + close_text() + close_text() =~= head + ds + mid + dh + (
        close_text() + close_text()));
}

/// Behind the head of a written walk the first numeral is due.
proof fn lemma_head(b: Seq<u8>)
    requires
        has_at(b, 0, head_text()),
    ensures
        !has_at(b, 0, done_text()),
        ping_opening(b) == Some(9int),
        then_token(then_token(Some(9int), b, source_text()), b, colon_text()) == Some(18int),
{
    assert forall|k: int| 0 <= k < 18 implies b[k] == head_text()[k] by {
        assert(b.subrange(0, 18)[k] == b[k]);
    }
    assert(b.subrange(0, 6)[0] == b[0]);
    assert(b.subrange(0, 1) =~= open_text());
    lemma_token_here(b, 0, open_text());
    assert(b.subrange(1, 7) =~= ping_text());
    lemma_token_here(b, 1, ping_text());
    assert(b.subrange(7, 8) =~= colon_text());
    lemma_token_here(b, 7, colon_text());
    assert(b.subrange(8, 9) =~= open_text());
    lemma_token_here(b, 8, open_text());
    assert(b.subrange(9, 17) =~= source_text());
    lemma_token_here(b, 9, source_text());
    assert(b.subrange(17, 18) =~= colon_text());
    lemma_token_here(b, 17, colon_text());
}

/// Behind the run between the numerals of a written walk the second
/// numeral is due.
proof fn lemma_mid(b: Seq<u8>, i: int)
    requires
        has_at(b, i, mid_text()),
    ensures
        then_token(
            then_token(then_token(Some(i), b, comma_text()), b, hops_text()),
            b,
            colon_text(),
        ) == Some(i + 8),
{
    assert forall|k: int| 0 <= k < 8 implies b[i + k] == mid_text()[k] by {
        assert(b.subrange(i, i + 8)[k] == b[i + k]);
    }
    assert(b.subrange(i, i + 1) =~= comma_text());
    lemma_token_here(b, i, comma_text());
    assert(b.subrange(i + 1, i + 7) =~= hops_text());
    lemma_token_here(b, i + 1, hops_text());
    assert(b.subrange(i + 7, i + 8) =~= colon_text());
    lemma_token_here(b, i + 7, colon_text());
}

/// The end of a written walk closes the document.
proof fn lemma_tail(b: Seq<u8>, j: int)
    requires
        has_at(b, j, tail_text()),
        b.len() == j + 2,
    ensures
        ends_at(b, then_token(then_token(Some(j), b, close_text()), b, close_text())),
{
    assert forall|k: int| 0 <= k < 2 implies b[j + k] == tail_text()[k] by {
        assert(b.subrange(j, j + 2)[k] == b[j + k]);
    }
    assert(b.subrange(j, j + 1) =~= close_text());
    lemma_token_here(b, j, close_text());
    assert(b.subrange(j + 1, j + 2) =~= close_text());
    lemma_token_here(b, j + 1, close_text());
}

/// A numeral that stands at `at`, with no digit behind it, is read there.
proof fn lemma_number_here(b: Seq<u8>, at: int, n: nat, limit: nat)
    requires
        has_at(b, at, digits(n)),
        n <= limit,
        at + digits(n).len() == b.len() || !is_digit(b[at + digits(n).len()]),
    ensures
        space_end(b, at) == at,
        number_at(b, at, limit) == Some((n, at + digits(n).len())),
{
    let d = digits(n);
    lemma_value_of_digits(n);
    assert forall|k: int| at <= k < at + d.len() implies is_digit(#[trigger] b[k]) by {
        assert(b.subrange(at, at + d.len())[k - at] == b[k]);
    }
    lemma_run_end(b, at, at + d.len());
}

/// Where the parts of a written walk stand in it: the first numeral from
/// 18 to `i`, the second numeral from `i + 8` to `j`.
proof fn lemma_parts(b: Seq<u8>, ds: Seq<u8>, dh: Seq<u8>, i: int, j: int)
    requires
        b == head_text() + ds + mid_text() + dh + tail_text(),
        i == 18 + ds.len(),
        j == i + 8 + dh.len(),
    ensures
        b.len() == j + 2,
        has_at(b, 0, head_text()),
        has_at(b, 18, ds),
        has_at(b, i, mid_text()),
        has_at(b, i + 8, dh),
        has_at(b, j, tail_text()),
        b[i] == 44u8,
        b[j] == 125u8,
{
    assert(b.subrange(0, 18) =~= head_text());
    assert(b.subrange(18, i) =~= ds);
    assert(b.subrange(i, i + 8) =~= mid_text());
    assert(b.subrange(i + 8, j) =~= dh);
    assert(b.subrange(j, j + 2) =~= tail_text());
    assert(b[i] == mid_text()[0]);
    assert(b[j] == tail_text()[0]);
}

/// A datagram in which the parts of a written walk stand holds that walk.
proof fn lemma_parts_parse(b: Seq<u8>, p: Ping, i: int, j: int)
    requires
        i == 18 + digits(p.source as nat).len(),
        j == i + 8 + digits(p.hops as nat).len(),
        b.len() == j + 2,
        has_at(b, 0, head_text()),
        has_at(b, 18, digits(p.source as nat)),
        has_at(b, i, mid_text()),
        has_at(b, i + 8, digits(p.hops as nat)),
        has_at(b, j, tail_text()),
        b[i] == 44u8,
        b[j] == 125u8,
    ensures
        parse(b) == Some(Msg::Ping(p)),
{
    lemma_head(b);
    lemma_number_here(b, 18, p.source as nat, 0xffff);
    assert(field(b, Some(9int), source_text(), 0xffff) == Some((p.source as nat, i)));
    lemma_mid(b, i);
    lemma_number_here(b, i + 8, p.hops as nat, 0xffff_ffff);
    assert(field(b, then_token(Some(i), b, comma_text()), hops_text(), 0xffff_ffff) == Some(
        (p.hops as nat, j),
    ));
    assert(ping_body(b, Some(9int)) == Some((p, j)));
    lemma_tail(b, j);
}

/// What was written is read back: the document of a message holds that
/// message.
pub proof fn lemma_round_trip(m: Msg)
    ensures
        parse(wire(m)) == Some(m),
{
    let b = wire(m);
    match m {
        Msg::Done => {
            assert(b.subrange(0, 6) =~= done_text());
            lemma_token_here(b, 0, done_text());
        },
        Msg::Ping(p) => {
            lemma_wire_shape(p);
            let ds = digits(p.source as nat);
            let dh = digits(p.hops as nat);
            let i = 18 + ds.len() as int;
            let j = i + 8 + dh.len() as int;
            lemma_parts(b, ds, dh, i, j);
            lemma_parts_parse(b, p, i, j);
        },
    }
}

/// No two messages share a document.
pub proof fn lemma_wire_injective(a: Msg, b: Msg)
    requires
        wire(a) == wire(b),
    ensures
        a == b,
{
    lemma_round_trip(a);
    lemma_round_trip(b);
}

} // verus!
