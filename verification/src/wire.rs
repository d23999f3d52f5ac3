//! The agent protocol's framing: big-endian lengths, length-prefixed strings
//! and the identities answer.

use crate::error::ErrorKind;
use vstd::prelude::*;

verus! {

/// Message code of a request for the identity list.
pub const REQUEST_IDENTITIES: u8 = 11;

/// Message code of the answer that carries the identity list.
pub const IDENTITIES_ANSWER: u8 = 12;

/// Message code of a signing request.
pub const SIGN_REQUEST: u8 = 13;

/// Message code of a signature.
pub const SIGN_RESPONSE: u8 = 14;

/// Message code of a failure.
pub const FAILURE: u8 = 5;

/// Default ceiling on the declared length of a frame: one mebibyte.
pub const MAX_FRAME_LEN: u32 = 1048576;

/// The byte of `n` that stands `place` bytes above the lowest one.
#[verifier::opaque]
pub open spec fn byte_at(n: int, place: int) -> u8 {
    if place == 0 {
        (n % 0x100) as u8
    } else if place == 1 {
        ((n / 0x100) % 0x100) as u8
    } else if place == 2 {
        ((n / 0x1_0000) % 0x100) as u8
    } else {
        ((n / 0x100_0000) % 0x100) as u8
    }
}

/// The four bytes that stand for `n` in big-endian order.
pub open spec fn be32(n: int) -> Seq<u8> {
    seq![byte_at(n, 3), byte_at(n, 2), byte_at(n, 1), byte_at(n, 0)]
}

/// The number that the first four bytes of `b` stand for in big-endian order.
pub open spec fn be32_value(b: Seq<u8>) -> int {
    b[0] * 0x100_0000 + b[1] * 0x1_0000 + b[2] * 0x100 + b[3]
}

/// Decoding undoes encoding for every number that fits in 32 bits.
pub proof fn lemma_be32_roundtrip(n: int)
    requires
        0 <= n <= u32::MAX,
    ensures
        be32(n).len() == 4,
        be32_value(be32(n)) == n,
{
    reveal(byte_at);
}

/// Encoding undoes decoding for every four bytes.
pub proof fn lemma_be32_value_roundtrip(b: Seq<u8>)
    requires
        b.len() == 4,
    ensures
        0 <= be32_value(b) <= u32::MAX,
        be32(be32_value(b)) == b,
{
    reveal(byte_at);
    let b0: int = b[0] as int;
    let b1: int = b[1] as int;
    let b2: int = b[2] as int;
    let b3: int = b[3] as int;
    let n: int = be32_value(b);
    assert(n == (b0 * 0x1_0000 + b1 * 0x100 + b2) * 0x100 + b3);
    assert(n / 0x100 == b0 * 0x1_0000 + b1 * 0x100 + b2);
    assert(n % 0x100 == b3);
    assert(n / 0x1_0000 == b0 * 0x100 + b1);
    assert((n / 0x100) % 0x100 == b2);
    assert(n / 0x100_0000 == b0);
    assert((n / 0x1_0000) % 0x100 == b1);
    assert(be32(n) =~= b);
}

/// Appends the big-endian form of `n` to `out`.
pub fn put_u32(out: &mut Vec<u8>, n: u32)
    ensures
        final(out)@ == old(out)@ + be32(n as int),
{
    out.push((n / 0x100_0000) as u8);
    out.push(((n / 0x1_0000) % 0x100) as u8);
    out.push(((n / 0x100) % 0x100) as u8);
    out.push((n % 0x100) as u8);
    proof {
        reveal(byte_at);
        assert(out@ =~= old(out)@ + be32(n as int));
    }
}

/// Reads the big-endian number that starts at `at`, if four bytes are there.
pub fn read_u32(bytes: &[u8], at: usize) -> (r: Option<u32>)
    ensures
        r is Some <==> at + 4 <= bytes@.len(),
        r matches Some(n) ==> n == be32_value(bytes@.skip(at as int)),
{
    if bytes.len() < 4 || at > bytes.len() - 4 {
        return None;
    }
    let b0: u32 = bytes[at] as u32;
    let b1: u32 = bytes[at + 1] as u32;
    let b2: u32 = bytes[at + 2] as u32;
    let b3: u32 = bytes[at + 3] as u32;
    Some(b0 * 0x100_0000 + b1 * 0x1_0000 + b2 * 0x100 + b3)
}

/// One identity as the wire carries it: the key blob and its comment, both as
/// raw bytes.
#[derive(Debug)]
pub struct Identity {
    pub blob: Vec<u8>,
    pub comment: Vec<u8>,
}

/// What an [`Identity`] holds, as mathematical sequences.
pub struct IdentityModel {
    pub blob: Seq<u8>,
    pub comment: Seq<u8>,
}

impl View for Identity {
    type V = IdentityModel;

    open spec fn view(&self) -> IdentityModel {
        IdentityModel { blob: self.blob@, comment: self.comment@ }
    }
}

impl Clone for Identity {
    fn clone(&self) -> (copy: Self)
        ensures
            copy@ == self@,
    {
        Identity {
            blob: copy_bytes(self.blob.as_slice()),
            comment: copy_bytes(self.comment.as_slice()),
        }
    }
}

/// The models of a list of identities, in order.
pub open spec fn models(ids: Seq<Identity>) -> Seq<IdentityModel> {
    ids.map_values(|id: Identity| id@)
}

/// A string on the wire: its length in four bytes, then its bytes.
pub open spec fn encode_string(s: Seq<u8>) -> Seq<u8> {
    be32(s.len() as int) + s
}

/// An identity on the wire: the blob as a string, then the comment as a string.
pub open spec fn encode_identity(id: IdentityModel) -> Seq<u8> {
    encode_string(id.blob) + encode_string(id.comment)
}

/// The identities on the wire, one after the other.
pub open spec fn encode_identities(ids: Seq<IdentityModel>) -> Seq<u8>
    decreases ids.len(),
{
    if ids.len() == 0 {
        Seq::<u8>::empty()
    } else {
        encode_identity(ids[0]) + encode_identities(ids.drop_first())
    }
}

/// The body of an identities answer: the code, the count, the identities.
pub open spec fn identities_body(ids: Seq<IdentityModel>) -> Seq<u8> {
    seq![IDENTITIES_ANSWER] + be32(ids.len() as int) + encode_identities(ids)
}

/// A frame: the length of the body in four bytes, then the body.
pub open spec fn frame(body: Seq<u8>) -> Seq<u8> {
    be32(body.len() as int) + body
}

/// Whether `f` is a frame whose length prefix equals the length of what follows.
pub open spec fn well_framed(f: Seq<u8>) -> bool {
    f.len() >= 4 && be32_value(f) == f.len() - 4
}

/// The string at the start of `s` and what follows it, if `s` starts with one.
pub open spec fn parse_string(s: Seq<u8>) -> Option<(Seq<u8>, Seq<u8>)> {
    if s.len() >= 4 && be32_value(s) <= s.len() - 4 {
        Some((s.subrange(4, 4 + be32_value(s)), s.skip(4 + be32_value(s))))
    } else {
        None
    }
}

/// The identity at the start of `s` and what follows it, if `s` starts with one.
pub open spec fn parse_identity(s: Seq<u8>) -> Option<(IdentityModel, Seq<u8>)> {
    match parse_string(s) {
        Some((blob, after_blob)) => match parse_string(after_blob) {
            Some((comment, rest)) => Some((IdentityModel { blob, comment }, rest)),
            None => None,
        },
        None => None,
    }
}

/// The first `n` identities of `s`, if `s` starts with that many.
pub open spec fn parse_identities(s: Seq<u8>, n: nat) -> Option<Seq<IdentityModel>>
    decreases n,
{
    if n == 0 {
        Some(Seq::<IdentityModel>::empty())
    } else {
        match parse_identity(s) {
            Some((id, rest)) => match parse_identities(rest, (n - 1) as nat) {
                Some(tail) => Some(seq![id] + tail),
                None => None,
            },
            None => None,
        }
    }
}

/// The identities that the body of an identities answer declares, if the body
/// has the code of such an answer, a count, and that many identities. Bytes
/// after the last identity are not looked at.
pub open spec fn parse_identities_answer(body: Seq<u8>) -> Option<Seq<IdentityModel>> {
    if body.len() >= 5 && body[0] == IDENTITIES_ANSWER {
        parse_identities(body.skip(5), be32_value(body.skip(1)) as nat)
    } else {
        None
    }
}

/// The key blob that the body of a signing request refers to: the string that
/// follows the message code, if it is whole.
pub open spec fn parse_sign_blob(body: Seq<u8>) -> Option<Seq<u8>> {
    if body.len() >= 1 {
        match parse_string(body.skip(1)) {
            Some((blob, _)) => Some(blob),
            None => None,
        }
    } else {
        None
    }
}

/// The frame of a failure: a body of one byte, the failure code.
pub open spec fn failure_frame() -> Seq<u8> {
    seq![0u8, 0u8, 0u8, 1u8, FAILURE]
}

/// The length that a frame's four-byte header declares, where the header is
/// four bytes long and the length does not exceed `ceiling`.
pub open spec fn declared_length(header: Seq<u8>, ceiling: int) -> Option<int> {
    if header.len() == 4 && be32_value(header) <= ceiling {
        Some(be32_value(header))
    } else {
        None
    }
}

/// The type tag of a key blob: the string at its start, if there is one.
pub open spec fn parse_key_type(blob: Seq<u8>) -> Option<Seq<u8>> {
    match parse_string(blob) {
        Some((tag, _)) => Some(tag),
        None => None,
    }
}

/// A copy of `bytes`.
pub fn copy_bytes(bytes: &[u8]) -> (copy: Vec<u8>)
    ensures
        copy@ == bytes@,
{
    let mut copy: Vec<u8> = Vec::new();
    let mut i: usize = 0;
    while i < bytes.len()
        invariant
            i <= bytes@.len(),
            copy@ == bytes@.take(i as int),
        decreases bytes@.len() - i,
    {
        copy.push(bytes[i]);
        i = i + 1;
    }
    copy
}

/// Whether `a` and `b` hold the same bytes.
pub fn bytes_equal(a: &[u8], b: &[u8]) -> (same: bool)
    ensures
        same == (a@ == b@),
{
    if a.len() != b.len() {
        return false;
    }
    let mut i: usize = 0;
    while i < a.len()
        invariant
            i <= a@.len(),
            a@.len() == b@.len(),
            a@.take(i as int) == b@.take(i as int),
        decreases a@.len() - i,
    {
        if a[i] != b[i] {
            return false;
        }
        assert(a@.take(i + 1) =~= a@.take(i as int).push(a@[i as int]));
        assert(b@.take(i + 1) =~= b@.take(i as int).push(b@[i as int]));
        i = i + 1;
    }
    assert(a@ =~= a@.take(i as int));
    assert(b@ =~= b@.take(i as int));
    true
}

/// Appends `s` to `out` as a string of the wire.
fn put_string(out: &mut Vec<u8>, s: &[u8])
    requires
        s@.len() <= u32::MAX,
    ensures
        final(out)@ == old(out)@ + encode_string(s@),
{
    put_u32(out, s.len() as u32);
    let mut i: usize = 0;
    while i < s.len()
        invariant
            i <= s@.len(),
            out@ == old(out)@ + be32(s@.len() as int) + s@.take(i as int),
        decreases s@.len() - i,
    {
        out.push(s[i]);
        assert(s@.take(i + 1) =~= s@.take(i as int).push(s@[i as int]));
        i = i + 1;
    }
    assert(s@ =~= s@.take(i as int));
    assert(out@ =~= old(out)@ + encode_string(s@));
}

/// Reads the string that starts at `at`: its bytes and the position after it.
/// Returns `None` where the length or the bytes run past the end.
pub fn read_string(bytes: &[u8], at: usize) -> (r: Option<(Vec<u8>, usize)>)
    ensures
        at > bytes@.len() ==> r is None,
        at <= bytes@.len() ==> match parse_string(bytes@.skip(at as int)) {
            Some((s, rest)) => r matches Some((v, next)) && v@ == s && at + 4 + s.len() == next
                && next <= bytes@.len() && bytes@.skip(next as int) == rest,
            None => r is None,
        },
{
    let total: usize = bytes.len();
    let n: u32 = match read_u32(bytes, at) {
        Some(n) => n,
        None => { return None; },
    };
    let start: usize = at + 4;
    if n as usize > total - start {
        return None;
    }
    let end: usize = start + n as usize;
    let v: Vec<u8> = copy_bytes(vstd::slice::slice_subrange(bytes, start, end));
    proof {
        let tail = bytes@.skip(at as int);
        assert(tail.subrange(4, 4 + n as int) =~= bytes@.subrange(start as int, end as int));
        assert(tail.skip(4 + n as int) =~= bytes@.skip(end as int));
    }
    Some((v, end))
}

/// The encoding of two lists, one after the other, is that of the joined list.
pub proof fn lemma_encode_concat(a: Seq<IdentityModel>, b: Seq<IdentityModel>)
    ensures
        encode_identities(a + b) == encode_identities(a) + encode_identities(b),
    decreases a.len(),
{
    if a.len() == 0 {
        assert(a + b =~= b);
        assert(encode_identities(a) + encode_identities(b) =~= encode_identities(b));
    } else {
        assert((a + b).drop_first() =~= a.drop_first() + b);
        assert((a + b)[0] == a[0]);
        lemma_encode_concat(a.drop_first(), b);
        assert(encode_identities(a + b) =~= encode_identities(a) + encode_identities(b));
    }
}

/// Appending one identity appends its encoding.
pub proof fn lemma_encode_push(ids: Seq<IdentityModel>, id: IdentityModel)
    ensures
        encode_identities(ids.push(id)) == encode_identities(ids) + encode_identity(id),
{
    let one = seq![id];
    assert(one.drop_first() =~= Seq::<IdentityModel>::empty());
    assert(encode_identities(one.drop_first()) =~= Seq::<u8>::empty());
    assert(encode_identities(one) =~= encode_identity(id));
    assert(ids.push(id) =~= ids + one);
    lemma_encode_concat(ids, one);
}

/// Every identity takes at least its two length fields, and no less than its
/// own encoding.
pub proof fn lemma_encode_len(ids: Seq<IdentityModel>)
    ensures
        encode_identities(ids).len() >= 8 * ids.len(),
        forall|i: int|
            0 <= i < ids.len() ==> encode_identities(ids).len() >= #[trigger] encode_identity(
                ids[i],
            ).len(),
    decreases ids.len(),
{
    if ids.len() > 0 {
        let rest = ids.drop_first();
        lemma_encode_len(rest);
        assert forall|i: int| 0 <= i < ids.len() implies encode_identities(ids).len()
            >= #[trigger] encode_identity(ids[i]).len() by {
            if i > 0 {
                assert(ids[i] == rest[i - 1]);
            }
        }
    }
}

/// A string that was encoded, whatever follows it, is read back as it was.
pub proof fn lemma_parse_string_encode(s: Seq<u8>, rest: Seq<u8>)
    requires
        s.len() <= u32::MAX,
    ensures
        parse_string(encode_string(s) + rest) == Some((s, rest)),
{
    let whole = encode_string(s) + rest;
    lemma_be32_roundtrip(s.len() as int);
    assert(be32_value(whole) == be32_value(be32(s.len() as int)));
    assert(whole.subrange(4, 4 + s.len() as int) =~= s);
    assert(whole.skip(4 + s.len() as int) =~= rest);
}

/// Identities that were encoded, whatever follows them, are read back as they
/// were.
pub proof fn lemma_parse_encode(ids: Seq<IdentityModel>, rest: Seq<u8>)
    requires
        forall|i: int|
            0 <= i < ids.len() ==> (#[trigger] ids[i]).blob.len() <= u32::MAX
                && ids[i].comment.len() <= u32::MAX,
    ensures
        parse_identities(encode_identities(ids) + rest, ids.len()) == Some(ids),
    decreases ids.len(),
{
    if ids.len() == 0 {
        assert(ids =~= Seq::<IdentityModel>::empty());
    } else {
        let id = ids[0];
        let tail = ids.drop_first();
        let whole = encode_identities(ids) + rest;
        let after_id = encode_identities(tail) + rest;
        let after_blob = encode_string(id.comment) + after_id;
        assert(whole =~= encode_string(id.blob) + after_blob);
        lemma_parse_string_encode(id.blob, after_blob);
        lemma_parse_string_encode(id.comment, after_id);
        assert(parse_identity(whole) == Some((id, after_id)));
        assert forall|i: int| 0 <= i < tail.len() implies (#[trigger] tail[i]).blob.len()
            <= u32::MAX && tail[i].comment.len() <= u32::MAX by {
            assert(tail[i] == ids[i + 1]);
        }
        lemma_parse_encode(tail, rest);
        assert(seq![id] + tail =~= ids);
    }
}

/// A string that was read stands at the start of the bytes, as its encoding.
pub proof fn lemma_parse_string_prefix(s: Seq<u8>)
    requires
        parse_string(s) is Some,
    ensures
        ({
            let (v, rest) = parse_string(s)->0;
            s == encode_string(v) + rest
        }),
{
    let (v, rest) = parse_string(s)->0;
    lemma_be32_value_roundtrip(s.take(4));
    assert(be32_value(s.take(4)) == be32_value(s));
    assert(s =~= encode_string(v) + rest);
}

/// Identities that were read stand at the start of the bytes, as their
/// encoding, and are as many as were asked for.
pub proof fn lemma_parse_identities_prefix(s: Seq<u8>, n: nat)
    requires
        parse_identities(s, n) is Some,
    ensures
        ({
            let ids = parse_identities(s, n)->0;
            &&& ids.len() == n
            &&& encode_identities(ids).len() <= s.len()
            &&& s.take(encode_identities(ids).len() as int) == encode_identities(ids)
        }),
    decreases n,
{
    let ids = parse_identities(s, n)->0;
    if n == 0 {
        assert(s.take(0) =~= Seq::<u8>::empty());
    } else {
        let (id, rest) = parse_identity(s)->0;
        let (blob, after_blob) = parse_string(s)->0;
        lemma_parse_string_prefix(s);
        lemma_parse_string_prefix(after_blob);
        lemma_parse_identities_prefix(rest, (n - 1) as nat);
        let tail = parse_identities(rest, (n - 1) as nat)->0;
        assert(ids == seq![id] + tail);
        assert(ids.drop_first() =~= tail);
        assert(s =~= encode_identity(id) + rest);
        assert(s.take(encode_identities(ids).len() as int) =~= encode_identity(id) + rest.take(
            encode_identities(tail).len() as int,
        ));
    }
}

/// A body that was built from identities is read back as those identities.
pub proof fn lemma_identities_roundtrip(ids: Seq<IdentityModel>)
    requires
        identities_body(ids).len() <= u32::MAX,
    ensures
        parse_identities_answer(identities_body(ids)) == Some(ids),
{
    let body = identities_body(ids);
    lemma_encode_len(ids);
    lemma_be32_roundtrip(ids.len() as int);
    assert(be32_value(body.skip(1)) == be32_value(be32(ids.len() as int)));
    assert(body.skip(5) =~= encode_identities(ids) + Seq::<u8>::empty());
    assert forall|i: int| 0 <= i < ids.len() implies (#[trigger] ids[i]).blob.len() <= u32::MAX
        && ids[i].comment.len() <= u32::MAX by {
        assert(encode_identities(ids).len() >= encode_identity(ids[i]).len());
    }
    lemma_parse_encode(ids, Seq::<u8>::empty());
}

/// Reads the identities that the body of an identities answer declares.
///
/// Fails with `MalformedFrame` where the body lacks the code or the count, or
/// where fewer identities can be read than the count declares.
pub fn decode_identities_answer(body: &[u8]) -> (r: Result<Vec<Identity>, ErrorKind>)
    ensures
        match parse_identities_answer(body@) {
            Some(ids) => r matches Ok(v) && models(v@) == ids,
            None => r matches Err(e) && e == ErrorKind::MalformedFrame,
        },
{
    if body.len() < 5 || body[0] != IDENTITIES_ANSWER {
        return Err(ErrorKind::MalformedFrame);
    }
    let count: u32 = match read_u32(body, 1) {
        Some(n) => n,
        None => { return Err(ErrorKind::MalformedFrame); },
    };
    let mut ids: Vec<Identity> = Vec::new();
    let mut at: usize = 5;
    let mut i: u32 = 0;
    assert(models(ids@) =~= Seq::<IdentityModel>::empty());
    assert(parse_identities(body@.skip(5), count as nat) is Some ==> Seq::<
        IdentityModel,
    >::empty() + parse_identities(body@.skip(5), count as nat)->0 =~= parse_identities(
        body@.skip(5),
        count as nat,
    )->0);
    while i < count
        invariant
            5 <= at <= body@.len(),
            i <= count,
            body@[0] == IDENTITIES_ANSWER,
            count == be32_value(body@.skip(1)),
            parse_identities(body@.skip(5), count as nat) == match parse_identities(
                body@.skip(at as int),
                (count - i) as nat,
            ) {
                Some(tail) => Some(models(ids@) + tail),
                None => None,
            },
        decreases count - i,
    {
        let ghost before = models(ids@);
        let (blob, after_blob) = match read_string(body, at) {
            Some(found) => found,
            None => {
                assert(parse_identity(body@.skip(at as int)) is None);
                assert(parse_identities(body@.skip(at as int), (count - i) as nat) is None);
                return Err(ErrorKind::MalformedFrame);
            },
        };
        let (comment, next) = match read_string(body, after_blob) {
            Some(found) => found,
            None => {
                assert(parse_identity(body@.skip(at as int)) is None);
                assert(parse_identities(body@.skip(at as int), (count - i) as nat) is None);
                return Err(ErrorKind::MalformedFrame);
            },
        };
        let id = Identity { blob, comment };
        proof {
            let rest = body@.skip(next as int);
            assert(parse_identity(body@.skip(at as int)) == Some((id@, rest)));
            assert(models(ids@.push(id)) =~= before.push(id@));
            match parse_identities(rest, (count - i - 1) as nat) {
                Some(tail) => {
                    assert(before + (seq![id@] + tail) =~= before.push(id@) + tail);
                },
                None => {},
            }
        }
        ids.push(id);
        at = next;
        i = i + 1;
    }
    assert(models(ids@) + Seq::<IdentityModel>::empty() =~= models(ids@));
    Ok(ids)
}

/// Builds the frame of an identities answer that lists `list`: the length of
/// the body, then the code, the count, and each identity's blob and comment as
/// strings.
///
/// Fails with `MalformedFrame` exactly where the body is longer than a length
/// prefix can say.
pub fn encode_identities_answer(list: &Vec<Identity>) -> (r: Result<Vec<u8>, ErrorKind>)
    ensures
        match r {
            Ok(f) => identities_body(models(list@)).len() <= u32::MAX && f@ == frame(
                identities_body(models(list@)),
            ),
            Err(e) => e == ErrorKind::MalformedFrame && identities_body(models(list@)).len()
                > u32::MAX,
        },
{
    let ghost ids = models(list@);
    let mut total: u64 = 5;
    let mut i: usize = 0;
    assert(ids.take(0) =~= Seq::<IdentityModel>::empty());
    while i < list.len()
        invariant
            i <= list@.len(),
            ids == models(list@),
            total == 5 + encode_identities(ids.take(i as int)).len(),
            total <= u32::MAX,
        decreases list@.len() - i,
    {
        let blob_len: usize = list[i].blob.len();
        let comment_len: usize = list[i].comment.len();
        proof {
            assert(ids.take(i + 1) =~= ids.take(i as int).push(ids[i as int]));
            lemma_encode_push(ids.take(i as int), ids[i as int]);
            assert(ids =~= ids.take(i + 1) + ids.skip(i + 1));
            lemma_encode_concat(ids.take(i + 1), ids.skip(i + 1));
        }
        if blob_len > u32::MAX as usize || comment_len > u32::MAX as usize {
            return Err(ErrorKind::MalformedFrame);
        }
        total = total + 8 + blob_len as u64 + comment_len as u64;
        if total > u32::MAX as u64 {
            return Err(ErrorKind::MalformedFrame);
        }
        i = i + 1;
    }
    proof {
        assert(ids.take(i as int) =~= ids);
        lemma_encode_len(ids);
    }
    let mut out: Vec<u8> = Vec::new();
    put_u32(&mut out, total as u32);
    out.push(IDENTITIES_ANSWER);
    put_u32(&mut out, list.len() as u32);
    let ghost head = be32(total as int) + seq![IDENTITIES_ANSWER] + be32(ids.len() as int);
    assert(out@ =~= head);
    assert(ids.take(0) =~= Seq::<IdentityModel>::empty());
    let mut k: usize = 0;
    while k < list.len()
        invariant
            k <= list@.len(),
            ids == models(list@),
            encode_identities(ids).len() <= u32::MAX,
            out@ == head + encode_identities(ids.take(k as int)),
        decreases list@.len() - k,
    {
        proof {
            assert(ids.take(k + 1) =~= ids.take(k as int).push(ids[k as int]));
            lemma_encode_push(ids.take(k as int), ids[k as int]);
            lemma_encode_len(ids);
            assert(encode_identities(ids).len() >= encode_identity(ids[k as int]).len());
        }
        put_string(&mut out, list[k].blob.as_slice());
        put_string(&mut out, list[k].comment.as_slice());
        assert(out@ =~= head + encode_identities(ids.take(k + 1)));
        k = k + 1;
    }
    proof {
        assert(ids.take(k as int) =~= ids);
        assert(out@ =~= frame(identities_body(ids)));
    }
    Ok(out)
}

/// Leaving identities out never makes the encoding longer.
pub proof fn lemma_encode_filter_len(ids: Seq<IdentityModel>, keep: spec_fn(IdentityModel) -> bool)
    ensures
        encode_identities(ids.filter(keep)).len() <= encode_identities(ids).len(),
        ids.filter(keep).len() <= ids.len(),
    decreases ids.len(),
{
    reveal(Seq::filter);
    if ids.len() > 0 {
        let front = ids.drop_last();
        let last = ids.last();
        lemma_encode_filter_len(front, keep);
        assert(ids =~= front.push(last));
        lemma_encode_push(front, last);
        if keep(last) {
            lemma_encode_push(front.filter(keep), last);
        }
    }
}

/// The failure frame is a frame, and its body is the failure code alone.
pub proof fn lemma_failure_frame()
    ensures
        failure_frame() == frame(seq![FAILURE]),
        well_framed(failure_frame()),
{
    reveal(byte_at);
    assert(failure_frame() =~= frame(seq![FAILURE]));
}

/// A frame that was built around a body that a length prefix can describe has
/// a length prefix that matches its body.
pub proof fn lemma_frame_well_framed(body: Seq<u8>)
    requires
        body.len() <= u32::MAX,
    ensures
        well_framed(frame(body)),
        frame(body).skip(4) == body,
{
    lemma_be32_roundtrip(body.len() as int);
    assert(be32_value(frame(body)) == be32_value(be32(body.len() as int)));
    assert(frame(body).skip(4) =~= body);
}

/// The count that a frame of identities declares is the number of identities
/// that it lists.
pub proof fn lemma_count_field(ids: Seq<IdentityModel>)
    requires
        ids.len() <= u32::MAX,
    ensures
        be32_value(frame(identities_body(ids)).skip(5)) == ids.len(),
{
    let shown = frame(identities_body(ids));
    lemma_be32_roundtrip(ids.len() as int);
    assert(shown.skip(5).take(4) =~= be32(ids.len() as int));
    assert(be32_value(shown.skip(5)) == be32_value(shown.skip(5).take(4)));
}

/// The frame of a failure.
pub fn failure() -> (f: Vec<u8>)
    ensures
        f@ == failure_frame(),
{
    let mut f: Vec<u8> = Vec::new();
    f.push(0);
    f.push(0);
    f.push(0);
    f.push(1);
    f.push(FAILURE);
    assert(f@ =~= failure_frame());
    f
}

/// The length that a frame's header declares. Fails with `MalformedFrame`
/// where the header is not four bytes long or declares more than `ceiling`.
pub fn frame_length(header: &[u8], ceiling: u32) -> (r: Result<u32, ErrorKind>)
    ensures
        match declared_length(header@, ceiling as int) {
            Some(n) => r matches Ok(len) && len == n,
            None => r matches Err(e) && e == ErrorKind::MalformedFrame,
        },
{
    if header.len() != 4 {
        return Err(ErrorKind::MalformedFrame);
    }
    assert(header@.skip(0) =~= header@);
    match read_u32(header, 0) {
        Some(n) => if n <= ceiling {
            Ok(n)
        } else {
            Err(ErrorKind::MalformedFrame)
        },
        None => Err(ErrorKind::MalformedFrame),
    }
}

/// The key blob that the body of a signing request refers to, or `None` where
/// the body is too short or the string after the message code is not whole.
pub fn sign_request_blob(body: &[u8]) -> (r: Option<Vec<u8>>)
    ensures
        match parse_sign_blob(body@) {
            Some(blob) => r matches Some(v) && v@ == blob,
            None => r is None,
        },
{
    if body.len() < 1 {
        return None;
    }
    match read_string(body, 1) {
        Some((blob, _)) => Some(blob),
        None => None,
    }
}

} // verus!
