//! The wire protocol's binary encoding: each message is a self-describing
//! record, a one-byte variant tag followed by its fields in declaration
//! order. Identifiers are 16 little-endian bytes, counters 4, booleans one
//! byte, strings a 4-byte length followed by their UTF-8 bytes, and id lists
//! a 4-byte count followed by the ids.
//!
//! Decoding is total: it accepts exactly the encodings and rejects every
//! other byte string, so decoding an encoding returns the original message,
//! and encoding a decoded value reproduces the bytes.
use vstd::prelude::*;

use vstd::bytes::{
    spec_u128_to_le_bytes, spec_u32_to_le_bytes, u128_from_le_bytes, u128_to_le_bytes,
    u32_from_le_bytes, u32_to_le_bytes,
};
use vstd::slice::{slice_subrange, slice_to_vec};
use vstd::utf8::{decode_utf8, encode_utf8, valid_utf8};

use crate::protocol::{
    ClientMessage, ClientMessageV, ClientRequestError, ServerMessage, ServerMessageV,
};

verus! {

broadcast use vstd::utf8::group_utf8_lib;

/// Encoding of one 32-bit counter: 4 little-endian bytes.
pub open spec fn enc_u32(x: u32) -> Seq<u8> {
    spec_u32_to_le_bytes(x)
}

/// Encoding of one identifier: 16 little-endian bytes.
pub open spec fn enc_id(x: u128) -> Seq<u8> {
    spec_u128_to_le_bytes(x)
}

/// Encoding of a boolean: one byte, 1 for true, 0 for false.
pub open spec fn enc_bool(b: bool) -> Seq<u8> {
    seq![
        if b {
            1u8
        } else {
            0u8
        },
    ]
}

/// Encoding of a string: its UTF-8 length as a 32-bit counter, then its
/// UTF-8 bytes.
pub open spec fn enc_str(s: Seq<char>) -> Seq<u8>
    recommends
        encode_utf8(s).len() <= u32::MAX,
{
    enc_u32(encode_utf8(s).len() as u32) + encode_utf8(s)
}

/// Encoding of the ids themselves, one after another.
pub open spec fn enc_ids_body(v: Seq<u128>) -> Seq<u8>
    decreases v.len(),
{
    if v.len() == 0 {
        Seq::empty()
    } else {
        enc_id(v[0]) + enc_ids_body(v.drop_first())
    }
}

/// Encoding of an id list: its count as a 32-bit counter, then the ids.
pub open spec fn enc_ids(v: Seq<u128>) -> Seq<u8>
    recommends
        v.len() <= u32::MAX,
{
    enc_u32(v.len() as u32) + enc_ids_body(v)
}

/// Encoding of a request-rejection reason: one byte.
pub open spec fn enc_err(e: ClientRequestError) -> Seq<u8> {
    match e {
        ClientRequestError::CannotCreateMatch => seq![1u8],
        ClientRequestError::Match404 => seq![2u8],
        ClientRequestError::PermissionDenied => seq![3u8],
    }
}

/// The bytes of one server-to-client message.
pub open spec fn enc_server_msg(m: ServerMessageV) -> Seq<u8> {
    match m {
        ServerMessageV::AskPassword => seq![1u8],
        ServerMessageV::WrongPassword => seq![2u8],
        ServerMessageV::AssignId(id) => seq![3u8] + enc_id(id),
        ServerMessageV::BadRequest(e) => seq![4u8] + enc_err(e),
        ServerMessageV::ListOpponents(ids) => seq![5u8] + enc_ids(ids),
        ServerMessageV::MatchAccepted(id) => seq![6u8] + enc_id(id),
        ServerMessageV::MatchStarted(id) => seq![7u8] + enc_id(id),
        ServerMessageV::MatchAttempt(id, a, h, g) => seq![8u8] + enc_id(id) + enc_u32(a) + enc_u32(
            h,
        ) + enc_str(g),
        ServerMessageV::IncorrectGuess(id, a) => seq![9u8] + enc_id(id) + enc_u32(a),
        ServerMessageV::MatchHint(id, hint) => seq![10u8] + enc_id(id) + enc_str(hint),
        ServerMessageV::MatchEnded(id, a, h, sv) => seq![11u8] + enc_id(id) + enc_u32(a) + enc_u32(
            h,
        ) + enc_bool(sv),
        ServerMessageV::Disconnect => seq![12u8],
    }
}

/// The bytes of one client-to-server message.
pub open spec fn enc_client_msg(m: ClientMessageV) -> Seq<u8> {
    match m {
        ClientMessageV::AnswerPassword(p) => seq![1u8] + enc_str(p),
        ClientMessageV::GetOpponents => seq![2u8],
        ClientMessageV::RequestMatch(id, w) => seq![3u8] + enc_id(id) + enc_str(w),
        ClientMessageV::GuessAttempt(id, g) => seq![4u8] + enc_id(id) + enc_str(g),
        ClientMessageV::SendHint(id, h) => seq![5u8] + enc_id(id) + enc_str(h),
        ClientMessageV::GiveUp(id) => seq![6u8] + enc_id(id),
        ClientMessageV::LeaveGame => seq![7u8],
    }
}

/// A server message is encodable when its variable-length fields fit the
/// 32-bit length fields; only pathological sizes fail this.
pub open spec fn server_msg_encodable(m: ServerMessageV) -> bool {
    match m {
        ServerMessageV::ListOpponents(ids) => ids.len() <= u32::MAX,
        ServerMessageV::MatchAttempt(_, _, _, g) => encode_utf8(g).len() <= u32::MAX,
        ServerMessageV::MatchHint(_, h) => encode_utf8(h).len() <= u32::MAX,
        _ => true,
    }
}

/// A client message is encodable when its string fits the 32-bit length
/// field.
pub open spec fn client_msg_encodable(m: ClientMessageV) -> bool {
    match m {
        ClientMessageV::AnswerPassword(p) => encode_utf8(p).len() <= u32::MAX,
        ClientMessageV::RequestMatch(_, w) => encode_utf8(w).len() <= u32::MAX,
        ClientMessageV::GuessAttempt(_, g) => encode_utf8(g).len() <= u32::MAX,
        ClientMessageV::SendHint(_, h) => encode_utf8(h).len() <= u32::MAX,
        _ => true,
    }
}

/// Appending one id extends the body encoding by that id's bytes.
proof fn lemma_enc_ids_body_push(v: Seq<u128>, x: u128)
    ensures
        enc_ids_body(v.push(x)) == enc_ids_body(v) + enc_id(x),
    decreases v.len(),
{
    if v.len() == 0 {
        assert(v.push(x).drop_first() =~= Seq::<u128>::empty());
        assert(enc_ids_body(Seq::<u128>::empty()) =~= Seq::<u8>::empty());
        assert(v.push(x).drop_first() == Seq::<u128>::empty());
        assert(enc_ids_body(v.push(x)) == enc_id(x) + enc_ids_body(Seq::<u128>::empty()));
        assert(enc_ids_body(v.push(x)) =~= enc_id(x));
        assert(enc_ids_body(v) + enc_id(x) =~= enc_id(x));
    } else {
        assert(v.push(x).drop_first() =~= v.drop_first().push(x));
        lemma_enc_ids_body_push(v.drop_first(), x);
        assert(enc_ids_body(v.push(x)) == enc_id(v[0]) + enc_ids_body(v.drop_first().push(x)));
        assert(enc_ids_body(v.push(x)) =~= enc_ids_body(v) + enc_id(x));
    }
}

fn write_u32(out: &mut Vec<u8>, x: u32)
    ensures
        final(out)@ == old(out)@ + enc_u32(x),
{
    let mut b = u32_to_le_bytes(x);
    out.append(&mut b);
}

fn write_id(out: &mut Vec<u8>, x: u128)
    ensures
        final(out)@ == old(out)@ + enc_id(x),
{
    let mut b = u128_to_le_bytes(x);
    out.append(&mut b);
}

fn write_str(out: &mut Vec<u8>, s: &str) -> (ok: bool)
    ensures
        ok <==> encode_utf8(s@).len() <= u32::MAX,
        ok ==> final(out)@ == old(out)@ + enc_str(s@),
        !ok ==> final(out)@ == old(out)@,
{
    let bs: &[u8] = s.as_bytes();
    if bs.len() as u64 > u32::MAX as u64 {
        return false;
    }
    write_u32(out, bs.len() as u32);
    let mut bv = slice_to_vec(bs);
    out.append(&mut bv);
    proof {
        assert(out@ =~= old(out)@ + enc_str(s@));
    }
    true
}

fn write_ids(out: &mut Vec<u8>, ids: &Vec<u128>) -> (ok: bool)
    ensures
        ok <==> ids@.len() <= u32::MAX,
        ok ==> final(out)@ == old(out)@ + enc_ids(ids@),
        !ok ==> final(out)@ == old(out)@,
{
    if ids.len() as u64 > u32::MAX as u64 {
        return false;
    }
    write_u32(out, ids.len() as u32);
    let n = ids.len();
    let mut i: usize = 0;
    while i < n
        invariant
            n == ids@.len(),
            0 <= i <= n,
            out@ == old(out)@ + enc_u32(n as u32) + enc_ids_body(ids@.subrange(0, i as int)),
        decreases n - i,
    {
        write_id(out, ids[i]);
        proof {
            assert(ids@.subrange(0, i + 1) =~= ids@.subrange(0, i as int).push(ids@[i as int]));
            lemma_enc_ids_body_push(ids@.subrange(0, i as int), ids@[i as int]);
        }
        i = i + 1;
    }
    proof {
        assert(ids@.subrange(0, n as int) =~= ids@);
    }
    true
}

/// Encode one server-to-client message; fails exactly when a
/// variable-length field cannot fit its 32-bit length field.
pub fn encode_server_message(msg: &ServerMessage) -> (r: Option<Vec<u8>>)
    ensures
        r is Some <==> server_msg_encodable(msg@),
        r matches Some(v) ==> v@ == enc_server_msg(msg@),
{
    let mut out: Vec<u8> = Vec::new();
    match msg {
        ServerMessage::AskPassword => {
            out.push(1u8);
            proof {
                assert(out@ =~= enc_server_msg(msg@));
            }
        },
        ServerMessage::WrongPassword => {
            out.push(2u8);
            proof {
                assert(out@ =~= enc_server_msg(msg@));
            }
        },
        ServerMessage::AssignId(id) => {
            out.push(3u8);
            write_id(&mut out, *id);
            proof {
                assert(out@ =~= enc_server_msg(msg@));
            }
        },
        ServerMessage::BadRequest(e) => {
            out.push(4u8);
            match e {
                ClientRequestError::CannotCreateMatch => out.push(1u8),
                ClientRequestError::Match404 => out.push(2u8),
                ClientRequestError::PermissionDenied => out.push(3u8),
            }
            proof {
                assert(out@ =~= enc_server_msg(msg@));
            }
        },
        ServerMessage::ListOpponents(ids) => {
            out.push(5u8);
            if !write_ids(&mut out, ids) {
                return None;
            }
            proof {
                assert(out@ =~= enc_server_msg(msg@));
            }
        },
        ServerMessage::MatchAccepted(id) => {
            out.push(6u8);
            write_id(&mut out, *id);
            proof {
                assert(out@ =~= enc_server_msg(msg@));
            }
        },
        ServerMessage::MatchStarted(id) => {
            out.push(7u8);
            write_id(&mut out, *id);
            proof {
                assert(out@ =~= enc_server_msg(msg@));
            }
        },
        ServerMessage::MatchAttempt(id, a, h, g) => {
            out.push(8u8);
            write_id(&mut out, *id);
            write_u32(&mut out, *a);
            write_u32(&mut out, *h);
            if !write_str(&mut out, g.as_str()) {
                return None;
            }
            proof {
                assert(out@ =~= enc_server_msg(msg@));
            }
        },
        ServerMessage::IncorrectGuess(id, a) => {
            out.push(9u8);
            write_id(&mut out, *id);
            write_u32(&mut out, *a);
            proof {
                assert(out@ =~= enc_server_msg(msg@));
            }
        },
        ServerMessage::MatchHint(id, hint) => {
            out.push(10u8);
            write_id(&mut out, *id);
            if !write_str(&mut out, hint.as_str()) {
                return None;
            }
            proof {
                assert(out@ =~= enc_server_msg(msg@));
            }
        },
        ServerMessage::MatchEnded(id, a, h, sv) => {
            out.push(11u8);
            write_id(&mut out, *id);
            write_u32(&mut out, *a);
            write_u32(&mut out, *h);
            out.push(if *sv {
                1u8
            } else {
                0u8
            });
            proof {
                assert(out@ =~= enc_server_msg(msg@));
            }
        },
        ServerMessage::Disconnect => {
            out.push(12u8);
            proof {
                assert(out@ =~= enc_server_msg(msg@));
            }
        },
    }
    Some(out)
}

/// Encode one client-to-server message; fails exactly when its string
/// cannot fit its 32-bit length field.
pub fn encode_client_message(msg: &ClientMessage) -> (r: Option<Vec<u8>>)
    ensures
        r is Some <==> client_msg_encodable(msg@),
        r matches Some(v) ==> v@ == enc_client_msg(msg@),
{
    let mut out: Vec<u8> = Vec::new();
    match msg {
        ClientMessage::AnswerPassword(p) => {
            out.push(1u8);
            if !write_str(&mut out, p.as_str()) {
                return None;
            }
            proof {
                assert(out@ =~= enc_client_msg(msg@));
            }
        },
        ClientMessage::GetOpponents => {
            out.push(2u8);
            proof {
                assert(out@ =~= enc_client_msg(msg@));
            }
        },
        ClientMessage::RequestMatch(id, w) => {
            out.push(3u8);
            write_id(&mut out, *id);
            if !write_str(&mut out, w.as_str()) {
                return None;
            }
            proof {
                assert(out@ =~= enc_client_msg(msg@));
            }
        },
        ClientMessage::GuessAttempt(id, g) => {
            out.push(4u8);
            write_id(&mut out, *id);
            if !write_str(&mut out, g.as_str()) {
                return None;
            }
            proof {
                assert(out@ =~= enc_client_msg(msg@));
            }
        },
        ClientMessage::SendHint(id, h) => {
            out.push(5u8);
            write_id(&mut out, *id);
            if !write_str(&mut out, h.as_str()) {
                return None;
            }
            proof {
                assert(out@ =~= enc_client_msg(msg@));
            }
        },
        ClientMessage::GiveUp(id) => {
            out.push(6u8);
            write_id(&mut out, *id);
            proof {
                assert(out@ =~= enc_client_msg(msg@));
            }
        },
        ClientMessage::LeaveGame => {
            out.push(7u8);
            proof {
                assert(out@ =~= enc_client_msg(msg@));
            }
        },
    }
    Some(out)
}

/// Read one byte.
pub open spec fn rd_u8(b: Seq<u8>, p: int) -> Option<(u8, int)> {
    if 0 <= p < b.len() {
        Some((b[p], p + 1))
    } else {
        None
    }
}

/// Read one 32-bit counter.
pub open spec fn rd_u32(b: Seq<u8>, p: int) -> Option<(u32, int)> {
    if 0 <= p && p + 4 <= b.len() {
        Some((vstd::bytes::spec_u32_from_le_bytes(b.subrange(p, p + 4)), p + 4))
    } else {
        None
    }
}

/// Read one identifier.
pub open spec fn rd_id(b: Seq<u8>, p: int) -> Option<(u128, int)> {
    if 0 <= p && p + 16 <= b.len() {
        Some((vstd::bytes::spec_u128_from_le_bytes(b.subrange(p, p + 16)), p + 16))
    } else {
        None
    }
}

/// Read one boolean; only the bytes 0 and 1 are accepted.
pub open spec fn rd_bool(b: Seq<u8>, p: int) -> Option<(bool, int)> {
    match rd_u8(b, p) {
        Some((t, q)) => if t == 1 {
            Some((true, q))
        } else if t == 0 {
            Some((false, q))
        } else {
            None
        },
        None => None,
    }
}

/// Read one rejection reason; only its three tag bytes are accepted.
pub open spec fn rd_err(b: Seq<u8>, p: int) -> Option<(ClientRequestError, int)> {
    match rd_u8(b, p) {
        Some((t, q)) => if t == 1 {
            Some((ClientRequestError::CannotCreateMatch, q))
        } else if t == 2 {
            Some((ClientRequestError::Match404, q))
        } else if t == 3 {
            Some((ClientRequestError::PermissionDenied, q))
        } else {
            None
        },
        None => None,
    }
}

/// Read one string: a length, then that many bytes of valid UTF-8.
pub open spec fn rd_str(b: Seq<u8>, p: int) -> Option<(Seq<char>, int)> {
    match rd_u32(b, p) {
        Some((n, q)) => if q + n <= b.len() && valid_utf8(b.subrange(q, q + n)) {
            Some((decode_utf8(b.subrange(q, q + n)), q + n))
        } else {
            None
        },
        None => None,
    }
}

/// Read `n` identifiers one after another.
pub open spec fn rd_ids_body(b: Seq<u8>, p: int, n: nat) -> Option<(Seq<u128>, int)>
    decreases n,
{
    if n == 0 {
        Some((Seq::empty(), p))
    } else {
        match rd_id(b, p) {
            Some((x, q)) => match rd_ids_body(b, q, (n - 1) as nat) {
                Some((v, r)) => Some((seq![x] + v, r)),
                None => None,
            },
            None => None,
        }
    }
}

/// Read one id list: a count, then that many identifiers.
pub open spec fn rd_ids(b: Seq<u8>, p: int) -> Option<(Seq<u128>, int)> {
    match rd_u32(b, p) {
        Some((n, q)) => rd_ids_body(b, q, n as nat),
        None => None,
    }
}

/// Read one server-to-client message record.
pub open spec fn rd_server_msg(b: Seq<u8>, p: int) -> Option<(ServerMessageV, int)> {
    match rd_u8(b, p) {
        None => None,
        Some((tag, q)) => if tag == 1 {
            Some((ServerMessageV::AskPassword, q))
        } else if tag == 2 {
            Some((ServerMessageV::WrongPassword, q))
        } else if tag == 3 {
            match rd_id(b, q) {
                Some((id, r)) => Some((ServerMessageV::AssignId(id), r)),
                None => None,
            }
        } else if tag == 4 {
            match rd_err(b, q) {
                Some((e, r)) => Some((ServerMessageV::BadRequest(e), r)),
                None => None,
            }
        } else if tag == 5 {
            match rd_ids(b, q) {
                Some((v, r)) => Some((ServerMessageV::ListOpponents(v), r)),
                None => None,
            }
        } else if tag == 6 {
            match rd_id(b, q) {
                Some((id, r)) => Some((ServerMessageV::MatchAccepted(id), r)),
                None => None,
            }
        } else if tag == 7 {
            match rd_id(b, q) {
                Some((id, r)) => Some((ServerMessageV::MatchStarted(id), r)),
                None => None,
            }
        } else if tag == 8 {
            match rd_id(b, q) {
                Some((id, r1)) => match rd_u32(b, r1) {
                    Some((a, r2)) => match rd_u32(b, r2) {
                        Some((h, r3)) => match rd_str(b, r3) {
                            Some((g, r4)) => Some((ServerMessageV::MatchAttempt(id, a, h, g), r4)),
                            None => None,
                        },
                        None => None,
                    },
                    None => None,
                },
                None => None,
            }
        } else if tag == 9 {
            match rd_id(b, q) {
                Some((id, r1)) => match rd_u32(b, r1) {
                    Some((a, r2)) => Some((ServerMessageV::IncorrectGuess(id, a), r2)),
                    None => None,
                },
                None => None,
            }
        } else if tag == 10 {
            match rd_id(b, q) {
                Some((id, r1)) => match rd_str(b, r1) {
                    Some((hint, r2)) => Some((ServerMessageV::MatchHint(id, hint), r2)),
                    None => None,
                },
                None => None,
            }
        } else if tag == 11 {
            match rd_id(b, q) {
                Some((id, r1)) => match rd_u32(b, r1) {
                    Some((a, r2)) => match rd_u32(b, r2) {
                        Some((h, r3)) => match rd_bool(b, r3) {
                            Some((sv, r4)) => Some((ServerMessageV::MatchEnded(id, a, h, sv), r4)),
                            None => None,
                        },
                        None => None,
                    },
                    None => None,
                },
                None => None,
            }
        } else if tag == 12 {
            Some((ServerMessageV::Disconnect, q))
        } else {
            None
        },
    }
}

/// Read one client-to-server message record.
pub open spec fn rd_client_msg(b: Seq<u8>, p: int) -> Option<(ClientMessageV, int)> {
    match rd_u8(b, p) {
        None => None,
        Some((tag, q)) => if tag == 1 {
            match rd_str(b, q) {
                Some((s, r)) => Some((ClientMessageV::AnswerPassword(s), r)),
                None => None,
            }
        } else if tag == 2 {
            Some((ClientMessageV::GetOpponents, q))
        } else if tag == 3 {
            match rd_id(b, q) {
                Some((id, r1)) => match rd_str(b, r1) {
                    Some((w, r2)) => Some((ClientMessageV::RequestMatch(id, w), r2)),
                    None => None,
                },
                None => None,
            }
        } else if tag == 4 {
            match rd_id(b, q) {
                Some((id, r1)) => match rd_str(b, r1) {
                    Some((g, r2)) => Some((ClientMessageV::GuessAttempt(id, g), r2)),
                    None => None,
                },
                None => None,
            }
        } else if tag == 5 {
            match rd_id(b, q) {
                Some((id, r1)) => match rd_str(b, r1) {
                    Some((h, r2)) => Some((ClientMessageV::SendHint(id, h), r2)),
                    None => None,
                },
                None => None,
            }
        } else if tag == 6 {
            match rd_id(b, q) {
                Some((id, r)) => Some((ClientMessageV::GiveUp(id), r)),
                None => None,
            }
        } else if tag == 7 {
            Some((ClientMessageV::LeaveGame, q))
        } else {
            None
        },
    }
}

/// What a whole byte string decodes to: one record, consuming every byte.
pub open spec fn dec_server_msg(b: Seq<u8>) -> Option<ServerMessageV> {
    match rd_server_msg(b, 0) {
        Some((m, p)) => if p == b.len() {
            Some(m)
        } else {
            None
        },
        None => None,
    }
}

/// What a whole byte string decodes to: one record, consuming every byte.
pub open spec fn dec_client_msg(b: Seq<u8>) -> Option<ClientMessageV> {
    match rd_client_msg(b, 0) {
        Some((m, p)) => if p == b.len() {
            Some(m)
        } else {
            None
        },
        None => None,
    }
}

/// Relies on `str::from_utf8`: it accepts exactly valid UTF-8, and the
/// accepted string's characters are the bytes' UTF-8 decoding.
#[verifier::external_body]
fn bytes_to_string(v: &[u8]) -> (r: Option<String>)
    ensures
        r is Some <==> valid_utf8(v@),
        r matches Some(s) ==> s@ == decode_utf8(v@),
{
    match core::str::from_utf8(v) {
        Ok(s) => Some(s.to_owned()),
        Err(_) => None,
    }
}

fn read_u8(b: &[u8], pos: usize) -> (r: Option<(u8, usize)>)
    ensures
        match r {
            Some(t) => rd_u8(b@, pos as int) == Some((t.0, t.1 as int)),
            None => rd_u8(b@, pos as int) is None,
        },
{
    if pos < b.len() {
        let x = *vstd::slice::slice_index_get(b, pos);
        Some((x, pos + 1))
    } else {
        None
    }
}

fn read_u32(b: &[u8], pos: usize) -> (r: Option<(u32, usize)>)
    ensures
        match r {
            Some(t) => rd_u32(b@, pos as int) == Some((t.0, t.1 as int)),
            None => rd_u32(b@, pos as int) is None,
        },
{
    if pos <= b.len() && b.len() - pos >= 4 {
        let sub = slice_subrange(b, pos, pos + 4);
        let x = u32_from_le_bytes(sub);
        Some((x, pos + 4))
    } else {
        None
    }
}

fn read_id(b: &[u8], pos: usize) -> (r: Option<(u128, usize)>)
    ensures
        match r {
            Some(t) => rd_id(b@, pos as int) == Some((t.0, t.1 as int)),
            None => rd_id(b@, pos as int) is None,
        },
{
    if pos <= b.len() && b.len() - pos >= 16 {
        let sub = slice_subrange(b, pos, pos + 16);
        let x = u128_from_le_bytes(sub);
        Some((x, pos + 16))
    } else {
        None
    }
}

fn read_str(b: &[u8], pos: usize) -> (r: Option<(String, usize)>)
    ensures
        match r {
            Some(t) => rd_str(b@, pos as int) == Some((t.0@, t.1 as int)),
            None => rd_str(b@, pos as int) is None,
        },
{
    match read_u32(b, pos) {
        None => None,
        Some((n, q)) => {
            if (n as u64) <= (b.len() - q) as u64 {
                let nu = n as usize;
                let sub = slice_subrange(b, q, q + nu);
                match bytes_to_string(sub) {
                    Some(s) => Some((s, q + nu)),
                    None => None,
                }
            } else {
                None
            }
        },
    }
}

fn read_ids(b: &[u8], pos: usize) -> (r: Option<(Vec<u128>, usize)>)
    ensures
        match r {
            Some(t) => rd_ids(b@, pos as int) == Some((t.0@, t.1 as int)),
            None => rd_ids(b@, pos as int) is None,
        },
{
    match read_u32(b, pos) {
        None => None,
        Some((n, q0)) => {
            let mut acc: Vec<u128> = Vec::new();
            let mut q = q0;
            let mut i: u32 = 0;
            while i < n
                invariant
                    0 <= i <= n,
                    rd_u32(b@, pos as int) == Some((n, q0 as int)),
                    rd_ids_body(b@, q0 as int, n as nat) == (match rd_ids_body(
                        b@,
                        q as int,
                        (n - i) as nat,
                    ) {
                        Some(t) => Some((acc@ + t.0, t.1)),
                        None => None::<(Seq<u128>, int)>,
                    }),
                decreases n - i,
            {
                match read_id(b, q) {
                    None => {
                        return None;
                    },
                    Some((x, q2)) => {
                        let ghost accv = acc@;
                        acc.push(x);
                        proof {
                            match rd_ids_body(b@, q2 as int, (n - i - 1) as nat) {
                                Some(t) => {
                                    assert(accv + (seq![x] + t.0) =~= acc@ + t.0);
                                },
                                None => {},
                            }
                        }
                        q = q2;
                        i = i + 1;
                    },
                }
            }
            proof {
                assert(rd_ids_body(b@, q as int, 0) == Some((Seq::<u128>::empty(), q as int)));
                assert(acc@ + Seq::<u128>::empty() =~= acc@);
            }
            Some((acc, q))
        },
    }
}

/// Decode one server-to-client message from a whole record; rejects
/// malformed bytes and trailing garbage.
pub fn decode_server_message(bytes: &[u8]) -> (r: Option<ServerMessage>)
    ensures
        match r {
            Some(m) => dec_server_msg(bytes@) == Some(m@),
            None => dec_server_msg(bytes@) is None,
        },
{
    let parsed: Option<(ServerMessage, usize)> = match read_u8(bytes, 0) {
        None => None,
        Some((tag, q)) => {
            if tag == 1 {
                Some((ServerMessage::AskPassword, q))
            } else if tag == 2 {
                Some((ServerMessage::WrongPassword, q))
            } else if tag == 3 {
                match read_id(bytes, q) {
                    Some((id, r)) => Some((ServerMessage::AssignId(id), r)),
                    None => None,
                }
            } else if tag == 4 {
                match read_u8(bytes, q) {
                    Some((t, r)) => {
                        if t == 1 {
                            Some((ServerMessage::BadRequest(ClientRequestError::CannotCreateMatch), r))
                        } else if t == 2 {
                            Some((ServerMessage::BadRequest(ClientRequestError::Match404), r))
                        } else if t == 3 {
                            Some((ServerMessage::BadRequest(ClientRequestError::PermissionDenied), r))
                        } else {
                            None
                        }
                    },
                    None => None,
                }
            } else if tag == 5 {
                match read_ids(bytes, q) {
                    Some((v, r)) => Some((ServerMessage::ListOpponents(v), r)),
                    None => None,
                }
            } else if tag == 6 {
                match read_id(bytes, q) {
                    Some((id, r)) => Some((ServerMessage::MatchAccepted(id), r)),
                    None => None,
                }
            } else if tag == 7 {
                match read_id(bytes, q) {
                    Some((id, r)) => Some((ServerMessage::MatchStarted(id), r)),
                    None => None,
                }
            } else if tag == 8 {
                match read_id(bytes, q) {
                    Some((id, r1)) => match read_u32(bytes, r1) {
                        Some((a, r2)) => match read_u32(bytes, r2) {
                            Some((h, r3)) => match read_str(bytes, r3) {
                                Some((g, r4)) => Some((ServerMessage::MatchAttempt(id, a, h, g), r4)),
                                None => None,
                            },
                            None => None,
                        },
                        None => None,
                    },
                    None => None,
                }
            } else if tag == 9 {
                match read_id(bytes, q) {
                    Some((id, r1)) => match read_u32(bytes, r1) {
                        Some((a, r2)) => Some((ServerMessage::IncorrectGuess(id, a), r2)),
                        None => None,
                    },
                    None => None,
                }
            } else if tag == 10 {
                match read_id(bytes, q) {
                    Some((id, r1)) => match read_str(bytes, r1) {
                        Some((hint, r2)) => Some((ServerMessage::MatchHint(id, hint), r2)),
                        None => None,
                    },
                    None => None,
                }
            } else if tag == 11 {
                match read_id(bytes, q) {
                    Some((id, r1)) => match read_u32(bytes, r1) {
                        Some((a, r2)) => match read_u32(bytes, r2) {
                            Some((h, r3)) => match read_u8(bytes, r3) {
                                Some((t, r4)) => {
                                    if t == 1 {
                                        Some((ServerMessage::MatchEnded(id, a, h, true), r4))
                                    } else if t == 0 {
                                        Some((ServerMessage::MatchEnded(id, a, h, false), r4))
                                    } else {
                                        None
                                    }
                                },
                                None => None,
                            },
                            None => None,
                        },
                        None => None,
                    },
                    None => None,
                }
            } else if tag == 12 {
                Some((ServerMessage::Disconnect, q))
            } else {
                None
            }
        },
    };
    match parsed {
        Some((m, p)) => {
            if p == bytes.len() {
                Some(m)
            } else {
                None
            }
        },
        None => None,
    }
}

/// Decode one client-to-server message from a whole record; rejects
/// malformed bytes and trailing garbage.
pub fn decode_client_message(bytes: &[u8]) -> (r: Option<ClientMessage>)
    ensures
        match r {
            Some(m) => dec_client_msg(bytes@) == Some(m@),
            None => dec_client_msg(bytes@) is None,
        },
{
    let parsed: Option<(ClientMessage, usize)> = match read_u8(bytes, 0) {
        None => None,
        Some((tag, q)) => {
            if tag == 1 {
                match read_str(bytes, q) {
                    Some((s, r)) => Some((ClientMessage::AnswerPassword(s), r)),
                    None => None,
                }
            } else if tag == 2 {
                Some((ClientMessage::GetOpponents, q))
            } else if tag == 3 {
                match read_id(bytes, q) {
                    Some((id, r1)) => match read_str(bytes, r1) {
                        Some((w, r2)) => Some((ClientMessage::RequestMatch(id, w), r2)),
                        None => None,
                    },
                    None => None,
                }
            } else if tag == 4 {
                match read_id(bytes, q) {
                    Some((id, r1)) => match read_str(bytes, r1) {
                        Some((g, r2)) => Some((ClientMessage::GuessAttempt(id, g), r2)),
                        None => None,
                    },
                    None => None,
                }
            } else if tag == 5 {
                match read_id(bytes, q) {
                    Some((id, r1)) => match read_str(bytes, r1) {
                        Some((h, r2)) => Some((ClientMessage::SendHint(id, h), r2)),
                        None => None,
                    },
                    None => None,
                }
            } else if tag == 6 {
                match read_id(bytes, q) {
                    Some((id, r)) => Some((ClientMessage::GiveUp(id), r)),
                    None => None,
                }
            } else if tag == 7 {
                Some((ClientMessage::LeaveGame, q))
            } else {
                None
            }
        },
    };
    match parsed {
        Some((m, p)) => {
            if p == bytes.len() {
                Some(m)
            } else {
                None
            }
        },
        None => None,
    }
}

proof fn lemma_enc_ids_body_len(v: Seq<u128>)
    ensures
        enc_ids_body(v).len() == 16 * v.len(),
    decreases v.len(),
{
    vstd::bytes::lemma_auto_spec_u128_to_from_le_bytes();
    if v.len() > 0 {
        lemma_enc_ids_body_len(v.drop_first());
    }
}

proof fn lemma_rd_u32_enc(b: Seq<u8>, p: int, x: u32)
    requires
        0 <= p,
        p + 4 <= b.len(),
        b.subrange(p, p + 4) == enc_u32(x),
    ensures
        rd_u32(b, p) == Some((x, p + 4)),
{
    vstd::bytes::lemma_auto_spec_u32_to_from_le_bytes();
    assert(spec_u32_to_le_bytes(x).len() == 4);
    assert(vstd::bytes::spec_u32_from_le_bytes(spec_u32_to_le_bytes(x)) == x);
}

proof fn lemma_rd_id_enc(b: Seq<u8>, p: int, x: u128)
    requires
        0 <= p,
        p + 16 <= b.len(),
        b.subrange(p, p + 16) == enc_id(x),
    ensures
        rd_id(b, p) == Some((x, p + 16)),
{
    vstd::bytes::lemma_auto_spec_u128_to_from_le_bytes();
    assert(spec_u128_to_le_bytes(x).len() == 16);
    assert(vstd::bytes::spec_u128_from_le_bytes(spec_u128_to_le_bytes(x)) == x);
}

proof fn lemma_rd_str_enc(b: Seq<u8>, p: int, s: Seq<char>)
    requires
        encode_utf8(s).len() <= u32::MAX,
        0 <= p,
        p + 4 + encode_utf8(s).len() <= b.len(),
        b.subrange(p, p + 4 + encode_utf8(s).len()) == enc_str(s),
    ensures
        rd_str(b, p) == Some((s, p + 4 + encode_utf8(s).len())),
{
    vstd::bytes::lemma_auto_spec_u32_to_from_le_bytes();
    let n = encode_utf8(s).len() as int;
    let whole = b.subrange(p, p + 4 + n);
    assert(b.subrange(p, p + 4) =~= whole.subrange(0, 4));
    assert(whole.subrange(0, 4) =~= enc_u32(n as u32));
    lemma_rd_u32_enc(b, p, n as u32);
    assert(b.subrange(p + 4, p + 4 + n) =~= whole.subrange(4, 4 + n));
    assert(whole.subrange(4, 4 + n) =~= encode_utf8(s));
}

proof fn lemma_rd_ids_body_enc(b: Seq<u8>, p: int, v: Seq<u128>)
    requires
        0 <= p,
        p + 16 * v.len() <= b.len(),
        b.subrange(p, p + 16 * v.len()) == enc_ids_body(v),
    ensures
        rd_ids_body(b, p, v.len()) == Some((v, p + 16 * v.len())),
    decreases v.len(),
{
    vstd::bytes::lemma_auto_spec_u128_to_from_le_bytes();
    if v.len() > 0 {
        let n = v.len() as int;
        let whole = b.subrange(p, p + 16 * n);
        lemma_enc_ids_body_len(v.drop_first());
        assert(b.subrange(p, p + 16) =~= whole.subrange(0, 16));
        assert(whole.subrange(0, 16) =~= enc_id(v[0]));
        lemma_rd_id_enc(b, p, v[0]);
        assert(b.subrange(p + 16, p + 16 + 16 * (n - 1)) =~= whole.subrange(16, 16 * n));
        assert(whole.subrange(16, 16 * n) =~= enc_ids_body(v.drop_first()));
        lemma_rd_ids_body_enc(b, p + 16, v.drop_first());
        assert(seq![v[0]] + v.drop_first() =~= v);
    }
}

proof fn lemma_rd_ids_enc(b: Seq<u8>, p: int, v: Seq<u128>)
    requires
        v.len() <= u32::MAX,
        0 <= p,
        p + 4 + 16 * v.len() <= b.len(),
        b.subrange(p, p + 4 + 16 * v.len()) == enc_ids(v),
    ensures
        rd_ids(b, p) == Some((v, p + 4 + 16 * v.len())),
{
    vstd::bytes::lemma_auto_spec_u32_to_from_le_bytes();
    let n = v.len() as int;
    let whole = b.subrange(p, p + 4 + 16 * n);
    lemma_enc_ids_body_len(v);
    assert(b.subrange(p, p + 4) =~= whole.subrange(0, 4));
    assert(whole.subrange(0, 4) =~= enc_u32(n as u32));
    lemma_rd_u32_enc(b, p, n as u32);
    assert(b.subrange(p + 4, p + 4 + 16 * n) =~= whole.subrange(4, 4 + 16 * n));
    assert(whole.subrange(4, 4 + 16 * n) =~= enc_ids_body(v));
    lemma_rd_ids_body_enc(b, p + 4, v);
}

/// Round trip, message to bytes and back: decoding the encoding of any
/// encodable server message yields exactly that message.
pub proof fn lemma_server_msg_roundtrip(m: ServerMessageV)
    requires
        server_msg_encodable(m),
    ensures
        dec_server_msg(enc_server_msg(m)) == Some(m),
{
    vstd::bytes::lemma_auto_spec_u32_to_from_le_bytes();
    vstd::bytes::lemma_auto_spec_u128_to_from_le_bytes();
    let b = enc_server_msg(m);
    match m {
        ServerMessageV::AskPassword => {
            assert(rd_u8(b, 0) == Some((1u8, 1int)));
        },
        ServerMessageV::WrongPassword => {},
        ServerMessageV::AssignId(id) => {
            assert(b.subrange(1, 17) =~= enc_id(id));
            lemma_rd_id_enc(b, 1, id);
        },
        ServerMessageV::BadRequest(e) => {
            assert(b.len() == 2);
        },
        ServerMessageV::ListOpponents(ids) => {
            lemma_enc_ids_body_len(ids);
            let n = ids.len() as int;
            assert(b.subrange(1, 1 + 4 + 16 * n) =~= enc_ids(ids));
            lemma_rd_ids_enc(b, 1, ids);
        },
        ServerMessageV::MatchAccepted(id) => {
            assert(b.subrange(1, 17) =~= enc_id(id));
            lemma_rd_id_enc(b, 1, id);
        },
        ServerMessageV::MatchStarted(id) => {
            assert(b.subrange(1, 17) =~= enc_id(id));
            lemma_rd_id_enc(b, 1, id);
        },
        ServerMessageV::MatchAttempt(id, a, h, g) => {
            let n = encode_utf8(g).len() as int;
            assert(b.subrange(1, 17) =~= enc_id(id));
            lemma_rd_id_enc(b, 1, id);
            assert(b.subrange(17, 21) =~= enc_u32(a));
            lemma_rd_u32_enc(b, 17, a);
            assert(b.subrange(21, 25) =~= enc_u32(h));
            lemma_rd_u32_enc(b, 21, h);
            assert(b.subrange(25, 25 + 4 + n) =~= enc_str(g));
            lemma_rd_str_enc(b, 25, g);
        },
        ServerMessageV::IncorrectGuess(id, a) => {
            assert(b.subrange(1, 17) =~= enc_id(id));
            lemma_rd_id_enc(b, 1, id);
            assert(b.subrange(17, 21) =~= enc_u32(a));
            lemma_rd_u32_enc(b, 17, a);
        },
        ServerMessageV::MatchHint(id, hint) => {
            let n = encode_utf8(hint).len() as int;
            assert(b.subrange(1, 17) =~= enc_id(id));
            lemma_rd_id_enc(b, 1, id);
            assert(b.subrange(17, 17 + 4 + n) =~= enc_str(hint));
            lemma_rd_str_enc(b, 17, hint);
        },
        ServerMessageV::MatchEnded(id, a, h, sv) => {
            assert(b.subrange(1, 17) =~= enc_id(id));
            lemma_rd_id_enc(b, 1, id);
            assert(b.subrange(17, 21) =~= enc_u32(a));
            lemma_rd_u32_enc(b, 17, a);
            assert(b.subrange(21, 25) =~= enc_u32(h));
            lemma_rd_u32_enc(b, 21, h);
            assert(b[25] == (if sv {
                1u8
            } else {
                0u8
            }));
            assert(b.len() == 26);
        },
        ServerMessageV::Disconnect => {},
    }
}

/// Round trip, message to bytes and back: decoding the encoding of any
/// encodable client message yields exactly that message.
pub proof fn lemma_client_msg_roundtrip(m: ClientMessageV)
    requires
        client_msg_encodable(m),
    ensures
        dec_client_msg(enc_client_msg(m)) == Some(m),
{
    vstd::bytes::lemma_auto_spec_u32_to_from_le_bytes();
    vstd::bytes::lemma_auto_spec_u128_to_from_le_bytes();
    let b = enc_client_msg(m);
    match m {
        ClientMessageV::AnswerPassword(p) => {
            let n = encode_utf8(p).len() as int;
            assert(b.subrange(1, 1 + 4 + n) =~= enc_str(p));
            lemma_rd_str_enc(b, 1, p);
        },
        ClientMessageV::GetOpponents => {},
        ClientMessageV::RequestMatch(id, w) => {
            let n = encode_utf8(w).len() as int;
            assert(b.subrange(1, 17) =~= enc_id(id));
            lemma_rd_id_enc(b, 1, id);
            assert(b.subrange(17, 17 + 4 + n) =~= enc_str(w));
            lemma_rd_str_enc(b, 17, w);
        },
        ClientMessageV::GuessAttempt(id, g) => {
            let n = encode_utf8(g).len() as int;
            assert(b.subrange(1, 17) =~= enc_id(id));
            lemma_rd_id_enc(b, 1, id);
            assert(b.subrange(17, 17 + 4 + n) =~= enc_str(g));
            lemma_rd_str_enc(b, 17, g);
        },
        ClientMessageV::SendHint(id, h) => {
            let n = encode_utf8(h).len() as int;
            assert(b.subrange(1, 17) =~= enc_id(id));
            lemma_rd_id_enc(b, 1, id);
            assert(b.subrange(17, 17 + 4 + n) =~= enc_str(h));
            lemma_rd_str_enc(b, 17, h);
        },
        ClientMessageV::GiveUp(id) => {
            assert(b.subrange(1, 17) =~= enc_id(id));
            lemma_rd_id_enc(b, 1, id);
        },
        ClientMessageV::LeaveGame => {},
    }
}

proof fn lemma_rd_u32_inv(b: Seq<u8>, p: int)
    requires
        rd_u32(b, p) is Some,
    ensures
        ({
            let (x, q) = rd_u32(b, p).unwrap();
            &&& q == p + 4
            &&& b.subrange(p, q) == enc_u32(x)
        }),
{
    vstd::bytes::lemma_auto_spec_u32_to_from_le_bytes();
    let s = b.subrange(p, p + 4);
    assert(spec_u32_to_le_bytes(vstd::bytes::spec_u32_from_le_bytes(s)) == s);
}

proof fn lemma_rd_id_inv(b: Seq<u8>, p: int)
    requires
        rd_id(b, p) is Some,
    ensures
        ({
            let (x, q) = rd_id(b, p).unwrap();
            &&& q == p + 16
            &&& b.subrange(p, q) == enc_id(x)
        }),
{
    vstd::bytes::lemma_auto_spec_u128_to_from_le_bytes();
    let s = b.subrange(p, p + 16);
    assert(spec_u128_to_le_bytes(vstd::bytes::spec_u128_from_le_bytes(s)) == s);
}

proof fn lemma_rd_str_inv(b: Seq<u8>, p: int)
    requires
        rd_str(b, p) is Some,
    ensures
        ({
            let (s, q) = rd_str(b, p).unwrap();
            &&& encode_utf8(s).len() <= u32::MAX
            &&& q == p + 4 + encode_utf8(s).len()
            &&& b.subrange(p, q) == enc_str(s)
        }),
{
    lemma_rd_u32_inv(b, p);
    let (n, q1) = rd_u32(b, p).unwrap();
    let seg = b.subrange(q1, q1 + n);
    let s = decode_utf8(seg);
    assert(encode_utf8(s) == seg);
    assert(b.subrange(p, q1 + n) =~= b.subrange(p, q1) + seg);
    assert(enc_str(s) == enc_u32(n) + encode_utf8(s));
}

proof fn lemma_rd_ids_body_inv(b: Seq<u8>, p: int, n: nat)
    requires
        0 <= p <= b.len(),
        rd_ids_body(b, p, n) is Some,
    ensures
        ({
            let (v, q) = rd_ids_body(b, p, n).unwrap();
            &&& v.len() == n
            &&& q == p + 16 * n
            &&& q <= b.len()
            &&& b.subrange(p, q) == enc_ids_body(v)
        }),
    decreases n,
{
    if n == 0 {
        assert(b.subrange(p, p) =~= Seq::<u8>::empty());
        assert(enc_ids_body(Seq::<u128>::empty()) =~= Seq::<u8>::empty());
    } else {
        lemma_rd_id_inv(b, p);
        let (x, q1) = rd_id(b, p).unwrap();
        lemma_rd_ids_body_inv(b, q1, (n - 1) as nat);
        let (v2, q) = rd_ids_body(b, q1, (n - 1) as nat).unwrap();
        let v = seq![x] + v2;
        assert(v.drop_first() =~= v2);
        assert(v[0] == x);
        assert(enc_ids_body(v) == enc_id(x) + enc_ids_body(v2));
        assert(b.subrange(p, q) =~= b.subrange(p, q1) + b.subrange(q1, q));
        assert(b.subrange(p, q) =~= enc_ids_body(v));
    }
}

proof fn lemma_rd_ids_inv(b: Seq<u8>, p: int)
    requires
        rd_ids(b, p) is Some,
    ensures
        ({
            let (v, q) = rd_ids(b, p).unwrap();
            &&& v.len() <= u32::MAX
            &&& q == p + 4 + 16 * v.len()
            &&& b.subrange(p, q) == enc_ids(v)
        }),
{
    lemma_rd_u32_inv(b, p);
    let (n, q1) = rd_u32(b, p).unwrap();
    lemma_rd_ids_body_inv(b, q1, n as nat);
    let (v, q) = rd_ids_body(b, q1, n as nat).unwrap();
    assert(b.subrange(p, q) =~= b.subrange(p, q1) + b.subrange(q1, q));
    assert(enc_ids(v) == enc_u32(n) + enc_ids_body(v));
}

/// Round trip, bytes to message and back: every byte string that decodes to
/// a server message is exactly that message's encoding.
pub proof fn lemma_server_msg_canonical(b: Seq<u8>)
    requires
        dec_server_msg(b) is Some,
    ensures
        ({
            let m = dec_server_msg(b).unwrap();
            &&& server_msg_encodable(m)
            &&& enc_server_msg(m) == b
        }),
{
    vstd::bytes::lemma_auto_spec_u32_to_from_le_bytes();
    vstd::bytes::lemma_auto_spec_u128_to_from_le_bytes();
    let (m, p) = rd_server_msg(b, 0).unwrap();
    let (tag, q) = rd_u8(b, 0).unwrap();
    assert(p == b.len());
    assert(b.subrange(0, 1) =~= seq![tag]);
    if tag == 1 || tag == 2 || tag == 12 {
        assert(enc_server_msg(m) =~= b);
    } else if tag == 3 || tag == 6 || tag == 7 {
        lemma_rd_id_inv(b, 1);
        assert(enc_server_msg(m) =~= b);
    } else if tag == 4 {
        let (t, r) = rd_u8(b, 1).unwrap();
        assert(b.subrange(1, 2) =~= seq![t]);
        assert(enc_server_msg(m) =~= b);
    } else if tag == 5 {
        lemma_rd_ids_inv(b, 1);
        assert(enc_server_msg(m) =~= b);
    } else if tag == 8 {
        lemma_rd_id_inv(b, 1);
        let (id, r1) = rd_id(b, 1).unwrap();
        lemma_rd_u32_inv(b, r1);
        let (a, r2) = rd_u32(b, r1).unwrap();
        lemma_rd_u32_inv(b, r2);
        let (h, r3) = rd_u32(b, r2).unwrap();
        lemma_rd_str_inv(b, r3);
        assert(enc_server_msg(m) =~= b);
    } else if tag == 9 {
        lemma_rd_id_inv(b, 1);
        lemma_rd_u32_inv(b, 17);
        assert(enc_server_msg(m) =~= b);
    } else if tag == 10 {
        lemma_rd_id_inv(b, 1);
        lemma_rd_str_inv(b, 17);
        assert(enc_server_msg(m) =~= b);
    } else if tag == 11 {
        lemma_rd_id_inv(b, 1);
        let (id, r1) = rd_id(b, 1).unwrap();
        lemma_rd_u32_inv(b, r1);
        let (a, r2) = rd_u32(b, r1).unwrap();
        lemma_rd_u32_inv(b, r2);
        let (h, r3) = rd_u32(b, r2).unwrap();
        let (t, r4) = rd_u8(b, r3).unwrap();
        assert(b.subrange(r3, r4) =~= seq![t]);
        assert(enc_server_msg(m) =~= b);
    }
}

/// Round trip, bytes to message and back: every byte string that decodes to
/// a client message is exactly that message's encoding.
pub proof fn lemma_client_msg_canonical(b: Seq<u8>)
    requires
        dec_client_msg(b) is Some,
    ensures
        ({
            let m = dec_client_msg(b).unwrap();
            &&& client_msg_encodable(m)
            &&& enc_client_msg(m) == b
        }),
{
    vstd::bytes::lemma_auto_spec_u32_to_from_le_bytes();
    vstd::bytes::lemma_auto_spec_u128_to_from_le_bytes();
    let (m, p) = rd_client_msg(b, 0).unwrap();
    let (tag, q) = rd_u8(b, 0).unwrap();
    assert(p == b.len());
    assert(b.subrange(0, 1) =~= seq![tag]);
    if tag == 1 {
        lemma_rd_str_inv(b, 1);
        assert(enc_client_msg(m) =~= b);
    } else if tag == 2 || tag == 7 {
        assert(enc_client_msg(m) =~= b);
    } else if tag == 3 || tag == 4 || tag == 5 {
        lemma_rd_id_inv(b, 1);
        lemma_rd_str_inv(b, 17);
        assert(enc_client_msg(m) =~= b);
    } else if tag == 6 {
        lemma_rd_id_inv(b, 1);
        assert(enc_client_msg(m) =~= b);
    }
}

} // verus!
