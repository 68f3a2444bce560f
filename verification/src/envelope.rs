//! The JSON-RPC style message envelope: wrapping client commands for the
//! wire and unwrapping daemon notifications from frame payloads.
//!
//! Outbound, a command becomes `{"jsonrpc":"2.0","method":<tag>}`.
//! Inbound, a notification must carry the version tag `2.0`, the method
//! `data`, and a `params` array of exactly one partial update object whose
//! optional `account`, `data` and `state` members are shallow documents.

use vstd::prelude::*;

use crate::event::client::ClientEvent;
use crate::event::daemon::{DaemonEvent, DataEventParam};
use crate::json::{
    lookup, parse_doc, ser_doc, ser_doc_x, sp_doc, value_len, ws_len, JsonDoc, COMMA, LSQUARE,
    QUOTE, RSQUARE,
};

verus! {


/// The raw bytes of `jsonrpc`.
pub open spec fn key_jsonrpc() -> Seq<u8> {
    seq!['j' as u8, 's' as u8, 'o' as u8, 'n' as u8, 'r' as u8, 'p' as u8, 'c' as u8]
}

/// The raw bytes of `method`.
pub open spec fn key_method() -> Seq<u8> {
    seq!['m' as u8, 'e' as u8, 't' as u8, 'h' as u8, 'o' as u8, 'd' as u8]
}

/// The raw bytes of `params`.
pub open spec fn key_params() -> Seq<u8> {
    seq!['p' as u8, 'a' as u8, 'r' as u8, 'a' as u8, 'm' as u8, 's' as u8]
}

/// The raw bytes of `account`.
pub open spec fn key_account() -> Seq<u8> {
    seq!['a' as u8, 'c' as u8, 'c' as u8, 'o' as u8, 'u' as u8, 'n' as u8, 't' as u8]
}

/// The raw bytes of `data`.
pub open spec fn key_data() -> Seq<u8> {
    seq!['d' as u8, 'a' as u8, 't' as u8, 'a' as u8]
}

/// The raw bytes of `state`.
pub open spec fn key_state() -> Seq<u8> {
    seq!['s' as u8, 't' as u8, 'a' as u8, 't' as u8, 'e' as u8]
}

/// The raw bytes of `2.0`.
pub open spec fn ver_two() -> Seq<u8> {
    seq!['2' as u8, '.' as u8, '0' as u8]
}

/// The raw bytes of `connectVPN`.
pub open spec fn method_connect() -> Seq<u8> {
    seq!['c' as u8, 'o' as u8, 'n' as u8, 'n' as u8, 'e' as u8, 'c' as u8, 't' as u8, 'V' as u8, 'P' as u8, 'N' as u8]
}

/// The raw bytes of `disconnectVPN`.
pub open spec fn method_disconnect() -> Seq<u8> {
    seq!['d' as u8, 'i' as u8, 's' as u8, 'c' as u8, 'o' as u8, 'n' as u8, 'n' as u8, 'e' as u8, 'c' as u8, 't' as u8, 'V' as u8, 'P' as u8, 'N' as u8]
}

/// The raw bytes of `null`.
pub open spec fn null_raw() -> Seq<u8> {
    seq!['n' as u8, 'u' as u8, 'l' as u8, 'l' as u8]
}

/// The raw bytes of `jsonrpc`.
pub fn key_jsonrpc_x() -> (r: Vec<u8>)
    ensures
        r@ == key_jsonrpc(),
{
    let mut r: Vec<u8> = Vec::new();
    r.push('j' as u8);
    r.push('s' as u8);
    r.push('o' as u8);
    r.push('n' as u8);
    r.push('r' as u8);
    r.push('p' as u8);
    r.push('c' as u8);
    proof {
        assert(r@ =~= key_jsonrpc());
    }
    r
}

/// The raw bytes of `method`.
pub fn key_method_x() -> (r: Vec<u8>)
    ensures
        r@ == key_method(),
{
    let mut r: Vec<u8> = Vec::new();
    r.push('m' as u8);
    r.push('e' as u8);
    r.push('t' as u8);
    r.push('h' as u8);
    r.push('o' as u8);
    r.push('d' as u8);
    proof {
        assert(r@ =~= key_method());
    }
    r
}

/// The raw bytes of `params`.
pub fn key_params_x() -> (r: Vec<u8>)
    ensures
        r@ == key_params(),
{
    let mut r: Vec<u8> = Vec::new();
    r.push('p' as u8);
    r.push('a' as u8);
    r.push('r' as u8);
    r.push('a' as u8);
    r.push('m' as u8);
    r.push('s' as u8);
    proof {
        assert(r@ =~= key_params());
    }
    r
}

/// The raw bytes of `account`.
pub fn key_account_x() -> (r: Vec<u8>)
    ensures
        r@ == key_account(),
{
    let mut r: Vec<u8> = Vec::new();
    r.push('a' as u8);
    r.push('c' as u8);
    r.push('c' as u8);
    r.push('o' as u8);
    r.push('u' as u8);
    r.push('n' as u8);
    r.push('t' as u8);
    proof {
        assert(r@ =~= key_account());
    }
    r
}

/// The raw bytes of `data`.
pub fn key_data_x() -> (r: Vec<u8>)
    ensures
        r@ == key_data(),
{
    let mut r: Vec<u8> = Vec::new();
    r.push('d' as u8);
    r.push('a' as u8);
    r.push('t' as u8);
    r.push('a' as u8);
    proof {
        assert(r@ =~= key_data());
    }
    r
}

/// The raw bytes of `state`.
pub fn key_state_x() -> (r: Vec<u8>)
    ensures
        r@ == key_state(),
{
    let mut r: Vec<u8> = Vec::new();
    r.push('s' as u8);
    r.push('t' as u8);
    r.push('a' as u8);
    r.push('t' as u8);
    r.push('e' as u8);
    proof {
        assert(r@ =~= key_state());
    }
    r
}

/// The raw bytes of `2.0`.
pub fn ver_two_x() -> (r: Vec<u8>)
    ensures
        r@ == ver_two(),
{
    let mut r: Vec<u8> = Vec::new();
    r.push('2' as u8);
    r.push('.' as u8);
    r.push('0' as u8);
    proof {
        assert(r@ =~= ver_two());
    }
    r
}

/// The raw bytes of `connectVPN`.
pub fn method_connect_x() -> (r: Vec<u8>)
    ensures
        r@ == method_connect(),
{
    let mut r: Vec<u8> = Vec::new();
    r.push('c' as u8);
    r.push('o' as u8);
    r.push('n' as u8);
    r.push('n' as u8);
    r.push('e' as u8);
    r.push('c' as u8);
    r.push('t' as u8);
    r.push('V' as u8);
    r.push('P' as u8);
    r.push('N' as u8);
    proof {
        assert(r@ =~= method_connect());
    }
    r
}

/// The raw bytes of `disconnectVPN`.
pub fn method_disconnect_x() -> (r: Vec<u8>)
    ensures
        r@ == method_disconnect(),
{
    let mut r: Vec<u8> = Vec::new();
    r.push('d' as u8);
    r.push('i' as u8);
    r.push('s' as u8);
    r.push('c' as u8);
    r.push('o' as u8);
    r.push('n' as u8);
    r.push('n' as u8);
    r.push('e' as u8);
    r.push('c' as u8);
    r.push('t' as u8);
    r.push('V' as u8);
    r.push('P' as u8);
    r.push('N' as u8);
    proof {
        assert(r@ =~= method_disconnect());
    }
    r
}

/// The raw bytes of `null`.
pub fn null_raw_x() -> (r: Vec<u8>)
    ensures
        r@ == null_raw(),
{
    let mut r: Vec<u8> = Vec::new();
    r.push('n' as u8);
    r.push('u' as u8);
    r.push('l' as u8);
    r.push('l' as u8);
    proof {
        assert(r@ =~= null_raw());
    }
    r
}

} // verus!

verus! {

/// A byte sequence wrapped in string quotes.
pub open spec fn quoted(x: Seq<u8>) -> Seq<u8> {
    seq![QUOTE] + x + seq![QUOTE]
}

/// Wraps bytes in string quotes.
pub fn quoted_x(x: &Vec<u8>) -> (r: Vec<u8>)
    ensures
        r@ == quoted(x@),
{
    let mut r: Vec<u8> = Vec::new();
    r.push(QUOTE);
    crate::json::push_all(&mut r, x);
    r.push(QUOTE);
    proof {
        assert(r@ =~= quoted(x@));
    }
    r
}

/// The method tag a command is sent under.
pub open spec fn method_name(e: ClientEvent) -> Seq<u8> {
    match e {
        ClientEvent::ConnectVPN => method_connect(),
        ClientEvent::DisconnectVPN => method_disconnect(),
    }
}

/// The members of a command's envelope: the version tag and the method.
pub open spec fn command_entries(e: ClientEvent) -> Seq<(Seq<u8>, Seq<u8>)> {
    seq![(key_jsonrpc(), quoted(ver_two())), (key_method(), quoted(method_name(e)))]
}

/// The whole wire image of a command's envelope.
pub open spec fn command_bytes(e: ClientEvent) -> Seq<u8> {
    ser_doc(command_entries(e))
}

/// Serializes one client command as its JSON envelope.
pub fn encode_command(e: ClientEvent) -> (r: Vec<u8>)
    ensures
        r@ == command_bytes(e),
{
    let ver = ver_two_x();
    let name = match e {
        ClientEvent::ConnectVPN => method_connect_x(),
        ClientEvent::DisconnectVPN => method_disconnect_x(),
    };
    let mut members: Vec<(Vec<u8>, Vec<u8>)> = Vec::new();
    members.push((key_jsonrpc_x(), quoted_x(&ver)));
    members.push((key_method_x(), quoted_x(&name)));
    let doc = JsonDoc { members };
    proof {
        assert(doc.entries() =~= command_entries(e));
    }
    ser_doc_x(&doc)
}

/// The single element of a one-element JSON array, with nothing but
/// whitespace around the brackets and the element.
pub open spec fn sp_singleton(s: Seq<u8>) -> Option<Seq<u8>> {
    let w0 = ws_len(s);
    let s0 = s.skip(w0 as int);
    if s0.len() > 0 && s0[0] == LSQUARE {
        let s1 = s0.skip(1);
        let w1 = ws_len(s1);
        let s2 = s1.skip(w1 as int);
        match value_len(s2) {
            None => None,
            Some(vl) => {
                let v = s2.take(vl as int);
                let s3 = s2.skip(vl as int);
                let w2 = ws_len(s3);
                let s4 = s3.skip(w2 as int);
                if s4.len() > 0 && s4[0] == RSQUARE {
                    let s5 = s4.skip(1);
                    if ws_len(s5) == s5.len() {
                        Some(v)
                    } else {
                        None
                    }
                } else {
                    None
                }
            },
        }
    } else {
        None
    }
}

/// Parses a whole byte sequence as a one-element JSON array, returning the
/// element's raw bytes.
#[verifier::rlimit(100)]
fn sp_singleton_x(s: &Vec<u8>) -> (r: Option<Vec<u8>>)
    ensures
        match sp_singleton(s@) {
            Some(v) => r matches Some(rv) && rv@ == v,
            None => r is None,
        },
{
    let p0 = crate::json::ws_end_x(s, 0);
    proof {
        assert(s@.skip(0) =~= s@);
        assert(s@.skip(ws_len(s@) as int) =~= s@.skip(p0 as int));
    }
    if !(p0 < s.len() && s[p0] == LSQUARE) {
        proof {
            if p0 < s@.len() {
                assert(s@.skip(p0 as int)[0] == s@[p0 as int]);
            }
        }
        return None;
    }
    proof {
        assert(s@.skip(p0 as int)[0] == s@[p0 as int]);
        assert(s@.skip(p0 as int).skip(1) =~= s@.skip(p0 as int + 1));
    }
    let p1 = crate::json::ws_end_x(s, p0 + 1);
    proof {
        assert(s@.skip(p0 as int + 1).skip(ws_len(s@.skip(p0 as int + 1)) as int) =~= s@.skip(
            p1 as int,
        ));
    }
    let vend = match crate::json::value_end_x(s, p1) {
        Some(v) => v,
        None => {
            return None;
        },
    };
    proof {
        crate::json::lemma_value_len_bounds(s@.skip(p1 as int));
    }
    let v = crate::json::copy_range(s, p1, vend);
    proof {
        assert(s@.skip(p1 as int).take(vend - p1) =~= s@.subrange(p1 as int, vend as int));
        assert(s@.skip(p1 as int).skip(vend - p1) =~= s@.skip(vend as int));
    }
    let p2 = crate::json::ws_end_x(s, vend);
    proof {
        assert(s@.skip(vend as int).skip(ws_len(s@.skip(vend as int)) as int) =~= s@.skip(
            p2 as int,
        ));
    }
    if !(p2 < s.len() && s[p2] == RSQUARE) {
        proof {
            if p2 < s@.len() {
                assert(s@.skip(p2 as int)[0] == s@[p2 as int]);
            }
        }
        return None;
    }
    proof {
        assert(s@.skip(p2 as int)[0] == s@[p2 as int]);
        assert(s@.skip(p2 as int).skip(1) =~= s@.skip(p2 as int + 1));
        crate::json::lemma_ws_len_bounds(s@.skip(p2 as int + 1));
    }
    let p3 = crate::json::ws_end_x(s, p2 + 1);
    if p3 == s.len() {
        Some(v)
    } else {
        None
    }
}

/// Failure to decode a daemon notification.
#[derive(Debug, Clone, Copy, PartialEq, Eq, Structural)]
pub enum EnvelopeError {
    /// The payload was not a well-formed `data` notification: broken JSON,
    /// a missing or wrong version tag, an unrecognized method, or a
    /// malformed params array.
    MalformedEnvelope,
}

/// What a decoded update document denotes: each optional field's members.
pub struct DataUpdateView {
    /// The partial account document, if present.
    pub account: Option<Seq<(Seq<u8>, Seq<u8>)>>,
    /// The partial application-data document, if present.
    pub data: Option<Seq<(Seq<u8>, Seq<u8>)>>,
    /// The partial state document, if present.
    pub state: Option<Seq<(Seq<u8>, Seq<u8>)>>,
}

/// One optional sub-document of the update object: absent or `null` means
/// no document; anything else must parse as a shallow object.
pub open spec fn update_field(u: Seq<(Seq<u8>, Seq<u8>)>, key: Seq<u8>) -> Option<
    Option<Seq<(Seq<u8>, Seq<u8>)>>,
> {
    match lookup(u, key) {
        None => Some(None),
        Some(raw) => if raw == null_raw() {
            Some(None)
        } else {
            match sp_doc(raw) {
                None => None,
                Some(d) => Some(Some(d)),
            }
        },
    }
}

/// What decoding a notification payload yields, if it is well formed: the
/// envelope must carry version `2.0` and method `data`, and `params` must
/// be a one-element array of an update object.
pub open spec fn spec_notification(s: Seq<u8>) -> Option<DataUpdateView> {
    match sp_doc(s) {
        None => None,
        Some(env) => {
            if lookup(env, key_jsonrpc()) != Some(quoted(ver_two())) {
                None
            } else if lookup(env, key_method()) != Some(quoted(key_data())) {
                None
            } else {
                match lookup(env, key_params()) {
                    None => None,
                    Some(p) => match sp_singleton(p) {
                        None => None,
                        Some(inner) => match sp_doc(inner) {
                            None => None,
                            Some(u) => match (
                                update_field(u, key_account()),
                                update_field(u, key_data()),
                                update_field(u, key_state()),
                            ) {
                                (Some(a), Some(d), Some(st)) => Some(
                                    DataUpdateView { account: a, data: d, state: st },
                                ),
                                _ => None,
                            },
                        },
                    },
                }
            }
        },
    }
}

/// The documents an update carries, by field.
pub open spec fn update_view(d: DataEventParam) -> DataUpdateView {
    DataUpdateView {
        account: match d.account {
            Some(doc) => Some(doc.entries()),
            None => None,
        },
        data: match d.data {
            Some(doc) => Some(doc.entries()),
            None => None,
        },
        state: match d.state {
            Some(doc) => Some(doc.entries()),
            None => None,
        },
    }
}

/// Reads one optional sub-document out of the update object.
fn update_field_x(u: &JsonDoc, key: &Vec<u8>) -> (r: Result<Option<JsonDoc>, EnvelopeError>)
    ensures
        match update_field(u.entries(), key@) {
            Some(f) => r matches Ok(d) && (match (f, d) {
                (Some(fv), Some(doc)) => doc.entries() == fv,
                (None, None) => true,
                _ => false,
            }),
            None => r == Err::<Option<JsonDoc>, EnvelopeError>(EnvelopeError::MalformedEnvelope),
        },
{
    let raw = match u.get(key) {
        None => {
            return Ok(None);
        },
        Some(raw) => raw,
    };
    let nul = null_raw_x();
    if crate::json::bytes_eq(raw, &nul) {
        return Ok(None);
    }
    match parse_doc(raw) {
        Some(d) => Ok(Some(d)),
        None => Err(EnvelopeError::MalformedEnvelope),
    }
}

/// Decodes one daemon notification from a frame payload.
///
/// Fails with `MalformedEnvelope` exactly when the payload is not a
/// well-formed `data` envelope: broken JSON, a version tag other than
/// `2.0`, a method other than `data`, missing `params`, a params array
/// that does not hold exactly one object, or a sub-document that is
/// neither absent, `null`, nor an object.
pub fn decode_notification(bytes: &Vec<u8>) -> (r: Result<DaemonEvent, EnvelopeError>)
    ensures
        match spec_notification(bytes@) {
            Some(u) => r matches Ok(ev) && (ev matches DaemonEvent::Data(d) && update_view(d)
                == u),
            None => r == Err::<DaemonEvent, EnvelopeError>(EnvelopeError::MalformedEnvelope),
        },
{
    let env = match parse_doc(bytes) {
        Some(d) => d,
        None => {
            return Err(EnvelopeError::MalformedEnvelope);
        },
    };
    let kj = key_jsonrpc_x();
    let ver = ver_two_x();
    let qver = quoted_x(&ver);
    let ok_ver = match env.get(&kj) {
        Some(raw) => crate::json::bytes_eq(raw, &qver),
        None => false,
    };
    if !ok_ver {
        return Err(EnvelopeError::MalformedEnvelope);
    }
    let km = key_method_x();
    let mdata = key_data_x();
    let qdata = quoted_x(&mdata);
    let ok_method = match env.get(&km) {
        Some(raw) => crate::json::bytes_eq(raw, &qdata),
        None => false,
    };
    if !ok_method {
        return Err(EnvelopeError::MalformedEnvelope);
    }
    let kp = key_params_x();
    let params = match env.get(&kp) {
        Some(raw) => raw,
        None => {
            return Err(EnvelopeError::MalformedEnvelope);
        },
    };
    let inner = match sp_singleton_x(params) {
        Some(v) => v,
        None => {
            return Err(EnvelopeError::MalformedEnvelope);
        },
    };
    let u = match parse_doc(&inner) {
        Some(d) => d,
        None => {
            return Err(EnvelopeError::MalformedEnvelope);
        },
    };
    let ka = key_account_x();
    let account = match update_field_x(&u, &ka) {
        Ok(a) => a,
        Err(e) => {
            return Err(e);
        },
    };
    let kd = key_data_x();
    let data = match update_field_x(&u, &kd) {
        Ok(d) => d,
        Err(e) => {
            return Err(e);
        },
    };
    let ks = key_state_x();
    let state = match update_field_x(&u, &ks) {
        Ok(s) => s,
        Err(e) => {
            return Err(e);
        },
    };
    Ok(DaemonEvent::Data(DataEventParam { account, data, state }))
}

} // verus!

verus! {

/// The members of the update object a view denotes, present fields only,
/// in wire order.
pub open spec fn update_doc_entries(u: DataUpdateView) -> Seq<(Seq<u8>, Seq<u8>)> {
    (match u.account {
        Some(a) => seq![(key_account(), ser_doc(a))],
        None => Seq::<(Seq<u8>, Seq<u8>)>::empty(),
    }) + (match u.data {
        Some(d) => seq![(key_data(), ser_doc(d))],
        None => Seq::<(Seq<u8>, Seq<u8>)>::empty(),
    }) + (match u.state {
        Some(st) => seq![(key_state(), ser_doc(st))],
        None => Seq::<(Seq<u8>, Seq<u8>)>::empty(),
    })
}

/// The raw bytes of the `params` value: a one-element array holding the
/// update object.
pub open spec fn params_value(u: DataUpdateView) -> Seq<u8> {
    seq![LSQUARE] + ser_doc(update_doc_entries(u)) + seq![RSQUARE]
}

/// The members of a whole `data` notification envelope.
pub open spec fn envelope_entries(u: DataUpdateView) -> Seq<(Seq<u8>, Seq<u8>)> {
    seq![
        (key_jsonrpc(), quoted(ver_two())),
        (key_method(), quoted(key_data())),
        (key_params(), params_value(u)),
    ]
}

/// The whole wire image of a `data` notification.
pub open spec fn envelope_bytes(u: DataUpdateView) -> Seq<u8> {
    ser_doc(envelope_entries(u))
}

/// A view whose present documents can all stand inside a larger document.
pub open spec fn wf_update(u: DataUpdateView) -> bool {
    &&& (u.account matches Some(a) ==> crate::json::wf_doc_deep(a))
    &&& (u.data matches Some(d) ==> crate::json::wf_doc_deep(d))
    &&& (u.state matches Some(st) ==> crate::json::wf_doc_deep(st))
}

/// Serializes one update as a whole `data` notification envelope.
pub fn encode_data_envelope(d: &DataEventParam) -> (r: Vec<u8>)
    ensures
        r@ == envelope_bytes(update_view(*d)),
{
    let mut members: Vec<(Vec<u8>, Vec<u8>)> = Vec::new();
    match d.account {
        Some(ref doc) => {
            members.push((key_account_x(), ser_doc_x(doc)));
        },
        None => {},
    }
    match d.data {
        Some(ref doc) => {
            members.push((key_data_x(), ser_doc_x(doc)));
        },
        None => {},
    }
    match d.state {
        Some(ref doc) => {
            members.push((key_state_x(), ser_doc_x(doc)));
        },
        None => {},
    }
    let update = JsonDoc { members };
    proof {
        assert(update.entries() =~= update_doc_entries(update_view(*d)));
    }
    let inner = ser_doc_x(&update);
    let mut params: Vec<u8> = Vec::new();
    params.push(LSQUARE);
    crate::json::push_all(&mut params, &inner);
    params.push(RSQUARE);
    proof {
        assert(params@ =~= params_value(update_view(*d)));
    }
    let ver = ver_two_x();
    let mdata = key_data_x();
    let mut env: Vec<(Vec<u8>, Vec<u8>)> = Vec::new();
    env.push((key_jsonrpc_x(), quoted_x(&ver)));
    env.push((key_method_x(), quoted_x(&mdata)));
    env.push((key_params_x(), params));
    let envelope = JsonDoc { members: env };
    proof {
        assert(envelope.entries() =~= envelope_entries(update_view(*d)));
    }
    ser_doc_x(&envelope)
}

} // verus!

verus! {

/// Every constant key of the envelope is a well-formed string body.
proof fn lemma_const_keys()
    ensures
        crate::json::wf_key_bytes(key_jsonrpc()),
        crate::json::wf_key_bytes(key_method()),
        crate::json::wf_key_bytes(key_params()),
        crate::json::wf_key_bytes(key_account()),
        crate::json::wf_key_bytes(key_data()),
        crate::json::wf_key_bytes(key_state()),
        crate::json::wf_key_bytes(ver_two()),
{
    assert(forall|i: int|
        0 <= i < key_jsonrpc().len() ==> crate::json::str_plain(#[trigger] key_jsonrpc()[i]));
    crate::json::lemma_plain_key(key_jsonrpc());
    assert(forall|i: int|
        0 <= i < key_method().len() ==> crate::json::str_plain(#[trigger] key_method()[i]));
    crate::json::lemma_plain_key(key_method());
    assert(forall|i: int|
        0 <= i < key_params().len() ==> crate::json::str_plain(#[trigger] key_params()[i]));
    crate::json::lemma_plain_key(key_params());
    assert(forall|i: int|
        0 <= i < key_account().len() ==> crate::json::str_plain(#[trigger] key_account()[i]));
    crate::json::lemma_plain_key(key_account());
    assert(forall|i: int|
        0 <= i < key_data().len() ==> crate::json::str_plain(#[trigger] key_data()[i]));
    crate::json::lemma_plain_key(key_data());
    assert(forall|i: int|
        0 <= i < key_state().len() ==> crate::json::str_plain(#[trigger] key_state()[i]));
    crate::json::lemma_plain_key(key_state());
    assert(forall|i: int|
        0 <= i < ver_two().len() ==> crate::json::str_plain(#[trigger] ver_two()[i]));
    crate::json::lemma_plain_key(ver_two());
}

/// The update object of a well-formed view is itself a deeply well-formed
/// document.
proof fn lemma_update_doc_wf(u: DataUpdateView)
    requires
        wf_update(u),
    ensures
        crate::json::wf_doc_deep(update_doc_entries(u)),
{
    lemma_const_keys();
    let ms = update_doc_entries(u);
    match u.account {
        Some(a) => {
            crate::json::lemma_doc_value(a, Seq::<u8>::empty());
        },
        None => {},
    }
    match u.data {
        Some(d) => {
            crate::json::lemma_doc_value(d, Seq::<u8>::empty());
        },
        None => {},
    }
    match u.state {
        Some(st) => {
            crate::json::lemma_doc_value(st, Seq::<u8>::empty());
        },
        None => {},
    }
    assert forall|i: int|
        0 <= i < ms.len() implies crate::json::wf_key_bytes((#[trigger] ms[i]).0)
        && crate::json::wf_value_deep(ms[i].1) by {}
}

/// The params value of a well-formed view is one embeddable value.
proof fn lemma_params_value_wf(u: DataUpdateView)
    requires
        wf_update(u),
    ensures
        crate::json::wf_value_deep(params_value(u)),
{
    lemma_update_doc_wf(u);
    let ud = update_doc_entries(u);
    let sd = ser_doc(ud);
    let pv = params_value(u);
    crate::json::lemma_doc_value(ud, seq![RSQUARE] + seq![COMMA]);
    assert(pv[0] == LSQUARE);
    assert((pv.push(COMMA)).skip(1) =~= sd + (seq![RSQUARE] + seq![COMMA]));
    crate::json::lemma_value_consume(sd, seq![RSQUARE] + seq![COMMA], 1);
    assert((seq![RSQUARE] + seq![COMMA])[0] == RSQUARE);
    assert(crate::json::scan_rest(seq![RSQUARE] + seq![COMMA], 1, false, false) == Some(1nat));
    assert(crate::json::value_len(pv.push(COMMA)) == Some(pv.len() as nat));
}

/// The envelope of a well-formed view parses back to its three members.
proof fn lemma_envelope_parsed(u: DataUpdateView)
    requires
        wf_update(u),
    ensures
        sp_doc(envelope_bytes(u)) == Some(envelope_entries(u)),
{
    lemma_const_keys();
    lemma_params_value_wf(u);
    crate::json::lemma_quoted_value(ver_two());
    crate::json::lemma_quoted_value(key_data());
    let env = envelope_entries(u);
    assert forall|i: int|
        0 <= i < env.len() implies crate::json::wf_key_bytes((#[trigger] env[i]).0)
        && crate::json::wf_value_bytes(env[i].1) by {
        assert(env[0] == (key_jsonrpc(), quoted(ver_two())));
        assert(env[1] == (key_method(), quoted(key_data())));
        assert(env[2] == (key_params(), params_value(u)));
    }
    crate::json::lemma_doc_round_trip(env);
}

/// The three constant keys of the envelope differ pairwise, as do the
/// update object's field keys.
proof fn lemma_keys_distinct()
    ensures
        key_jsonrpc() != key_method(),
        key_jsonrpc() != key_params(),
        key_method() != key_params(),
        key_account() != key_data(),
        key_account() != key_state(),
        key_data() != key_state(),
{
    assert(key_jsonrpc()[0] == 'j' as u8);
    assert(key_method()[0] == 'm' as u8);
    assert(key_params()[0] == 'p' as u8);
    assert(key_account()[0] == 'a' as u8);
    assert(key_data()[0] == 'd' as u8);
    assert(key_state()[0] == 's' as u8);
}

/// Looking the envelope's keys up finds the version, the method, and the
/// params value.
proof fn lemma_envelope_lookups(u: DataUpdateView)
    ensures
        lookup(envelope_entries(u), key_jsonrpc()) == Some(quoted(ver_two())),
        lookup(envelope_entries(u), key_method()) == Some(quoted(key_data())),
        lookup(envelope_entries(u), key_params()) == Some(params_value(u)),
{
    lemma_keys_distinct();
    let env = envelope_entries(u);
    assert(env[0] == (key_jsonrpc(), quoted(ver_two())));
    assert(env.skip(1) =~= seq![
        (key_method(), quoted(key_data())),
        (key_params(), params_value(u)),
    ]);
    assert(env.skip(1)[0] == (key_method(), quoted(key_data())));
    assert(env.skip(1)[0].0 == key_method());
    assert(env.skip(1).skip(1) =~= seq![(key_params(), params_value(u))]);
    assert(env.skip(1).skip(1)[0] == (key_params(), params_value(u)));
    assert(env.skip(1).skip(1)[0].0 == key_params());
    assert(env[0].0 == key_jsonrpc());
    assert(lookup(env.skip(1).skip(1), key_params()) == Some(params_value(u)));
    assert(lookup(env.skip(1), key_params()) == Some(params_value(u)));
    assert(lookup(env.skip(1), key_method()) == Some(quoted(key_data())));
}

/// The params value of a well-formed view is a one-element array holding
/// exactly the serialized update object.
proof fn lemma_params_singleton(u: DataUpdateView)
    requires
        wf_update(u),
    ensures
        sp_singleton(params_value(u)) == Some(ser_doc(update_doc_entries(u))),
{
    lemma_update_doc_wf(u);
    let ud = update_doc_entries(u);
    let sd = ser_doc(ud);
    let pv = params_value(u);
    assert(pv[0] == LSQUARE);
    assert(crate::json::ws_len(pv) == 0);
    assert(pv.skip(0) =~= pv);
    let s1 = pv.skip(1);
    assert(s1 =~= sd + seq![RSQUARE]);
    assert(s1[0] == sd[0]);
    assert(sd[0] == crate::json::LCURLY);
    assert(crate::json::ws_len(s1) == 0);
    assert(s1.skip(0) =~= s1);
    crate::json::lemma_doc_value(ud, seq![RSQUARE]);
    assert(crate::json::value_len(s1) == Some(sd.len() as nat));
    assert(s1.take(sd.len() as int) =~= sd);
    let s3 = s1.skip(sd.len() as int);
    assert(s3 =~= seq![RSQUARE]);
    assert(crate::json::ws_len(s3) == 0);
    assert(s3.skip(0) =~= s3);
    assert(s3[0] == RSQUARE);
    assert(s3.skip(1) =~= Seq::<u8>::empty());
}

/// Reading the update object's fields back gives the view's documents.
proof fn lemma_update_fields(u: DataUpdateView)
    requires
        wf_update(u),
    ensures
        update_field(update_doc_entries(u), key_account()) == Some(u.account),
        update_field(update_doc_entries(u), key_data()) == Some(u.data),
        update_field(update_doc_entries(u), key_state()) == Some(u.state),
{
    lemma_keys_distinct();
    lemma_update_doc_wf(u);
    let ea: Seq<(Seq<u8>, Seq<u8>)> = match u.account {
        Some(a) => seq![(key_account(), ser_doc(a))],
        None => Seq::<(Seq<u8>, Seq<u8>)>::empty(),
    };
    let ed: Seq<(Seq<u8>, Seq<u8>)> = match u.data {
        Some(d) => seq![(key_data(), ser_doc(d))],
        None => Seq::<(Seq<u8>, Seq<u8>)>::empty(),
    };
    let es: Seq<(Seq<u8>, Seq<u8>)> = match u.state {
        Some(st) => seq![(key_state(), ser_doc(st))],
        None => Seq::<(Seq<u8>, Seq<u8>)>::empty(),
    };
    let ms = update_doc_entries(u);
    assert(ms == ea + ed + es);
    crate::json::lemma_lookup_empty(key_account());
    crate::json::lemma_lookup_empty(key_data());
    crate::json::lemma_lookup_empty(key_state());
    match u.account {
        Some(a) => {
            crate::json::lemma_lookup_singleton(key_account(), ser_doc(a), key_account());
            crate::json::lemma_lookup_singleton(key_account(), ser_doc(a), key_data());
            crate::json::lemma_lookup_singleton(key_account(), ser_doc(a), key_state());
        },
        None => {},
    }
    match u.data {
        Some(d) => {
            crate::json::lemma_lookup_singleton(key_data(), ser_doc(d), key_account());
            crate::json::lemma_lookup_singleton(key_data(), ser_doc(d), key_data());
            crate::json::lemma_lookup_singleton(key_data(), ser_doc(d), key_state());
        },
        None => {},
    }
    match u.state {
        Some(st) => {
            crate::json::lemma_lookup_singleton(key_state(), ser_doc(st), key_account());
            crate::json::lemma_lookup_singleton(key_state(), ser_doc(st), key_data());
            crate::json::lemma_lookup_singleton(key_state(), ser_doc(st), key_state());
        },
        None => {},
    }
    crate::json::lemma_lookup_concat(ea + ed, es, key_account());
    crate::json::lemma_lookup_concat(ea, ed, key_account());
    crate::json::lemma_lookup_concat(ea + ed, es, key_data());
    crate::json::lemma_lookup_concat(ea, ed, key_data());
    crate::json::lemma_lookup_concat(ea + ed, es, key_state());
    crate::json::lemma_lookup_concat(ea, ed, key_state());
    assert(lookup(ms, key_account()) == (match u.account {
        Some(a) => Some(ser_doc(a)),
        None => None::<Seq<u8>>,
    }));
    assert(lookup(ms, key_data()) == (match u.data {
        Some(d) => Some(ser_doc(d)),
        None => None::<Seq<u8>>,
    }));
    assert(lookup(ms, key_state()) == (match u.state {
        Some(st) => Some(ser_doc(st)),
        None => None::<Seq<u8>>,
    }));
    match u.account {
        Some(a) => {
            assert(ser_doc(a)[0] == crate::json::LCURLY);
            assert(null_raw()[0] == 'n' as u8);
            assert(ser_doc(a) != null_raw());
            crate::json::lemma_doc_round_trip(a);
        },
        None => {},
    }
    match u.data {
        Some(d) => {
            assert(ser_doc(d)[0] == crate::json::LCURLY);
            assert(null_raw()[0] == 'n' as u8);
            assert(ser_doc(d) != null_raw());
            crate::json::lemma_doc_round_trip(d);
        },
        None => {},
    }
    match u.state {
        Some(st) => {
            assert(ser_doc(st)[0] == crate::json::LCURLY);
            assert(null_raw()[0] == 'n' as u8);
            assert(ser_doc(st) != null_raw());
            crate::json::lemma_doc_round_trip(st);
        },
        None => {},
    }
}

/// The notification round trip: decoding the encoded envelope of any
/// well-formed update reproduces the update exactly, field by field.
pub proof fn lemma_notification_round_trip(u: DataUpdateView)
    requires
        wf_update(u),
    ensures
        spec_notification(envelope_bytes(u)) == Some(u),
{
    lemma_envelope_parsed(u);
    lemma_envelope_lookups(u);
    lemma_params_singleton(u);
    lemma_update_doc_wf(u);
    crate::json::lemma_doc_round_trip(update_doc_entries(u));
    lemma_update_fields(u);
}

} // verus!
