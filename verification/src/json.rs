//! A shallow document model for the JSON carried by the protocol.
//!
//! The envelope and the state reconciler only ever look at one level of a
//! JSON object at a time: its keys, and the raw bytes of each value. A
//! document is therefore a sequence of members, each a key (the raw string
//! contents between its quotes) and a value (the raw bytes of its span,
//! balanced brackets with strings and escapes respected). Nested objects
//! are themselves parsed shallowly wherever the protocol reads into them.
//!
//! Parsing is defined by small front-consuming scanners over byte
//! sequences; serialization emits the compact form. Documents whose keys
//! and values are well formed round-trip exactly.

use vstd::prelude::*;

verus! {

/// The byte `"`.
pub const QUOTE: u8 = 0x22;

/// The byte `\`.
pub const BACKSLASH: u8 = 0x5c;

/// The byte `{`.
pub const LCURLY: u8 = 0x7b;

/// The byte `}`.
pub const RCURLY: u8 = 0x7d;

/// The byte `[`.
pub const LSQUARE: u8 = 0x5b;

/// The byte `]`.
pub const RSQUARE: u8 = 0x5d;

/// The byte `:`.
pub const COLON: u8 = 0x3a;

/// The byte `,`.
pub const COMMA: u8 = 0x2c;

/// JSON insignificant whitespace.
pub open spec fn is_ws(b: u8) -> bool {
    b == 0x20 || b == 0x09 || b == 0x0a || b == 0x0d
}

/// A byte that ends an unquoted value token: whitespace, a comma, or a
/// closing bracket.
pub open spec fn is_value_delim(b: u8) -> bool {
    is_ws(b) || b == COMMA || b == RCURLY || b == RSQUARE
}

/// One more byte consumed, if the rest scanned at all.
pub open spec fn opt_inc(o: Option<nat>) -> Option<nat> {
    match o {
        Some(n) => Some((n + 1) as nat),
        None => None,
    }
}

/// How many bytes the rest of a string or container occupies at the front
/// of `s`, or `None` if it is unterminated or malformed.
///
/// With `in_str` true the scanner is inside a string literal (`esc` right
/// after a backslash); otherwise it is inside `depth` open brackets. It
/// stops after the closing quote of a bare string (`depth == 0`) or after
/// the bracket that closes the outermost container.
pub open spec fn scan_rest(s: Seq<u8>, depth: nat, in_str: bool, esc: bool) -> Option<nat>
    decreases s.len(),
{
    if s.len() == 0 {
        None
    } else {
        let b = s[0];
        if in_str {
            if esc {
                if b >= 0x20 {
                    opt_inc(scan_rest(s.skip(1), depth, true, false))
                } else {
                    None
                }
            } else if b == BACKSLASH {
                opt_inc(scan_rest(s.skip(1), depth, true, true))
            } else if b == QUOTE {
                if depth == 0 {
                    Some(1)
                } else {
                    opt_inc(scan_rest(s.skip(1), depth, false, false))
                }
            } else if b >= 0x20 {
                opt_inc(scan_rest(s.skip(1), depth, true, false))
            } else {
                None
            }
        } else {
            if b == QUOTE {
                opt_inc(scan_rest(s.skip(1), depth, true, false))
            } else if b == LCURLY || b == LSQUARE {
                opt_inc(scan_rest(s.skip(1), (depth + 1) as nat, false, false))
            } else if b == RCURLY || b == RSQUARE {
                if depth <= 1 {
                    Some(1)
                } else {
                    opt_inc(scan_rest(s.skip(1), (depth - 1) as nat, false, false))
                }
            } else {
                opt_inc(scan_rest(s.skip(1), depth, false, false))
            }
        }
    }
}

/// How many bytes the unquoted token at the front of `s` occupies: it runs
/// until the first delimiter or the end of input.
pub open spec fn token_len(s: Seq<u8>) -> nat
    decreases s.len(),
{
    if s.len() == 0 {
        0
    } else if is_value_delim(s[0]) {
        0
    } else {
        1 + token_len(s.skip(1))
    }
}

/// How many whitespace bytes stand at the front of `s`.
pub open spec fn ws_len(s: Seq<u8>) -> nat
    decreases s.len(),
{
    if s.len() == 0 {
        0
    } else if is_ws(s[0]) {
        1 + ws_len(s.skip(1))
    } else {
        0
    }
}

/// How many bytes the JSON value at the front of `s` occupies: a string
/// runs to its closing quote, a container to its matching closing bracket,
/// and anything else is a token running to the next delimiter.
pub open spec fn value_len(s: Seq<u8>) -> Option<nat> {
    if s.len() == 0 {
        None
    } else {
        let b = s[0];
        if b == QUOTE {
            opt_inc(scan_rest(s.skip(1), 0, true, false))
        } else if b == LCURLY || b == LSQUARE {
            opt_inc(scan_rest(s.skip(1), 1, false, false))
        } else if is_value_delim(b) || b == COLON {
            None
        } else {
            Some(1 + token_len(s.skip(1)))
        }
    }
}

/// A scan never runs past the end of the input.
pub proof fn lemma_scan_rest_bounds(s: Seq<u8>, depth: nat, in_str: bool, esc: bool)
    ensures
        scan_rest(s, depth, in_str, esc) matches Some(n) ==> 1 <= n <= s.len(),
    decreases s.len(),
{
    if s.len() == 0 {
    } else {
        lemma_scan_rest_bounds(s.skip(1), depth, true, false);
        lemma_scan_rest_bounds(s.skip(1), depth, true, true);
        lemma_scan_rest_bounds(s.skip(1), depth, false, false);
        lemma_scan_rest_bounds(s.skip(1), (depth + 1) as nat, false, false);
        if depth >= 1 {
            lemma_scan_rest_bounds(s.skip(1), (depth - 1) as nat, false, false);
        }
    }
}

/// A token never runs past the end of the input.
pub proof fn lemma_token_len_bounds(s: Seq<u8>)
    ensures
        token_len(s) <= s.len(),
    decreases s.len(),
{
    if s.len() == 0 || is_value_delim(s[0]) {
    } else {
        lemma_token_len_bounds(s.skip(1));
    }
}

/// Leading whitespace never runs past the end of the input.
pub proof fn lemma_ws_len_bounds(s: Seq<u8>)
    ensures
        ws_len(s) <= s.len(),
    decreases s.len(),
{
    if s.len() == 0 || !is_ws(s[0]) {
    } else {
        lemma_ws_len_bounds(s.skip(1));
    }
}

/// A value never runs past the end of the input and is never empty.
pub proof fn lemma_value_len_bounds(s: Seq<u8>)
    ensures
        value_len(s) matches Some(n) ==> 1 <= n <= s.len(),
{
    if s.len() > 0 {
        lemma_scan_rest_bounds(s.skip(1), 0, true, false);
        lemma_scan_rest_bounds(s.skip(1), 1, false, false);
        lemma_token_len_bounds(s.skip(1));
    }
}

/// A scan that succeeds is local: it depends only on the bytes it
/// consumed, so any input agreeing on those bytes scans the same way.
pub proof fn lemma_scan_rest_local(
    s1: Seq<u8>,
    s2: Seq<u8>,
    depth: nat,
    in_str: bool,
    esc: bool,
    n: nat,
)
    requires
        scan_rest(s1, depth, in_str, esc) == Some(n),
        s2.len() >= n,
        s2.take(n as int) == s1.take(n as int),
    ensures
        scan_rest(s2, depth, in_str, esc) == Some(n),
    decreases s1.len(),
{
    lemma_scan_rest_bounds(s1, depth, in_str, esc);
    lemma_scan_rest_bounds(s1.skip(1), depth, true, false);
    lemma_scan_rest_bounds(s1.skip(1), depth, true, true);
    lemma_scan_rest_bounds(s1.skip(1), depth, false, false);
    lemma_scan_rest_bounds(s1.skip(1), (depth + 1) as nat, false, false);
    if depth >= 1 {
        lemma_scan_rest_bounds(s1.skip(1), (depth - 1) as nat, false, false);
    }
    assert(s1[0] == s1.take(n as int)[0]);
    assert(s2[0] == s2.take(n as int)[0]);
    if n > 1 {
        assert(s1.skip(1).take(n - 1) =~= s1.take(n as int).skip(1));
        assert(s2.skip(1).take(n - 1) =~= s2.take(n as int).skip(1));
        assert(s1.skip(1).take(n - 1) == s2.skip(1).take(n - 1));
        let b = s1[0];
        if in_str {
            if esc {
                lemma_scan_rest_local(s1.skip(1), s2.skip(1), depth, true, false, (n - 1) as nat);
            } else if b == BACKSLASH {
                lemma_scan_rest_local(s1.skip(1), s2.skip(1), depth, true, true, (n - 1) as nat);
            } else if b == QUOTE {
                lemma_scan_rest_local(s1.skip(1), s2.skip(1), depth, false, false, (n - 1) as nat);
            } else {
                lemma_scan_rest_local(s1.skip(1), s2.skip(1), depth, true, false, (n - 1) as nat);
            }
        } else {
            if b == QUOTE {
                lemma_scan_rest_local(s1.skip(1), s2.skip(1), depth, true, false, (n - 1) as nat);
            } else if b == LCURLY || b == LSQUARE {
                lemma_scan_rest_local(
                    s1.skip(1),
                    s2.skip(1),
                    (depth + 1) as nat,
                    false,
                    false,
                    (n - 1) as nat,
                );
            } else if b == RCURLY || b == RSQUARE {
                lemma_scan_rest_local(
                    s1.skip(1),
                    s2.skip(1),
                    (depth - 1) as nat,
                    false,
                    false,
                    (n - 1) as nat,
                );
            } else {
                lemma_scan_rest_local(s1.skip(1), s2.skip(1), depth, false, false, (n - 1) as nat);
            }
        }
    }
}

/// A token that stops at a delimiter is local: any input agreeing on the
/// token's bytes and offering some delimiter right after it holds the same
/// token.
pub proof fn lemma_token_len_local(s1: Seq<u8>, s2: Seq<u8>, n: nat)
    requires
        token_len(s1) == n,
        s1.len() > n,
        s2.len() > n,
        s2.take(n as int) == s1.take(n as int),
        is_value_delim(s2[n as int]),
    ensures
        token_len(s2) == n,
    decreases s1.len(),
{
    lemma_token_len_bounds(s1);
    if n == 0 {
    } else {
        assert(s1[0] == s1.take(n as int)[0]);
        assert(s2[0] == s2.take(n as int)[0]);
        assert(s1.skip(1).take(n - 1) =~= s1.take(n as int).skip(1));
        assert(s2.skip(1).take(n - 1) =~= s2.take(n as int).skip(1));
        assert(s2.skip(1)[n - 1] == s2[n as int]);
        lemma_token_len_local(s1.skip(1), s2.skip(1), (n - 1) as nat);
    }
}

} // verus!

verus! {

/// The members of the object whose body starts at the front of `s` (the
/// opening brace already consumed, at least one member present), and how
/// many bytes they occupy up to and including the closing brace.
///
/// Each member is a key (the raw contents between its quotes) and a value
/// (the raw bytes of its span). Whitespace may stand around every token.
pub open spec fn sp_members(s: Seq<u8>) -> Option<(Seq<(Seq<u8>, Seq<u8>)>, nat)>
    decreases s.len(),
{
    let w0 = ws_len(s);
    let s0 = s.skip(w0 as int);
    if s0.len() > 0 && s0[0] == QUOTE {
        match scan_rest(s0.skip(1), 0, true, false) {
            None => None,
            Some(kq) => {
                let key = s0.skip(1).take(kq - 1);
                let s1 = s0.skip(1 + kq as int);
                let w1 = ws_len(s1);
                let s2 = s1.skip(w1 as int);
                if s2.len() > 0 && s2[0] == COLON {
                    let s3 = s2.skip(1);
                    let w2 = ws_len(s3);
                    let s4 = s3.skip(w2 as int);
                    match value_len(s4) {
                        None => None,
                        Some(vl) => {
                            let val = s4.take(vl as int);
                            let s5 = s4.skip(vl as int);
                            let w3 = ws_len(s5);
                            let s6 = s5.skip(w3 as int);
                            if s6.len() > 0 && s6[0] == COMMA {
                                proof {
                                    lemma_ws_len_bounds(s);
                                    lemma_scan_rest_bounds(s0.skip(1), 0, true, false);
                                    lemma_ws_len_bounds(s1);
                                    lemma_ws_len_bounds(s3);
                                    lemma_value_len_bounds(s4);
                                    lemma_ws_len_bounds(s5);
                                }
                                match sp_members(s6.skip(1)) {
                                    None => None,
                                    Some((rest, used)) => Some(
                                        (
                                            seq![(key, val)] + rest,
                                            (w0 + 1 + kq + w1 + 1 + w2 + vl + w3 + 1 + used) as nat,
                                        ),
                                    ),
                                }
                            } else if s6.len() > 0 && s6[0] == RCURLY {
                                Some(
                                    (
                                        seq![(key, val)],
                                        (w0 + 1 + kq + w1 + 1 + w2 + vl + w3 + 1) as nat,
                                    ),
                                )
                            } else {
                                None
                            }
                        },
                    }
                } else {
                    None
                }
            },
        }
    } else {
        None
    }
}

/// The document whose object starts at the front of `s`: its members and
/// how many bytes the object occupies, closing brace included.
pub open spec fn sp_doc_body(s: Seq<u8>) -> Option<(Seq<(Seq<u8>, Seq<u8>)>, nat)> {
    let w0 = ws_len(s);
    let s0 = s.skip(w0 as int);
    if s0.len() > 0 && s0[0] == LCURLY {
        let s1 = s0.skip(1);
        let w1 = ws_len(s1);
        let s2 = s1.skip(w1 as int);
        if s2.len() > 0 && s2[0] == RCURLY {
            Some((Seq::empty(), (w0 + 1 + w1 + 1) as nat))
        } else {
            match sp_members(s1) {
                None => None,
                Some((ms, used)) => Some((ms, (w0 + 1 + used) as nat)),
            }
        }
    } else {
        None
    }
}

/// The document a whole byte sequence denotes: one object, with nothing
/// but whitespace after it.
pub open spec fn sp_doc(s: Seq<u8>) -> Option<Seq<(Seq<u8>, Seq<u8>)>> {
    match sp_doc_body(s) {
        None => None,
        Some((ms, used)) => if ws_len(s.skip(used as int)) == s.len() - used {
            Some(ms)
        } else {
            None
        },
    }
}

/// A parsed object never runs past the end of the input.
pub proof fn lemma_sp_members_bounds(s: Seq<u8>)
    ensures
        sp_members(s) matches Some((ms, used)) ==> 1 <= used <= s.len(),
    decreases s.len(),
{
    let w0 = ws_len(s);
    let s0 = s.skip(w0 as int);
    lemma_ws_len_bounds(s);
    if s0.len() > 0 && s0[0] == QUOTE {
        match scan_rest(s0.skip(1), 0, true, false) {
            None => {},
            Some(kq) => {
                lemma_scan_rest_bounds(s0.skip(1), 0, true, false);
                let s1 = s0.skip(1 + kq as int);
                let w1 = ws_len(s1);
                let s2 = s1.skip(w1 as int);
                lemma_ws_len_bounds(s1);
                if s2.len() > 0 && s2[0] == COLON {
                    let s3 = s2.skip(1);
                    let w2 = ws_len(s3);
                    let s4 = s3.skip(w2 as int);
                    lemma_ws_len_bounds(s3);
                    match value_len(s4) {
                        None => {},
                        Some(vl) => {
                            lemma_value_len_bounds(s4);
                            let s5 = s4.skip(vl as int);
                            let w3 = ws_len(s5);
                            let s6 = s5.skip(w3 as int);
                            lemma_ws_len_bounds(s5);
                            if s6.len() > 0 && s6[0] == COMMA {
                                lemma_sp_members_bounds(s6.skip(1));
                            }
                        },
                    }
                }
            },
        }
    }
}

/// A parsed document body never runs past the end of the input.
pub proof fn lemma_sp_doc_body_bounds(s: Seq<u8>)
    ensures
        sp_doc_body(s) matches Some((ms, used)) ==> 2 <= used <= s.len(),
{
    let w0 = ws_len(s);
    let s0 = s.skip(w0 as int);
    lemma_ws_len_bounds(s);
    if s0.len() > 0 && s0[0] == LCURLY {
        let s1 = s0.skip(1);
        lemma_ws_len_bounds(s1);
        lemma_sp_members_bounds(s1);
    }
}

/// The compact serialization of one member: the quoted key, a colon, and
/// the raw value bytes.
pub open spec fn ser_member(m: (Seq<u8>, Seq<u8>)) -> Seq<u8> {
    seq![QUOTE] + m.0 + seq![QUOTE, COLON] + m.1
}

/// The compact serialization of an object body: members joined by commas.
pub open spec fn ser_members(ms: Seq<(Seq<u8>, Seq<u8>)>) -> Seq<u8>
    decreases ms.len(),
{
    if ms.len() == 0 {
        Seq::empty()
    } else if ms.len() == 1 {
        ser_member(ms[0])
    } else {
        ser_member(ms[0]) + seq![COMMA] + ser_members(ms.skip(1))
    }
}

/// The compact serialization of a whole document.
pub open spec fn ser_doc(ms: Seq<(Seq<u8>, Seq<u8>)>) -> Seq<u8> {
    seq![LCURLY] + ser_members(ms) + seq![RCURLY]
}

/// Raw key bytes are well formed when, followed by a closing quote, they
/// scan as the contents of one string: no unescaped quote, no control
/// byte, no dangling backslash.
pub open spec fn wf_key_bytes(k: Seq<u8>) -> bool {
    scan_rest(k.push(QUOTE), 0, true, false) == Some((k.len() + 1) as nat)
}

/// Raw value bytes are well formed when, probed with a delimiter after
/// them, they scan as exactly one whole value span.
pub open spec fn wf_value_bytes(v: Seq<u8>) -> bool {
    value_len(v.push(COMMA)) == Some(v.len() as nat)
}

/// A document is well formed when every key and every value is.
pub open spec fn wf_doc(ms: Seq<(Seq<u8>, Seq<u8>)>) -> bool {
    forall|i: int|
        0 <= i < ms.len() ==> wf_key_bytes(#[trigger] ms[i].0) && wf_value_bytes(ms[i].1)
}

} // verus!

verus! {

/// Well-formed key bytes scan as one string's contents whatever follows
/// the closing quote.
pub proof fn lemma_key_scan(k: Seq<u8>, rest: Seq<u8>)
    requires
        wf_key_bytes(k),
    ensures
        scan_rest(k + seq![QUOTE] + rest, 0, true, false) == Some((k.len() + 1) as nat),
{
    let s1 = k.push(QUOTE);
    let s2 = k + seq![QUOTE] + rest;
    assert(s2.take((k.len() + 1) as int) =~= s1.take((k.len() + 1) as int));
    lemma_scan_rest_local(s1, s2, 0, true, false, (k.len() + 1) as nat);
}

/// Well-formed value bytes span exactly themselves whenever a delimiter
/// follows them.
pub proof fn lemma_value_probe(v: Seq<u8>, rest: Seq<u8>)
    requires
        wf_value_bytes(v),
        rest.len() > 0,
        is_value_delim(rest[0]),
    ensures
        value_len(v + rest) == Some(v.len() as nat),
{
    let probe = v.push(COMMA);
    lemma_value_len_bounds(probe);
    assert(v.len() >= 1) by {
        if v.len() == 0 {
            assert(probe[0] == COMMA);
        }
    }
    let w = v + rest;
    assert(probe[0] == v[0]);
    assert(w[0] == v[0]);
    let b = v[0];
    assert(probe.skip(1) =~= v.skip(1).push(COMMA));
    assert(w.skip(1) =~= v.skip(1) + rest);
    let n = (v.len() - 1) as nat;
    if b == QUOTE {
        assert(scan_rest(v.skip(1).push(COMMA), 0, true, false) == Some(n));
        assert((v.skip(1) + rest).take(n as int) =~= v.skip(1).push(COMMA).take(n as int));
        lemma_scan_rest_local(v.skip(1).push(COMMA), v.skip(1) + rest, 0, true, false, n);
    } else if b == LCURLY || b == LSQUARE {
        assert(scan_rest(v.skip(1).push(COMMA), 1, false, false) == Some(n));
        assert((v.skip(1) + rest).take(n as int) =~= v.skip(1).push(COMMA).take(n as int));
        lemma_scan_rest_local(v.skip(1).push(COMMA), v.skip(1) + rest, 1, false, false, n);
    } else {
        assert(!(is_value_delim(b) || b == COLON));
        assert(token_len(v.skip(1).push(COMMA)) == n);
        assert((v.skip(1) + rest).take(n as int) =~= v.skip(1).push(COMMA).take(n as int));
        assert((v.skip(1) + rest)[n as int] == rest[0]);
        lemma_token_len_local(v.skip(1).push(COMMA), v.skip(1) + rest, n);
    }
}

/// Well-formed value bytes do not start with whitespace or a delimiter.
proof fn lemma_value_head(v: Seq<u8>)
    requires
        wf_value_bytes(v),
    ensures
        v.len() >= 1,
        !is_ws(v[0]),
        !is_value_delim(v[0]),
{
    let probe = v.push(COMMA);
    lemma_value_len_bounds(probe);
    assert(v.len() >= 1) by {
        if v.len() == 0 {
            assert(probe[0] == COMMA);
        }
    }
    assert(probe[0] == v[0]);
}

/// How one serialized member at the front of an object body parses: the
/// key and value come back exactly, and a comma continues with the
/// remaining members while a closing brace ends the object.
#[verifier::rlimit(100)]
proof fn lemma_member_step(k: Seq<u8>, v: Seq<u8>, mid: Seq<u8>)
    requires
        wf_key_bytes(k),
        wf_value_bytes(v),
        mid.len() > 0,
        mid[0] == COMMA || mid[0] == RCURLY,
    ensures
        sp_members(seq![QUOTE] + k + seq![QUOTE, COLON] + v + mid) == (if mid[0] == COMMA {
            match sp_members(mid.skip(1)) {
                None => None,
                Some((rest, used)) => Some(
                    (seq![(k, v)] + rest, (k.len() + v.len() + 4 + used) as nat),
                ),
            }
        } else {
            Some((seq![(k, v)], (k.len() + v.len() + 4) as nat))
        }),
{
    lemma_value_head(v);
    let s = seq![QUOTE] + k + seq![QUOTE, COLON] + v + mid;
    assert(s[0] == QUOTE);
    assert(ws_len(s) == 0);
    let s0 = s.skip(0);
    assert(s0 =~= s);
    assert(s0[0] == QUOTE);
    assert(s0.skip(1) =~= k + seq![QUOTE] + (seq![COLON] + v + mid));
    lemma_key_scan(k, seq![COLON] + v + mid);
    let kq = (k.len() + 1) as nat;
    assert(scan_rest(s0.skip(1), 0, true, false) == Some(kq));
    assert(s0.skip(1).take(kq - 1) =~= k);
    let s1 = s0.skip(1 + kq as int);
    assert(s1 =~= seq![COLON] + v + mid);
    assert(s1[0] == COLON);
    assert(ws_len(s1) == 0);
    let s2 = s1.skip(0);
    assert(s2 =~= s1);
    assert(s2[0] == COLON);
    let s3 = s2.skip(1);
    assert(s3 =~= v + mid);
    assert(s3[0] == v[0]);
    assert(ws_len(s3) == 0);
    let s4 = s3.skip(0);
    assert(s4 =~= s3);
    lemma_value_probe(v, mid);
    assert(value_len(s4) == Some(v.len() as nat));
    let vl = v.len() as nat;
    assert(s4.take(vl as int) =~= v);
    let s5 = s4.skip(vl as int);
    assert(s5 =~= mid);
    assert(ws_len(s5) == 0);
    let s6 = s5.skip(0);
    assert(s6 =~= s5);
    assert(s6[0] == mid[0]);
    if mid[0] == COMMA {
        assert(s6.skip(1) =~= mid.skip(1));
    } else {
        assert(s6[0] == RCURLY && s6[0] != COMMA);
    }
}

/// Serializing then parsing an object body gives the members back: the
/// members of `ser_members(ms)` followed by a closing brace are exactly
/// `ms`, whatever follows the brace.
#[verifier::rlimit(100)]
pub proof fn lemma_members_round_trip(ms: Seq<(Seq<u8>, Seq<u8>)>, tail: Seq<u8>)
    requires
        ms.len() >= 1,
        wf_doc(ms),
    ensures
        sp_members(ser_members(ms) + seq![RCURLY] + tail) == Some(
            (ms, (ser_members(ms).len() + 1) as nat),
        ),
    decreases ms.len(),
{
    let k = ms[0].0;
    let v = ms[0].1;
    assert(wf_key_bytes(k) && wf_value_bytes(v));
    let sm = ser_members(ms);
    let s = sm + seq![RCURLY] + tail;
    if ms.len() == 1 {
        let mid = seq![RCURLY] + tail;
        assert(s =~= seq![QUOTE] + k + seq![QUOTE, COLON] + v + mid);
        assert(mid[0] == RCURLY);
        lemma_member_step(k, v, mid);
        assert(seq![(k, v)] =~= ms) by {
            assert((k, v) == ms[0]);
        }
        assert(sm.len() == 1 + k.len() + 2 + v.len());
    } else {
        let smr = ser_members(ms.skip(1));
        let mid = seq![COMMA] + (smr + seq![RCURLY] + tail);
        assert(s =~= seq![QUOTE] + k + seq![QUOTE, COLON] + v + mid);
        assert(mid[0] == COMMA);
        lemma_member_step(k, v, mid);
        assert(wf_doc(ms.skip(1))) by {
            assert(forall|i: int|
                0 <= i < ms.skip(1).len() ==> #[trigger] ms.skip(1)[i] == ms[i + 1]);
        }
        lemma_members_round_trip(ms.skip(1), tail);
        assert(mid.skip(1) =~= smr + seq![RCURLY] + tail);
        assert(sp_members(mid.skip(1)) == Some((ms.skip(1), (smr.len() + 1) as nat)));
        assert(seq![(k, v)] + ms.skip(1) =~= ms) by {
            assert((k, v) == ms[0]);
        }
        assert(sm =~= ser_member(ms[0]) + seq![COMMA] + smr);
        assert(sm.len() == 1 + k.len() + 2 + v.len() + 1 + smr.len());
    }
}

/// Serializing then parsing a well-formed document gives it back
/// unchanged.
pub proof fn lemma_doc_round_trip(ms: Seq<(Seq<u8>, Seq<u8>)>)
    requires
        wf_doc(ms),
    ensures
        sp_doc(ser_doc(ms)) == Some(ms),
{
    let sm = ser_members(ms);
    let s = ser_doc(ms);
    assert(s =~= seq![LCURLY] + sm + seq![RCURLY]);
    assert(s[0] == LCURLY);
    assert(ws_len(s) == 0);
    let s0 = s.skip(0);
    assert(s0 =~= s);
    let s1 = s0.skip(1);
    assert(s1 =~= sm + seq![RCURLY]);
    if ms.len() == 0 {
        assert(s1 =~= seq![RCURLY]);
        assert(ws_len(s1) == 0);
        assert(s1.skip(0) =~= s1);
        assert(sp_doc_body(s) == Some((Seq::<(Seq<u8>, Seq<u8>)>::empty(), 2nat)));
        assert(s.skip(2) =~= Seq::<u8>::empty());
        assert(ws_len(s.skip(2)) == 0);
        assert(Seq::<(Seq<u8>, Seq<u8>)>::empty() =~= ms);
    } else {
        assert(sm.len() >= 1) by {
            assert(ser_members(ms).len() >= ser_member(ms[0]).len()) by {
                if ms.len() == 1 {
                } else {
                }
            }
        }
        assert(s1[0] == sm[0]);
        assert(sm[0] == QUOTE) by {
            assert(ser_member(ms[0])[0] == QUOTE);
            if ms.len() == 1 {
            } else {
            }
        }
        assert(ws_len(s1) == 0);
        assert(s1.skip(0) =~= s1);
        assert(s1[0] != RCURLY);
        assert(s1 =~= sm + seq![RCURLY] + Seq::<u8>::empty());
        lemma_members_round_trip(ms, Seq::<u8>::empty());
        assert(sp_members(s1) == Some((ms, (sm.len() + 1) as nat)));
        let used = (1 + sm.len() + 1) as nat;
        assert(sp_doc_body(s) == Some((ms, used)));
        assert(used == s.len());
        assert(s.skip(used as int) =~= Seq::<u8>::empty());
        assert(ws_len(s.skip(used as int)) == 0);
    }
}

} // verus!

verus! {

/// Whether a byte is JSON whitespace.
fn ws_byte(b: u8) -> (r: bool)
    ensures
        r == is_ws(b),
{
    b == 0x20 || b == 0x09 || b == 0x0a || b == 0x0d
}

/// Copies the bytes of `s` between `a` and `b`.
pub fn copy_range(s: &Vec<u8>, a: usize, b: usize) -> (r: Vec<u8>)
    requires
        a <= b <= s@.len(),
    ensures
        r@ == s@.subrange(a as int, b as int),
{
    let mut r: Vec<u8> = Vec::new();
    let mut i: usize = a;
    while i < b
        invariant
            a <= i <= b <= s@.len(),
            r@ == s@.subrange(a as int, i as int),
        decreases b - i,
    {
        r.push(s[i]);
        i = i + 1;
        proof {
            assert(r@ =~= s@.subrange(a as int, i as int));
        }
    }
    r
}

/// Appends all of `src` to `out`.
pub fn push_all(out: &mut Vec<u8>, src: &Vec<u8>)
    ensures
        final(out)@ == old(out)@ + src@,
{
    let mut i: usize = 0;
    while i < src.len()
        invariant
            i <= src@.len(),
            out@ == old(out)@ + src@.subrange(0, i as int),
        decreases src@.len() - i,
    {
        out.push(src[i]);
        i = i + 1;
        proof {
            assert(out@ =~= old(out)@ + src@.subrange(0, i as int));
        }
    }
    proof {
        assert(old(out)@ + src@.subrange(0, src@.len() as int) =~= old(out)@ + src@);
    }
}

/// Runs the string/container scanner from `start`, returning the index
/// just past the scanned construct.
pub fn scan_rest_x(s: &Vec<u8>, start: usize, depth0: usize, in_str0: bool, esc0: bool) -> (r: Option<
    usize,
>)
    requires
        start <= s@.len(),
        depth0 <= 1,
        in_str0 || !esc0,
    ensures
        match scan_rest(s@.skip(start as int), depth0 as nat, in_str0, esc0) {
            Some(n) => r == Some((start + n) as usize),
            None => r is None,
        },
{
    let mut pos: usize = start;
    let mut depth: u128 = depth0 as u128;
    let mut in_str: bool = in_str0;
    let mut esc: bool = esc0;
    loop
        invariant
            start <= pos <= s@.len(),
            depth <= depth0 + pos - start,
            in_str || !esc,
            scan_rest(s@.skip(start as int), depth0 as nat, in_str0, esc0) == (
            match scan_rest(s@.skip(pos as int), depth as nat, in_str, esc) {
                Some(n) => Some((n + pos - start) as nat),
                None => None::<nat>,
            }),
        decreases s@.len() - pos,
    {
        if pos >= s.len() {
            return None;
        }
        let b = s[pos];
        proof {
            assert(s@.skip(pos as int)[0] == s@[pos as int]);
            assert(s@.skip(pos as int).skip(1) =~= s@.skip(pos as int + 1));
        }
        if in_str {
            if esc {
                if b >= 0x20 {
                    esc = false;
                    pos = pos + 1;
                } else {
                    return None;
                }
            } else if b == BACKSLASH {
                esc = true;
                pos = pos + 1;
            } else if b == QUOTE {
                if depth == 0 {
                    return Some(pos + 1);
                } else {
                    in_str = false;
                    pos = pos + 1;
                }
            } else if b >= 0x20 {
                pos = pos + 1;
            } else {
                return None;
            }
        } else {
            if b == QUOTE {
                in_str = true;
                pos = pos + 1;
            } else if b == LCURLY || b == LSQUARE {
                depth = depth + 1;
                pos = pos + 1;
            } else if b == RCURLY || b == RSQUARE {
                if depth <= 1 {
                    return Some(pos + 1);
                } else {
                    depth = depth - 1;
                    pos = pos + 1;
                }
            } else {
                pos = pos + 1;
            }
        }
    }
}

/// The index just past the unquoted token starting at `start`.
pub fn token_end_x(s: &Vec<u8>, start: usize) -> (r: usize)
    requires
        start <= s@.len(),
    ensures
        r == start + token_len(s@.skip(start as int)),
{
    let mut pos: usize = start;
    loop
        invariant
            start <= pos <= s@.len(),
            token_len(s@.skip(start as int)) == token_len(s@.skip(pos as int)) + pos - start,
        decreases s@.len() - pos,
    {
        if pos >= s.len() {
            return pos;
        }
        let b = s[pos];
        proof {
            assert(s@.skip(pos as int)[0] == s@[pos as int]);
            assert(s@.skip(pos as int).skip(1) =~= s@.skip(pos as int + 1));
        }
        if ws_byte(b) || b == COMMA || b == RCURLY || b == RSQUARE {
            return pos;
        }
        pos = pos + 1;
    }
}

/// The index of the first non-whitespace byte at or after `start`.
pub fn ws_end_x(s: &Vec<u8>, start: usize) -> (r: usize)
    requires
        start <= s@.len(),
    ensures
        r == start + ws_len(s@.skip(start as int)),
        r <= s@.len(),
{
    let mut pos: usize = start;
    loop
        invariant
            start <= pos <= s@.len(),
            ws_len(s@.skip(start as int)) == ws_len(s@.skip(pos as int)) + pos - start,
        decreases s@.len() - pos,
    {
        if pos >= s.len() {
            return pos;
        }
        let b = s[pos];
        proof {
            assert(s@.skip(pos as int)[0] == s@[pos as int]);
            assert(s@.skip(pos as int).skip(1) =~= s@.skip(pos as int + 1));
        }
        if !ws_byte(b) {
            return pos;
        }
        pos = pos + 1;
    }
}

/// The index just past the JSON value starting at `start`, or `None` if no
/// value starts there.
pub fn value_end_x(s: &Vec<u8>, start: usize) -> (r: Option<usize>)
    requires
        start <= s@.len(),
    ensures
        match value_len(s@.skip(start as int)) {
            Some(n) => r == Some((start + n) as usize),
            None => r is None,
        },
{
    if start >= s.len() {
        return None;
    }
    let b = s[start];
    proof {
        assert(s@.skip(start as int)[0] == s@[start as int]);
        assert(s@.skip(start as int).skip(1) =~= s@.skip(start as int + 1));
    }
    if b == QUOTE {
        scan_rest_x(s, start + 1, 0, true, false)
    } else if b == LCURLY || b == LSQUARE {
        scan_rest_x(s, start + 1, 1, false, false)
    } else if ws_byte(b) || b == COMMA || b == RCURLY || b == RSQUARE || b == COLON {
        None
    } else {
        proof {
            lemma_token_len_bounds(s@.skip(start as int + 1));
        }
        Some(token_end_x(s, start + 1))
    }
}

} // verus!

verus! {

/// The key/value view of a vector of raw members.
pub open spec fn entries_of(vs: Seq<(Vec<u8>, Vec<u8>)>) -> Seq<(Seq<u8>, Seq<u8>)> {
    vs.map(|i: int, m: (Vec<u8>, Vec<u8>)| (m.0@, m.1@))
}

/// A shallowly parsed JSON object: its members in order, each a key (the
/// raw contents between its quotes) and a value (the raw bytes of its
/// span).
#[derive(Debug, PartialEq, Eq)]
pub struct JsonDoc {
    /// The members in the order they appear.
    pub members: Vec<(Vec<u8>, Vec<u8>)>,
}

impl JsonDoc {
    /// The members as key/value byte sequences.
    pub open spec fn entries(&self) -> Seq<(Seq<u8>, Seq<u8>)> {
        entries_of(self.members@)
    }

    /// An empty document.
    pub fn new() -> (r: JsonDoc)
        ensures
            r.entries() == Seq::<(Seq<u8>, Seq<u8>)>::empty(),
    {
        let r = JsonDoc { members: Vec::new() };
        proof {
            assert(r.entries() =~= Seq::<(Seq<u8>, Seq<u8>)>::empty());
        }
        r
    }
}

/// Parses the members of an object body starting at `start` (just after
/// the opening brace, at least one member present), returning them and the
/// index just past the closing brace.
#[verifier::rlimit(100)]
fn parse_members_x(s: &Vec<u8>, start: usize) -> (r: Option<(Vec<(Vec<u8>, Vec<u8>)>, usize)>)
    requires
        start <= s@.len(),
    ensures
        match sp_members(s@.skip(start as int)) {
            Some((ms, used)) => r matches Some((v, end)) && entries_of(v@) == ms && end == start
                + used,
            None => r is None,
        },
    decreases s@.len() - start,
{
    let ghost t = s@.skip(start as int);
    let p0 = ws_end_x(s, start);
    proof {
        assert(t.skip(ws_len(t) as int) =~= s@.skip(p0 as int));
    }
    if !(p0 < s.len() && s[p0] == QUOTE) {
        proof {
            if p0 < s@.len() {
                assert(s@.skip(p0 as int)[0] == s@[p0 as int]);
            }
        }
        return None;
    }
    proof {
        assert(s@.skip(p0 as int)[0] == s@[p0 as int]);
        assert(s@.skip(p0 as int).skip(1) =~= s@.skip(p0 as int + 1));
    }
    let kend = match scan_rest_x(s, p0 + 1, 0, true, false) {
        Some(k) => k,
        None => {
            return None;
        },
    };
    proof {
        lemma_scan_rest_bounds(s@.skip(p0 as int + 1), 0, true, false);
    }
    let key = copy_range(s, p0 + 1, kend - 1);
    proof {
        let s0 = t.skip(ws_len(t) as int);
        let kq = (kend - p0 - 1) as nat;
        assert(s0.skip(1).take(kq - 1) =~= s@.subrange(p0 as int + 1, kend as int - 1));
        assert(s0.skip(1 + kq as int) =~= s@.skip(kend as int));
    }
    let p1 = ws_end_x(s, kend);
    proof {
        assert(s@.skip(kend as int).skip(ws_len(s@.skip(kend as int)) as int) =~= s@.skip(
            p1 as int,
        ));
    }
    if !(p1 < s.len() && s[p1] == COLON) {
        proof {
            if p1 < s@.len() {
                assert(s@.skip(p1 as int)[0] == s@[p1 as int]);
            }
        }
        return None;
    }
    proof {
        assert(s@.skip(p1 as int)[0] == s@[p1 as int]);
        assert(s@.skip(p1 as int).skip(1) =~= s@.skip(p1 as int + 1));
    }
    let p2 = ws_end_x(s, p1 + 1);
    proof {
        assert(s@.skip(p1 as int + 1).skip(ws_len(s@.skip(p1 as int + 1)) as int) =~= s@.skip(
            p2 as int,
        ));
    }
    let vend = match value_end_x(s, p2) {
        Some(v) => v,
        None => {
            return None;
        },
    };
    proof {
        lemma_value_len_bounds(s@.skip(p2 as int));
    }
    let val = copy_range(s, p2, vend);
    proof {
        assert(s@.skip(p2 as int).take(vend - p2) =~= s@.subrange(p2 as int, vend as int));
        assert(s@.skip(p2 as int).skip(vend - p2) =~= s@.skip(vend as int));
    }
    let p3 = ws_end_x(s, vend);
    proof {
        assert(s@.skip(vend as int).skip(ws_len(s@.skip(vend as int)) as int) =~= s@.skip(
            p3 as int,
        ));
    }
    if p3 < s.len() && s[p3] == COMMA {
        proof {
            assert(s@.skip(p3 as int)[0] == s@[p3 as int]);
            assert(s@.skip(p3 as int).skip(1) =~= s@.skip(p3 as int + 1));
        }
        match parse_members_x(s, p3 + 1) {
            Some((mut rest, end)) => {
                let ghost rest_pre = rest@;
                rest.insert(0, (key, val));
                proof {
                    assert(rest@.skip(1) =~= rest_pre);
                    assert(entries_of(rest@) =~= seq![(key@, val@)] + entries_of(rest_pre));
                }
                Some((rest, end))
            },
            None => None,
        }
    } else if p3 < s.len() && s[p3] == RCURLY {
        proof {
            assert(s@.skip(p3 as int)[0] == s@[p3 as int]);
        }
        let mut one: Vec<(Vec<u8>, Vec<u8>)> = Vec::new();
        one.push((key, val));
        proof {
            assert(entries_of(one@) =~= seq![(key@, val@)]);
        }
        Some((one, p3 + 1))
    } else {
        proof {
            if p3 < s@.len() {
                assert(s@.skip(p3 as int)[0] == s@[p3 as int]);
            }
        }
        None
    }
}

/// Parses a whole byte sequence as one shallow JSON object, with nothing
/// but whitespace allowed after it.
pub fn parse_doc(s: &Vec<u8>) -> (r: Option<JsonDoc>)
    ensures
        match sp_doc(s@) {
            Some(ms) => r matches Some(d) && d.entries() == ms,
            None => r is None,
        },
{
    let ghost t = s@;
    let p0 = ws_end_x(s, 0);
    proof {
        assert(s@.skip(0) =~= s@);
        assert(s@.skip(ws_len(s@) as int) =~= s@.skip(p0 as int));
    }
    if !(p0 < s.len() && s[p0] == LCURLY) {
        proof {
            if p0 < s@.len() {
                assert(s@.skip(p0 as int)[0] == s@[p0 as int]);
            }
        }
        return None;
    }
    proof {
        assert(s@.skip(p0 as int)[0] == s@[p0 as int]);
        assert(s@.skip(p0 as int).skip(1) =~= s@.skip(p0 as int + 1));
    }
    let p1 = ws_end_x(s, p0 + 1);
    proof {
        assert(s@.skip(p0 as int + 1).skip(ws_len(s@.skip(p0 as int + 1)) as int) =~= s@.skip(
            p1 as int,
        ));
    }
    let (doc, end) = if p1 < s.len() && s[p1] == RCURLY {
        proof {
            assert(s@.skip(p1 as int)[0] == s@[p1 as int]);
        }
        (JsonDoc::new(), p1 + 1)
    } else {
        proof {
            if p1 < s@.len() {
                assert(s@.skip(p1 as int)[0] == s@[p1 as int]);
            }
            lemma_sp_members_bounds(s@.skip(p0 as int + 1));
        }
        match parse_members_x(s, p0 + 1) {
            Some((v, end)) => (JsonDoc { members: v }, end),
            None => {
                return None;
            },
        }
    };
    let p2 = ws_end_x(s, end);
    proof {
        lemma_ws_len_bounds(s@.skip(end as int));
    }
    if p2 == s.len() {
        Some(doc)
    } else {
        None
    }
}

/// Appending a member to a non-empty body appends a comma and the member.
proof fn lemma_ser_members_snoc(ms: Seq<(Seq<u8>, Seq<u8>)>, m: (Seq<u8>, Seq<u8>))
    requires
        ms.len() >= 1,
    ensures
        ser_members(ms.push(m)) == ser_members(ms) + seq![COMMA] + ser_member(m),
    decreases ms.len(),
{
    if ms.len() == 1 {
        assert(ms.push(m).skip(1) =~= seq![m]);
        assert(ms.push(m)[0] == ms[0]);
        assert(ser_members(seq![m]) == ser_member(m));
        assert(ser_members(ms.push(m)) =~= ser_members(ms) + seq![COMMA] + ser_member(m));
    } else {
        lemma_ser_members_snoc(ms.skip(1), m);
        assert(ms.push(m).skip(1) =~= ms.skip(1).push(m));
        assert(ms.push(m)[0] == ms[0]);
        assert(ser_members(ms.push(m)) =~= ser_members(ms) + seq![COMMA] + ser_member(m));
    }
}

/// Serializes a document compactly: members joined by commas between one
/// pair of braces, each member the quoted key, a colon, and the raw value
/// bytes.
pub fn ser_doc_x(d: &JsonDoc) -> (r: Vec<u8>)
    ensures
        r@ == ser_doc(d.entries()),
{
    let mut r: Vec<u8> = Vec::new();
    r.push(LCURLY);
    let mut i: usize = 0;
    proof {
        assert(r@ =~= seq![LCURLY] + ser_members(d.entries().take(0)));
    }
    while i < d.members.len()
        invariant
            i <= d.members@.len(),
            r@ == seq![LCURLY] + ser_members(d.entries().take(i as int)),
        decreases d.members@.len() - i,
    {
        let ghost before = d.entries().take(i as int);
        if i > 0 {
            r.push(COMMA);
        }
        r.push(QUOTE);
        push_all(&mut r, &d.members[i].0);
        r.push(QUOTE);
        r.push(COLON);
        push_all(&mut r, &d.members[i].1);
        proof {
            let m = d.entries()[i as int];
            assert(m == (d.members@[i as int].0@, d.members@[i as int].1@));
            assert(d.entries().take(i + 1) =~= before.push(m));
            if i == 0 {
                assert(before.len() == 0);
                assert(ser_members(seq![m]) == ser_member(m));
                assert(before.push(m) =~= seq![m]);
                assert(r@ =~= seq![LCURLY] + ser_members(d.entries().take(i + 1)));
            } else {
                lemma_ser_members_snoc(before, m);
                assert(r@ =~= seq![LCURLY] + ser_members(d.entries().take(i + 1)));
            }
        }
        i = i + 1;
    }
    r.push(RCURLY);
    proof {
        assert(d.entries().take(d.entries().len() as int) =~= d.entries());
        assert(r@ =~= ser_doc(d.entries()));
    }
    r
}

} // verus!

verus! {

/// The value of the first member with key `k`, if any.
pub open spec fn lookup(ms: Seq<(Seq<u8>, Seq<u8>)>, k: Seq<u8>) -> Option<Seq<u8>>
    decreases ms.len(),
{
    if ms.len() == 0 {
        None
    } else if ms[0].0 == k {
        Some(ms[0].1)
    } else {
        lookup(ms.skip(1), k)
    }
}

/// The members with key `k` now bound to `v`: the first member with that
/// key is overwritten in place, or the pair is appended if the key is new.
pub open spec fn set_key(ms: Seq<(Seq<u8>, Seq<u8>)>, k: Seq<u8>, v: Seq<u8>) -> Seq<
    (Seq<u8>, Seq<u8>),
>
    decreases ms.len(),
{
    if ms.len() == 0 {
        seq![(k, v)]
    } else if ms[0].0 == k {
        seq![(k, v)] + ms.skip(1)
    } else {
        seq![ms[0]] + set_key(ms.skip(1), k, v)
    }
}

/// The shallow merge: every member of `upd`, in order, overwrites (or
/// inserts) its key in `base` wholesale.
pub open spec fn merge_entries(
    base: Seq<(Seq<u8>, Seq<u8>)>,
    upd: Seq<(Seq<u8>, Seq<u8>)>,
) -> Seq<(Seq<u8>, Seq<u8>)>
    decreases upd.len(),
{
    if upd.len() == 0 {
        base
    } else {
        merge_entries(set_key(base, upd[0].0, upd[0].1), upd.skip(1))
    }
}

/// No key appears twice.
pub open spec fn unique_keys(ms: Seq<(Seq<u8>, Seq<u8>)>) -> bool {
    forall|i: int, j: int| 0 <= i < j < ms.len() ==> (#[trigger] ms[i].0) != (#[trigger] ms[j].0)
}

/// Binding one key changes exactly that key's value and no other.
pub proof fn lemma_set_key_lookup(ms: Seq<(Seq<u8>, Seq<u8>)>, k: Seq<u8>, v: Seq<u8>, q: Seq<u8>)
    ensures
        lookup(set_key(ms, k, v), q) == if q == k {
            Some(v)
        } else {
            lookup(ms, q)
        },
    decreases ms.len(),
{
    if ms.len() == 0 {
        let r = set_key(ms, k, v);
        assert(r == seq![(k, v)]);
        assert(r[0] == (k, v));
        assert(r[0].0 == k && r[0].1 == v);
        assert(r.skip(1) =~= Seq::<(Seq<u8>, Seq<u8>)>::empty());
        assert(lookup(r.skip(1), q) == None::<Seq<u8>>);
        assert(lookup(set_key(ms, k, v), q) == (if q == k { Some(v) } else { lookup(ms, q) }));
    } else if ms[0].0 == k {
        let r = seq![(k, v)] + ms.skip(1);
        assert(r[0] == (k, v));
        assert(r[0].0 == k && r[0].1 == v);
        assert(r.skip(1) =~= ms.skip(1));
        assert(lookup(set_key(ms, k, v), q) == (if q == k { Some(v) } else { lookup(ms, q) }));
    } else {
        lemma_set_key_lookup(ms.skip(1), k, v, q);
        let r = seq![ms[0]] + set_key(ms.skip(1), k, v);
        assert(r[0] == ms[0]);
        assert(r[0].0 == ms[0].0 && r[0].1 == ms[0].1);
        assert(r.skip(1) =~= set_key(ms.skip(1), k, v));
        assert(lookup(set_key(ms, k, v), q) == (if q == k { Some(v) } else { lookup(ms, q) }));
    }
}

/// The shallow-merge contract: for an update without repeated keys, a key
/// the update carries ends up with the update's value, and every other key
/// keeps the base document's value.
pub proof fn lemma_shallow_merge(
    base: Seq<(Seq<u8>, Seq<u8>)>,
    upd: Seq<(Seq<u8>, Seq<u8>)>,
    q: Seq<u8>,
)
    requires
        unique_keys(upd),
    ensures
        lookup(merge_entries(base, upd), q) == match lookup(upd, q) {
            Some(v) => Some(v),
            None => lookup(base, q),
        },
    decreases upd.len(),
{
    if upd.len() == 0 {
    } else {
        let base1 = set_key(base, upd[0].0, upd[0].1);
        assert(unique_keys(upd.skip(1))) by {
            assert(forall|i: int|
                0 <= i < upd.skip(1).len() ==> #[trigger] upd.skip(1)[i] == upd[i + 1]);
        }
        lemma_shallow_merge(base1, upd.skip(1), q);
        lemma_set_key_lookup(base, upd[0].0, upd[0].1, q);
        if q == upd[0].0 {
            assert(lookup(upd.skip(1), q) is None) by {
                lemma_lookup_absent(upd.skip(1), q);
            }
        }
    }
}

/// A key that differs from every key in `ms` looks up to nothing.
proof fn lemma_lookup_absent(ms: Seq<(Seq<u8>, Seq<u8>)>, q: Seq<u8>)
    requires
        forall|i: int| 0 <= i < ms.len() ==> (#[trigger] ms[i].0) != q,
    ensures
        lookup(ms, q) is None,
    decreases ms.len(),
{
    if ms.len() == 0 {
    } else {
        assert(forall|i: int| 0 <= i < ms.skip(1).len() ==> #[trigger] ms.skip(1)[i] == ms[i + 1]);
        lemma_lookup_absent(ms.skip(1), q);
    }
}

/// Whether two byte vectors hold the same bytes.
pub fn bytes_eq(a: &Vec<u8>, b: &Vec<u8>) -> (r: bool)
    ensures
        r == (a@ == b@),
{
    if a.len() != b.len() {
        return false;
    }
    let mut i: usize = 0;
    while i < a.len()
        invariant
            i <= a@.len(),
            a@.len() == b@.len(),
            forall|j: int| 0 <= j < i ==> a@[j] == b@[j],
        decreases a@.len() - i,
    {
        if a[i] != b[i] {
            return false;
        }
        i = i + 1;
    }
    proof {
        assert(a@ =~= b@);
    }
    true
}

impl JsonDoc {
    /// The value bytes of the first member with the given key, if any.
    pub fn get<'a>(&'a self, k: &Vec<u8>) -> (r: Option<&'a Vec<u8>>)
        ensures
            match lookup(self.entries(), k@) {
                Some(v) => r matches Some(rv) && rv@ == v,
                None => r is None,
            },
    {
        let mut i: usize = 0;
        proof {
            assert(self.entries().skip(0) =~= self.entries());
        }
        while i < self.members.len()
            invariant
                i <= self.members@.len(),
                lookup(self.entries(), k@) == lookup(self.entries().skip(i as int), k@),
            decreases self.members@.len() - i,
        {
            proof {
                assert(self.entries().skip(i as int)[0] == self.entries()[i as int]);
                assert(self.entries().skip(i as int).skip(1) =~= self.entries().skip(i as int + 1));
            }
            if bytes_eq(&self.members[i].0, k) {
                return Some(&self.members[i].1);
            }
            i = i + 1;
        }
        proof {
            assert(self.entries().skip(self.members@.len() as int) =~= Seq::<
                (Seq<u8>, Seq<u8>),
            >::empty());
        }
        None
    }

    /// Binds `k` to `v`: overwrites the first member with that key, or
    /// appends the pair if the key is new.
    pub fn set(&mut self, k: Vec<u8>, v: Vec<u8>)
        ensures
            final(self).entries() == set_key(old(self).entries(), k@, v@),
    {
        let mut i: usize = 0;
        while i < self.members.len()
            invariant
                i <= self.members@.len(),
                self == old(self),
                forall|j: int| 0 <= j < i ==> (#[trigger] self.entries()[j]).0 != k@,
            decreases self.members@.len() - i,
        {
            if bytes_eq(&self.members[i].0, &k) {
                self.members[i] = (k, v);
                proof {
                    lemma_set_key_prefix(old(self).entries(), k@, v@, i as int);
                    assert(self.entries() =~= old(self).entries().update(i as int, (k@, v@)));
                }
                return ;
            }
            i = i + 1;
        }
        self.members.push((k, v));
        proof {
            lemma_set_key_absent(old(self).entries(), k@, v@);
            assert(self.entries() =~= old(self).entries().push((k@, v@)));
        }
    }
}

/// When the first `i` keys differ from `k` and member `i` has key `k`,
/// binding `k` updates member `i` in place.
proof fn lemma_set_key_prefix(ms: Seq<(Seq<u8>, Seq<u8>)>, k: Seq<u8>, v: Seq<u8>, i: int)
    requires
        0 <= i < ms.len(),
        forall|j: int| 0 <= j < i ==> (#[trigger] ms[j]).0 != k,
        ms[i].0 == k,
    ensures
        set_key(ms, k, v) == ms.update(i, (k, v)),
    decreases ms.len(),
{
    if i == 0 {
        assert(set_key(ms, k, v) == seq![(k, v)] + ms.skip(1));
        assert(seq![(k, v)] + ms.skip(1) =~= ms.update(0, (k, v)));
    } else {
        assert(forall|j: int| 0 <= j < ms.skip(1).len() ==> #[trigger] ms.skip(1)[j] == ms[j + 1]);
        lemma_set_key_prefix(ms.skip(1), k, v, i - 1);
        assert(seq![ms[0]] + ms.skip(1).update(i - 1, (k, v)) =~= ms.update(i, (k, v)));
    }
}

/// Binding a key no member has appends the pair.
proof fn lemma_set_key_absent(ms: Seq<(Seq<u8>, Seq<u8>)>, k: Seq<u8>, v: Seq<u8>)
    requires
        forall|j: int| 0 <= j < ms.len() ==> (#[trigger] ms[j]).0 != k,
    ensures
        set_key(ms, k, v) == ms.push((k, v)),
    decreases ms.len(),
{
    if ms.len() == 0 {
        assert(set_key(ms, k, v) =~= ms.push((k, v)));
    } else {
        assert(forall|j: int| 0 <= j < ms.skip(1).len() ==> #[trigger] ms.skip(1)[j] == ms[j + 1]);
        lemma_set_key_absent(ms.skip(1), k, v);
        assert(seq![ms[0]] + ms.skip(1).push((k, v)) =~= ms.push((k, v)));
    }
}

/// Copies a byte vector.
pub fn copy_bytes(v: &Vec<u8>) -> (r: Vec<u8>)
    ensures
        r@ == v@,
{
    let mut r: Vec<u8> = Vec::new();
    push_all(&mut r, v);
    proof {
        assert(Seq::<u8>::empty() + v@ =~= v@);
    }
    r
}

/// Merging one more member folds one `set_key` onto the merge so far.
proof fn lemma_merge_entries_snoc(
    base: Seq<(Seq<u8>, Seq<u8>)>,
    upd: Seq<(Seq<u8>, Seq<u8>)>,
    m: (Seq<u8>, Seq<u8>),
)
    ensures
        merge_entries(base, upd.push(m)) == set_key(merge_entries(base, upd), m.0, m.1),
    decreases upd.len(),
{
    if upd.len() == 0 {
        assert(upd.push(m)[0] == m);
        assert(upd.push(m)[0].0 == m.0 && upd.push(m)[0].1 == m.1);
        assert(upd.push(m).skip(1) =~= Seq::<(Seq<u8>, Seq<u8>)>::empty());
        assert(merge_entries(set_key(base, m.0, m.1), Seq::<(Seq<u8>, Seq<u8>)>::empty())
            == set_key(base, m.0, m.1));
    } else {
        assert(upd.push(m)[0] == upd[0]);
        assert(upd.push(m)[0].0 == upd[0].0 && upd.push(m)[0].1 == upd[0].1);
        assert(upd.push(m).skip(1) =~= upd.skip(1).push(m));
        lemma_merge_entries_snoc(set_key(base, upd[0].0, upd[0].1), upd.skip(1), m);
    }
}

/// The shallow merge of two documents: every member of `upd` overwrites or
/// inserts its key in `base`, in order.
pub fn merge_docs(base: &JsonDoc, upd: &JsonDoc) -> (r: JsonDoc)
    ensures
        r.entries() == merge_entries(base.entries(), upd.entries()),
{
    let mut out: Vec<(Vec<u8>, Vec<u8>)> = Vec::new();
    let mut i: usize = 0;
    while i < base.members.len()
        invariant
            i <= base.members@.len(),
            entries_of(out@) == base.entries().take(i as int),
        decreases base.members@.len() - i,
    {
        let ghost out_pre = out@;
        let ck = copy_bytes(&base.members[i].0);
        let cv = copy_bytes(&base.members[i].1);
        out.push((ck, cv));
        i = i + 1;
        proof {
            assert(entries_of(out_pre).len() == out_pre.len());
            assert(entries_of(out_pre).len() == i - 1);
            assert(out@.len() == i);
            assert forall|j: int| 0 <= j < i implies #[trigger] entries_of(out@)[j]
                == base.entries()[j] by {
                if j < out_pre.len() {
                    assert(out@[j] == out_pre[j]);
                    assert(entries_of(out_pre)[j] == base.entries().take(i - 1)[j]);
                } else {
                    assert(out@[j] == (ck, cv));
                    assert((ck@, cv@) == base.entries()[i - 1]);
                }
            }
            assert(entries_of(out@) =~= base.entries().take(i as int));
        }
    }
    let mut r = JsonDoc { members: out };
    proof {
        assert(base.entries().take(base.members@.len() as int) =~= base.entries());
        assert(merge_entries(base.entries(), upd.entries().take(0)) == base.entries());
    }
    let mut j: usize = 0;
    while j < upd.members.len()
        invariant
            j <= upd.members@.len(),
            r.entries() == merge_entries(base.entries(), upd.entries().take(j as int)),
        decreases upd.members@.len() - j,
    {
        let k = copy_bytes(&upd.members[j].0);
        let v = copy_bytes(&upd.members[j].1);
        r.set(k, v);
        proof {
            let m = upd.entries()[j as int];
            assert(upd.entries().take(j + 1) =~= upd.entries().take(j as int).push(m));
            lemma_merge_entries_snoc(base.entries(), upd.entries().take(j as int), m);
        }
        j = j + 1;
    }
    proof {
        assert(upd.entries().take(upd.members@.len() as int) =~= upd.entries());
    }
    r
}

} // verus!

verus! {

/// A count shifted by the bytes already consumed, if the rest scanned.
pub open spec fn opt_add(o: Option<nat>, k: nat) -> Option<nat> {
    match o {
        Some(m) => Some((m + k) as nat),
        None => None,
    }
}

/// Scanning is depth-shift invariant: a scan that terminates from a base
/// state (a bare string, or a container about to close) continues, when
/// started `off` levels deeper, into the remaining input at depth `off`.
pub proof fn lemma_scan_rest_sim(
    s1: Seq<u8>,
    s2: Seq<u8>,
    d: nat,
    off: nat,
    in_str: bool,
    esc: bool,
    n: nat,
)
    requires
        scan_rest(s1, d, in_str, esc) == Some(n),
        in_str || d >= 1,
        off >= 1,
        s2.len() >= n,
        s2.take(n as int) == s1.take(n as int),
    ensures
        scan_rest(s2, (d + off) as nat, in_str, esc) == opt_add(
            scan_rest(s2.skip(n as int), off, false, false),
            n,
        ),
    decreases s1.len(),
{
    lemma_scan_rest_bounds(s1, d, in_str, esc);
    lemma_scan_rest_bounds(s1.skip(1), d, true, false);
    lemma_scan_rest_bounds(s1.skip(1), d, true, true);
    lemma_scan_rest_bounds(s1.skip(1), d, false, false);
    lemma_scan_rest_bounds(s1.skip(1), (d + 1) as nat, false, false);
    if d >= 1 {
        lemma_scan_rest_bounds(s1.skip(1), (d - 1) as nat, false, false);
    }
    assert(s1[0] == s1.take(n as int)[0]);
    assert(s2[0] == s2.take(n as int)[0]);
    let b = s1[0];
    if n == 1 {
        assert(s2.skip(1) =~= s2.skip(n as int));
        if in_str && !esc && b == QUOTE && d == 0 {
        } else {
            assert(!in_str && (b == RCURLY || b == RSQUARE) && d == 1);
        }
    } else {
        assert(s1.skip(1).take(n - 1) =~= s1.take(n as int).skip(1));
        assert(s2.skip(1).take(n - 1) =~= s2.take(n as int).skip(1));
        assert(s1.skip(1).take(n - 1) == s2.skip(1).take(n - 1));
        assert(s2.skip(1).skip(n - 1) =~= s2.skip(n as int));
        if in_str {
            if esc {
                lemma_scan_rest_sim(s1.skip(1), s2.skip(1), d, off, true, false, (n - 1) as nat);
            } else if b == BACKSLASH {
                lemma_scan_rest_sim(s1.skip(1), s2.skip(1), d, off, true, true, (n - 1) as nat);
            } else if b == QUOTE {
                lemma_scan_rest_sim(s1.skip(1), s2.skip(1), d, off, false, false, (n - 1) as nat);
            } else {
                lemma_scan_rest_sim(s1.skip(1), s2.skip(1), d, off, true, false, (n - 1) as nat);
            }
        } else {
            if b == QUOTE {
                lemma_scan_rest_sim(s1.skip(1), s2.skip(1), d, off, true, false, (n - 1) as nat);
            } else if b == LCURLY || b == LSQUARE {
                lemma_scan_rest_sim(
                    s1.skip(1),
                    s2.skip(1),
                    (d + 1) as nat,
                    off,
                    false,
                    false,
                    (n - 1) as nat,
                );
            } else if b == RCURLY || b == RSQUARE {
                lemma_scan_rest_sim(
                    s1.skip(1),
                    s2.skip(1),
                    (d - 1) as nat,
                    off,
                    false,
                    false,
                    (n - 1) as nat,
                );
            } else {
                lemma_scan_rest_sim(s1.skip(1), s2.skip(1), d, off, false, false, (n - 1) as nat);
            }
        }
    }
}

/// A byte a container scan consumes without changing its state.
pub open spec fn cont_plain(b: u8) -> bool {
    !is_value_delim(b) && b != QUOTE && b != LCURLY && b != LSQUARE
}

/// A run of state-neutral bytes is consumed transparently by a container
/// scan.
pub proof fn lemma_plain_cont(t: Seq<u8>, y: Seq<u8>, d: nat)
    requires
        d >= 1,
        forall|i: int| 0 <= i < t.len() ==> cont_plain(#[trigger] t[i]),
    ensures
        scan_rest(t + y, d, false, false) == opt_add(scan_rest(y, d, false, false), t.len()),
    decreases t.len(),
{
    if t.len() == 0 {
        assert(t + y =~= y);
        lemma_scan_rest_bounds(y, d, false, false);
    } else {
        assert((t + y)[0] == t[0]);
        assert((t + y).skip(1) =~= t.skip(1) + y);
        assert(forall|i: int| 0 <= i < t.skip(1).len() ==> #[trigger] t.skip(1)[i] == t[i + 1]);
        lemma_plain_cont(t.skip(1), y, d);
    }
}

/// Value bytes that can stand inside a larger document: well formed, and
/// if an unquoted token, made only of state-neutral bytes.
pub open spec fn wf_value_deep(v: Seq<u8>) -> bool {
    &&& wf_value_bytes(v)
    &&& (v.len() > 0 && v[0] != QUOTE && v[0] != LCURLY && v[0] != LSQUARE ==> forall|i: int|
        0 <= i < v.len() ==> cont_plain(#[trigger] v[i]))
}

/// A document all of whose keys are well formed and all of whose values
/// can stand inside a larger document.
pub open spec fn wf_doc_deep(ms: Seq<(Seq<u8>, Seq<u8>)>) -> bool {
    forall|i: int|
        0 <= i < ms.len() ==> wf_key_bytes(#[trigger] ms[i].0) && wf_value_deep(ms[i].1)
}

/// A container scan consumes a whole embeddable value and carries on in
/// the same state.
pub proof fn lemma_value_consume(v: Seq<u8>, y: Seq<u8>, d: nat)
    requires
        wf_value_deep(v),
        d >= 1,
    ensures
        scan_rest(v + y, d, false, false) == opt_add(scan_rest(y, d, false, false), v.len()),
{
    lemma_value_head(v);
    let probe = v.push(COMMA);
    assert(probe[0] == v[0]);
    assert(probe.skip(1) =~= v.skip(1).push(COMMA));
    assert((v + y)[0] == v[0]);
    assert((v + y).skip(1) =~= v.skip(1) + y);
    let n = (v.len() - 1) as nat;
    let b = v[0];
    if b == QUOTE {
        assert(scan_rest(v.skip(1).push(COMMA), 0, true, false) == Some(n));
        assert((v.skip(1) + y).take(n as int) =~= v.skip(1).push(COMMA).take(n as int));
        lemma_scan_rest_sim(v.skip(1).push(COMMA), v.skip(1) + y, 0, d, true, false, n);
        assert((v.skip(1) + y).skip(n as int) =~= y);
    } else if b == LCURLY || b == LSQUARE {
        assert(scan_rest(v.skip(1).push(COMMA), 1, false, false) == Some(n));
        assert((v.skip(1) + y).take(n as int) =~= v.skip(1).push(COMMA).take(n as int));
        lemma_scan_rest_sim(v.skip(1).push(COMMA), v.skip(1) + y, 1, (d - 1) as nat + 1, false, false, n);
        assert((v.skip(1) + y).skip(n as int) =~= y);
    } else {
        assert(!(is_value_delim(b) || b == COLON));
        assert(forall|i: int| 0 <= i < v.len() ==> cont_plain(#[trigger] v[i]));
        lemma_plain_cont(v, y, d);
    }
}

} // verus!

verus! {

/// Scanning an object body at depth `d` consumes every member and the
/// closing brace: at depth 1 the brace ends the scan; deeper, the scan
/// carries on one level up.
#[verifier::rlimit(100)]
pub proof fn lemma_members_consume(ms: Seq<(Seq<u8>, Seq<u8>)>, y: Seq<u8>, d: nat)
    requires
        wf_doc_deep(ms),
        d >= 1,
    ensures
        scan_rest(ser_members(ms) + seq![RCURLY] + y, d, false, false) == (if d == 1 {
            Some((ser_members(ms).len() + 1) as nat)
        } else {
            opt_add(scan_rest(y, (d - 1) as nat, false, false), (ser_members(ms).len() + 1) as nat)
        }),
    decreases ms.len(),
{
    let sm = ser_members(ms);
    let s = sm + seq![RCURLY] + y;
    if ms.len() == 0 {
        assert(s =~= seq![RCURLY] + y);
        assert(s[0] == RCURLY);
        assert(s.skip(1) =~= y);
        lemma_scan_rest_bounds(y, (d - 1) as nat, false, false);
    } else {
        let k = ms[0].0;
        let v = ms[0].1;
        assert(wf_key_bytes(k) && wf_value_deep(v));
        let mid: Seq<u8> = if ms.len() == 1 {
            seq![RCURLY] + y
        } else {
            seq![COMMA] + (ser_members(ms.skip(1)) + seq![RCURLY] + y)
        };
        assert(s =~= seq![QUOTE] + k + seq![QUOTE, COLON] + v + mid);
        assert(s[0] == QUOTE);
        assert(s.skip(1) =~= (k + seq![QUOTE]) + (seq![COLON] + v + mid));
        let n = (k.len() + 1) as nat;
        assert((k.push(QUOTE)).take(n as int) =~= k.push(QUOTE));
        assert(s.skip(1).take(n as int) =~= k.push(QUOTE));
        lemma_scan_rest_sim(k.push(QUOTE), s.skip(1), 0, d, true, false, n);
        assert(s.skip(1).skip(n as int) =~= seq![COLON] + v + mid);
        let s3 = seq![COLON] + v + mid;
        assert(s3[0] == COLON);
        assert(!is_value_delim(COLON) && COLON != QUOTE && COLON != LCURLY && COLON != LSQUARE
            && COLON != RCURLY && COLON != RSQUARE);
        assert(s3.skip(1) =~= v + mid);
        lemma_value_consume(v, mid, d);
        if ms.len() == 1 {
            assert(mid[0] == RCURLY);
            assert(mid.skip(1) =~= y);
            lemma_scan_rest_bounds(y, (d - 1) as nat, false, false);
            assert(sm.len() == 1 + k.len() + 2 + v.len());
        } else {
            assert(mid[0] == COMMA);
            assert(mid.skip(1) =~= ser_members(ms.skip(1)) + seq![RCURLY] + y);
            assert(wf_doc_deep(ms.skip(1))) by {
                assert(forall|i: int|
                    0 <= i < ms.skip(1).len() ==> #[trigger] ms.skip(1)[i] == ms[i + 1]);
            }
            lemma_members_consume(ms.skip(1), y, d);
            assert(sm =~= ser_member(ms[0]) + seq![COMMA] + ser_members(ms.skip(1)));
            assert(sm.len() == 1 + k.len() + 2 + v.len() + 1 + ser_members(ms.skip(1)).len());
        }
    }
}

/// A serialized document is one embeddable value: a scan consumes it
/// whole, and as a standalone value it spans exactly itself.
pub proof fn lemma_doc_value(ms: Seq<(Seq<u8>, Seq<u8>)>, rest: Seq<u8>)
    requires
        wf_doc_deep(ms),
    ensures
        value_len(ser_doc(ms) + rest) == Some(ser_doc(ms).len() as nat),
        wf_value_deep(ser_doc(ms)),
{
    let sd = ser_doc(ms);
    assert(sd[0] == LCURLY);
    assert((sd + rest)[0] == LCURLY);
    assert((sd + rest).skip(1) =~= ser_members(ms) + seq![RCURLY] + rest);
    lemma_members_consume(ms, rest, 1);
    assert(value_len(sd + rest) == Some(sd.len() as nat));
    assert((sd.push(COMMA)) =~= sd + seq![COMMA]);
    assert((sd + seq![COMMA]).skip(1) =~= ser_members(ms) + seq![RCURLY] + seq![COMMA]);
    lemma_members_consume(ms, seq![COMMA], 1);
    assert(value_len(sd.push(COMMA)) == Some(sd.len() as nat));
}

/// Well-formed key bytes also embed as a string value: the quoted form is
/// a well-formed embeddable value.
pub proof fn lemma_quoted_value(x: Seq<u8>)
    requires
        wf_key_bytes(x),
    ensures
        wf_value_deep(seq![QUOTE] + x + seq![QUOTE]),
{
    let q = seq![QUOTE] + x + seq![QUOTE];
    assert(q[0] == QUOTE);
    assert((q.push(COMMA)).skip(1) =~= x + seq![QUOTE] + seq![COMMA]);
    lemma_key_scan(x, seq![COMMA]);
    assert(value_len(q.push(COMMA)) == Some(q.len() as nat));
}

/// Bytes that may stand unescaped inside a string literal.
pub open spec fn str_plain(b: u8) -> bool {
    b >= 0x20 && b != QUOTE && b != BACKSLASH
}

/// A run of plain string bytes is a well-formed key.
pub proof fn lemma_plain_key(k: Seq<u8>)
    requires
        forall|i: int| 0 <= i < k.len() ==> str_plain(#[trigger] k[i]),
    ensures
        wf_key_bytes(k),
    decreases k.len(),
{
    if k.len() == 0 {
        assert(k.push(QUOTE) =~= seq![QUOTE]);
    } else {
        assert(forall|i: int| 0 <= i < k.skip(1).len() ==> #[trigger] k.skip(1)[i] == k[i + 1]);
        lemma_plain_key(k.skip(1));
        assert((k.push(QUOTE))[0] == k[0]);
        assert((k.push(QUOTE)).skip(1) =~= k.skip(1).push(QUOTE));
    }
}

/// Looking a key up in joined documents finds the first document that
/// binds it.
pub proof fn lemma_lookup_concat(a: Seq<(Seq<u8>, Seq<u8>)>, b: Seq<(Seq<u8>, Seq<u8>)>, k: Seq<u8>)
    ensures
        lookup(a + b, k) == (match lookup(a, k) {
            Some(v) => Some(v),
            None => lookup(b, k),
        }),
    decreases a.len(),
{
    if a.len() == 0 {
        assert(a + b =~= b);
    } else {
        assert((a + b)[0] == a[0]);
        assert((a + b).skip(1) =~= a.skip(1) + b);
        lemma_lookup_concat(a.skip(1), b, k);
    }
}

} // verus!

verus! {

/// Nothing is found in an empty document.
pub proof fn lemma_lookup_empty(q: Seq<u8>)
    ensures
        lookup(Seq::<(Seq<u8>, Seq<u8>)>::empty(), q) is None,
{
}

/// A one-member document binds exactly its key.
pub proof fn lemma_lookup_singleton(k: Seq<u8>, v: Seq<u8>, q: Seq<u8>)
    ensures
        lookup(seq![(k, v)], q) == (if q == k {
            Some(v)
        } else {
            None::<Seq<u8>>
        }),
{
    let s = seq![(k, v)];
    assert(s[0] == (k, v));
    assert(s[0].0 == k && s[0].1 == v);
    assert(s.skip(1) =~= Seq::<(Seq<u8>, Seq<u8>)>::empty());
    assert(lookup(s.skip(1), q) is None);
}

} // verus!
