use vstd::prelude::*;

use crate::crypto::TimeLockedMessage;
use crate::timestamp::{ts_parse_spec, Timestamp};
use crate::TimeLockError;
use vstd::utf8::{decode_utf8, encode_scalar, encode_utf8, valid_utf8};

verus! {

// ---------------------------------------------------------------------------
// The record format: one JSON document per envelope, with the seven fields
// in a fixed order, two-space indentation, string values escaped as JSON
// prescribes, and the label either a string or `null`.
// ---------------------------------------------------------------------------

/// The lower-case hex digit for a value below 16.
pub open spec fn hex_digit(n: u8) -> u8 {
    if n < 10 {
        (0x30 + n) as u8
    } else {
        (0x57 + n) as u8
    }
}

/// The JSON escape of one byte of string content: quote and backslash get a
/// backslash form, the named control characters their short forms, other
/// control bytes a `\u00XX` form, and everything else stands as itself.
pub open spec fn esc_byte(b: u8) -> Seq<u8> {
    if b == 0x22 {
        seq![0x5Cu8, 0x22u8]
    } else if b == 0x5C {
        seq![0x5Cu8, 0x5Cu8]
    } else if b == 0x08 {
        seq![0x5Cu8, 0x62u8]
    } else if b == 0x09 {
        seq![0x5Cu8, 0x74u8]
    } else if b == 0x0A {
        seq![0x5Cu8, 0x6Eu8]
    } else if b == 0x0C {
        seq![0x5Cu8, 0x66u8]
    } else if b == 0x0D {
        seq![0x5Cu8, 0x72u8]
    } else if b < 0x20 {
        seq![0x5Cu8, 0x75u8, 0x30u8, 0x30u8, hex_digit(b / 16), hex_digit(b % 16)]
    } else {
        seq![b]
    }
}

/// The JSON escape of a byte sequence.
pub open spec fn esc_bytes(s: Seq<u8>) -> Seq<u8>
    decreases s.len(),
{
    if s.len() == 0 {
        seq![]
    } else {
        esc_byte(s[0]) + esc_bytes(s.drop_first())
    }
}

proof fn lemma_esc_bytes_snoc(s: Seq<u8>, b: u8)
    ensures
        esc_bytes(s.push(b)) == esc_bytes(s) + esc_byte(b),
    decreases s.len(),
{
    if s.len() == 0 {
        assert(s.push(b)[0] == b);
        assert(s.push(b).drop_first() =~= Seq::<u8>::empty());
        assert(esc_bytes(s.push(b)) == esc_byte(b) + esc_bytes(Seq::<u8>::empty()));
        assert(esc_byte(b) + esc_bytes(Seq::<u8>::empty()) =~= esc_byte(b));
        assert(esc_bytes(s) + esc_byte(b) =~= esc_byte(b));
    } else {
        lemma_esc_bytes_snoc(s.drop_first(), b);
        assert(s.push(b).drop_first() =~= s.drop_first().push(b));
        assert(esc_bytes(s.push(b)) =~= esc_byte(s[0]) + (esc_bytes(s.drop_first()) + esc_byte(b)));
        assert(esc_byte(s[0]) + (esc_bytes(s.drop_first()) + esc_byte(b)) =~= (esc_byte(s[0])
            + esc_bytes(s.drop_first())) + esc_byte(b));
    }
}

// ---- fixed pieces of the document ----

pub open spec fn lit_ec() -> Seq<u8> {
    encode_utf8("{\n  \"encrypted_content\": \""@)
}

pub open spec fn lit_nonce() -> Seq<u8> {
    encode_utf8("\",\n  \"nonce\": \""@)
}

pub open spec fn lit_salt() -> Seq<u8> {
    encode_utf8("\",\n  \"salt\": \""@)
}

pub open spec fn lit_ph() -> Seq<u8> {
    encode_utf8("\",\n  \"password_hash\": \""@)
}

pub open spec fn lit_ud() -> Seq<u8> {
    encode_utf8("\",\n  \"unlock_date\": \""@)
}

pub open spec fn lit_label() -> Seq<u8> {
    encode_utf8("\",\n  \"label\": "@)
}

pub open spec fn lit_created() -> Seq<u8> {
    encode_utf8(",\n  \"created_at\": \""@)
}

pub open spec fn lit_end() -> Seq<u8> {
    encode_utf8("\"\n}"@)
}

pub open spec fn lit_null() -> Seq<u8> {
    encode_utf8("null"@)
}

pub open spec fn lit_quote() -> Seq<u8> {
    encode_utf8("\""@)
}

/// How the optional label stands in the document: `null`, or a quoted,
/// escaped string.
pub open spec fn label_repr(l: Option<Seq<char>>) -> Seq<u8> {
    match l {
        None => lit_null(),
        Some(s) => lit_quote() + esc_bytes(encode_utf8(s)) + lit_quote(),
    }
}

/// The full record text of an envelope, as bytes.
pub open spec fn record_repr(m: TimeLockedMessage) -> Seq<u8> {
    lit_ec() + esc_bytes(encode_utf8(m.encrypted_content@)) + lit_nonce() + esc_bytes(
        encode_utf8(m.nonce@),
    ) + lit_salt() + esc_bytes(encode_utf8(m.salt@)) + lit_ph() + esc_bytes(
        encode_utf8(m.password_hash@),
    ) + lit_ud() + esc_bytes(encode_utf8(crate::timestamp::rfc3339_of(m.unlock_date.secs)))
        + lit_label() + label_repr(m.label.deep_view()) + lit_created() + esc_bytes(
        encode_utf8(crate::timestamp::rfc3339_of(m.created_at.secs)),
    ) + lit_end()
}

// ---- building the document ----

fn push_bytes(out: &mut Vec<u8>, s: &[u8])
    ensures
        final(out)@ == old(out)@ + s@,
{
    let mut k: usize = 0;
    while k < s.len()
        invariant
            0 <= k <= s@.len(),
            out@ == old(out)@ + s@.take(k as int),
        decreases s@.len() - k,
    {
        out.push(s[k]);
        proof {
            assert(s@.take(k + 1 as int) =~= s@.take(k as int).push(s@[k as int]));
            assert(old(out)@ + s@.take(k + 1 as int) =~= (old(out)@ + s@.take(k as int)).push(
                s@[k as int],
            ));
        }
        k += 1;
    }
    proof {
        assert(s@.take(s@.len() as int) =~= s@);
    }
}

fn push_escaped(out: &mut Vec<u8>, s: &str)
    ensures
        final(out)@ == old(out)@ + esc_bytes(encode_utf8(s@)),
{
    let bytes = s.as_bytes();
    let mut k: usize = 0;
    while k < bytes.len()
        invariant
            0 <= k <= bytes@.len(),
            bytes@ == encode_utf8(s@),
            out@ == old(out)@ + esc_bytes(bytes@.take(k as int)),
        decreases bytes@.len() - k,
    {
        let b = bytes[k];
        if b == 0x22 {
            out.push(0x5C);
            out.push(0x22);
        } else if b == 0x5C {
            out.push(0x5C);
            out.push(0x5C);
        } else if b == 0x08 {
            out.push(0x5C);
            out.push(0x62);
        } else if b == 0x09 {
            out.push(0x5C);
            out.push(0x74);
        } else if b == 0x0A {
            out.push(0x5C);
            out.push(0x6E);
        } else if b == 0x0C {
            out.push(0x5C);
            out.push(0x66);
        } else if b == 0x0D {
            out.push(0x5C);
            out.push(0x72);
        } else if b < 0x20 {
            out.push(0x5C);
            out.push(0x75);
            out.push(0x30);
            out.push(0x30);
            let hi = b / 16;
            let lo = b % 16;
            out.push(if hi < 10 { 0x30 + hi } else { 0x57 + hi });
            out.push(if lo < 10 { 0x30 + lo } else { 0x57 + lo });
        } else {
            out.push(b);
        }
        proof {
            lemma_esc_bytes_snoc(bytes@.take(k as int), b);
            assert(bytes@.take(k + 1 as int) =~= bytes@.take(k as int).push(b));
            assert(out@ =~= old(out)@ + esc_bytes(bytes@.take(k + 1 as int)));
        }
        k += 1;
    }
    proof {
        assert(bytes@.take(bytes@.len() as int) =~= bytes@);
    }
}

/// Serialize an envelope into its record text.
///
/// The second `ensures` clause is the storage round trip: the written text
/// parses back into exactly this envelope's model, so a stored record is
/// never lost to its own serialization.
pub fn record_to_bytes(m: &TimeLockedMessage) -> (r: Vec<u8>)
    requires
        m.wf(),
    ensures
        r@ == record_repr(*m),
        sp_record(r@) == Some(model_of(*m)),
{
    let mut out: Vec<u8> = Vec::new();
    push_bytes(&mut out, "{\n  \"encrypted_content\": \"".as_bytes());
    push_escaped(&mut out, self_str(&m.encrypted_content));
    push_bytes(&mut out, "\",\n  \"nonce\": \"".as_bytes());
    push_escaped(&mut out, self_str(&m.nonce));
    push_bytes(&mut out, "\",\n  \"salt\": \"".as_bytes());
    push_escaped(&mut out, self_str(&m.salt));
    push_bytes(&mut out, "\",\n  \"password_hash\": \"".as_bytes());
    push_escaped(&mut out, self_str(&m.password_hash));
    push_bytes(&mut out, "\",\n  \"unlock_date\": \"".as_bytes());
    let ud = m.unlock_date.to_rfc3339();
    push_escaped(&mut out, self_str(&ud));
    push_bytes(&mut out, "\",\n  \"label\": ".as_bytes());
    match &m.label {
        Some(lb) => {
            push_bytes(&mut out, "\"".as_bytes());
            push_escaped(&mut out, self_str(lb));
            push_bytes(&mut out, "\"".as_bytes());
        },
        None => {
            push_bytes(&mut out, "null".as_bytes());
        },
    }
    push_bytes(&mut out, ",\n  \"created_at\": \"".as_bytes());
    let ca = m.created_at.to_rfc3339();
    push_escaped(&mut out, self_str(&ca));
    push_bytes(&mut out, "\"\n}".as_bytes());
    // Read the written instants back: what was formatted must parse again
    // for the record to be loadable.
    let _ud_again = crate::timestamp::ts_from_rfc3339(ud.as_str());
    let _ca_again = crate::timestamp::ts_from_rfc3339(ca.as_str());
    proof {
        broadcast use vstd::utf8::encode_utf8_valid_utf8, vstd::utf8::encode_utf8_decode_utf8;

        assert(out@ =~= record_repr(*m));
        lemma_record_parses(*m);
        assert(_ud_again == Some(m.unlock_date));
        assert(_ca_again == Some(m.created_at));
        assert(sp_record(out@) == Some(model_of(*m)));
    }
    out
}

fn self_str(s: &String) -> (r: &str)
    ensures
        r@ == s@,
{
    s.as_str()
}

// ---------------------------------------------------------------------------
// Reading a record back.
// ---------------------------------------------------------------------------

/// The parsed content of a record: the field views of an envelope.
pub ghost struct RecordModel {
    pub encrypted_content: Seq<char>,
    pub nonce: Seq<char>,
    pub salt: Seq<char>,
    pub password_hash: Seq<char>,
    pub unlock_date: Timestamp,
    pub label: Option<Seq<char>>,
    pub created_at: Timestamp,
}

/// The model an envelope value presents.
pub open spec fn model_of(m: TimeLockedMessage) -> RecordModel {
    RecordModel {
        encrypted_content: m.encrypted_content@,
        nonce: m.nonce@,
        salt: m.salt@,
        password_hash: m.password_hash@,
        unlock_date: m.unlock_date,
        label: m.label.deep_view(),
        created_at: m.created_at,
    }
}

/// Consume an exact literal at position `i`, yielding the position after it.
pub open spec fn sp_lit(s: Seq<u8>, i: int, lit: Seq<u8>) -> Option<int> {
    if 0 <= i && i + lit.len() <= s.len() && s.subrange(i, i + lit.len()) == lit {
        Some(i + lit.len())
    } else {
        None
    }
}

/// The numeric value of a hex-digit byte.
pub open spec fn hex_val(b: u8) -> Option<u8> {
    if 0x30 <= b <= 0x39 {
        Some((b - 0x30) as u8)
    } else if 0x61 <= b <= 0x66 {
        Some((b - 0x57) as u8)
    } else if 0x41 <= b <= 0x46 {
        Some((b - 0x37) as u8)
    } else {
        None
    }
}

/// The byte a one-letter escape stands for.
pub open spec fn esc_code(e: u8) -> Option<u8> {
    if e == 0x22 {
        Some(0x22u8)
    } else if e == 0x5C {
        Some(0x5Cu8)
    } else if e == 0x2F {
        Some(0x2Fu8)
    } else if e == 0x62 {
        Some(0x08u8)
    } else if e == 0x66 {
        Some(0x0Cu8)
    } else if e == 0x6E {
        Some(0x0Au8)
    } else if e == 0x72 {
        Some(0x0Du8)
    } else if e == 0x74 {
        Some(0x09u8)
    } else {
        None
    }
}

/// Consume a JSON string body from position `i` (just after the opening
/// quote) up to its closing quote, yielding the unescaped bytes and the
/// position of that quote. Escapes in `\uXXXX` form are accepted for
/// ASCII code points only; raw control bytes are refused.
pub open spec fn sp_jstr(s: Seq<u8>, i: int) -> Option<(Seq<u8>, int)>
    decreases s.len() - i,
{
    if i < 0 || i >= s.len() {
        None
    } else {
        let b = s[i];
        if b == 0x22 {
            Some((seq![], i))
        } else if b == 0x5C {
            if i + 1 >= s.len() {
                None
            } else {
                let e = s[i + 1];
                if e == 0x75 {
                    if i + 6 > s.len() {
                        None
                    } else if s[i + 2] != 0x30 || s[i + 3] != 0x30 {
                        None
                    } else {
                        match (hex_val(s[i + 4]), hex_val(s[i + 5])) {
                            (Some(hi), Some(lo)) => if hi < 8 {
                                match sp_jstr(s, i + 6) {
                                    Some(r) => Some((seq![(16 * hi + lo) as u8] + r.0, r.1)),
                                    None => None,
                                }
                            } else {
                                None
                            },
                            _ => None,
                        }
                    }
                } else {
                    match esc_code(e) {
                        Some(x) => match sp_jstr(s, i + 2) {
                            Some(r) => Some((seq![x] + r.0, r.1)),
                            None => None,
                        },
                        None => None,
                    }
                }
            }
        } else if b < 0x20 {
            None
        } else {
            match sp_jstr(s, i + 1) {
                Some(r) => Some((seq![b] + r.0, r.1)),
                None => None,
            }
        }
    }
}

/// Turn the raw field bytes of a structurally well-formed record into its
/// model: every field must be valid UTF-8 and both instants must be
/// in-range RFC 3339 strings.
pub open spec fn sp_build(
    ec: Seq<u8>,
    nn: Seq<u8>,
    sa: Seq<u8>,
    ph: Seq<u8>,
    ud: Seq<u8>,
    label: Option<Seq<u8>>,
    ca: Seq<u8>,
) -> Option<RecordModel> {
    if !valid_utf8(ec) || !valid_utf8(nn) || !valid_utf8(sa) || !valid_utf8(ph) || !valid_utf8(ud)
        || !valid_utf8(ca) {
        None
    } else if label matches Some(lb) && !valid_utf8(lb) {
        None
    } else {
        match (ts_parse_spec(decode_utf8(ud)), ts_parse_spec(decode_utf8(ca))) {
            (Some(tu), Some(tc)) => Some(
                RecordModel {
                    encrypted_content: decode_utf8(ec),
                    nonce: decode_utf8(nn),
                    salt: decode_utf8(sa),
                    password_hash: decode_utf8(ph),
                    unlock_date: tu,
                    label: match label {
                        Some(lb) => Some(decode_utf8(lb)),
                        None => None,
                    },
                    created_at: tc,
                },
            ),
            _ => None,
        }
    }
}

/// The tail of a record after the label: the created_at field and the
/// closing brace, with nothing after it.
pub open spec fn sp_record_tail(
    s: Seq<u8>,
    ec: Seq<u8>,
    nn: Seq<u8>,
    sa: Seq<u8>,
    ph: Seq<u8>,
    ud: Seq<u8>,
    label: Option<Seq<u8>>,
    j: int,
) -> Option<RecordModel> {
    match sp_lit(s, j, lit_created()) {
        None => None,
        Some(j6) => match sp_jstr(s, j6) {
            None => None,
            Some(rc) => match sp_lit(s, rc.1, lit_end()) {
                None => None,
                Some(j8) => if j8 != s.len() {
                    None
                } else {
                    sp_build(ec, nn, sa, ph, ud, label, rc.0)
                },
            },
        },
    }
}

/// What a candidate record text parses to, or `None` where it is not a
/// well-formed record.
pub open spec fn sp_record(s: Seq<u8>) -> Option<RecordModel> {
    match sp_lit(s, 0, lit_ec()) {
        None => None,
        Some(i1) => match sp_jstr(s, i1) {
            None => None,
            Some(rec) => match sp_lit(s, rec.1, lit_nonce()) {
                None => None,
                Some(i2) => match sp_jstr(s, i2) {
                    None => None,
                    Some(rnn) => match sp_lit(s, rnn.1, lit_salt()) {
                        None => None,
                        Some(i3) => match sp_jstr(s, i3) {
                            None => None,
                            Some(rsa) => match sp_lit(s, rsa.1, lit_ph()) {
                                None => None,
                                Some(i4) => match sp_jstr(s, i4) {
                                    None => None,
                                    Some(rph) => match sp_lit(s, rph.1, lit_ud()) {
                                        None => None,
                                        Some(i5) => match sp_jstr(s, i5) {
                                            None => None,
                                            Some(rud) => match sp_lit(s, rud.1, lit_label()) {
                                                None => None,
                                                Some(i6) => match sp_lit(s, i6, lit_null()) {
                                                    Some(j) => sp_record_tail(
                                                        s,
                                                        rec.0,
                                                        rnn.0,
                                                        rsa.0,
                                                        rph.0,
                                                        rud.0,
                                                        None,
                                                        j,
                                                    ),
                                                    None => match sp_lit(s, i6, lit_quote()) {
                                                        None => None,
                                                        Some(jq) => match sp_jstr(s, jq) {
                                                            None => None,
                                                            Some(rlb) => match sp_lit(
                                                                s,
                                                                rlb.1,
                                                                lit_quote(),
                                                            ) {
                                                                None => None,
                                                                Some(jq2) => sp_record_tail(
                                                                    s,
                                                                    rec.0,
                                                                    rnn.0,
                                                                    rsa.0,
                                                                    rph.0,
                                                                    rud.0,
                                                                    Some(rlb.0),
                                                                    jq2,
                                                                ),
                                                            },
                                                        },
                                                    },
                                                },
                                            },
                                        },
                                    },
                                },
                            },
                        },
                    },
                },
            },
        },
    }
}



// ---------------------------------------------------------------------------
// The record text parses back into the envelope it was written from.
// ---------------------------------------------------------------------------

/// Parsing a string body reads escaped content back: wherever the escape
/// of `x` stands, followed by a closing quote, the parser yields exactly
/// `x` and stops at that quote.
proof fn lemma_sp_jstr_escaped(s: Seq<u8>, i: int, x: Seq<u8>)
    requires
        0 <= i,
        i + esc_bytes(x).len() < s.len(),
        s.subrange(i, i + esc_bytes(x).len()) == esc_bytes(x),
        s[i + esc_bytes(x).len()] == 0x22,
    ensures
        sp_jstr(s, i) == Some((x, i + esc_bytes(x).len())),
    decreases x.len(),
{
    if x.len() == 0 {
        assert(s[i] == 0x22);
        assert(x =~= Seq::<u8>::empty());
    } else {
        let b = x[0];
        let e = esc_byte(b);
        let rest = x.drop_first();
        assert(esc_bytes(x) == e + esc_bytes(rest));
        let elen = e.len() as int;
        assert forall|t: int| 0 <= t < esc_bytes(x).len() implies s[i + t] == esc_bytes(x)[t] by {
            assert(s.subrange(i, i + esc_bytes(x).len())[t] == s[i + t]);
        }
        assert forall|t: int| 0 <= t < elen implies s[i + t] == e[t] by {
            assert(esc_bytes(x)[t] == (e + esc_bytes(rest))[t]);
        }
        assert(s.subrange(i + elen, i + elen + esc_bytes(rest).len()) =~= esc_bytes(rest)) by {
            assert forall|t: int| 0 <= t < esc_bytes(rest).len() implies s.subrange(
                i + elen,
                i + elen + esc_bytes(rest).len(),
            )[t] == esc_bytes(rest)[t] by {
                assert(s[i + (elen + t)] == esc_bytes(x)[elen + t]);
                assert(esc_bytes(x)[elen + t] == (e + esc_bytes(rest))[elen + t]);
            }
        }
        lemma_sp_jstr_escaped(s, i + elen, rest);
        assert(seq![b] + rest =~= x);
        if b == 0x22 || b == 0x5C || b == 0x08 || b == 0x09 || b == 0x0A || b == 0x0C || b
            == 0x0D {
            assert(s[i] == 0x5C);
            assert(esc_code(s[i + 1]) == Some(b));
            assert(sp_jstr(s, i) == Some((x, i + esc_bytes(x).len())));
        } else if b < 0x20 {
            assert(s[i] == 0x5C && s[i + 1] == 0x75 && s[i + 2] == 0x30 && s[i + 3] == 0x30);
            assert(e[4] == hex_digit(b / 16) && e[5] == hex_digit(b % 16));
            assert(b / 16 < 2) by {
                assert(b < 0x20);
            }
            assert(hex_val(hex_digit(b / 16)) == Some(b / 16));
            assert(hex_val(hex_digit(b % 16)) == Some(b % 16));
            assert(16 * (b / 16) + (b % 16) == b);
            assert(sp_jstr(s, i) == Some((x, i + esc_bytes(x).len())));
        } else {
            assert(s[i] == b);
            assert(sp_jstr(s, i) == Some((x, i + esc_bytes(x).len())));
        }
    }
}

/// Splitting a known concatenation: where `a + b` stands in `s`, `a` and
/// `b` stand in their halves.
proof fn lemma_peel(s: Seq<u8>, a: Seq<u8>, b: Seq<u8>, hi: int)
    requires
        0 <= hi - (a + b).len(),
        hi <= s.len(),
        s.subrange(hi - (a + b).len(), hi) == a + b,
    ensures
        s.subrange(hi - (a + b).len(), hi - b.len()) == a,
        s.subrange(hi - b.len(), hi) == b,
{
    let lo = hi - (a + b).len();
    assert(s.subrange(lo, hi - b.len()) =~= a) by {
        assert forall|t: int| 0 <= t < a.len() implies s.subrange(lo, hi - b.len())[t] == a[t] by {
            assert(s.subrange(lo, hi)[t] == (a + b)[t]);
        }
    }
    assert(s.subrange(hi - b.len(), hi) =~= b) by {
        assert forall|t: int| 0 <= t < b.len() implies s.subrange(hi - b.len(), hi)[t] == b[t] by {
            assert(s.subrange(lo, hi)[a.len() + t] == (a + b)[a.len() + t]);
        }
    }
}

/// The first byte of the UTF-8 text of an ASCII-headed character sequence
/// is that character.
proof fn lemma_encode_utf8_head_ascii(cs: Seq<char>)
    requires
        cs.len() > 0,
        (cs[0] as u32) < 0x80,
    ensures
        encode_utf8(cs).len() >= 1,
        encode_utf8(cs)[0] == (cs[0] as u32) as u8,
{
    let v = cs[0] as u32;
    assert(v < 0x80 ==> (v & 0x7F) == v) by (bit_vector);
    assert(encode_scalar(v) == seq![vstd::utf8::leading_byte_width_1(v)]);
    assert(encode_utf8(cs) == encode_scalar(v) + encode_utf8(cs.drop_first()));
}

/// A UTF-8 text has at least one byte per character.
proof fn lemma_encode_utf8_min_len(cs: Seq<char>)
    ensures
        encode_utf8(cs).len() >= cs.len(),
    decreases cs.len(),
{
    if cs.len() > 0 {
        lemma_encode_utf8_min_len(cs.drop_first());
        assert(encode_scalar(cs[0] as u32).len() >= 1);
    }
}

// The byte sequences of the seven string fields of a record.
spec fn rx1(m: TimeLockedMessage) -> Seq<u8> {
    encode_utf8(m.encrypted_content@)
}

spec fn rx2(m: TimeLockedMessage) -> Seq<u8> {
    encode_utf8(m.nonce@)
}

spec fn rx3(m: TimeLockedMessage) -> Seq<u8> {
    encode_utf8(m.salt@)
}

spec fn rx4(m: TimeLockedMessage) -> Seq<u8> {
    encode_utf8(m.password_hash@)
}

spec fn rx5(m: TimeLockedMessage) -> Seq<u8> {
    encode_utf8(crate::timestamp::rfc3339_of(m.unlock_date.secs))
}

spec fn rx7(m: TimeLockedMessage) -> Seq<u8> {
    encode_utf8(crate::timestamp::rfc3339_of(m.created_at.secs))
}

// Positions of the pieces of a record text, as prefix sums: `rp1` is where
// the first string body starts, `rp2` its closing quote, and so on through
// the seven fields.
spec fn rp1(m: TimeLockedMessage) -> int {
    lit_ec().len() as int
}

spec fn rp2(m: TimeLockedMessage) -> int {
    rp1(m) + esc_bytes(rx1(m)).len()
}

spec fn rp3(m: TimeLockedMessage) -> int {
    rp2(m) + lit_nonce().len()
}

spec fn rp4(m: TimeLockedMessage) -> int {
    rp3(m) + esc_bytes(rx2(m)).len()
}

spec fn rp5(m: TimeLockedMessage) -> int {
    rp4(m) + lit_salt().len()
}

spec fn rp6(m: TimeLockedMessage) -> int {
    rp5(m) + esc_bytes(rx3(m)).len()
}

spec fn rp7(m: TimeLockedMessage) -> int {
    rp6(m) + lit_ph().len()
}

spec fn rp8(m: TimeLockedMessage) -> int {
    rp7(m) + esc_bytes(rx4(m)).len()
}

spec fn rp9(m: TimeLockedMessage) -> int {
    rp8(m) + lit_ud().len()
}

spec fn rp10(m: TimeLockedMessage) -> int {
    rp9(m) + esc_bytes(rx5(m)).len()
}

spec fn rp11(m: TimeLockedMessage) -> int {
    rp10(m) + lit_label().len()
}

spec fn rp12(m: TimeLockedMessage) -> int {
    rp11(m) + label_repr(m.label.deep_view()).len()
}

spec fn rp13(m: TimeLockedMessage) -> int {
    rp12(m) + lit_created().len()
}

spec fn rp14(m: TimeLockedMessage) -> int {
    rp13(m) + esc_bytes(rx7(m)).len()
}

// The prefix of the record text up to the password-hash field's end.
spec fn record_front(m: TimeLockedMessage) -> Seq<u8> {
    lit_ec() + esc_bytes(rx1(m)) + lit_nonce() + esc_bytes(rx2(m)) + lit_salt() + esc_bytes(
        rx3(m),
    ) + lit_ph() + esc_bytes(rx4(m))
}

/// How the label region of a record text parses: `null`, or a quoted
/// escaped string, which can never look like `null`.
#[verifier::rlimit(100)]
proof fn lemma_rp_label(m: TimeLockedMessage)
    requires
        record_repr(m).len() == rp14(m) + lit_end().len(),
        record_repr(m).subrange(rp11(m), rp12(m)) == label_repr(m.label.deep_view()),
    ensures
        match m.label.deep_view() {
            None => sp_lit(record_repr(m), rp11(m), lit_null()) == Some(rp12(m)),
            Some(l) => sp_lit(record_repr(m), rp11(m), lit_null()) is None && sp_lit(
                record_repr(m),
                rp11(m),
                lit_quote(),
            ) == Some(rp11(m) + lit_quote().len()) && sp_jstr(
                record_repr(m),
                rp11(m) + lit_quote().len(),
            ) == Some((encode_utf8(l), rp12(m) - lit_quote().len())) && sp_lit(
                record_repr(m),
                rp12(m) - lit_quote().len(),
                lit_quote(),
            ) == Some(rp12(m)),
        },
{
    reveal_strlit("null");
    reveal_strlit("\"");
    lemma_encode_utf8_head_ascii("null"@);
    lemma_encode_utf8_head_ascii("\""@);
    let s = record_repr(m);
    let lab = label_repr(m.label.deep_view());
    match m.label.deep_view() {
        None => {
            assert(lab == lit_null());
            assert(sp_lit(s, rp11(m), lit_null()) == Some(rp12(m)));
        },
        Some(l) => {
            let xl = encode_utf8(l);
            assert(lab == lit_quote() + esc_bytes(xl) + lit_quote());
            lemma_peel(s, lit_quote() + esc_bytes(xl), lit_quote(), rp12(m));
            lemma_peel(s, lit_quote(), esc_bytes(xl), rp12(m) - lit_quote().len());
            let q1 = rp11(m) + lit_quote().len();
            let q2 = rp12(m) - lit_quote().len();
            assert(sp_lit(s, rp11(m), lit_quote()) == Some(q1));
            assert(s[q2] == 0x22) by {
                assert(s.subrange(q2, rp12(m))[0] == lit_quote()[0]);
            }
            lemma_sp_jstr_escaped(s, q1, xl);
            assert(sp_lit(s, q2, lit_quote()) == Some(rp12(m)));
            assert(s[rp11(m)] == 0x22) by {
                assert(s.subrange(rp11(m), q1)[0] == lit_quote()[0]);
            }
            lemma_encode_utf8_min_len("null"@);
            assert(sp_lit(s, rp11(m), lit_null()) is None) by {
                if rp11(m) + lit_null().len() <= s.len() {
                    assert(s.subrange(rp11(m), rp11(m) + lit_null().len())[0] == s[rp11(m)]);
                }
            }
        },
    }
}

/// Peeling the back half of a record text: the unlock date onward parses
/// into its pieces, and the front half stands before position `rp8`.
#[verifier::rlimit(100)]
proof fn lemma_rp_back(m: TimeLockedMessage)
    ensures
        record_repr(m).len() == rp14(m) + lit_end().len(),
        record_repr(m).subrange(0, rp8(m)) == record_front(m),
        record_repr(m)[rp8(m)] == 0x22,
        sp_lit(record_repr(m), rp8(m), lit_ud()) == Some(rp9(m)),
        sp_jstr(record_repr(m), rp9(m)) == Some((rx5(m), rp10(m))),
        sp_lit(record_repr(m), rp10(m), lit_label()) == Some(rp11(m)),
        match m.label.deep_view() {
            None => sp_lit(record_repr(m), rp11(m), lit_null()) == Some(rp12(m)),
            Some(l) => sp_lit(record_repr(m), rp11(m), lit_null()) is None && sp_lit(
                record_repr(m),
                rp11(m),
                lit_quote(),
            ) == Some(rp11(m) + lit_quote().len()) && sp_jstr(
                record_repr(m),
                rp11(m) + lit_quote().len(),
            ) == Some((encode_utf8(l), rp12(m) - lit_quote().len())) && sp_lit(
                record_repr(m),
                rp12(m) - lit_quote().len(),
                lit_quote(),
            ) == Some(rp12(m)),
        },
        sp_lit(record_repr(m), rp12(m), lit_created()) == Some(rp13(m)),
        sp_jstr(record_repr(m), rp13(m)) == Some((rx7(m), rp14(m))),
        sp_lit(record_repr(m), rp14(m), lit_end()) == Some(record_repr(m).len() as int),
{
    let s = record_repr(m);
    let lab = label_repr(m.label.deep_view());
    let c14 = record_front(m) + lit_ud() + esc_bytes(rx5(m)) + lit_label() + lab + lit_created()
        + esc_bytes(rx7(m));
    let c13 = record_front(m) + lit_ud() + esc_bytes(rx5(m)) + lit_label() + lab + lit_created();
    let c12 = record_front(m) + lit_ud() + esc_bytes(rx5(m)) + lit_label() + lab;
    let c11 = record_front(m) + lit_ud() + esc_bytes(rx5(m)) + lit_label();
    let c10 = record_front(m) + lit_ud() + esc_bytes(rx5(m));
    let c9 = record_front(m) + lit_ud();
    assert(s == c14 + lit_end());
    assert(s.subrange(0, s.len() as int) =~= s);
    lemma_peel(s, c14, lit_end(), s.len() as int);
    lemma_peel(s, c13, esc_bytes(rx7(m)), rp14(m));
    lemma_peel(s, c12, lit_created(), rp13(m));
    lemma_peel(s, c11, lab, rp12(m));
    lemma_peel(s, c10, lit_label(), rp11(m));
    lemma_peel(s, c9, esc_bytes(rx5(m)), rp10(m));
    lemma_peel(s, record_front(m), lit_ud(), rp9(m));
    reveal_strlit("\",\n  \"unlock_date\": \"");
    reveal_strlit("\",\n  \"label\": ");
    lemma_encode_utf8_head_ascii("\",\n  \"unlock_date\": \""@);
    lemma_encode_utf8_head_ascii("\",\n  \"label\": "@);
    assert(s[rp8(m)] == 0x22) by {
        assert(s.subrange(rp8(m), rp9(m))[0] == lit_ud()[0]);
    }
    assert(sp_lit(s, rp8(m), lit_ud()) == Some(rp9(m)));
    assert(s[rp10(m)] == 0x22) by {
        assert(s.subrange(rp10(m), rp11(m))[0] == lit_label()[0]);
    }
    lemma_sp_jstr_escaped(s, rp9(m), rx5(m));
    assert(sp_lit(s, rp10(m), lit_label()) == Some(rp11(m)));
    reveal_strlit("\"\n}");
    lemma_encode_utf8_head_ascii("\"\n}"@);
    assert(s[rp14(m)] == 0x22) by {
        assert(s.subrange(rp14(m), rp14(m) + lit_end().len())[0] == lit_end()[0]);
    }
    lemma_rp_label(m);
    assert(sp_lit(s, rp12(m), lit_created()) == Some(rp13(m)));
    lemma_sp_jstr_escaped(s, rp13(m), rx7(m));
    assert(sp_lit(s, rp14(m), lit_end()) == Some(s.len() as int));
}

/// Peeling the front of any text that opens with the first four fields of
/// a record: they parse into their pieces, independent of what follows.
#[verifier::rlimit(100)]
proof fn lemma_rp_front_gen(s: Seq<u8>, x1: Seq<u8>, x2: Seq<u8>, x3: Seq<u8>, x4: Seq<u8>)
    requires
        ({
            let front = lit_ec() + esc_bytes(x1) + lit_nonce() + esc_bytes(x2) + lit_salt()
                + esc_bytes(x3) + lit_ph() + esc_bytes(x4);
            &&& front.len() < s.len()
            &&& s.subrange(0, front.len() as int) == front
            &&& s[front.len() as int] == 0x22
        }),
    ensures
        ({
            let p1 = lit_ec().len() as int;
            let p2 = p1 + esc_bytes(x1).len();
            let p3 = p2 + lit_nonce().len();
            let p4 = p3 + esc_bytes(x2).len();
            let p5 = p4 + lit_salt().len();
            let p6 = p5 + esc_bytes(x3).len();
            let p7 = p6 + lit_ph().len();
            let p8 = p7 + esc_bytes(x4).len();
            &&& sp_lit(s, 0, lit_ec()) == Some(p1)
            &&& sp_jstr(s, p1) == Some((x1, p2))
            &&& sp_lit(s, p2, lit_nonce()) == Some(p3)
            &&& sp_jstr(s, p3) == Some((x2, p4))
            &&& sp_lit(s, p4, lit_salt()) == Some(p5)
            &&& sp_jstr(s, p5) == Some((x3, p6))
            &&& sp_lit(s, p6, lit_ph()) == Some(p7)
            &&& sp_jstr(s, p7) == Some((x4, p8))
        }),
{
    reveal_strlit("\",\n  \"nonce\": \"");
    reveal_strlit("\",\n  \"salt\": \"");
    reveal_strlit("\",\n  \"password_hash\": \"");
    lemma_encode_utf8_head_ascii("\",\n  \"nonce\": \""@);
    lemma_encode_utf8_head_ascii("\",\n  \"salt\": \""@);
    lemma_encode_utf8_head_ascii("\",\n  \"password_hash\": \""@);
    let c7 = lit_ec() + esc_bytes(x1) + lit_nonce() + esc_bytes(x2) + lit_salt() + esc_bytes(x3)
        + lit_ph();
    let c6 = lit_ec() + esc_bytes(x1) + lit_nonce() + esc_bytes(x2) + lit_salt() + esc_bytes(x3);
    let c5 = lit_ec() + esc_bytes(x1) + lit_nonce() + esc_bytes(x2) + lit_salt();
    let c4 = lit_ec() + esc_bytes(x1) + lit_nonce() + esc_bytes(x2);
    let c3 = lit_ec() + esc_bytes(x1) + lit_nonce();
    let c2 = lit_ec() + esc_bytes(x1);
    let front = c7 + esc_bytes(x4);
    lemma_peel(s, c7, esc_bytes(x4), front.len() as int);
    lemma_peel(s, c6, lit_ph(), c7.len() as int);
    lemma_peel(s, c5, esc_bytes(x3), c6.len() as int);
    lemma_peel(s, c4, lit_salt(), c5.len() as int);
    lemma_peel(s, c3, esc_bytes(x2), c4.len() as int);
    lemma_peel(s, c2, lit_nonce(), c3.len() as int);
    lemma_peel(s, lit_ec(), esc_bytes(x1), c2.len() as int);
    assert(sp_lit(s, 0, lit_ec()) == Some(lit_ec().len() as int));
    assert(s[c2.len() as int] == 0x22) by {
        assert(s.subrange(c2.len() as int, c3.len() as int)[0] == lit_nonce()[0]);
    }
    lemma_sp_jstr_escaped(s, lit_ec().len() as int, x1);
    assert(s[c4.len() as int] == 0x22) by {
        assert(s.subrange(c4.len() as int, c5.len() as int)[0] == lit_salt()[0]);
    }
    lemma_sp_jstr_escaped(s, c3.len() as int, x2);
    assert(s[c6.len() as int] == 0x22) by {
        assert(s.subrange(c6.len() as int, c7.len() as int)[0] == lit_ph()[0]);
    }
    lemma_sp_jstr_escaped(s, c5.len() as int, x3);
    lemma_sp_jstr_escaped(s, c7.len() as int, x4);
}

/// The front of a record text parses into the envelope's first four fields.
#[verifier::rlimit(100)]
proof fn lemma_rp_front(m: TimeLockedMessage)
    requires
        record_repr(m).len() == rp14(m) + lit_end().len(),
        record_repr(m).subrange(0, rp8(m)) == record_front(m),
        record_repr(m)[rp8(m)] == 0x22,
    ensures
        sp_lit(record_repr(m), 0, lit_ec()) == Some(rp1(m)),
        sp_jstr(record_repr(m), rp1(m)) == Some((rx1(m), rp2(m))),
        sp_lit(record_repr(m), rp2(m), lit_nonce()) == Some(rp3(m)),
        sp_jstr(record_repr(m), rp3(m)) == Some((rx2(m), rp4(m))),
        sp_lit(record_repr(m), rp4(m), lit_salt()) == Some(rp5(m)),
        sp_jstr(record_repr(m), rp5(m)) == Some((rx3(m), rp6(m))),
        sp_lit(record_repr(m), rp6(m), lit_ph()) == Some(rp7(m)),
        sp_jstr(record_repr(m), rp7(m)) == Some((rx4(m), rp8(m))),
{
    reveal_strlit("\",\n  \"unlock_date\": \"");
    lemma_encode_utf8_head_ascii("\",\n  \"unlock_date\": \""@);
    lemma_encode_utf8_min_len("\",\n  \"unlock_date\": \""@);
    assert(rp8(m) < record_repr(m).len());
    lemma_rp_front_gen(record_repr(m), rx1(m), rx2(m), rx3(m), rx4(m));
}

/// The record text of an envelope parses back, structurally, into exactly
/// the pieces it was written from.
#[verifier::rlimit(100)]
proof fn lemma_record_parses(m: TimeLockedMessage)
    ensures
        sp_record(record_repr(m)) == sp_build(
            rx1(m),
            rx2(m),
            rx3(m),
            rx4(m),
            rx5(m),
            match m.label.deep_view() {
                Some(l) => Some(encode_utf8(l)),
                None => None,
            },
            rx7(m),
        ),
{
    lemma_rp_back(m);
    lemma_rp_front(m);
    let s = record_repr(m);
    let lab_arg: Option<Seq<u8>> = match m.label.deep_view() {
        Some(l) => Some(encode_utf8(l)),
        None => None,
    };
    assert(sp_record(s) == sp_record_tail(
        s,
        rx1(m),
        rx2(m),
        rx3(m),
        rx4(m),
        rx5(m),
        lab_arg,
        rp12(m),
    ));
    assert(sp_record_tail(s, rx1(m), rx2(m), rx3(m), rx4(m), rx5(m), lab_arg, rp12(m))
        == sp_build(rx1(m), rx2(m), rx3(m), rx4(m), rx5(m), lab_arg, rx7(m)));
}

// ---- executable parsing ----

fn expect_lit(s: &[u8], i: usize, lit: &str) -> (r: Option<usize>)
    requires
        i <= s@.len(),
    ensures
        match r {
            Some(j) => sp_lit(s@, i as int, encode_utf8(lit@)) == Some(j as int) && i <= j
                <= s@.len(),
            None => sp_lit(s@, i as int, encode_utf8(lit@)) is None,
        },
{
    let lb = s_bytes(lit);
    if s.len() - i < lb.len() {
        return None;
    }
    let mut k: usize = 0;
    while k < lb.len()
        invariant
            0 <= k <= lb@.len(),
            i + lb@.len() <= s@.len(),
            s@.len() <= usize::MAX,
            lb@ == encode_utf8(lit@),
            forall|t: int| 0 <= t < k ==> s@[i + t] == lb@[t],
        decreases lb@.len() - k,
    {
        if s[i + k] != lb[k] {
            proof {
                let sub = s@.subrange(i as int, i as int + lb@.len() as int);
                assert(sub[k as int] == s@[i + k]);
                assert(sub != lb@);
            }
            return None;
        }
        k += 1;
    }
    proof {
        assert(s@.subrange(i as int, i as int + lb@.len() as int) =~= lb@);
    }
    Some(i + lb.len())
}

fn s_bytes(s: &str) -> (r: &[u8])
    ensures
        r@ == encode_utf8(s@),
{
    s.as_bytes()
}

/// The loop below has consumed string content from `i0` up to `p`,
/// producing `acc`: finishing the parse from `p` finishes it from `i0`.
spec fn jstr_rel(s: Seq<u8>, i0: int, acc: Seq<u8>, p: int) -> bool {
    sp_jstr(s, i0) == (match sp_jstr(s, p) {
        Some(r) => Some::<(Seq<u8>, int)>((acc + r.0, r.1)),
        None => None::<(Seq<u8>, int)>,
    })
}

fn parse_jstr(s: &[u8], i: usize) -> (r: Option<(Vec<u8>, usize)>)
    requires
        i <= s@.len(),
    ensures
        match r {
            Some(v) => sp_jstr(s@, i as int) == Some((v.0@, v.1 as int)) && i <= v.1 <= s@.len(),
            None => sp_jstr(s@, i as int) is None,
        },
{
    let mut acc: Vec<u8> = Vec::new();
    let mut pos: usize = i;
    proof {
        assert(acc@ =~= Seq::<u8>::empty());
        let res = sp_jstr(s@, i as int);
        if res is Some {
            assert(acc@ + (res->0).0 =~= (res->0).0);
        }
    }
    loop
        invariant
            i <= pos <= s@.len(),
            jstr_rel(s@, i as int, acc@, pos as int),
        decreases s@.len() - pos,
    {
        if pos >= s.len() {
            return None;
        }
        let b = s[pos];
        if b == 0x22 {
            proof {
                assert(sp_jstr(s@, pos as int) == Some((Seq::<u8>::empty(), pos as int)));
                assert(acc@ + Seq::<u8>::empty() =~= acc@);
            }
            return Some((acc, pos));
        }
        if b == 0x5C {
            if s.len() - pos < 2 {
                return None;
            }
            let e = s[pos + 1];
            if e == 0x75 {
                if s.len() - pos < 6 {
                    return None;
                }
                if s[pos + 2] != 0x30 || s[pos + 3] != 0x30 {
                    return None;
                }
                let h4 = s[pos + 4];
                let h5 = s[pos + 5];
                let hi = if 0x30 <= h4 && h4 <= 0x39 {
                    h4 - 0x30
                } else if 0x61 <= h4 && h4 <= 0x66 {
                    h4 - 0x57
                } else if 0x41 <= h4 && h4 <= 0x46 {
                    h4 - 0x37
                } else {
                    return None;
                };
                let lo = if 0x30 <= h5 && h5 <= 0x39 {
                    h5 - 0x30
                } else if 0x61 <= h5 && h5 <= 0x66 {
                    h5 - 0x57
                } else if 0x41 <= h5 && h5 <= 0x46 {
                    h5 - 0x37
                } else {
                    return None;
                };
                if hi >= 8 {
                    return None;
                }
                let code = 16 * hi + lo;
                proof {
                    let p = pos as int;
                    assert(hex_val(s@[p + 4]) == Some(hi));
                    assert(hex_val(s@[p + 5]) == Some(lo));
                    let res = sp_jstr(s@, p + 6);
                    if res is Some {
                        assert(sp_jstr(s@, p) == Some((seq![code] + (res->0).0, (res->0).1)));
                        assert(acc@ + (seq![code] + (res->0).0) =~= acc@.push(code) + (res->0).0);
                    } else {
                        assert(sp_jstr(s@, p) is None);
                    }
                }
                acc.push(code);
                pos = pos + 6;
            } else {
                let x = if e == 0x22 {
                    0x22u8
                } else if e == 0x5C {
                    0x5Cu8
                } else if e == 0x2F {
                    0x2Fu8
                } else if e == 0x62 {
                    0x08u8
                } else if e == 0x66 {
                    0x0Cu8
                } else if e == 0x6E {
                    0x0Au8
                } else if e == 0x72 {
                    0x0Du8
                } else if e == 0x74 {
                    0x09u8
                } else {
                    return None;
                };
                proof {
                    let p = pos as int;
                    assert(esc_code(e) == Some(x));
                    let res = sp_jstr(s@, p + 2);
                    if res is Some {
                        assert(sp_jstr(s@, p) == Some((seq![x] + (res->0).0, (res->0).1)));
                        assert(acc@ + (seq![x] + (res->0).0) =~= acc@.push(x) + (res->0).0);
                    } else {
                        assert(sp_jstr(s@, p) is None);
                    }
                }
                acc.push(x);
                pos = pos + 2;
            }
        } else if b < 0x20 {
            return None;
        } else {
            proof {
                let p = pos as int;
                let res = sp_jstr(s@, p + 1);
                if res is Some {
                    assert(sp_jstr(s@, p) == Some((seq![b] + (res->0).0, (res->0).1)));
                    assert(acc@ + (seq![b] + (res->0).0) =~= acc@.push(b) + (res->0).0);
                } else {
                    assert(sp_jstr(s@, p) is None);
                }
            }
            acc.push(b);
            pos = pos + 1;
        }
    }
}

fn bytes_to_string(v: Vec<u8>) -> (r: Option<String>)
    ensures
        match r {
            Some(s) => valid_utf8(v@) && s@ == decode_utf8(v@),
            None => !valid_utf8(v@),
        },
{
    crate::crypto::string_from_utf8(v)
}

/// Parse a record text back into an envelope; a text that is not a
/// well-formed record is refused as a serialization error.
pub fn record_from_bytes(s: &[u8]) -> (r: Result<TimeLockedMessage, TimeLockError>)
    ensures
        match r {
            Ok(m) => sp_record(s@) == Some(model_of(m)) && m.wf(),
            Err(e) => sp_record(s@) is None && e == TimeLockError::SerializationError,
        },
{
    let i1 = match expect_lit(s, 0, "{\n  \"encrypted_content\": \"") {
        Some(j) => j,
        None => {
            return Err(TimeLockError::SerializationError);
        },
    };
    let (ec, p1) = match parse_jstr(s, i1) {
        Some(v) => v,
        None => {
            return Err(TimeLockError::SerializationError);
        },
    };
    let i2 = match expect_lit(s, p1, "\",\n  \"nonce\": \"") {
        Some(j) => j,
        None => {
            return Err(TimeLockError::SerializationError);
        },
    };
    let (nn, p2) = match parse_jstr(s, i2) {
        Some(v) => v,
        None => {
            return Err(TimeLockError::SerializationError);
        },
    };
    let i3 = match expect_lit(s, p2, "\",\n  \"salt\": \"") {
        Some(j) => j,
        None => {
            return Err(TimeLockError::SerializationError);
        },
    };
    let (sa, p3) = match parse_jstr(s, i3) {
        Some(v) => v,
        None => {
            return Err(TimeLockError::SerializationError);
        },
    };
    let i4 = match expect_lit(s, p3, "\",\n  \"password_hash\": \"") {
        Some(j) => j,
        None => {
            return Err(TimeLockError::SerializationError);
        },
    };
    let (ph, p4) = match parse_jstr(s, i4) {
        Some(v) => v,
        None => {
            return Err(TimeLockError::SerializationError);
        },
    };
    let i5 = match expect_lit(s, p4, "\",\n  \"unlock_date\": \"") {
        Some(j) => j,
        None => {
            return Err(TimeLockError::SerializationError);
        },
    };
    let (ud, p5) = match parse_jstr(s, i5) {
        Some(v) => v,
        None => {
            return Err(TimeLockError::SerializationError);
        },
    };
    let i6 = match expect_lit(s, p5, "\",\n  \"label\": ") {
        Some(j) => j,
        None => {
            return Err(TimeLockError::SerializationError);
        },
    };
    let (label, p6) = match expect_lit(s, i6, "null") {
        Some(j) => (None, j),
        None => {
            let jq = match expect_lit(s, i6, "\"") {
                Some(j) => j,
                None => {
                    return Err(TimeLockError::SerializationError);
                },
            };
            match parse_jstr(s, jq) {
                Some(v) => match expect_lit(s, v.1, "\"") {
                    Some(j) => (Some(v.0), j),
                    None => {
                        return Err(TimeLockError::SerializationError);
                    },
                },
                None => {
                    return Err(TimeLockError::SerializationError);
                },
            }
        },
    };
    let i7 = match expect_lit(s, p6, ",\n  \"created_at\": \"") {
        Some(j) => j,
        None => {
            return Err(TimeLockError::SerializationError);
        },
    };
    let (ca, p7) = match parse_jstr(s, i7) {
        Some(v) => v,
        None => {
            return Err(TimeLockError::SerializationError);
        },
    };
    let p8 = match expect_lit(s, p7, "\"\n}") {
        Some(j) => j,
        None => {
            return Err(TimeLockError::SerializationError);
        },
    };
    if p8 != s.len() {
        return Err(TimeLockError::SerializationError);
    }
    let ghost g_ec = ec@;
    let ghost g_nn = nn@;
    let ghost g_sa = sa@;
    let ghost g_ph = ph@;
    let ghost g_ud = ud@;
    let ghost g_lb: Option<Seq<u8>> = match label {
        Some(ref lb) => Some(lb@),
        None => None,
    };
    let ghost g_ca = ca@;
    let encrypted_content = match bytes_to_string(ec) {
        Some(v) => v,
        None => {
            return Err(TimeLockError::SerializationError);
        },
    };
    let nonce = match bytes_to_string(nn) {
        Some(v) => v,
        None => {
            return Err(TimeLockError::SerializationError);
        },
    };
    let salt = match bytes_to_string(sa) {
        Some(v) => v,
        None => {
            return Err(TimeLockError::SerializationError);
        },
    };
    let password_hash = match bytes_to_string(ph) {
        Some(v) => v,
        None => {
            return Err(TimeLockError::SerializationError);
        },
    };
    let ud_text = match bytes_to_string(ud) {
        Some(v) => v,
        None => {
            return Err(TimeLockError::SerializationError);
        },
    };
    let label_text = match label {
        Some(lb) => match bytes_to_string(lb) {
            Some(v) => Some(v),
            None => {
                return Err(TimeLockError::SerializationError);
            },
        },
        None => None,
    };
    let ca_text = match bytes_to_string(ca) {
        Some(v) => v,
        None => {
            return Err(TimeLockError::SerializationError);
        },
    };
    let unlock_date = match crate::timestamp::ts_from_rfc3339(ud_text.as_str()) {
        Some(t) => t,
        None => {
            return Err(TimeLockError::SerializationError);
        },
    };
    let created_at = match crate::timestamp::ts_from_rfc3339(ca_text.as_str()) {
        Some(t) => t,
        None => {
            return Err(TimeLockError::SerializationError);
        },
    };
    let m = TimeLockedMessage {
        encrypted_content,
        nonce,
        salt,
        password_hash,
        unlock_date,
        label: label_text,
        created_at,
    };
    proof {
        assert(sp_record(s@) == sp_build(g_ec, g_nn, g_sa, g_ph, g_ud, g_lb, g_ca));
        assert(sp_record(s@) == Some(model_of(m)));
    }
    Ok(m)
}


} // verus!
