use vstd::prelude::*;

use crate::codec::{model_of, sp_record, RecordModel};
use crate::crypto::TimeLockedMessage;
use vstd::string::StringExecFns;
use vstd::utf8::encode_utf8;

verus! {

/// The bytes an identifier may consist of: ASCII letters, digits, hyphen
/// and underscore. Such names cannot escape the storage root.
pub open spec fn id_byte(b: u8) -> bool {
    (0x30 <= b <= 0x39) || (0x41 <= b <= 0x5A) || (0x61 <= b <= 0x7A) || b == 0x2D || b == 0x5F
}

/// A valid record identifier: non-empty, at most 128 bytes, all of them
/// identifier bytes.
pub open spec fn valid_id_bytes(b: Seq<u8>) -> bool {
    1 <= b.len() <= 128 && (forall|i: int| 0 <= i < b.len() ==> id_byte(#[trigger] b[i]))
}

/// A lower-case hexadecimal digit.
pub open spec fn hex_lower_char(c: char) -> bool {
    ('0' as u32 <= c as u32 && c as u32 <= '9' as u32)
        || ('a' as u32 <= c as u32 && c as u32 <= 'f' as u32)
}

/// The text of a random (version 4) UUID: 36 characters, hyphens at
/// positions 8, 13, 18 and 23, lower-case hex digits everywhere else,
/// the version digit `4` at position 14, and a variant digit of `8`,
/// `9`, `a` or `b` at position 19. Every minted identifier has exactly
/// this shape.
pub open spec fn uuid_v4_text(s: Seq<char>) -> bool {
    &&& s.len() == 36
    &&& s[8] == '-' && s[13] == '-' && s[18] == '-' && s[23] == '-'
    &&& s[14] == '4'
    &&& (s[19] == '8' || s[19] == '9' || s[19] == 'a' || s[19] == 'b')
    &&& forall|i: int|
        0 <= i < 36 && i != 8 && i != 13 && i != 18 && i != 23 ==> hex_lower_char(#[trigger] s[i])
}

/// Relies on `uuid::Uuid::new_v4` and its `Display` form: the random bits
/// are masked to version 4 and the RFC 4122 variant, and rendered as
/// 36 characters of lower-case hyphenated hex.
#[verifier::external_body]
fn uuid_v4_string() -> (r: String)
    ensures
        uuid_v4_text(r@),
        encode_utf8(r@).len() == 36,
        valid_id_bytes(encode_utf8(r@)),
{
    uuid::Uuid::new_v4().to_string()
}

/// Mint a fresh identifier for a record: the text form of a random
/// 128-bit UUID.
pub fn new_message_id() -> (r: String)
    ensures
        uuid_v4_text(r@),
        valid_id_bytes(encode_utf8(r@)),
        encode_utf8(r@).len() == 36,
{
    uuid_v4_string()
}

/// Whether a candidate identifier is acceptable as a record name.
pub fn check_message_id(id: &str) -> (r: bool)
    ensures
        r == valid_id_bytes(encode_utf8(id@)),
{
    let b = id.as_bytes();
    if b.len() < 1 || b.len() > 128 {
        return false;
    }
    let mut k: usize = 0;
    while k < b.len()
        invariant
            0 <= k <= b@.len(),
            b@ == encode_utf8(id@),
            b@.len() <= 128,
            forall|i: int| 0 <= i < k ==> id_byte(#[trigger] b@[i]),
        decreases b@.len() - k,
    {
        let c = b[k];
        let ok = (0x30 <= c && c <= 0x39) || (0x41 <= c && c <= 0x5A) || (0x61 <= c && c <= 0x7A)
            || c == 0x2D || c == 0x5F;
        if !ok {
            return false;
        }
        k += 1;
    }
    true
}

/// The file name a record is stored under: the identifier plus the fixed
/// extension.
pub fn record_file_name(id: &str) -> (r: String)
    ensures
        r@ == id@ + ".json"@,
{
    let mut s = String::from_str(id);
    s.append(".json");
    s
}

/// The records of a listing that parse, in their listed order, as
/// identifier view and record model.
pub open spec fn decoded_records(s: Seq<(String, Vec<u8>)>) -> Seq<(Seq<char>, RecordModel)>
    decreases s.len(),
{
    if s.len() == 0 {
        seq![]
    } else {
        let prior = decoded_records(s.drop_last());
        match sp_record(s.last().1@) {
            Some(m) => prior.push((s.last().0@, m)),
            None => prior,
        }
    }
}

/// Decode a listing of raw records, skipping every record that does not
/// parse: one corrupt record must not hide the rest of the archive. The
/// result holds exactly the records that parse, in order.
pub fn decode_records(records: Vec<(String, Vec<u8>)>) -> (r: Vec<(String, TimeLockedMessage)>)
    ensures
        r@.map_values(|e: (String, TimeLockedMessage)| (e.0@, model_of(e.1)))
            == decoded_records(records@),
        forall|i: int| 0 <= i < r@.len() ==> (#[trigger] r@[i].1).wf(),
{
    let n = records.len();
    let mut out: Vec<(String, TimeLockedMessage)> = Vec::new();
    let mut k: usize = 0;
    proof {
        assert(records@.take(0) =~= Seq::<(String, Vec<u8>)>::empty());
        assert(out@.map_values(|e: (String, TimeLockedMessage)| (e.0@, model_of(e.1)))
            =~= decoded_records(records@.take(0)));
    }
    while k < n
        invariant
            0 <= k <= n,
            n == records@.len(),
            out@.map_values(|e: (String, TimeLockedMessage)| (e.0@, model_of(e.1)))
                == decoded_records(records@.take(k as int)),
            forall|i: int| 0 <= i < out@.len() ==> (#[trigger] out@[i].1).wf(),
        decreases n - k,
    {
        let (id, raw) = record_entry(&records, k);
        let ghost pre = out@;
        match crate::codec::record_from_bytes(raw.as_slice()) {
            Ok(m) => {
                out.push((id, m));
            },
            Err(_) => {},
        }
        proof {
            let f = |e: (String, TimeLockedMessage)| (e.0@, model_of(e.1));
            let t1 = records@.take(k + 1 as int);
            assert(t1.drop_last() =~= records@.take(k as int));
            assert(t1.last() == records@[k as int]);
            if sp_record(records@[k as int].1@) is Some {
                assert(out@ =~= pre.push(out@.last()));
                assert(out@.map_values(f) =~= pre.map_values(f).push(f(out@.last())));
            }
            assert(out@.map_values(f) =~= decoded_records(t1));
        }
        k += 1;
    }
    proof {
        assert(records@.take(n as int) =~= records@);
    }
    out
}

/// Read one entry of a listing, cloning its identifier and raw bytes.
fn record_entry(records: &Vec<(String, Vec<u8>)>, k: usize) -> (r: (String, Vec<u8>))
    requires
        k < records@.len(),
    ensures
        r.0@ == records@[k as int].0@,
        r.1@ == records@[k as int].1@,
{
    let entry = &records[k];
    let id = clone_string(&entry.0);
    let raw = clone_vec_u8(&entry.1);
    (id, raw)
}

fn clone_string(s: &String) -> (r: String)
    ensures
        r@ == s@,
{
    String::from_str(s.as_str())
}

fn clone_vec_u8(v: &Vec<u8>) -> (r: Vec<u8>)
    ensures
        r@ == v@,
{
    let mut out: Vec<u8> = Vec::new();
    let mut k: usize = 0;
    while k < v.len()
        invariant
            0 <= k <= v@.len(),
            out@ == v@.take(k as int),
        decreases v@.len() - k,
    {
        out.push(v[k]);
        proof {
            assert(v@.take(k + 1 as int) =~= v@.take(k as int).push(v@[k as int]));
        }
        k += 1;
    }
    proof {
        assert(v@.take(v@.len() as int) =~= v@);
    }
    out
}

} // verus!
