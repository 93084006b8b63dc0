//! One secret per line: `key:value:timestamp`, or, when the key or the value
//! holds a `:`, `b64:KEY:VALUE:timestamp` with both in base64; the timestamp
//! is RFC 3339 text in whole seconds.
use crate::codec::{base64_decode, base64_encode, base64_standard_decoding, base64_standard_encoding, is_base64_char, string_from_chars, utf8_string};
use crate::text::{chars_of, chars_start_with, contains_char, copy_range, first_index_of, has_char, is_plain_line, is_white_space, lemma_first_index_of, lemma_trim_unchanged, split3, split3_chars, starts_with, trim};
use crate::timestamp::{four_digit_year, is_rfc3339_char, rfc3339_instant, rfc3339_utc_text, Timestamp};
use vstd::prelude::*;
use vstd::utf8::{decode_utf8, encode_utf8, encode_utf8_decode_utf8, encode_utf8_valid_utf8, valid_utf8};

verus! {

/// A record as the specifications see it: key, value and timestamp `(secs, nanos)`.
pub type RecordView = (Seq<char>, Seq<char>, (i64, u32));

/// The prefix that marks a line whose key and value are in base64.
pub open spec fn b64_prefix() -> Seq<char> {
    seq!['b', '6', '4', ':']
}

/// The base64 text of the UTF-8 bytes of `t`.
pub open spec fn encoded_field(t: Seq<char>) -> Seq<char> {
    base64_standard_encoding(encode_utf8(t))
}

/// Whether a record is written with its key and value in base64: either holds a `:`.
pub open spec fn needs_encoding(r: RecordView) -> bool {
    has_char(r.0, ':') || has_char(r.1, ':')
}

/// Three fields separated by `:`.
pub open spec fn fields_line(a: Seq<char>, b: Seq<char>, c: Seq<char>) -> Seq<char> {
    a + seq![':'] + b + seq![':'] + c
}

/// The line that stores a record.
pub open spec fn record_line(r: RecordView) -> Seq<char> {
    let ts = rfc3339_utc_text(r.2.0, r.2.1);
    if needs_encoding(r) {
        b64_prefix() + fields_line(encoded_field(r.0), encoded_field(r.1), ts)
    } else {
        fields_line(r.0, r.1, ts)
    }
}

/// Why a stored line could not be read back.
#[derive(Clone, Copy, Debug, PartialEq, Eq, Structural)]
pub enum LineFault {
    /// The line has no `:` after the key.
    MissingValue,
    /// The line has no `:` after the value.
    MissingTimestamp,
    /// The key of a `b64:` line is not valid base64.
    InvalidBase64Key,
    /// The value of a `b64:` line is not valid base64.
    InvalidBase64Value,
    /// The decoded key of a `b64:` line is not UTF-8.
    KeyNotUtf8,
    /// The decoded value of a `b64:` line is not UTF-8.
    ValueNotUtf8,
    /// The timestamp is not RFC 3339.
    InvalidTimestamp,
}

/// The record that a trimmed, non-empty line holds, or the first fault found in it.
pub open spec fn parse_record(line: Seq<char>) -> Result<RecordView, LineFault> {
    if starts_with(line, b64_prefix()) {
        let (k, v, t) = split3(line.skip(4), ':');
        match (v, t) {
            (None, _) => Err(LineFault::MissingValue),
            (Some(_), None) => Err(LineFault::MissingTimestamp),
            (Some(v), Some(t)) => match base64_standard_decoding(k) {
                None => Err(LineFault::InvalidBase64Key),
                Some(kb) => if !valid_utf8(kb) {
                    Err(LineFault::KeyNotUtf8)
                } else {
                    match base64_standard_decoding(v) {
                        None => Err(LineFault::InvalidBase64Value),
                        Some(vb) => if !valid_utf8(vb) {
                            Err(LineFault::ValueNotUtf8)
                        } else {
                            match rfc3339_instant(t) {
                                None => Err(LineFault::InvalidTimestamp),
                                Some(ts) => Ok((decode_utf8(kb), decode_utf8(vb), ts)),
                            }
                        },
                    }
                },
            },
        }
    } else {
        let (k, v, t) = split3(line, ':');
        match (v, t) {
            (None, _) => Err(LineFault::MissingValue),
            (Some(_), None) => Err(LineFault::MissingTimestamp),
            (Some(v), Some(t)) => match rfc3339_instant(t) {
                None => Err(LineFault::InvalidTimestamp),
                Some(ts) => Ok((k, v, ts)),
            },
        }
    }
}

/// A record that its line gives back (with its timestamp cut to the whole
/// second): key and value hold no newline, the time has a four-digit year and
/// no leap second, and a line written as plain text neither starts with white
/// space nor has the key `b64`.
pub open spec fn restorable(r: RecordView) -> bool {
    &&& !has_char(r.0, '\n')
    &&& !has_char(r.1, '\n')
    &&& r.2.1 < 1_000_000_000
    &&& four_digit_year(r.2.0)
    &&& !needs_encoding(r) ==> (r.0.len() == 0 || !is_white_space(r.0[0])) && r.0 != seq![
        'b',
        '6',
        '4',
    ]
}

/// The record with its timestamp cut to the whole second.
pub open spec fn whole_second(r: RecordView) -> RecordView {
    (r.0, r.1, (r.2.0, 0u32))
}

/// What a line must satisfy for a record to be read back from it.
pub open spec fn line_restores(line: Seq<char>, r: RecordView) -> bool {
    &&& is_plain_line(line)
    &&& trim(line) == line
    &&& parse_record(line) == Ok::<RecordView, LineFault>(whole_second(r))
}

proof fn lemma_fields_index(a: Seq<char>, b: Seq<char>, c: Seq<char>)
    ensures
        fields_line(a, b, c).len() == a.len() + b.len() + c.len() + 2,
        forall|i: int| 0 <= i < a.len() ==> fields_line(a, b, c)[i] == a[i],
        fields_line(a, b, c)[a.len() as int] == ':',
        forall|i: int| 0 <= i < b.len() ==> fields_line(a, b, c)[a.len() + 1 + i] == b[i],
        fields_line(a, b, c)[a.len() + 1 + b.len() as int] == ':',
        forall|i: int| 0 <= i < c.len() ==> fields_line(a, b, c)[a.len() + b.len() + 2 + i] == c[i],
{
}

/// Splitting three fields without `:` in the first two gives them back.
pub proof fn lemma_split3_fields(a: Seq<char>, b: Seq<char>, c: Seq<char>)
    requires
        !has_char(a, ':'),
        !has_char(b, ':'),
    ensures
        split3(fields_line(a, b, c), ':') == (a, Some(b), Some(c)),
{
    let s = fields_line(a, b, c);
    lemma_fields_index(a, b, c);
    lemma_first_index_of(s, ':');
    let n = first_index_of(s, ':');
    if n < a.len() {
        assert(a[n] == ':');
    }
    assert(n == a.len());
    let r = s.skip(n + 1);
    assert(r =~= b + seq![':'] + c);
    lemma_first_index_of(r, ':');
    let m = first_index_of(r, ':');
    if m < b.len() {
        assert(r[m] == b[m]);
    }
    assert(r[b.len() as int] == ':');
    assert(m == b.len());
    assert(s.take(n) =~= a);
    assert(r.take(m) =~= b);
    assert(r.skip(m + 1) =~= c);
}

/// Base64 text carries no `:`, newline or white space.
proof fn lemma_base64_text(t: Seq<char>)
    requires
        forall|i: int| 0 <= i < t.len() ==> is_base64_char(#[trigger] t[i]),
    ensures
        !has_char(t, ':'),
        !has_char(t, '\n'),
{
    if has_char(t, ':') {
        let i = choose|i: int| 0 <= i < t.len() && t[i] == ':';
        assert(is_base64_char(t[i]));
    }
    if has_char(t, '\n') {
        let i = choose|i: int| 0 <= i < t.len() && t[i] == '\n';
        assert(is_base64_char(t[i]));
    }
}

/// A field that decodes back to the text it encodes.
proof fn lemma_field_decodes(t: Seq<char>, e: Seq<char>)
    requires
        base64_standard_decoding(e) == Some(encode_utf8(t)),
    ensures
        valid_utf8(encode_utf8(t)),
        decode_utf8(encode_utf8(t)) == t,
{
    encode_utf8_valid_utf8(t);
    encode_utf8_decode_utf8(t);
}

/// The line that stores the record `(key, value, timestamp)`. When the record is
/// restorable, the line is a single trimmed line that reads back as the record,
/// timestamp cut to the whole second.
pub fn record_to_line(key: &str, value: &str, timestamp: &Timestamp) -> (res: String)
    ensures
        res@ == record_line((key@, value@, timestamp@)),
        restorable((key@, value@, timestamp@)) ==> line_restores(res@, (key@, value@, timestamp@)),
{
    let ghost r = (key@, value@, timestamp@);
    let kc = chars_of(key);
    let vc = chars_of(value);
    let encode = contains_char(kc.as_slice(), ':') || contains_char(vc.as_slice(), ':');
    let ts = timestamp.to_rfc3339();
    let ghost t = ts@;
    proof {
        // the timestamp text holds no newline, and its last character is not white space
        if has_char(t, '\n') {
            let i = choose|i: int| 0 <= i < t.len() && t[i] == '\n';
            assert(is_rfc3339_char(t[i]));
        }
        assert(is_rfc3339_char(t[t.len() - 1]));
    }
    let mut line = String::new();
    if encode {
        let ke = base64_encode(key.as_bytes());
        let ve = base64_encode(value.as_bytes());
        line.append("b64:");
        line.append(ke.as_str());
        line.append(":");
        line.append(ve.as_str());
        line.append(":");
        line.append(ts.as_str());
        proof {
            reveal_strlit("b64:");
            reveal_strlit(":");
            let f = fields_line(ke@, ve@, t);
            assert(line@ =~= b64_prefix() + f);
            if restorable(r) {
                let l = line@;
                lemma_base64_text(ke@);
                lemma_base64_text(ve@);
                lemma_fields_index(ke@, ve@, t);
                assert(!has_char(l, '\n')) by {
                    if has_char(l, '\n') {
                        let i = choose|i: int| 0 <= i < l.len() && l[i] == '\n';
                        if i < 4 {
                        } else if i - 4 < ke@.len() {
                            assert(ke@[i - 4] == '\n');
                        } else if i - 4 == ke@.len() {
                        } else if i - 4 < ke@.len() + 1 + ve@.len() {
                            assert(ve@[i - 4 - ke@.len() - 1] == '\n');
                        } else if i - 4 == ke@.len() + 1 + ve@.len() {
                        } else {
                            assert(t[i - 4 - ke@.len() - ve@.len() - 2] == '\n');
                        }
                    }
                }
                assert(l[l.len() - 1] == t[t.len() - 1]);
                lemma_trim_unchanged(l);
                assert(starts_with(l, b64_prefix())) by {
                    assert(l.take(4) =~= b64_prefix());
                }
                assert(l.skip(4) =~= f);
                lemma_split3_fields(ke@, ve@, t);
                lemma_field_decodes(key@, ke@);
                lemma_field_decodes(value@, ve@);
            }
        }
    } else {
        line.append(key);
        line.append(":");
        line.append(value);
        line.append(":");
        line.append(ts.as_str());
        proof {
            reveal_strlit(":");
            let l = line@;
            assert(l =~= fields_line(key@, value@, t));
            if restorable(r) {
                lemma_fields_index(key@, value@, t);
                assert(!has_char(l, '\n')) by {
                    if has_char(l, '\n') {
                        let i = choose|i: int| 0 <= i < l.len() && l[i] == '\n';
                        if i < key@.len() {
                            assert(key@[i] == '\n');
                        } else if i == key@.len() {
                        } else if i < key@.len() + 1 + value@.len() {
                            assert(value@[i - key@.len() - 1] == '\n');
                        } else if i == key@.len() + 1 + value@.len() {
                        } else {
                            assert(t[i - key@.len() - value@.len() - 2] == '\n');
                        }
                    }
                }
                assert(l[l.len() - 1] == t[t.len() - 1]);
                if key@.len() > 0 {
                    assert(l[0] == key@[0]);
                } else {
                    assert(l[0] == ':');
                }
                lemma_trim_unchanged(l);
                assert(!starts_with(l, b64_prefix())) by {
                    if starts_with(l, b64_prefix()) {
                        assert(l.take(4)[3] == ':');
                        if key@.len() > 3 {
                            assert(key@[3] == ':');
                        } else if key@.len() == 3 {
                            assert(l.take(4)[0] == 'b');
                            assert(l.take(4)[1] == '6');
                            assert(l.take(4)[2] == '4');
                            assert(key@ =~= seq!['b', '6', '4']);
                        } else {
                            assert(l[key@.len() as int] == ':');
                            assert(l.take(4)[key@.len() as int] == ':');
                        }
                    }
                }
                lemma_split3_fields(key@, value@, t);
            }
        }
    }
    line
}

/// Decodes one base64 field into text: `Err(false)` where it is not base64,
/// `Err(true)` where the bytes are not UTF-8.
fn decode_field(field: &[char]) -> (res: Result<String, bool>)
    ensures
        match res {
            Ok(s) => base64_standard_decoding(field@) matches Some(b) && valid_utf8(b) && s@
                == decode_utf8(b),
            Err(not_utf8) => if not_utf8 {
                base64_standard_decoding(field@) matches Some(b) && !valid_utf8(b)
            } else {
                base64_standard_decoding(field@) is None
            },
        },
{
    let text = string_from_chars(field);
    match base64_decode(text.as_str()) {
        None => Err(false),
        Some(bytes) => match utf8_string(bytes) {
            None => Err(true),
            Some(s) => Ok(s),
        },
    }
}

/// Reads the record that a trimmed, non-empty line holds.
pub fn parse_record_line(line: &[char]) -> (res: Result<(String, String, Timestamp), LineFault>)
    ensures
        match res {
            Ok((k, v, t)) => parse_record(line@) == Ok::<RecordView, LineFault>((k@, v@, t@)),
            Err(f) => parse_record(line@) == Err::<RecordView, LineFault>(f),
        },
{
    let prefix = vec!['b', '6', '4', ':'];
    if chars_start_with(line, prefix.as_slice()) {
        let rest = copy_range(line, 4, line.len());
        assert(rest@ =~= line@.skip(4));
        let (k, v, t) = split3_chars(rest.as_slice(), ':');
        let v = match v {
            None => return Err(LineFault::MissingValue),
            Some(v) => v,
        };
        let t = match t {
            None => return Err(LineFault::MissingTimestamp),
            Some(t) => t,
        };
        let key = match decode_field(k.as_slice()) {
            Ok(s) => s,
            Err(not_utf8) => {
                if not_utf8 {
                    return Err(LineFault::KeyNotUtf8);
                } else {
                    return Err(LineFault::InvalidBase64Key);
                }
            },
        };
        let value = match decode_field(v.as_slice()) {
            Ok(s) => s,
            Err(not_utf8) => {
                if not_utf8 {
                    return Err(LineFault::ValueNotUtf8);
                } else {
                    return Err(LineFault::InvalidBase64Value);
                }
            },
        };
        let ts_text = string_from_chars(t.as_slice());
        match Timestamp::parse_rfc3339(ts_text.as_str()) {
            None => Err(LineFault::InvalidTimestamp),
            Some(ts) => Ok((key, value, ts)),
        }
    } else {
        let (k, v, t) = split3_chars(line, ':');
        let v = match v {
            None => return Err(LineFault::MissingValue),
            Some(v) => v,
        };
        let t = match t {
            None => return Err(LineFault::MissingTimestamp),
            Some(t) => t,
        };
        let ts_text = string_from_chars(t.as_slice());
        match Timestamp::parse_rfc3339(ts_text.as_str()) {
            None => Err(LineFault::InvalidTimestamp),
            Some(ts) => Ok((string_from_chars(k.as_slice()), string_from_chars(v.as_slice()), ts)),
        }
    }
}

} // verus!
