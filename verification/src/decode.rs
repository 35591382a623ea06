//! The decoder: tag recognition with the two-byte extension rule,
//! short- and long-form length decoding, value extraction against the
//! registry's bounds, and the parse loop that drives the three in
//! sequence over a single cursor.

use vstd::prelude::*;
use vstd::string::StrSliceExecFns;
use crate::error::ErrorModel;
use crate::error::IccError;
use crate::error::msg_length_missing;
use crate::error::msg_length_too_short;
use crate::hex::all_hex;
use crate::hex::hex_digit_value;
use crate::hex::hex_seq_val;
use crate::hex::lemma_hex_pair_bound;
use crate::hex::lemma_hex_seq_val_pair;
use crate::hex::parse_hex_range;
use crate::hex::upper_seq;
use crate::hex::upper_string;
use crate::output::OutputMap;
use crate::registry::Registry;
use crate::registry::TagData;
use crate::registry::TagDataModel;
use crate::registry::default_tags;
use crate::registry::get_tag_data;
use crate::registry::spec_lookup;

verus! {

/// The tag at the head of `t`: the matched definition and the number
/// of characters consumed (2 or 4). A first byte whose low five bits
/// are all set announces a second tag byte; the second byte is never
/// itself checked for hexness. The lookup key is the upper-cased tag
/// text; `BadTag` carries the text as read.
pub open spec fn spec_tag(t: Seq<char>, regs: Seq<TagDataModel>) -> Result<
    (TagDataModel, int),
    ErrorModel,
> {
    if t.len() < 2 {
        Err(ErrorModel::Generic)
    } else if !all_hex(t.subrange(0, 2)) {
        Err(ErrorModel::InvalidHex(t.subrange(0, 2)))
    } else {
        let tag_len: int = if hex_seq_val(t.subrange(0, 2)) % 32 == 31 {
            4
        } else {
            2
        };
        if t.len() < tag_len {
            Err(ErrorModel::Generic)
        } else {
            let text = t.subrange(0, tag_len);
            match spec_lookup(regs, upper_seq(text)) {
                Some(d) => Ok((d, tag_len)),
                None => Err(ErrorModel::BadTag(text)),
            }
        }
    }
}

/// The length field at the head of `t`: the value length in bytes and
/// the characters consumed. A first byte below 128 is itself the
/// length (short form); otherwise its low seven bits count the
/// big-endian length bytes that follow (long form). A length below
/// one is refused, as is a long-form numeral that does not fit in
/// `usize`.
pub open spec fn spec_length(t: Seq<char>) -> Result<(int, int), ErrorModel> {
    if t.len() < 2 {
        Err(ErrorModel::BadLength(msg_length_missing()))
    } else if !all_hex(t.subrange(0, 2)) {
        Err(ErrorModel::InvalidHex(t.subrange(0, 2)))
    } else {
        let b = hex_seq_val(t.subrange(0, 2));
        if b < 128 {
            if b < 1 {
                Err(ErrorModel::BadLength(msg_length_too_short()))
            } else {
                Ok((b, 2))
            }
        } else {
            let k = b - 128;
            if k == 0 || t.len() < 2 + 2 * k {
                Err(ErrorModel::BadLength(msg_length_missing()))
            } else if !all_hex(t.subrange(2, 2 + 2 * k)) {
                Err(ErrorModel::InvalidHex(t.subrange(2, 2 + 2 * k)))
            } else {
                let ext = hex_seq_val(t.subrange(2, 2 + 2 * k));
                if ext > usize::MAX {
                    Err(ErrorModel::InvalidHex(t.subrange(2, 2 + 2 * k)))
                } else if ext < 1 {
                    Err(ErrorModel::BadLength(msg_length_too_short()))
                } else {
                    Ok((ext, 2 + 2 * k))
                }
            }
        }
    }
}

/// The value region at the head of `t`: `len` bytes as `2 * len`
/// characters, upper-cased but not re-checked as hex. Refused where
/// fewer characters remain than declared, or the declared length
/// exceeds the definition's maximum.
pub open spec fn spec_value(t: Seq<char>, len: int, d: TagDataModel) -> Result<
    Seq<char>,
    ErrorModel,
> {
    if t.len() < 2 * len {
        Err(ErrorModel::Generic)
    } else if len > d.max_length {
        Err(ErrorModel::Generic)
    } else {
        Ok(upper_seq(t.subrange(0, 2 * len)))
    }
}

/// The decode from character position `i` on, with `acc` the mapping
/// built so far: tag, length and value in turn, until the cursor
/// lands exactly on the end of the input.
pub open spec fn spec_decode_from(
    s: Seq<char>,
    regs: Seq<TagDataModel>,
    i: int,
    acc: Map<Seq<char>, Seq<char>>,
) -> Result<Map<Seq<char>, Seq<char>>, ErrorModel>
    decreases s.len() - i,
        when 0 <= i
        via spec_decode_from_dec
{
    if i >= s.len() {
        Ok(acc)
    } else {
        match spec_tag(s.subrange(i, s.len() as int), regs) {
            Err(e) => Err(e),
            Ok((d, tag_len)) => match spec_length(s.subrange(i + tag_len, s.len() as int)) {
                Err(e) => Err(e),
                Ok((vlen, len_len)) => match spec_value(
                    s.subrange(i + tag_len + len_len, s.len() as int),
                    vlen,
                    d,
                ) {
                    Err(e) => Err(e),
                    Ok(v) => spec_decode_from(
                        s,
                        regs,
                        i + tag_len + len_len + 2 * vlen,
                        acc.insert(d.name, v),
                    ),
                },
            },
        }
    }
}

/// Each decoded element consumes at least one character, within
/// bounds, so the decode terminates.
#[via_fn]
proof fn spec_decode_from_dec(
    s: Seq<char>,
    regs: Seq<TagDataModel>,
    i: int,
    acc: Map<Seq<char>, Seq<char>>,
) {
    if i < s.len() {
        let t = s.subrange(i, s.len() as int);
        if let Ok(p) = spec_tag(t, regs) {
            let tag_len = p.1;
            assert(tag_len == 2 || tag_len == 4);
            assert(tag_len <= t.len());
            let t2 = s.subrange(i + tag_len, s.len() as int);
            if let Ok(q) = spec_length(t2) {
                let vlen = q.0;
                let len_len = q.1;
                assert(1 <= vlen);
                assert(2 <= len_len <= t2.len());
                let t3 = s.subrange(i + tag_len + len_len, s.len() as int);
                if spec_value(t3, vlen, p.0) is Ok {
                    assert(2 * vlen <= t3.len());
                }
            }
        }
    }
}

/// The whole decode of `s` against the registry model `regs`.
pub open spec fn spec_decode(s: Seq<char>, regs: Seq<TagDataModel>) -> Result<
    Map<Seq<char>, Seq<char>>,
    ErrorModel,
> {
    spec_decode_from(s, regs, 0, Map::empty())
}

/// What a decode call returns: exactly the mapping or the error that
/// `spec_decode` gives, compared by view.
pub open spec fn decode_result_matches(
    s: Seq<char>,
    regs: Seq<TagDataModel>,
    r: Result<OutputMap, IccError>,
) -> bool {
    match r {
        Ok(m) => spec_decode(s, regs) == Ok::<Map<Seq<char>, Seq<char>>, ErrorModel>(m@) && m.wf(),
        Err(e) => spec_decode(s, regs) == Err::<Map<Seq<char>, Seq<char>>, ErrorModel>(e@),
    }
}

/// Decodes the tag at the head of `rest` and looks it up in `reg`.
fn decode_tag<'a>(rest: &str, reg: &'a Registry) -> (r: Result<(&'a TagData, usize), IccError>)
    ensures
        match r {
            Ok(p) => spec_tag(rest@, reg@) == Ok::<(TagDataModel, int), ErrorModel>(
                (p.0@, p.1 as int),
            ) && (p.1 == 2 || p.1 == 4) && p.1 <= rest@.len(),
            Err(e) => spec_tag(rest@, reg@) == Err::<(TagDataModel, int), ErrorModel>(e@),
        },
{
    let n = rest.unicode_len();
    if n < 2 {
        return Err(IccError::GenericError);
    }
    let c0 = rest.get_char(0);
    let c1 = rest.get_char(1);
    let ghost t2 = rest@.subrange(0, 2);
    proof {
        assert(t2[0] == c0);
        assert(t2[1] == c1);
    }
    let d0 = match hex_digit_value(c0) {
        Some(v) => v,
        None => {
            return Err(IccError::InvalidHex(rest.substring_char(0, 2).to_owned()));
        },
    };
    let d1 = match hex_digit_value(c1) {
        Some(v) => v,
        None => {
            return Err(IccError::InvalidHex(rest.substring_char(0, 2).to_owned()));
        },
    };
    let b: u16 = (d0 as u16) * 16 + (d1 as u16);
    proof {
        lemma_hex_seq_val_pair(t2);
        assert(all_hex(t2));
        assert(b == hex_seq_val(t2));
    }
    let tag_len: usize = if b % 32 == 31 {
        4
    } else {
        2
    };
    if n < tag_len {
        return Err(IccError::GenericError);
    }
    let text = rest.substring_char(0, tag_len);
    let upper = upper_string(text);
    match reg.lookup(&upper) {
        Some(d) => Ok((d, tag_len)),
        None => Err(IccError::BadTag(text.to_owned())),
    }
}

/// Decodes the length field at the head of `slice`.
pub fn unhexify_length(slice: &str) -> (r: Result<(usize, usize), IccError>)
    ensures
        match r {
            Ok(p) => spec_length(slice@) == Ok::<(int, int), ErrorModel>((p.0 as int, p.1 as int))
                && 1 <= p.0 && 2 <= p.1 <= slice@.len(),
            Err(e) => spec_length(slice@) == Err::<(int, int), ErrorModel>(e@),
        },
{
    let n = slice.unicode_len();
    if n < 2 {
        return Err(IccError::BadLength("length is missing for this tag!".to_owned()));
    }
    let ghost t2 = slice@.subrange(0, 2);
    let first = match parse_hex_range(slice, 0, 2) {
        Some(v) => v,
        None => {
            proof {
                if all_hex(t2) {
                    lemma_hex_pair_bound(t2);
                }
            }
            return Err(IccError::InvalidHex(slice.substring_char(0, 2).to_owned()));
        },
    };
    if first < 128 {
        if first < 1 {
            return Err(IccError::BadLength("too short".to_owned()));
        }
        return Ok((first, 2));
    }
    proof {
        lemma_hex_pair_bound(t2);
    }
    let k = first - 128;
    if k == 0 {
        return Err(IccError::BadLength("length is missing for this tag!".to_owned()));
    }
    if n - 2 < 2 * k {
        return Err(IccError::BadLength("length is missing for this tag!".to_owned()));
    }
    let ext = match parse_hex_range(slice, 2, 2 + 2 * k) {
        Some(v) => v,
        None => {
            return Err(IccError::InvalidHex(slice.substring_char(2, 2 + 2 * k).to_owned()));
        },
    };
    if ext < 1 {
        return Err(IccError::BadLength("too short".to_owned()));
    }
    Ok((ext, 2 + 2 * k))
}

/// Extracts and upper-cases the value region at the head of `rest`.
fn extract_value(rest: &str, len_bytes: usize, d: &TagData) -> (r: Result<String, IccError>)
    ensures
        match r {
            Ok(v) => spec_value(rest@, len_bytes as int, d@) == Ok::<Seq<char>, ErrorModel>(v@) && 2
                * len_bytes <= rest@.len(),
            Err(e) => spec_value(rest@, len_bytes as int, d@) == Err::<Seq<char>, ErrorModel>(e@),
        },
{
    let n = rest.unicode_len();
    if len_bytes > n / 2 {
        proof {
            assert(n == 2 * (n / 2) + n % 2);
        }
        return Err(IccError::GenericError);
    }
    proof {
        assert(n == 2 * (n / 2) + n % 2);
    }
    if len_bytes > d.max_length() {
        return Err(IccError::GenericError);
    }
    let text = rest.substring_char(0, 2 * len_bytes);
    Ok(upper_string(text))
}

/// Decodes a hex TLV text against `reg`: the parse loop drives tag,
/// length and value decoding in sequence, advancing a single cursor,
/// until it lands exactly on the end of the input. Any failure aborts
/// the whole decode; no partial mapping is returned.
pub fn decode_with_registry(icc: &str, reg: &Registry) -> (r: Result<OutputMap, IccError>)
    ensures
        decode_result_matches(icc@, reg@, r),
{
    let n = icc.unicode_len();
    let mut out = OutputMap::new();
    let mut i: usize = 0;
    while i < n
        invariant
            n == icc@.len(),
            i <= n,
            out.wf(),
            spec_decode_from(icc@, reg@, i as int, out@) == spec_decode(icc@, reg@),
        decreases n - i,
    {
        let rest = icc.substring_char(i, n);
        let (d, tag_len) = match decode_tag(rest, reg) {
            Ok(p) => p,
            Err(e) => {
                return Err(e);
            },
        };
        let rest_len = icc.substring_char(i + tag_len, n);
        let (vlen, len_len) = match unhexify_length(rest_len) {
            Ok(p) => p,
            Err(e) => {
                return Err(e);
            },
        };
        let rest_val = icc.substring_char(i + tag_len + len_len, n);
        let value = match extract_value(rest_val, vlen, d) {
            Ok(v) => v,
            Err(e) => {
                return Err(e);
            },
        };
        let ghost pre_out = out@;
        out.insert(d.name().clone(), value);
        proof {
            assert(spec_decode_from(icc@, reg@, i as int, pre_out) == spec_decode_from(
                icc@,
                reg@,
                i + tag_len + len_len + 2 * vlen,
                pre_out.insert(d@.name, value@),
            ));
        }
        i = i + tag_len + len_len + 2 * vlen;
    }
    Ok(out)
}

/// Decodes a hex TLV text against the default registry: on success,
/// the mapping from each element's registered field name to its
/// upper-cased hex value text; on failure, the first error met.
pub fn parse_icc(icc: &str) -> (r: Result<OutputMap, IccError>)
    ensures
        decode_result_matches(icc@, default_tags(), r),
{
    let reg = get_tag_data();
    decode_with_registry(icc, &reg)
}

} // verus!
