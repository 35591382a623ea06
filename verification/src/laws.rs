//! Laws of the decoder, stated over the specification model and
//! proved once for all inputs.

use vstd::prelude::*;
use crate::decode::decode_result_matches;
use crate::decode::spec_decode;
use crate::decode::spec_decode_from;
use crate::decode::spec_length;
use crate::decode::spec_tag;
use crate::decode::spec_value;
use crate::error::ErrorModel;
use crate::error::IccError;
use crate::hex::all_hex;
use crate::hex::hex_seq_val;
use crate::hex::lemma_hex_pair_bound;
use crate::hex::upper_seq;
use crate::output::OutputMap;
use crate::registry::TagDataModel;
use crate::registry::spec_lookup;

verus! {

/// Decoding is a pure function of the input text and the registry:
/// any two results that meet a decode's contract for the same input
/// agree, mapping with mapping or error with error. Nothing is
/// mutated: the decoder takes the input and the registry by shared
/// reference and builds a fresh mapping.
pub proof fn lemma_decode_deterministic(
    s: Seq<char>,
    regs: Seq<TagDataModel>,
    r1: Result<OutputMap, IccError>,
    r2: Result<OutputMap, IccError>,
)
    requires
        decode_result_matches(s, regs, r1),
        decode_result_matches(s, regs, r2),
    ensures
        match (r1, r2) {
            (Ok(m1), Ok(m2)) => m1@ == m2@,
            (Err(e1), Err(e2)) => e1@ == e2@,
            _ => false,
        },
{
}

/// A tag whose first byte's low five bits are not all ones is a
/// single-byte tag: decoding consumes exactly two characters, and the
/// lookup key is that byte's text alone.
pub proof fn lemma_single_byte_tag(t: Seq<char>, regs: Seq<TagDataModel>)
    requires
        2 <= t.len(),
        all_hex(t.subrange(0, 2)),
        hex_seq_val(t.subrange(0, 2)) % 32 != 31,
    ensures
        spec_tag(t, regs) == (match spec_lookup(regs, upper_seq(t.subrange(0, 2))) {
            Some(d) => Ok::<(TagDataModel, int), ErrorModel>((d, 2)),
            None => Err::<(TagDataModel, int), ErrorModel>(ErrorModel::BadTag(t.subrange(0, 2))),
        }),
{
}

/// A length prefix byte `0x81` (high bit set, low seven bits one)
/// consumes exactly one further length byte, and that byte's value is
/// the length in bytes.
pub proof fn lemma_long_form_one_byte(t: Seq<char>)
    requires
        4 <= t.len(),
        all_hex(t.subrange(0, 4)),
        hex_seq_val(t.subrange(0, 2)) == 0x81,
        1 <= hex_seq_val(t.subrange(2, 4)),
    ensures
        spec_length(t) == Ok::<(int, int), ErrorModel>((hex_seq_val(t.subrange(2, 4)), 4)),
{
    assert(t.subrange(0, 2) =~= t.subrange(0, 4).subrange(0, 2));
    assert(t.subrange(2, 4) =~= t.subrange(0, 4).subrange(2, 4));
    assert(all_hex(t.subrange(0, 2)));
    assert(all_hex(t.subrange(2, 4)));
    lemma_hex_pair_bound(t.subrange(2, 4));
    assert(usize::MAX >= 0xFFFF_FFFF as usize);
}

/// A declared length above the matched tag's maximum is refused with
/// the structural error, even where the value region is present in
/// full.
pub proof fn lemma_value_above_maximum(t: Seq<char>, len: int, d: TagDataModel)
    requires
        2 * len <= t.len(),
        len > d.max_length,
    ensures
        spec_value(t, len, d) == Err::<Seq<char>, ErrorModel>(ErrorModel::Generic),
{
}

/// One data element, described by its three regions of text.
pub ghost struct SpecElement {
    pub tag_text: Seq<char>,
    pub len_text: Seq<char>,
    pub value_text: Seq<char>,
}

/// The length field `l` encodes `len`: either the short form (a
/// single byte below 128 that is the length itself) or the long form
/// (a count byte `0x80 + k` followed by `k` big-endian length bytes).
pub open spec fn encodes_length(l: Seq<char>, len: int) -> bool {
    &&& all_hex(l)
    &&& 1 <= len <= usize::MAX
    &&& ((l.len() == 2 && hex_seq_val(l) == len && len < 128) || (l.len() >= 4 && l.len() % 2 == 0
        && (l.len() - 2) / 2 <= 127 && hex_seq_val(l.subrange(0, 2)) == 128 + (l.len() - 2) / 2
        && hex_seq_val(l.subrange(2, l.len() as int)) == len))
}

impl SpecElement {
    /// The element's text: tag, length field, value, concatenated.
    pub open spec fn text(self) -> Seq<char> {
        self.tag_text + self.len_text + self.value_text
    }

    /// The value's length in bytes.
    pub open spec fn byte_len(self) -> int {
        self.value_text.len() as int / 2
    }

    /// A well-built element against `regs`: the tag text is one or
    /// two hex-encoded bytes as the extension rule demands and is
    /// registered once upper-cased; the length field encodes the
    /// value's byte count; the value region is nonempty, of even
    /// length, and within the tag's maximum.
    pub open spec fn valid(self, regs: Seq<TagDataModel>) -> bool {
        &&& (self.tag_text.len() == 2 || self.tag_text.len() == 4)
        &&& all_hex(self.tag_text.subrange(0, 2))
        &&& (hex_seq_val(self.tag_text.subrange(0, 2)) % 32 == 31 <==> self.tag_text.len() == 4)
        &&& spec_lookup(regs, upper_seq(self.tag_text)) is Some
        &&& encodes_length(self.len_text, self.byte_len())
        &&& self.value_text.len() % 2 == 0
        &&& 2 <= self.value_text.len()
        &&& self.byte_len() <= spec_lookup(regs, upper_seq(self.tag_text))->Some_0.max_length
    }

    /// The registered field name of the element's tag.
    pub open spec fn name(self, regs: Seq<TagDataModel>) -> Seq<char> {
        spec_lookup(regs, upper_seq(self.tag_text))->Some_0.name
    }
}

/// The text of a run of elements, concatenated first to last.
pub open spec fn elements_text(es: Seq<SpecElement>) -> Seq<char>
    decreases es.len(),
{
    if es.len() == 0 {
        Seq::empty()
    } else {
        es[0].text() + elements_text(es.subrange(1, es.len() as int))
    }
}

/// The mapping a run of elements denotes, built first to last over
/// `acc`: one entry per element, keyed by the registered name, valued
/// by the upper-cased value text; a later element with the same name
/// overwrites an earlier one.
pub open spec fn elements_map(
    es: Seq<SpecElement>,
    regs: Seq<TagDataModel>,
    acc: Map<Seq<char>, Seq<char>>,
) -> Map<Seq<char>, Seq<char>>
    decreases es.len(),
{
    if es.len() == 0 {
        acc
    } else {
        elements_map(
            es.subrange(1, es.len() as int),
            regs,
            acc.insert(es[0].name(regs), upper_seq(es[0].value_text)),
        )
    }
}

/// Decoding the tag of a well-built element consumes the element's
/// tag text, whatever follows it.
proof fn lemma_tag_of_valid(e: SpecElement, rest: Seq<char>, regs: Seq<TagDataModel>)
    requires
        e.valid(regs),
    ensures
        spec_tag(e.text() + rest, regs) == Ok::<(TagDataModel, int), ErrorModel>(
            (spec_lookup(regs, upper_seq(e.tag_text))->Some_0, e.tag_text.len() as int),
        ),
{
    let t = e.text() + rest;
    assert(t.subrange(0, 2) =~= e.tag_text.subrange(0, 2));
    if e.tag_text.len() == 4 {
        assert(t.subrange(0, 4) =~= e.tag_text);
    } else {
        assert(t.subrange(0, 2) =~= e.tag_text);
    }
}

/// Decoding a length field consumes exactly it, whatever follows it.
proof fn lemma_length_of_encoding(l: Seq<char>, len: int, rest: Seq<char>)
    requires
        encodes_length(l, len),
    ensures
        spec_length(l + rest) == Ok::<(int, int), ErrorModel>((len, l.len() as int)),
{
    let t = l + rest;
    assert(t.subrange(0, 2) =~= l.subrange(0, 2));
    if l.len() == 2 && hex_seq_val(l) == len && len < 128 {
        assert(t.subrange(0, 2) =~= l);
    } else {
        let k = (l.len() - 2) / 2;
        assert(l.len() == 2 + 2 * k);
        assert(t.subrange(2, 2 + 2 * k) =~= l.subrange(2, l.len() as int));
        assert(hex_seq_val(t.subrange(0, 2)) == 128 + k);
        assert(!(hex_seq_val(t.subrange(0, 2)) < 128));
        assert(all_hex(t.subrange(2, 2 + 2 * k)));
    }
}

/// Decoding from a position where the remaining text is a run of
/// well-built elements succeeds and adds exactly their entries.
proof fn lemma_decode_valid_elements_from(
    s: Seq<char>,
    es: Seq<SpecElement>,
    regs: Seq<TagDataModel>,
    i: int,
    acc: Map<Seq<char>, Seq<char>>,
)
    requires
        0 <= i <= s.len(),
        s.subrange(i, s.len() as int) == elements_text(es),
        forall|j: int| 0 <= j < es.len() ==> #[trigger] es[j].valid(regs),
    ensures
        spec_decode_from(s, regs, i, acc) == Ok::<Map<Seq<char>, Seq<char>>, ErrorModel>(
            elements_map(es, regs, acc),
        ),
    decreases es.len(),
{
    let t = s.subrange(i, s.len() as int);
    if es.len() == 0 {
        assert(t.len() == 0);
        assert(i == s.len());
    } else {
        let e = es[0];
        assert(e.valid(regs));
        let es2 = es.subrange(1, es.len() as int);
        let rest = elements_text(es2);
        assert(t == e.text() + rest);
        let tl = e.tag_text.len() as int;
        let ll = e.len_text.len() as int;
        let vl = e.value_text.len() as int;
        let d = spec_lookup(regs, upper_seq(e.tag_text))->Some_0;
        lemma_tag_of_valid(e, rest, regs);
        assert(spec_tag(t, regs) == Ok::<(TagDataModel, int), ErrorModel>((d, tl)));
        let t2 = s.subrange(i + tl, s.len() as int);
        assert(t2 =~= t.subrange(tl, t.len() as int));
        assert(t.subrange(tl, t.len() as int) =~= e.len_text + (e.value_text + rest));
        lemma_length_of_encoding(e.len_text, e.byte_len(), e.value_text + rest);
        assert(spec_length(t2) == Ok::<(int, int), ErrorModel>((e.byte_len(), ll)));
        let t3 = s.subrange(i + tl + ll, s.len() as int);
        assert(t3 =~= t.subrange(tl + ll, t.len() as int));
        assert(t.subrange(tl + ll, t.len() as int) =~= e.value_text + rest);
        assert(2 * e.byte_len() == vl);
        assert(t3.subrange(0, vl) =~= e.value_text);
        assert(spec_value(t3, e.byte_len(), d) == Ok::<Seq<char>, ErrorModel>(
            upper_seq(e.value_text),
        ));
        let i2 = i + tl + ll + vl;
        let acc2 = acc.insert(e.name(regs), upper_seq(e.value_text));
        assert(spec_decode_from(s, regs, i, acc) == spec_decode_from(s, regs, i2, acc2));
        assert(s.subrange(i2, s.len() as int) =~= t.subrange(tl + ll + vl, t.len() as int));
        assert(t.subrange(tl + ll + vl, t.len() as int) =~= rest);
        assert forall|j: int| 0 <= j < es2.len() implies #[trigger] es2[j].valid(regs) by {
            assert(es2[j] == es[j + 1]);
        }
        lemma_decode_valid_elements_from(s, es2, regs, i2, acc2);
        assert(elements_map(es, regs, acc) == elements_map(es2, regs, acc2));
    }
}

/// Decoding a concatenation of well-built elements succeeds, and the
/// mapping holds exactly one entry per element, keyed by the
/// registered field name, valued by the upper-cased value text (a
/// later element with a duplicate name overwriting an earlier one).
pub proof fn lemma_decode_valid_elements(es: Seq<SpecElement>, regs: Seq<TagDataModel>)
    requires
        forall|j: int| 0 <= j < es.len() ==> #[trigger] es[j].valid(regs),
    ensures
        spec_decode(elements_text(es), regs) == Ok::<Map<Seq<char>, Seq<char>>, ErrorModel>(
            elements_map(es, regs, Map::empty()),
        ),
{
    let s = elements_text(es);
    assert(s.subrange(0, s.len() as int) =~= s);
    lemma_decode_valid_elements_from(s, es, regs, 0, Map::empty());
}

} // verus!
