//! The tag registry: which tags are recognised, under what field name,
//! and with what value length bounds.

use vstd::prelude::*;
use vstd::string::StrSliceExecFns;

verus! {

/// Mathematical model of one tag definition.
pub ghost struct TagDataModel {
    pub name: Seq<char>,
    pub tag: Seq<char>,
    pub max_length: int,
    pub min_length: int,
}

/// One registry entry: a canonical tag text, the semantic name of the
/// field it carries, and the permitted value length bounds in bytes.
/// `min_length` is part of the definition but is not enforced by the
/// decoder; only `max_length` is checked.
pub struct TagData {
    name: String,
    tag: String,
    max_length: usize,
    min_length: usize,
}

impl View for TagData {
    type V = TagDataModel;

    closed spec fn view(&self) -> TagDataModel {
        TagDataModel {
            name: self.name@,
            tag: self.tag@,
            max_length: self.max_length as int,
            min_length: self.min_length as int,
        }
    }
}

impl TagData {
    pub fn new(name: &str, tag: &str, max_length: usize, min_length: usize) -> (r: Self)
        ensures
            r@ == (TagDataModel {
                name: name@,
                tag: tag@,
                max_length: max_length as int,
                min_length: min_length as int,
            }),
    {
        TagData { name: name.to_owned(), tag: tag.to_owned(), max_length, min_length }
    }

    /// The registered field name.
    pub fn name(&self) -> (r: &String)
        ensures
            r@ == self@.name,
    {
        &self.name
    }

    /// The canonical tag text.
    pub fn tag(&self) -> (r: &String)
        ensures
            r@ == self@.tag,
    {
        &self.tag
    }

    /// Maximum permitted value length, in bytes.
    pub fn max_length(&self) -> (r: usize)
        ensures
            r == self@.max_length,
    {
        self.max_length
    }

    /// Minimum permitted value length, in bytes (recorded, not
    /// enforced).
    pub fn min_length(&self) -> (r: usize)
        ensures
            r == self@.min_length,
    {
        self.min_length
    }
}

/// An uppercase hexadecimal digit.
pub open spec fn is_upper_hex_digit(c: char) -> bool {
    ('0' <= c && c <= '9') || ('A' <= c && c <= 'F')
}

/// A well-formed tag definition: nonempty name, and a tag text of one
/// or two encoded bytes written in uppercase hex.
pub open spec fn wf_tag_def(d: TagDataModel) -> bool {
    &&& d.name.len() > 0
    &&& (d.tag.len() == 2 || d.tag.len() == 4)
    &&& forall|j: int| 0 <= j < d.tag.len() ==> is_upper_hex_digit(#[trigger] d.tag[j])
}

/// First entry whose tag text equals `t`, scanning from the front.
pub open spec fn spec_lookup(regs: Seq<TagDataModel>, t: Seq<char>) -> Option<TagDataModel>
    decreases regs.len(),
{
    if regs.len() == 0 {
        None
    } else if regs[0].tag == t {
        Some(regs[0])
    } else {
        spec_lookup(regs.subrange(1, regs.len() as int), t)
    }
}

/// The registry: tag definitions looked up by exact tag text.
/// Invariant (`wf`): every entry is well formed and no two entries
/// share a tag, so each tag maps to at most one definition.
pub struct Registry {
    entries: Vec<TagData>,
}

impl View for Registry {
    type V = Seq<TagDataModel>;

    closed spec fn view(&self) -> Seq<TagDataModel> {
        self.entries@.map_values(|d: TagData| d@)
    }
}

impl Registry {
    /// The registry invariant: well-formed entries, pairwise distinct
    /// tags.
    pub open spec fn wf(&self) -> bool {
        &&& forall|i: int| 0 <= i < self@.len() ==> wf_tag_def(#[trigger] self@[i])
        &&& forall|i: int, j: int| 0 <= i < j < self@.len() ==> self@[i].tag != self@[j].tag
    }

    /// An empty registry.
    pub fn new() -> (r: Self)
        ensures
            r@ =~= Seq::<TagDataModel>::empty(),
            r.wf(),
    {
        let r = Registry { entries: Vec::new() };
        proof {
            assert(r@ =~= Seq::<TagDataModel>::empty());
        }
        r
    }

    /// Adds a definition at the end. Refused (`false`, registry
    /// unchanged) where the definition is not well formed or an entry
    /// with its tag is already present.
    pub fn insert(&mut self, d: TagData) -> (ok: bool)
        requires
            old(self).wf(),
        ensures
            final(self).wf(),
            ok <==> (wf_tag_def(d@) && spec_lookup(old(self)@, d@.tag) is None),
            ok ==> final(self)@ =~= old(self)@.push(d@),
            !ok ==> final(self)@ == old(self)@,
    {
        let name_len = d.name.as_str().unicode_len();
        if name_len == 0 {
            return false;
        }
        let tag_len = d.tag.as_str().unicode_len();
        if tag_len != 2 && tag_len != 4 {
            return false;
        }
        let mut j: usize = 0;
        while j < tag_len
            invariant
                self == old(self),
                old(self).wf(),
                j <= tag_len,
                tag_len == d@.tag.len(),
                forall|i: int| 0 <= i < j ==> is_upper_hex_digit(#[trigger] d@.tag[i]),
            decreases tag_len - j,
        {
            if !is_upper_hex_char(d.tag.as_str().get_char(j)) {
                return false;
            }
            j = j + 1;
        }
        if self.lookup(&d.tag).is_some() {
            proof {
                assert(spec_lookup(self@, d@.tag) is Some);
            }
            return false;
        }
        proof {
            assert(wf_tag_def(d@));
        }
        let ghost pre = self@;
        self.entries.push(d);
        proof {
            assert(self@ =~= pre.push(d@));
            assert forall|i: int, jj: int| 0 <= i < jj < self@.len() implies self@[i].tag
                != self@[jj].tag by {
                if jj == self@.len() - 1 {
                    lemma_lookup_none_means_absent(pre, d@.tag, i);
                }
            }
        }
        true
    }

    /// Looks a tag text up: the first (given `wf`, the only) entry
    /// whose tag equals it.
    pub fn lookup(&self, t: &String) -> (r: Option<&TagData>)
        ensures
            match r {
                Some(d) => spec_lookup(self@, t@) == Some(d@),
                None => spec_lookup(self@, t@) is None,
            },
    {
        let n = self.entries.len();
        proof {
            assert(self@.subrange(0, self@.len() as int) =~= self@);
        }
        let mut j: usize = 0;
        while j < n
            invariant
                j <= n,
                n == self.entries@.len(),
                spec_lookup(self@, t@) == spec_lookup(
                    self@.subrange(j as int, self@.len() as int),
                    t@,
                ),
            decreases n - j,
        {
            let ghost rest = self@.subrange(j as int, self@.len() as int);
            if self.entries[j].tag == *t {
                proof {
                    assert(rest[0] == self@[j as int]);
                }
                return Some(&self.entries[j]);
            }
            proof {
                assert(rest[0] == self@[j as int]);
                assert(rest.subrange(1, rest.len() as int) =~= self@.subrange(
                    j + 1,
                    self@.len() as int,
                ));
            }
            j = j + 1;
        }
        proof {
            assert(self@.subrange(n as int, self@.len() as int).len() == 0);
        }
        None
    }

    /// Number of entries.
    pub fn len(&self) -> (r: usize)
        ensures
            r == self@.len(),
    {
        self.entries.len()
    }
}

/// When a lookup fails, no entry carries that tag.
proof fn lemma_lookup_none_means_absent(regs: Seq<TagDataModel>, t: Seq<char>, i: int)
    requires
        spec_lookup(regs, t) is None,
        0 <= i < regs.len(),
    ensures
        regs[i].tag != t,
    decreases regs.len(),
{
    if i > 0 {
        lemma_lookup_none_means_absent(regs.subrange(1, regs.len() as int), t, i - 1);
    }
}

/// An uppercase hexadecimal digit.
pub fn is_upper_hex_char(c: char) -> (r: bool)
    ensures
        r == is_upper_hex_digit(c),
{
    match c {
        '0' | '1' | '2' | '3' | '4' | '5' | '6' | '7' | '8' | '9' => true,
        'A' | 'B' | 'C' | 'D' | 'E' | 'F' => true,
        _ => false,
    }
}

/// Model of the registry that `get_tag_data` builds:
/// exactly one entry, tag `9F33`, field `terminalcapabilities`, value
/// length bounds 6/6.
pub open spec fn default_tags() -> Seq<TagDataModel> {
    seq![
        TagDataModel {
            name: "terminalcapabilities"@,
            tag: "9F33"@,
            max_length: 6,
            min_length: 6,
        },
    ]
}

/// The default registry.
pub fn get_tag_data() -> (r: Registry)
    ensures
        r@ =~= default_tags(),
        r.wf(),
{
    let mut reg = Registry::new();
    let d = TagData::new("terminalcapabilities", "9F33", 6, 6);
    let ghost dm = d@;
    let ok = reg.insert(d);
    proof {
        reveal_strlit("terminalcapabilities");
        reveal_strlit("9F33");
        assert(dm.name.len() == 20);
        assert(dm.tag.len() == 4);
        assert forall|j: int| 0 <= j < dm.tag.len() implies is_upper_hex_digit(
            #[trigger] dm.tag[j],
        ) by {
            assert(dm.tag[0] == '9');
            assert(dm.tag[1] == 'F');
            assert(dm.tag[2] == '3');
            assert(dm.tag[3] == '3');
        }
        assert(wf_tag_def(dm));
        assert(ok);
        assert(reg@ =~= default_tags());
    }
    reg
}

} // verus!
