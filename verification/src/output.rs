//! The output mapping built by a decode: field name to uppercase hex
//! value text. A later element with the same name overwrites an
//! earlier one.

use vstd::prelude::*;

verus! {

/// Map denoted by an association list; a later pair for a key
/// overrides an earlier one.
pub open spec fn map_of(ps: Seq<(String, String)>) -> Map<Seq<char>, Seq<char>>
    decreases ps.len(),
{
    if ps.len() == 0 {
        Map::empty()
    } else {
        map_of(ps.drop_last()).insert(ps.last().0@, ps.last().1@)
    }
}

/// Keys pairwise distinct.
pub open spec fn distinct_keys(ps: Seq<(String, String)>) -> bool {
    forall|i: int, j: int| 0 <= i < j < ps.len() ==> ps[i].0@ != ps[j].0@
}

/// The decoded output: a mapping from field name to value text.
#[derive(Debug)]
pub struct OutputMap {
    pairs: Vec<(String, String)>,
}

impl View for OutputMap {
    type V = Map<Seq<char>, Seq<char>>;

    closed spec fn view(&self) -> Map<Seq<char>, Seq<char>> {
        map_of(self.pairs@)
    }
}

impl OutputMap {
    /// Invariant: one pair per key.
    pub closed spec fn wf(&self) -> bool {
        distinct_keys(self.pairs@)
    }

    /// An empty mapping.
    pub fn new() -> (r: Self)
        ensures
            r@ == Map::<Seq<char>, Seq<char>>::empty(),
            r.wf(),
    {
        let r = OutputMap { pairs: Vec::new() };
        proof {
            assert(r@ =~= Map::<Seq<char>, Seq<char>>::empty());
        }
        r
    }

    /// Adds `name -> value`, overwriting any prior entry of that name.
    pub fn insert(&mut self, name: String, value: String)
        requires
            old(self).wf(),
        ensures
            final(self).wf(),
            final(self)@ == old(self)@.insert(name@, value@),
    {
        let n = self.pairs.len();
        let mut j: usize = 0;
        while j < n
            invariant
                self == old(self),
                old(self).wf(),
                j <= n,
                n == self.pairs@.len(),
                forall|i: int| 0 <= i < j ==> #[trigger] self.pairs@[i].0@ != name@,
            decreases n - j,
        {
            if self.pairs[j].0 == name {
                let ghost pre = self.pairs@;
                self.pairs[j] = (name, value);
                proof {
                    lemma_map_of_update(pre, j as int, self.pairs@[j as int]);
                }
                return ;
            }
            j = j + 1;
        }
        let ghost pre = self.pairs@;
        self.pairs.push((name, value));
        proof {
            assert(self.pairs@.drop_last() =~= pre);
        }
    }

    /// The value recorded for `name`, if any.
    pub fn get(&self, name: &str) -> (r: Option<&String>)
        requires
            self.wf(),
        ensures
            match r {
                Some(v) => self@.contains_key(name@) && v@ == self@[name@],
                None => !self@.contains_key(name@),
            },
    {
        let key: String = name.to_owned();
        let n = self.pairs.len();
        let mut j: usize = 0;
        while j < n
            invariant
                self.wf(),
                key@ == name@,
                j <= n,
                n == self.pairs@.len(),
                forall|i: int| 0 <= i < j ==> #[trigger] self.pairs@[i].0@ != name@,
            decreases n - j,
        {
            if self.pairs[j].0 == key {
                proof {
                    lemma_map_of_index(self.pairs@, j as int);
                }
                return Some(&self.pairs[j].1);
            }
            j = j + 1;
        }
        proof {
            lemma_map_of_keys(self.pairs@, name@);
        }
        None
    }

    /// The entries as name/value pairs, first insertion first.
    pub fn into_pairs(self) -> (r: Vec<(String, String)>)
        ensures
            map_of(r@) == self@,
            self.wf() ==> distinct_keys(r@),
    {
        self.pairs
    }

    /// Number of entries.
    pub fn len(&self) -> (r: usize)
        requires
            self.wf(),
        ensures
            r == self@.dom().len(),
    {
        proof {
            lemma_map_of_dom_len(self.pairs@);
        }
        self.pairs.len()
    }
}

/// A key of the denoted map is the key of some pair.
proof fn lemma_map_of_keys(ps: Seq<(String, String)>, k: Seq<char>)
    requires
        forall|i: int| 0 <= i < ps.len() ==> #[trigger] ps[i].0@ != k,
    ensures
        !map_of(ps).contains_key(k),
    decreases ps.len(),
{
    if ps.len() > 0 {
        assert(ps.last() == ps[ps.len() - 1]);
        assert forall|i: int| 0 <= i < ps.drop_last().len() implies #[trigger] ps.drop_last()[i].0@
            != k by {
            assert(ps.drop_last()[i] == ps[i]);
        }
        lemma_map_of_keys(ps.drop_last(), k);
    }
}

/// With distinct keys, each pair is denoted exactly.
proof fn lemma_map_of_index(ps: Seq<(String, String)>, j: int)
    requires
        distinct_keys(ps),
        0 <= j < ps.len(),
    ensures
        map_of(ps).contains_key(ps[j].0@),
        map_of(ps)[ps[j].0@] == ps[j].1@,
    decreases ps.len(),
{
    if j == ps.len() - 1 {
        assert(ps.last() == ps[j]);
    } else {
        assert(distinct_keys(ps.drop_last())) by {
            assert(forall|a: int, b: int|
                0 <= a < b < ps.drop_last().len() ==> ps.drop_last()[a] == ps[a]
                    && ps.drop_last()[b] == ps[b]);
        }
        assert(ps.drop_last()[j] == ps[j]);
        lemma_map_of_index(ps.drop_last(), j);
        assert(ps.last() == ps[ps.len() - 1]);
        assert(ps[ps.len() - 1].0@ != ps[j].0@);
    }
}

/// Replacing the pair that holds a key denotes `insert` of that key.
proof fn lemma_map_of_update(ps: Seq<(String, String)>, j: int, p: (String, String))
    requires
        distinct_keys(ps),
        0 <= j < ps.len(),
        p.0@ == ps[j].0@,
    ensures
        map_of(ps.update(j, p)) == map_of(ps).insert(p.0@, p.1@),
        distinct_keys(ps.update(j, p)),
    decreases ps.len(),
{
    let ps2 = ps.update(j, p);
    assert forall|a: int, b: int| 0 <= a < b < ps2.len() implies ps2[a].0@ != ps2[b].0@ by {
        assert(a != j ==> ps2[a] == ps[a]);
        assert(b != j ==> ps2[b] == ps[b]);
    }
    if j == ps.len() - 1 {
        assert(ps2.drop_last() =~= ps.drop_last());
        assert(ps2.last() == p);
        assert(ps.last() == ps[j]);
        assert(map_of(ps.drop_last()).insert(p.0@, p.1@) =~= map_of(ps.drop_last()).insert(
            ps[j].0@,
            ps[j].1@,
        ).insert(p.0@, p.1@));
    } else {
        assert(distinct_keys(ps.drop_last())) by {
            assert(forall|a: int, b: int|
                0 <= a < b < ps.drop_last().len() ==> ps.drop_last()[a] == ps[a]
                    && ps.drop_last()[b] == ps[b]);
        }
        assert(ps.drop_last()[j] == ps[j]);
        lemma_map_of_update(ps.drop_last(), j, p);
        assert(ps2.drop_last() =~= ps.drop_last().update(j, p));
        assert(ps2.last() == ps.last());
        assert(ps.last() == ps[ps.len() - 1]);
        assert(ps[ps.len() - 1].0@ != p.0@);
        assert(map_of(ps.drop_last()).insert(p.0@, p.1@).insert(ps.last().0@, ps.last().1@)
            =~= map_of(ps.drop_last()).insert(ps.last().0@, ps.last().1@).insert(p.0@, p.1@));
    }
}

/// With distinct keys, the denoted map has one key per pair.
proof fn lemma_map_of_dom_len(ps: Seq<(String, String)>)
    requires
        distinct_keys(ps),
    ensures
        map_of(ps).dom().finite(),
        map_of(ps).dom().len() == ps.len(),
    decreases ps.len(),
{
    if ps.len() == 0 {
        assert(map_of(ps).dom() =~= Set::<Seq<char>>::empty());
    } else {
        assert(distinct_keys(ps.drop_last())) by {
            assert(forall|a: int, b: int|
                0 <= a < b < ps.drop_last().len() ==> ps.drop_last()[a] == ps[a]
                    && ps.drop_last()[b] == ps[b]);
        }
        lemma_map_of_dom_len(ps.drop_last());
        assert(ps.last() == ps[ps.len() - 1]);
        assert forall|i: int| 0 <= i < ps.drop_last().len() implies #[trigger] ps.drop_last()[i].0@
            != ps.last().0@ by {
            assert(ps.drop_last()[i] == ps[i]);
        }
        lemma_map_of_keys(ps.drop_last(), ps.last().0@);
        assert(map_of(ps).dom() =~= map_of(ps.drop_last()).dom().insert(ps.last().0@));
    }
}

} // verus!
