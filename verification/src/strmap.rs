//! A string-keyed map with a mathematical `Map` view.
//!
//! The merged configuration state is a pair of these maps.  Keys are held in
//! a vector of pairs with no key repeated, so that the number of entries and
//! the domain of the view always agree.
use vstd::prelude::*;

verus! {

/// The map described by a sequence of key/value pairs, later pairs
/// overriding earlier ones.
pub open spec fn pairs_to_map(ps: Seq<(Seq<char>, Seq<char>)>) -> Map<Seq<char>, Seq<char>>
    decreases ps.len(),
{
    if ps.len() == 0 {
        Map::empty()
    } else {
        pairs_to_map(ps.drop_last()).insert(ps.last().0, ps.last().1)
    }
}

/// No two pairs carry the same key.
pub open spec fn distinct_keys(ps: Seq<(Seq<char>, Seq<char>)>) -> bool {
    forall|i: int, j: int| 0 <= i < j < ps.len() ==> ps[i].0 != ps[j].0
}

/// A key is in the map of a pair sequence exactly when some pair carries it.
pub proof fn lemma_pairs_to_map_contains(ps: Seq<(Seq<char>, Seq<char>)>, k: Seq<char>)
    ensures
        pairs_to_map(ps).contains_key(k) <==> exists|i: int| 0 <= i < ps.len() && ps[i].0 == k,
    decreases ps.len(),
{
    if ps.len() > 0 {
        lemma_pairs_to_map_contains(ps.drop_last(), k);
        if ps.last().0 == k {
            assert(ps[ps.len() - 1].0 == k);
        } else if pairs_to_map(ps.drop_last()).contains_key(k) {
            let i = choose|i: int| 0 <= i < ps.drop_last().len() && ps.drop_last()[i].0 == k;
            assert(ps[i].0 == k);
        } else if exists|i: int| 0 <= i < ps.len() && ps[i].0 == k {
            let i = choose|i: int| 0 <= i < ps.len() && ps[i].0 == k;
            assert(0 <= i < ps.len() - 1);
            assert(ps.drop_last()[i].0 == k);
        }
    }
}

/// With distinct keys, each pair's value is the one the map holds for its key.
pub proof fn lemma_pairs_to_map_value(ps: Seq<(Seq<char>, Seq<char>)>, i: int)
    requires
        distinct_keys(ps),
        0 <= i < ps.len(),
    ensures
        pairs_to_map(ps).contains_key(ps[i].0),
        pairs_to_map(ps)[ps[i].0] == ps[i].1,
    decreases ps.len(),
{
    if i == ps.len() - 1 {
    } else {
        assert(distinct_keys(ps.drop_last()));
        assert(ps.drop_last()[i] == ps[i]);
        lemma_pairs_to_map_value(ps.drop_last(), i);
        assert(ps[i].0 != ps.last().0);
    }
}

/// With distinct keys, the map has exactly one entry per pair.
pub proof fn lemma_pairs_to_map_len(ps: Seq<(Seq<char>, Seq<char>)>)
    requires
        distinct_keys(ps),
    ensures
        pairs_to_map(ps).dom().finite(),
        pairs_to_map(ps).dom().len() == ps.len(),
    decreases ps.len(),
{
    if ps.len() > 0 {
        assert(distinct_keys(ps.drop_last()));
        lemma_pairs_to_map_len(ps.drop_last());
        lemma_pairs_to_map_contains(ps.drop_last(), ps.last().0);
        assert forall|i: int| 0 <= i < ps.drop_last().len() implies ps.drop_last()[i].0
            != ps.last().0 by {
            assert(ps[i] == ps.drop_last()[i]);
        }
        assert(!pairs_to_map(ps.drop_last()).contains_key(ps.last().0));
    }
}

/// Replacing the value of the pair holding a key is inserting over that key.
proof fn lemma_pairs_to_map_update(ps: Seq<(Seq<char>, Seq<char>)>, i: int, v: Seq<char>)
    requires
        distinct_keys(ps),
        0 <= i < ps.len(),
    ensures
        pairs_to_map(ps.update(i, (ps[i].0, v))) == pairs_to_map(ps).insert(ps[i].0, v),
    decreases ps.len(),
{
    let updated = ps.update(i, (ps[i].0, v));
    if i == ps.len() - 1 {
        assert(updated.drop_last() =~= ps.drop_last());
        assert(updated.last() == (ps[i].0, v));
        assert(pairs_to_map(updated) =~= pairs_to_map(ps).insert(ps[i].0, v));
    } else {
        assert(distinct_keys(ps.drop_last()));
        assert(ps.drop_last()[i] == ps[i]);
        lemma_pairs_to_map_update(ps.drop_last(), i, v);
        assert(updated.drop_last() =~= ps.drop_last().update(i, (ps[i].0, v)));
        assert(updated.last() == ps.last());
        assert(ps[i].0 != ps.last().0);
        assert(pairs_to_map(updated) =~= pairs_to_map(ps).insert(ps[i].0, v));
    }
}

/// A string-keyed map, viewed as a `Map<Seq<char>, Seq<char>>`.
pub struct StringMap {
    pairs: Vec<(String, String)>,
}

impl View for StringMap {
    type V = Map<Seq<char>, Seq<char>>;

    closed spec fn view(&self) -> Map<Seq<char>, Seq<char>> {
        pairs_to_map(self.pairs.deep_view())
    }
}

impl StringMap {
    /// The entries in their held order, as mathematical values.
    pub closed spec fn seq_view(&self) -> Seq<(Seq<char>, Seq<char>)> {
        self.pairs.deep_view()
    }

    /// Well-formed: no key is held twice.  Constructors establish this and
    /// every method preserves it.
    pub closed spec fn wf(&self) -> bool {
        distinct_keys(self.pairs.deep_view())
    }

    /// An empty map.
    pub fn new() -> (r: StringMap)
        ensures
            r@ == Map::<Seq<char>, Seq<char>>::empty(),
            r.seq_view() == Seq::<(Seq<char>, Seq<char>)>::empty(),
            r.wf(),
    {
        let pairs: Vec<(String, String)> = Vec::new();
        assert(pairs.deep_view() =~= Seq::<(Seq<char>, Seq<char>)>::empty());
        StringMap { pairs }
    }

    /// The number of entries, which equals the size of the view's domain.
    pub fn len(&self) -> (r: usize)
        requires
            self.wf(),
        ensures
            r == self@.dom().len(),
            r == self.seq_view().len(),
    {
        proof {
            lemma_pairs_to_map_len(self.pairs.deep_view());
        }
        self.pairs.len()
    }

    /// Look a key up, exactly as held: no case folding happens here.
    pub fn get(&self, key: &str) -> (r: Option<String>)
        requires
            self.wf(),
        ensures
            match r {
                Some(v) => self@.contains_key(key@) && v@ == self@[key@],
                None => !self@.contains_key(key@),
            },
    {
        let owned: String = key.to_owned();
        let n = self.pairs.len();
        let mut i: usize = 0;
        while i < n
            invariant
                n == self.pairs.len(),
                owned@ == key@,
                forall|j: int| 0 <= j < i ==> self.pairs.deep_view()[j].0 != key@,
                distinct_keys(self.pairs.deep_view()),
            decreases n - i,
        {
            if self.pairs[i].0 == owned {
                let v = self.pairs[i].1.clone();
                proof {
                    lemma_pairs_to_map_value(self.pairs.deep_view(), i as int);
                }
                return Some(v);
            }
            i = i + 1;
        }
        proof {
            lemma_pairs_to_map_contains(self.pairs.deep_view(), key@);
        }
        None
    }

    /// Insert a key/value pair, overwriting any entry the key already has.
    pub fn insert(&mut self, key: String, value: String)
        requires
            old(self).wf(),
        ensures
            final(self)@ == old(self)@.insert(key@, value@),
            final(self).wf(),
    {
        let ghost old_seq = self.pairs.deep_view();
        let n = self.pairs.len();
        let mut i: usize = 0;
        while i < n
            invariant
                n == self.pairs.len(),
                self.pairs.deep_view() == old_seq,
                old_seq == old(self).pairs.deep_view(),
                distinct_keys(old_seq),
                forall|j: int| 0 <= j < i ==> old_seq[j].0 != key@,
            decreases n - i,
        {
            if self.pairs[i].0 == key {
                proof {
                    assert(old_seq[i as int] == self.pairs@[i as int].deep_view());
                    assert(old_seq[i as int].0 == key@);
                }
                self.pairs.set(i, (key, value));
                proof {
                    assert forall|j: int| 0 <= j < old_seq.len() implies self.pairs.deep_view()[j]
                        == old_seq.update(i as int, (old_seq[i as int].0, value@))[j] by {
                        assert(self.pairs.deep_view()[j] == self.pairs@[j].deep_view());
                    }
                    assert(self.pairs.deep_view() =~= old_seq.update(
                        i as int,
                        (old_seq[i as int].0, value@),
                    ));
                    lemma_pairs_to_map_update(old_seq, i as int, value@);
                    assert forall|a: int, b: int|
                        0 <= a < b < self.pairs.deep_view().len() implies self.pairs.deep_view()[a].0 != self.pairs.deep_view()[b].0 by {
                        assert(self.pairs.deep_view()[a].0 == old_seq[a].0);
                        assert(self.pairs.deep_view()[b].0 == old_seq[b].0);
                    }
                }
                return ;
            }
            i = i + 1;
        }
        self.pairs.push((key, value));
        proof {
            assert(self.pairs.deep_view() =~= old_seq.push((key@, value@)));
            assert(self.pairs.deep_view().drop_last() =~= old_seq);
            lemma_pairs_to_map_contains(old_seq, key@);
        }
    }

    /// A copy of the whole map.
    pub fn snapshot(&self) -> (r: StringMap)
        requires
            self.wf(),
        ensures
            r@ == self@,
            r.seq_view() == self.seq_view(),
            r.wf(),
    {
        let n = self.pairs.len();
        let mut out: Vec<(String, String)> = Vec::new();
        let mut i: usize = 0;
        while i < n
            invariant
                n == self.pairs.len(),
                i <= n,
                out@.len() == i,
                forall|j: int|
                    0 <= j < i ==> out@[j].0@ == self.pairs@[j].0@ && out@[j].1@
                        == self.pairs@[j].1@,
            decreases n - i,
        {
            let k = self.pairs[i].0.clone();
            let v = self.pairs[i].1.clone();
            out.push((k, v));
            i = i + 1;
        }
        proof {
            assert forall|j: int| 0 <= j < n implies out.deep_view()[j]
                == self.pairs.deep_view()[j] by {
                assert(out.deep_view()[j] == out@[j].deep_view());
                assert(self.pairs.deep_view()[j] == self.pairs@[j].deep_view());
            }
            assert(out.deep_view() =~= self.pairs.deep_view());
        }
        StringMap { pairs: out }
    }

    /// The entries themselves, for enumeration.
    pub fn entries(&self) -> (r: &Vec<(String, String)>)
        requires
            self.wf(),
        ensures
            r.deep_view() == self.seq_view(),
            distinct_keys(r.deep_view()),
    {
        &self.pairs
    }
}

} // verus!
