//! Vote tallies.
use vstd::prelude::*;
use std::collections::BTreeMap;
use vstd::std_specs::btree::{increasing_seq, spec_btree_map_iter};
use vstd::std_specs::cmp::OrdSpec;
use vstd::std_specs::iter::IteratorSpec;

verus! {

broadcast use {vstd::laws_cmp::group_laws_cmp, vstd::std_specs::btree::group_btree_axioms};

/// The value of a single vote.
pub type VoteValue = i16;

/// How a page is voted on.
#[derive(Debug, Clone, Copy, PartialEq, Eq, Structural)]
pub enum VoteType {
    UpsDowns,
    FiveStar,
}

/// How a page's score is computed from its votes.
#[derive(Debug, Clone, Copy, PartialEq, Eq, Structural)]
pub enum ScoreType {
    Null,
    Sum,
    Mean,
    Median,
    Percent,
}

/// How many votes were cast with each vote value.
#[derive(Debug)]
pub struct VoteMap {
    inner: BTreeMap<VoteValue, u64>,
}

/// The number of votes with value `v` (zero for a value nobody used).
pub open spec fn votes_at(m: Map<VoteValue, u64>, v: int) -> int {
    if m.contains_key(v as VoteValue) {
        m[v as VoteValue] as int
    } else {
        0
    }
}

/// The number of votes with a value below `hi`.
pub open spec fn count_below(m: Map<VoteValue, u64>, hi: int) -> int
    decreases hi - i16::MIN,
{
    if hi <= i16::MIN {
        0
    } else {
        count_below(m, hi - 1) + votes_at(m, hi - 1)
    }
}

/// The sum of all votes with a value below `hi`.
pub open spec fn sum_below(m: Map<VoteValue, u64>, hi: int) -> int
    decreases hi - i16::MIN,
{
    if hi <= i16::MIN {
        0
    } else {
        sum_below(m, hi - 1) + (hi - 1) * votes_at(m, hi - 1)
    }
}

/// The `(value, count)` entries with a value below `hi`, by increasing value.
pub open spec fn entries_below(m: Map<VoteValue, u64>, hi: int) -> Seq<(VoteValue, u64)>
    decreases hi - i16::MIN,
{
    if hi <= i16::MIN {
        Seq::empty()
    } else if m.contains_key((hi - 1) as VoteValue) {
        entries_below(m, hi - 1).push(((hi - 1) as VoteValue, m[(hi - 1) as VoteValue]))
    } else {
        entries_below(m, hi - 1)
    }
}

/// The number of votes in `m`.
pub open spec fn total_count(m: Map<VoteValue, u64>) -> int {
    count_below(m, i16::MAX + 1)
}

/// The sum of all votes in `m`.
pub open spec fn total_sum(m: Map<VoteValue, u64>) -> int {
    sum_below(m, i16::MAX + 1)
}

impl View for VoteMap {
    type V = Map<VoteValue, u64>;

    closed spec fn view(&self) -> Map<VoteValue, u64> {
        self.inner@
    }
}

impl VoteMap {
    pub fn new() -> (r: VoteMap)
        ensures
            r@ == Map::<VoteValue, u64>::empty(),
    {
        VoteMap { inner: BTreeMap::new() }
    }

    /// Records `count` votes with value `vote`, replacing any earlier count.
    pub fn insert(&mut self, vote: VoteValue, count: u64)
        ensures
            final(self)@ == old(self)@.insert(vote, count),
    {
        self.inner.insert(vote, count);
    }

    /// The number of votes with value `vote`.
    pub fn get_int(&self, vote: VoteValue) -> (r: u64)
        ensures
            r == votes_at(self@, vote as int),
    {
        match self.inner.get(&vote) {
            Some(c) => *c,
            None => 0,
        }
    }

    /// The number of votes in this map.
    pub fn count_int(&self) -> (r: u64)
        requires
            total_count(self@) <= u64::MAX,
        ensures
            r == total_count(self@),
    {
        let entries = self.iter();
        proof {
            lemma_count_entries(self@, i16::MAX + 1);
        }
        let mut sum: u64 = 0;
        let mut i: usize = 0;
        while i < entries.len()
            invariant
                entries@ == entries_below(self@, i16::MAX + 1),
                i <= entries@.len(),
                sum == seq_count(entries@.subrange(0, i as int)),
                seq_count(entries@) <= u64::MAX,
            decreases entries@.len() - i,
        {
            proof {
                assert(entries@.subrange(0, i + 1).drop_last() =~= entries@.subrange(0, i as int));
                lemma_seq_count_prefix(entries@, i + 1);
            }
            sum = sum + entries[i].1;
            i = i + 1;
        }
        assert(entries@.subrange(0, entries@.len() as int) =~= entries@);
        sum
    }

    /// Whether no votes were cast.
    pub fn is_empty(&self) -> (r: bool)
        requires
            total_count(self@) <= u64::MAX,
        ensures
            r == (total_count(self@) == 0),
    {
        self.count_int() == 0
    }

    /// The sum of all the votes in this map.
    ///
    /// Every running sum, taken by increasing vote value, must fit in an
    /// `i64`, as must each count and each value times its count.
    pub fn sum_int(&self) -> (r: i64)
        requires
            forall|j: int|
                0 <= j <= entries_below(self@, i16::MAX + 1).len() ==> i64::MIN <= #[trigger] seq_sum(
                    entries_below(self@, i16::MAX + 1).subrange(0, j),
                ) <= i64::MAX,
            forall|v: VoteValue| #[trigger] self@.contains_key(v) ==> self@[v] <= i64::MAX
                && i64::MIN <= v * self@[v] <= i64::MAX,
        ensures
            r == total_sum(self@),
    {
        let entries = self.iter();
        proof {
            lemma_sum_entries(self@, i16::MAX + 1);
            lemma_entries_in_map(self@, i16::MAX + 1);
        }
        let mut sum: i64 = 0;
        let mut i: usize = 0;
        while i < entries.len()
            invariant
                entries@ == entries_below(self@, i16::MAX + 1),
                i <= entries@.len(),
                sum == seq_sum(entries@.subrange(0, i as int)),
                forall|j: int|
                    0 <= j <= entries@.len() ==> i64::MIN <= #[trigger] seq_sum(entries@.subrange(0, j))
                        <= i64::MAX,
                forall|j: int|
                    0 <= j < entries@.len() ==> self@.contains_key((#[trigger] entries@[j]).0)
                        && self@[entries@[j].0] == entries@[j].1,
                forall|v: VoteValue| #[trigger] self@.contains_key(v) ==> self@[v] <= i64::MAX
                    && i64::MIN <= v * self@[v] <= i64::MAX,
            decreases entries@.len() - i,
        {
            let (value, count) = entries[i];
            proof {
                assert(entries@.subrange(0, i + 1).drop_last() =~= entries@.subrange(0, i as int));
                assert(self@.contains_key(value));
                assert(seq_sum(entries@.subrange(0, i + 1)) == sum + value * count);
            }
            sum = sum + (value as i64) * (count as i64);
            i = i + 1;
        }
        assert(entries@.subrange(0, entries@.len() as int) =~= entries@);
        sum
    }

    /// The `(value, count)` entries, by increasing value.
    pub fn iter(&self) -> (r: Vec<(VoteValue, u64)>)
        ensures
            r@ == entries_below(self@, i16::MAX + 1),
    {
        let mut out: Vec<(VoteValue, u64)> = Vec::new();
        let ghost m = self@;
        let ghost mut lo: int = i16::MIN as int;
        for kv in it: self.inner.iter()
            invariant
                m == self@,
                i16::MIN <= lo <= i16::MAX + 1,
                out@ == entries_below(m, lo),
                it.seq() == spec_btree_map_iter(&self.inner).remaining(),
                increasing_seq(it.seq().map_values(|kv: (&VoteValue, &u64)| *kv.0)),
                forall|p: int| 0 <= p < it.index() ==> (*(#[trigger] it.seq()[p]).0 as int) < lo,
                it.index() < it.seq().len() ==> lo <= *it.seq()[it.index()].0,
        {
            let (k, c) = kv;
            let ghost seq = it.seq();
            let ghost j = it.index();
            proof {
                assert(seq[j] == kv);
                let keys = seq.map_values(|kv: (&VoteValue, &u64)| *kv.0);
                assert(keys[j] == *k);
                assert forall|cc: int| lo <= cc < *k implies !#[trigger] m.contains_key(cc as VoteValue) by {
                    if m.contains_key(cc as VoteValue) {
                        let key = cc as VoteValue;
                        assert(seq.contains((&key, &m[key])));
                        let p = choose|p: int| 0 <= p < seq.len() && seq[p] == (&key, &m[key]);
                        assert(keys[p] == key);
                        if p < j {
                            assert(*seq[p].0 < lo);
                        } else if p > j {
                            assert(keys[j].cmp_spec(&keys[p]) is Less);
                        }
                    }
                }
                lemma_entries_skip(m, lo, *k as int);
                assert(m.contains_key(*k) && m[*k] == *c);
                if j + 1 < seq.len() {
                    assert(keys[j].cmp_spec(&keys[j + 1]) is Less);
                    assert(keys[j + 1] == *seq[j + 1].0);
                }
                assert forall|p: int| 0 <= p < j + 1 implies (*(#[trigger] seq[p]).0 as int) < *k + 1 by {
                    if p < j {
                        assert(*seq[p].0 < lo);
                    }
                }
            }
            out.push((*k, *c));
            proof {
                lo = *k + 1;
            }
        }
        proof {
            let seq = spec_btree_map_iter(&self.inner).remaining();
            assert forall|cc: int| lo <= cc < i16::MAX + 1 implies !#[trigger] m.contains_key(cc as VoteValue) by {
                if m.contains_key(cc as VoteValue) {
                    let key = cc as VoteValue;
                    assert(seq.contains((&key, &m[key])));
                    let p = choose|p: int| 0 <= p < seq.len() && seq[p] == (&key, &m[key]);
                    assert(*seq[p].0 < lo);
                }
            }
            lemma_entries_skip(m, lo, i16::MAX + 1);
        }
        out
    }
}

/// The total count of a sequence of `(value, count)` entries.
pub open spec fn seq_count(s: Seq<(VoteValue, u64)>) -> int
    decreases s.len(),
{
    if s.len() == 0 {
        0
    } else {
        seq_count(s.drop_last()) + s.last().1
    }
}

/// The sum of the votes of a sequence of `(value, count)` entries.
pub open spec fn seq_sum(s: Seq<(VoteValue, u64)>) -> int
    decreases s.len(),
{
    if s.len() == 0 {
        0
    } else {
        seq_sum(s.drop_last()) + s.last().0 * s.last().1
    }
}

proof fn lemma_count_entries(m: Map<VoteValue, u64>, hi: int)
    ensures
        count_below(m, hi) == seq_count(entries_below(m, hi)),
    decreases hi - i16::MIN,
{
    if hi > i16::MIN {
        lemma_count_entries(m, hi - 1);
        if m.contains_key((hi - 1) as VoteValue) {
            let e = entries_below(m, hi - 1).push(((hi - 1) as VoteValue, m[(hi - 1) as VoteValue]));
            assert(e.drop_last() =~= entries_below(m, hi - 1));
        }
    }
}

proof fn lemma_sum_entries(m: Map<VoteValue, u64>, hi: int)
    requires
        hi <= i16::MAX + 1,
    ensures
        sum_below(m, hi) == seq_sum(entries_below(m, hi)),
    decreases hi - i16::MIN,
{
    if hi > i16::MIN {
        lemma_sum_entries(m, hi - 1);
        assert(((hi - 1) as VoteValue) as int == hi - 1);
        if m.contains_key((hi - 1) as VoteValue) {
            let e = entries_below(m, hi - 1).push(((hi - 1) as VoteValue, m[(hi - 1) as VoteValue]));
            assert(e.drop_last() =~= entries_below(m, hi - 1));
        }
    }
}

proof fn lemma_entries_in_map(m: Map<VoteValue, u64>, hi: int)
    ensures
        forall|j: int|
            0 <= j < entries_below(m, hi).len() ==> m.contains_key((#[trigger] entries_below(m, hi)[j]).0)
                && m[entries_below(m, hi)[j].0] == entries_below(m, hi)[j].1,
    decreases hi - i16::MIN,
{
    if hi > i16::MIN {
        lemma_entries_in_map(m, hi - 1);
        let prev = entries_below(m, hi - 1);
        let e = entries_below(m, hi);
        assert forall|j: int| 0 <= j < e.len() implies m.contains_key((#[trigger] e[j]).0)
            && m[e[j].0] == e[j].1 by {
            if j < prev.len() {
                assert(e[j] == prev[j]);
            }
        }
    }
}

proof fn lemma_seq_count_prefix(s: Seq<(VoteValue, u64)>, j: int)
    requires
        0 <= j <= s.len(),
    ensures
        seq_count(s.subrange(0, j)) <= seq_count(s),
    decreases s.len() - j,
{
    if j < s.len() {
        lemma_seq_count_prefix(s, j + 1);
        assert(s.subrange(0, j + 1).drop_last() =~= s.subrange(0, j));
    } else {
        assert(s.subrange(0, j) =~= s);
    }
}

/// Adding the range `[a, b)` that holds no vote value changes nothing.
proof fn lemma_entries_skip(m: Map<VoteValue, u64>, a: int, b: int)
    requires
        i16::MIN <= a <= b <= i16::MAX + 1,
        forall|c: int| a <= c < b ==> !#[trigger] m.contains_key(c as VoteValue),
    ensures
        entries_below(m, b) == entries_below(m, a),
    decreases b - a,
{
    if a < b {
        assert(!m.contains_key((b - 1) as VoteValue));
        lemma_entries_skip(m, a, b - 1);
    }
}

} // verus!
