use vstd::prelude::*;

use crate::distance::Distance;

verus! {

/// What one candidate's distance query reported: whether the ray hit it, and the
/// distance to the deepest intersection point. `candidate` identifies the
/// candidate to the caller (an index into its own list of handles).
#[derive(Clone, Copy, Debug, PartialEq, Eq, Structural)]
pub struct RayMarchOutcome {
    pub candidate: u64,
    pub hit: bool,
    pub distance: Distance,
}

/// A hit with a comparable (non-NaN) distance.
pub open spec fn counts(r: RayMarchOutcome) -> bool {
    r.hit && r.distance.key_spec() is Some
}

pub open spec fn key_of(r: RayMarchOutcome) -> i64 {
    r.distance.key_spec()->0
}

/// The least key among the counted hits of `rs`, or `None` when nothing was hit.
pub open spec fn min_key(rs: Seq<RayMarchOutcome>) -> Option<i64>
    decreases rs.len(),
{
    if rs.len() == 0 {
        None
    } else {
        let prev = min_key(rs.drop_last());
        let r = rs.last();
        if counts(r) {
            match prev {
                None => Some(key_of(r)),
                Some(m) => if key_of(r) < m { Some(key_of(r)) } else { Some(m) },
            }
        } else {
            prev
        }
    }
}

/// Strictly ascending: sorted, each candidate once.
pub open spec fn increasing(s: Seq<u64>) -> bool {
    forall|i: int, j: int| 0 <= i < j < s.len() ==> s[i] < s[j]
}

/// `s` with `c` added at its place in ascending order; unchanged when `c` is
/// already there.
pub open spec fn insert_sorted(s: Seq<u64>, c: u64) -> Seq<u64>
    decreases s.len(),
{
    if s.len() == 0 {
        seq![c]
    } else if c < s[0] {
        seq![c] + s
    } else if c == s[0] {
        s
    } else {
        seq![s[0]] + insert_sorted(s.drop_first(), c)
    }
}

/// The candidates, in ascending order and each once, of the counted hits of `rs`
/// whose key is `k`.
pub open spec fn picked(rs: Seq<RayMarchOutcome>, k: i64) -> Seq<u64>
    decreases rs.len(),
{
    if rs.len() == 0 {
        seq![]
    } else {
        let p = picked(rs.drop_last(), k);
        if counts(rs.last()) && key_of(rs.last()) == k {
            insert_sorted(p, rs.last().candidate)
        } else {
            p
        }
    }
}

/// The closest hits: the candidate of every counted hit at the least distance,
/// ties kept, in ascending candidate order (the order in which the caller
/// discovered the candidates), whatever the order in which results arrived.
/// Empty when nothing was hit.
pub open spec fn winners(rs: Seq<RayMarchOutcome>) -> Seq<u64> {
    match min_key(rs) {
        None => seq![],
        Some(k) => picked(rs, k),
    }
}

/// The winner set of one resolution pass, filled as query results arrive.
pub struct HitSet {
    pub winners: Vec<u64>,
    pub best: Option<i64>,
    pub seen: Ghost<Seq<RayMarchOutcome>>,
}

impl HitSet {
    /// The outcomes observed so far determine the set.
    pub open spec fn wf(&self) -> bool {
        &&& self.best == min_key(self.seen@)
        &&& self.winners@ == winners(self.seen@)
    }

    pub fn new() -> (r: HitSet)
        ensures
            r.wf(),
            r.seen@ == Seq::<RayMarchOutcome>::empty(),
            r.winners@ == Seq::<u64>::empty(),
    {
        HitSet { winners: Vec::new(), best: None, seen: Ghost(Seq::empty()) }
    }

    /// Takes one more query result into account: a strictly closer hit replaces
    /// the winners, an equally close one joins them at its place in ascending
    /// candidate order, anything else is ignored.
    pub fn observe(&mut self, r: RayMarchOutcome)
        requires
            old(self).wf(),
        ensures
            final(self).wf(),
            final(self).seen@ == old(self).seen@.push(r),
    {
        let ghost s = self.seen@;
        let ghost s2 = s.push(r);
        assert(s2.drop_last() == s);
        proof {
            lemma_min_key_bound(s);
        }
        if r.hit {
            match r.distance.key() {
                None => {},
                Some(k) => match self.best {
                    None => {
                        proof {
                            lemma_picked_none_below(s, k);
                        }
                        self.winners = vec![r.candidate];
                        self.best = Some(k);
                        assert(picked(s, k) == Seq::<u64>::empty());
                        assert(self.winners@ == seq![r.candidate]);
                    },
                    Some(m) => {
                        if k == m {
                            proof {
                                lemma_picked_increasing(s, m);
                            }
                            insert_candidate(&mut self.winners, r.candidate);
                        } else if k < m {
                            proof {
                                lemma_picked_none_below(s, k);
                            }
                            self.winners = vec![r.candidate];
                            self.best = Some(k);
                            assert(picked(s, k) == Seq::<u64>::empty());
                            assert(self.winners@ == seq![r.candidate]);
                        }
                    },
                },
            }
        }
        self.seen = Ghost(s2);
    }
}

/// Every counted hit lies at or beyond the least key, and the least key is one
/// of theirs.
pub proof fn lemma_min_key_bound(rs: Seq<RayMarchOutcome>)
    ensures
        min_key(rs) is None <==> (forall|i: int| 0 <= i < rs.len() ==> !counts(#[trigger] rs[i])),
        min_key(rs) matches Some(m) ==> (forall|i: int|
            0 <= i < rs.len() && counts(#[trigger] rs[i]) ==> m <= key_of(rs[i])),
        min_key(rs) matches Some(m) ==> (exists|i: int|
            0 <= i < rs.len() && counts(#[trigger] rs[i]) && key_of(rs[i]) == m),
    decreases rs.len(),
{
    if rs.len() > 0 {
        let p = rs.drop_last();
        lemma_min_key_bound(p);
        assert forall|i: int| 0 <= i < p.len() implies #[trigger] rs[i] == p[i] by {}
        let last = rs.len() - 1;
        if let Some(m) = min_key(rs) {
            if counts(rs.last()) && key_of(rs.last()) == m {
                assert(counts(rs[last]) && key_of(rs[last]) == m);
            } else {
                let i = choose|i: int| 0 <= i < p.len() && counts(#[trigger] p[i]) && key_of(p[i]) == m;
                assert(counts(rs[i]) && key_of(rs[i]) == m);
            }
        } else {
            assert forall|i: int| 0 <= i < rs.len() implies !counts(#[trigger] rs[i]) by {
                if i < last {
                    assert(rs[i] == p[i]);
                }
            }
        }
    }
}

/// No counted hit lies strictly below `k` when `k` is under the least key.
proof fn lemma_picked_none_below(rs: Seq<RayMarchOutcome>, k: i64)
    requires
        min_key(rs) matches Some(m) ==> k < m,
    ensures
        picked(rs, k) == Seq::<u64>::empty(),
    decreases rs.len(),
{
    if rs.len() > 0 {
        lemma_min_key_bound(rs);
        let p = rs.drop_last();
        lemma_min_key_bound(p);
        assert forall|i: int| 0 <= i < p.len() implies #[trigger] rs[i] == p[i] by {}
        if let Some(mp) = min_key(p) {
            let i = choose|i: int| 0 <= i < p.len() && counts(#[trigger] p[i]) && key_of(p[i]) == mp;
            assert(rs[i] == p[i]);
        }
        assert(counts(rs.last()) ==> key_of(rs.last()) != k) by {
            if counts(rs.last()) {
                assert(rs.last() == rs[rs.len() - 1]);
            }
        }
        lemma_picked_none_below(p, k);
    }
}

/// `r` is one of the outcomes of `rs`, a counted hit, and no counted hit of `rs`
/// is closer.
pub open spec fn is_closest(rs: Seq<RayMarchOutcome>, r: RayMarchOutcome) -> bool {
    &&& rs.contains(r)
    &&& counts(r)
    &&& forall|o: RayMarchOutcome| rs.contains(o) && counts(o) ==> key_of(r) <= key_of(o)
}

proof fn lemma_picked_contains(rs: Seq<RayMarchOutcome>, k: i64, c: u64)
    ensures
        picked(rs, k).contains(c) <==> (exists|i: int|
            0 <= i < rs.len() && counts(#[trigger] rs[i]) && key_of(rs[i]) == k && rs[i].candidate
                == c),
    decreases rs.len(),
{
    if rs.len() > 0 {
        let p = rs.drop_last();
        lemma_picked_contains(p, k, c);
        lemma_picked_increasing(p, k);
        lemma_insert_sorted(picked(p, k), rs.last().candidate);
        assert forall|i: int| 0 <= i < p.len() implies #[trigger] rs[i] == p[i] by {}
        let last = rs.len() - 1;
        assert(rs.last() == rs[last]);
        if exists|i: int|
            0 <= i < rs.len() && counts(#[trigger] rs[i]) && key_of(rs[i]) == k && rs[i].candidate
                == c {
            let i = choose|i: int|
                0 <= i < rs.len() && counts(#[trigger] rs[i]) && key_of(rs[i]) == k
                    && rs[i].candidate == c;
            if i < last {
                assert(p[i] == rs[i]);
            }
        }
    }
}

proof fn lemma_insert_sorted(s: Seq<u64>, c: u64)
    requires
        increasing(s),
    ensures
        increasing(insert_sorted(s, c)),
        forall|x: u64| insert_sorted(s, c).contains(x) <==> (s.contains(x) || x == c),
    decreases s.len(),
{
    let r = insert_sorted(s, c);
    if s.len() == 0 {
        assert(r[0] == c);
    } else if c < s[0] {
        assert forall|x: u64| r.contains(x) <==> (s.contains(x) || x == c) by {
            if s.contains(x) {
                let j = choose|j: int| 0 <= j < s.len() && s[j] == x;
                assert(r[j + 1] == x);
            }
            if x == c {
                assert(r[0] == x);
            }
        }
    } else if c == s[0] {
    } else {
        let t = s.drop_first();
        assert forall|i: int, j: int| 0 <= i < j < t.len() implies t[i] < t[j] by {
            assert(t[i] == s[i + 1] && t[j] == s[j + 1]);
        }
        lemma_insert_sorted(t, c);
        let u = insert_sorted(t, c);
        assert forall|i: int| 0 <= i < u.len() implies s[0] < #[trigger] u[i] by {
            assert(u.contains(u[i]));
            if t.contains(u[i]) {
                let j = choose|j: int| 0 <= j < t.len() && t[j] == u[i];
                assert(t[j] == s[j + 1]);
            }
        }
        assert forall|x: u64| r.contains(x) <==> (s.contains(x) || x == c) by {
            if r.contains(x) {
                let j = choose|j: int| 0 <= j < r.len() && r[j] == x;
                if j > 0 {
                    assert(u[j - 1] == x);
                    if t.contains(x) {
                        let m = choose|m: int| 0 <= m < t.len() && t[m] == x;
                        assert(s[m + 1] == x);
                    }
                } else {
                    assert(s[0] == x);
                }
            }
            if s.contains(x) {
                let j = choose|j: int| 0 <= j < s.len() && s[j] == x;
                if j == 0 {
                    assert(r[0] == x);
                } else {
                    assert(t[j - 1] == x);
                    assert(t.contains(x));
                    assert(u.contains(x));
                    let m = choose|m: int| 0 <= m < u.len() && u[m] == x;
                    assert(r[m + 1] == x);
                }
            }
            if x == c {
                assert(u.contains(x));
                let m = choose|m: int| 0 <= m < u.len() && u[m] == x;
                assert(r[m + 1] == x);
            }
        }
        assert forall|i: int, j: int| 0 <= i < j < r.len() implies r[i] < r[j] by {
            if i == 0 {
                assert(r[j] == u[j - 1]);
            } else {
                assert(r[i] == u[i - 1] && r[j] == u[j - 1]);
            }
        }
    }
}

/// Inserting at the first place whose element is not below `c` agrees with
/// `insert_sorted`.
proof fn lemma_insert_at(s: Seq<u64>, c: u64, j: int)
    requires
        0 <= j <= s.len(),
        forall|i: int| 0 <= i < j ==> s[i] < c,
        j < s.len() ==> s[j] >= c,
    ensures
        j < s.len() && s[j] == c ==> insert_sorted(s, c) == s,
        !(j < s.len() && s[j] == c) ==> insert_sorted(s, c) == s.insert(j, c),
    decreases s.len(),
{
    if s.len() > 0 && j > 0 {
        let t = s.drop_first();
        assert forall|i: int| 0 <= i < j - 1 implies t[i] < c by {
            assert(t[i] == s[i + 1]);
        }
        lemma_insert_at(t, c, j - 1);
        assert(s[0] < c);
        if !(j < s.len() && s[j] == c) {
            assert(seq![s[0]] + t.insert(j - 1, c) == s.insert(j, c));
        } else {
            assert(seq![s[0]] + t == s);
        }
    } else if s.len() > 0 {
        if s[0] != c {
            assert(seq![c] + s == s.insert(0, c));
        }
    } else {
        assert(seq![c] == s.insert(0, c));
    }
}

proof fn lemma_picked_increasing(rs: Seq<RayMarchOutcome>, k: i64)
    ensures
        increasing(picked(rs, k)),
    decreases rs.len(),
{
    if rs.len() > 0 {
        lemma_picked_increasing(rs.drop_last(), k);
        lemma_insert_sorted(picked(rs.drop_last(), k), rs.last().candidate);
    }
}

/// The winners are in strictly ascending candidate order.
pub proof fn lemma_winners_increasing(rs: Seq<RayMarchOutcome>)
    ensures
        increasing(winners(rs)),
{
    if let Some(k) = min_key(rs) {
        lemma_picked_increasing(rs, k);
    }
}

/// Two strictly ascending sequences with the same elements are equal.
proof fn lemma_increasing_unique(a: Seq<u64>, b: Seq<u64>)
    requires
        increasing(a),
        increasing(b),
        forall|x: u64| a.contains(x) <==> b.contains(x),
    ensures
        a == b,
    decreases a.len(),
{
    if a.len() == 0 {
        if b.len() > 0 {
            assert(b.contains(b[0]));
        }
    } else {
        assert(a.contains(a[0]));
        assert(b.len() > 0);
        assert(b.contains(b[0]));
        let i = choose|i: int| 0 <= i < a.len() && a[i] == b[0];
        let j = choose|j: int| 0 <= j < b.len() && b[j] == a[0];
        assert(a[0] == b[0]);
        let ta = a.drop_first();
        let tb = b.drop_first();
        assert forall|p: int, q: int| 0 <= p < q < ta.len() implies ta[p] < ta[q] by {
            assert(ta[p] == a[p + 1] && ta[q] == a[q + 1]);
        }
        assert forall|p: int, q: int| 0 <= p < q < tb.len() implies tb[p] < tb[q] by {
            assert(tb[p] == b[p + 1] && tb[q] == b[q + 1]);
        }
        assert forall|x: u64| ta.contains(x) <==> tb.contains(x) by {
            if ta.contains(x) {
                let m = choose|m: int| 0 <= m < ta.len() && ta[m] == x;
                assert(a[m + 1] == x && a.contains(x));
                let n = choose|n: int| 0 <= n < b.len() && b[n] == x;
                assert(n != 0);
                assert(tb[n - 1] == x);
            }
            if tb.contains(x) {
                let m = choose|m: int| 0 <= m < tb.len() && tb[m] == x;
                assert(b[m + 1] == x && b.contains(x));
                let n = choose|n: int| 0 <= n < a.len() && a[n] == x;
                assert(n != 0);
                assert(ta[n - 1] == x);
            }
        }
        lemma_increasing_unique(ta, tb);
        assert(a == seq![a[0]] + ta);
        assert(b == seq![b[0]] + tb);
    }
}

/// Adds `c` to the ascending list `v` at its place, unless it is already there.
fn insert_candidate(v: &mut Vec<u64>, c: u64)
    requires
        increasing(old(v)@),
    ensures
        final(v)@ == insert_sorted(old(v)@, c),
{
    let mut j: usize = 0;
    while j < v.len() && v[j] < c
        invariant
            j <= v.len(),
            forall|i: int| 0 <= i < j ==> v@[i] < c,
        decreases v.len() - j,
    {
        j = j + 1;
    }
    proof {
        lemma_insert_at(v@, c, j as int);
    }
    if j < v.len() && v[j] == c {
    } else {
        v.insert(j, c);
    }
}

/// A candidate is among the winners exactly when one of its outcomes is a
/// closest hit.
pub proof fn lemma_winners_are_closest(rs: Seq<RayMarchOutcome>, c: u64)
    ensures
        winners(rs).contains(c) <==> (exists|r: RayMarchOutcome|
            is_closest(rs, r) && r.candidate == c),
{
    lemma_min_key_bound(rs);
    if let Some(m) = min_key(rs) {
        lemma_picked_contains(rs, m, c);
        if winners(rs).contains(c) {
            let i = choose|i: int|
                0 <= i < rs.len() && counts(#[trigger] rs[i]) && key_of(rs[i]) == m
                    && rs[i].candidate == c;
            let r = rs[i];
            assert forall|o: RayMarchOutcome| rs.contains(o) && counts(o) implies key_of(r)
                <= key_of(o) by {
                let j = choose|j: int| 0 <= j < rs.len() && rs[j] == o;
                assert(counts(rs[j]));
            }
            assert(is_closest(rs, r));
        }
        if exists|r: RayMarchOutcome| is_closest(rs, r) && r.candidate == c {
            let r = choose|r: RayMarchOutcome| is_closest(rs, r) && r.candidate == c;
            let i = choose|i: int| 0 <= i < rs.len() && rs[i] == r;
            let w = choose|w: int| 0 <= w < rs.len() && counts(#[trigger] rs[w]) && key_of(rs[w]) == m;
            assert(rs.contains(rs[w]));
            assert(counts(rs[i]) && key_of(rs[i]) == m);
        }
    } else {
        if exists|r: RayMarchOutcome| is_closest(rs, r) && r.candidate == c {
            let r = choose|r: RayMarchOutcome| is_closest(rs, r) && r.candidate == c;
            let i = choose|i: int| 0 <= i < rs.len() && rs[i] == r;
            assert(!counts(rs[i]));
        }
    }
}

/// The winners do not depend on the order in which query results complete:
/// two passes that observed the same outcomes, in any order, publish the same
/// ordering.
pub proof fn lemma_winners_order_independent(
    rs1: Seq<RayMarchOutcome>,
    rs2: Seq<RayMarchOutcome>,
)
    requires
        forall|r: RayMarchOutcome| rs1.contains(r) <==> rs2.contains(r),
    ensures
        winners(rs1) == winners(rs2),
{
    assert forall|c: u64| winners(rs1).contains(c) <==> winners(rs2).contains(c) by {
        lemma_winners_are_closest(rs1, c);
        lemma_winners_are_closest(rs2, c);
        assert forall|r: RayMarchOutcome| is_closest(rs1, r) <==> is_closest(rs2, r) by {}
    }
    lemma_winners_increasing(rs1);
    lemma_winners_increasing(rs2);
    lemma_increasing_unique(winners(rs1), winners(rs2));
}

/// When no candidate reports a hit, the pass publishes an empty ordering.
pub proof fn lemma_no_hit_no_winners(rs: Seq<RayMarchOutcome>)
    requires
        forall|i: int| 0 <= i < rs.len() ==> !(#[trigger] rs[i]).hit,
    ensures
        winners(rs) == Seq::<u64>::empty(),
{
    lemma_min_key_bound(rs);
}

/// Resolves one pass over completed query results: the candidates of all hits at
/// the least distance, in ascending candidate order, whatever the order of
/// `results`.
pub fn resolve_hits(results: &Vec<RayMarchOutcome>) -> (r: Vec<u64>)
    ensures
        r@ == winners(results@),
        increasing(r@),
{
    let mut set = HitSet::new();
    let mut i: usize = 0;
    assert(results@.take(0) == Seq::<RayMarchOutcome>::empty());
    while i < results.len()
        invariant
            i <= results.len(),
            set.wf(),
            set.seen@ == results@.take(i as int),
        decreases results.len() - i,
    {
        set.observe(results[i]);
        assert(results@.take(i as int).push(results@[i as int]) == results@.take(i as int + 1));
        i = i + 1;
    }
    assert(results@.take(i as int) == results@);
    proof {
        lemma_winners_increasing(results@);
    }
    set.winners
}

/// Keeps resolution passes of one pointer from overlapping: each new pass
/// supersedes the previous one, and only the latest pass may publish.
#[derive(Clone, Copy, Debug, PartialEq, Eq, Structural)]
pub struct PassGuard {
    pub generation: u64,
}

impl PassGuard {
    pub fn new() -> (r: PassGuard)
        ensures
            r.generation == 0,
    {
        PassGuard { generation: 0 }
    }

    /// Starts a pass, superseding any pass still in flight, and returns its
    /// generation.
    pub fn begin(&mut self) -> (r: u64)
        ensures
            r == final(self).generation,
            r != old(self).generation,
            r == if old(self).generation == u64::MAX {
                0
            } else {
                (old(self).generation + 1) as u64
            },
    {
        self.generation = if self.generation == u64::MAX {
            0
        } else {
            self.generation + 1
        };
        self.generation
    }

    /// Whether the pass of generation `g` is the latest one and may publish.
    pub fn may_publish(&self, g: u64) -> (r: bool)
        ensures
            r == (g == self.generation),
    {
        g == self.generation
    }
}

} // verus!
