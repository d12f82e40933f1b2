use vstd::multiset::Multiset;
use vstd::prelude::*;

verus! {

broadcast use vstd::seq_lib::group_to_multiset_ensures, vstd::multiset::group_multiset_axioms;

/// One feed entry that passed classification: an opaque identifier, the
/// (possibly rewritten) image link, and the engagement count carried
/// through unchanged for display.
#[derive(Clone, Debug)]
pub struct CandidateItem {
    pub id: String,
    pub url: String,
    pub num_comments: u64,
}

/// A candidate together with its computed distance to the target color.
pub type ScoredItem = (u32, CandidateItem);

/// Distances never decrease along the sequence.
pub open spec fn sorted_by_dist(s: Seq<ScoredItem>) -> bool {
    forall|i: int, j: int| 0 <= i < j < s.len() ==> (#[trigger] s[i]).0 <= (#[trigger] s[j]).0
}

/// No two candidates share a distance.
pub open spec fn distinct_dists(s: Seq<ScoredItem>) -> bool {
    forall|i: int, j: int|
        0 <= i < s.len() && 0 <= j < s.len() && i != j ==> (#[trigger] s[i]).0 != (
        #[trigger] s[j]).0
}

/// The multiset form of distinctness: every scored candidate appears once,
/// and different candidates carry different distances.
pub open spec fn distinct_dists_m(m: Multiset<ScoredItem>) -> bool {
    &&& forall|p: ScoredItem| #[trigger] m.count(p) <= 1
    &&& forall|p: ScoredItem, q: ScoredItem|
        m.contains(p) && m.contains(q) && p != q ==> (#[trigger] p.0) != (#[trigger] q.0)
}

/// `r` is `e` rearranged into ascending distance order.
pub open spec fn sorted_arrangement_of(r: Seq<ScoredItem>, e: Seq<ScoredItem>) -> bool {
    &&& r.to_multiset() == e.to_multiset()
    &&& sorted_by_dist(r)
}

/// `r` is the first `k` of some ascending arrangement of `e`.
pub open spec fn is_ranked_prefix(r: Seq<ScoredItem>, e: Seq<ScoredItem>, k: int) -> bool {
    exists|s: Seq<ScoredItem>|
        #[trigger] sorted_arrangement_of(s, e) && r == s.take(
            if k <= e.len() {
                k
            } else {
                e.len() as int
            },
        )
}

/// The bounded candidate set of one search: scored candidates in arrival
/// order, under a hard capacity cap.
pub struct Reservoir {
    entries: Vec<ScoredItem>,
    capacity: usize,
}

impl View for Reservoir {
    type V = Seq<ScoredItem>;

    closed spec fn view(&self) -> Seq<ScoredItem> {
        self.entries@
    }
}

impl Reservoir {
    /// The hard cap on how many candidates are kept.
    pub closed spec fn cap(self) -> int {
        self.capacity as int
    }

    pub closed spec fn wf(self) -> bool {
        self.entries@.len() <= self.capacity
    }

    pub fn new(capacity: usize) -> (r: Reservoir)
        ensures
            r@ =~= Seq::<ScoredItem>::empty(),
            r.cap() == capacity,
            r.wf(),
    {
        Reservoir { entries: Vec::new(), capacity }
    }

    /// Admits one scored candidate; the caller stops feeding a full
    /// reservoir, so admission below the cap keeps it well formed.
    pub fn insert(&mut self, distance: u32, item: CandidateItem)
        requires
            old(self).wf(),
            old(self)@.len() < old(self).cap(),
        ensures
            final(self).wf(),
            final(self)@ == old(self)@.push((distance, item)),
            final(self).cap() == old(self).cap(),
    {
        self.entries.push((distance, item));
    }

    /// Whether the reservoir has reached its cap; pagination stops here.
    pub fn is_full(&self) -> (r: bool)
        ensures
            r == (self@.len() >= self.cap()),
    {
        self.entries.len() >= self.capacity
    }

    /// The final extraction: the `k` smallest-distance candidates, in
    /// ascending distance order — the first `k` of an ascending
    /// arrangement of everything the reservoir held.
    pub fn extract_top(self, k: usize) -> (r: Vec<ScoredItem>)
        ensures
            r@.len() == if k as int <= self@.len() {
                k as int
            } else {
                self@.len() as int
            },
            sorted_by_dist(r@),
            is_ranked_prefix(r@, self@, k as int),
    {
        let mut remaining = self.entries;
        let ghost whole = remaining@;
        let mut out: Vec<ScoredItem> = Vec::new();
        while remaining.len() > 0
            invariant
                out@.to_multiset().add(remaining@.to_multiset()) =~= whole.to_multiset(),
                sorted_by_dist(out@),
                forall|i: int, j: int|
                    0 <= i < out@.len() && 0 <= j < remaining@.len() ==> (
                    #[trigger] out@[i]).0 <= (#[trigger] remaining@[j]).0,
            decreases remaining@.len(),
        {
            let mut best: usize = 0;
            let mut t: usize = 1;
            while t < remaining.len()
                invariant
                    0 <= best < t <= remaining@.len(),
                    remaining@.len() > 0,
                    forall|j: int|
                        0 <= j < t ==> (#[trigger] remaining@[j]).0 >= remaining@[
                            best as int].0,
                decreases remaining@.len() - t,
            {
                if remaining[t].0 < remaining[best].0 {
                    best = t;
                }
                t += 1;
            }
            let ghost before = remaining@;
            let picked = remaining.remove(best);
            proof {
                assert(before.to_multiset().contains(picked));
                assert(out@.to_multiset().insert(picked).add(
                    before.to_multiset().remove(picked),
                ) =~= out@.to_multiset().add(before.to_multiset()));
                assert(forall|j: int|
                    0 <= j < remaining@.len() ==> (#[trigger] remaining@[j]).0
                        >= picked.0) by {
                    assert(forall|j: int|
                        0 <= j < before.len() ==> (#[trigger] before[j]).0 >= picked.0);
                    assert(forall|j: int|
                        0 <= j < remaining@.len() ==> remaining@[j] == if j < best {
                            #[trigger] before[j]
                        } else {
                            before[j + 1]
                        });
                }
            }
            out.push(picked);
        }
        proof {
            assert(remaining@.to_multiset() =~= Multiset::<ScoredItem>::empty());
            assert(out@.to_multiset() =~= whole.to_multiset());
            assert(out@.len() == out@.to_multiset().len());
            assert(whole.len() == whole.to_multiset().len());
            assert(sorted_arrangement_of(out@, whole));
        }
        let ghost full = out@;
        let bound = if k <= out.len() {
            k
        } else {
            out.len()
        };
        while out.len() > bound
            invariant
                bound <= out@.len() <= full.len(),
                out@ == full.take(out@.len() as int),
            decreases out@.len(),
        {
            out.pop();
            proof {
                assert(full.take(out@.len() as int) =~= full.take(
                    (out@.len() + 1) as int,
                ).drop_last());
            }
        }
        proof {
            assert(full.take(full.len() as int) =~= full);
            assert(sorted_by_dist(out@)) by {
                assert(forall|i: int|
                    0 <= i < out@.len() ==> out@[i] == #[trigger] full[i]);
            }
            assert(is_ranked_prefix(out@, whole, k as int)) by {
                assert(sorted_arrangement_of(full, whole));
            }
        }
        out
    }
}

/// A sequence whose candidates all carry different distances turns into a
/// multiset with the same property.
pub proof fn lemma_distinct_to_multiset(e: Seq<ScoredItem>)
    requires
        distinct_dists(e),
    ensures
        distinct_dists_m(e.to_multiset()),
    decreases e.len(),
{
    if e.len() == 0 {
        assert(e.to_multiset() =~= Multiset::<ScoredItem>::empty());
    } else {
        let rest = e.drop_first();
        assert(distinct_dists(rest)) by {
            assert(forall|i: int| 0 <= i < rest.len() ==> rest[i] == #[trigger] e[i + 1]);
        }
        lemma_distinct_to_multiset(rest);
        assert(e.to_multiset() =~= rest.to_multiset().insert(e[0])) by {
            assert(e =~= seq![e[0]] + rest);
            vstd::seq_lib::lemma_multiset_commutative(seq![e[0]], rest);
            assert(seq![e[0]].to_multiset() =~= Multiset::<ScoredItem>::empty().insert(
                e[0],
            )) by {
                assert(seq![e[0]].drop_first() =~= Seq::<ScoredItem>::empty());
            }
        }
        let m = e.to_multiset();
        assert forall|p: ScoredItem| #[trigger] m.count(p) <= 1 by {
            if p == e[0] {
                if rest.to_multiset().contains(p) {
                    let w = choose|w: int| 0 <= w < rest.len() && rest[w] == p;
                    assert(e[w + 1] == p);
                    assert(e[0].0 == e[w + 1].0);
                    assert(false);
                }
            }
        }
        assert forall|p: ScoredItem, q: ScoredItem|
            m.contains(p) && m.contains(q) && p != q implies p.0 != q.0 by {
            if p != e[0] && q != e[0] {
                assert(rest.to_multiset().contains(p) && rest.to_multiset().contains(q));
            } else if p == e[0] && q != e[0] {
                assert(rest.to_multiset().contains(q));
                let w = choose|w: int| 0 <= w < rest.len() && rest[w] == q;
                assert(e[w + 1] == q);
            } else if p != e[0] && q == e[0] {
                assert(rest.to_multiset().contains(p));
                let w = choose|w: int| 0 <= w < rest.len() && rest[w] == p;
                assert(e[w + 1] == p);
            }
        }
    }
}

/// Two ascending arrangements of one multiset of candidates with pairwise
/// different distances are the same sequence.
proof fn lemma_sorted_unique(s1: Seq<ScoredItem>, s2: Seq<ScoredItem>)
    requires
        sorted_by_dist(s1),
        sorted_by_dist(s2),
        s1.to_multiset() == s2.to_multiset(),
        distinct_dists_m(s1.to_multiset()),
    ensures
        s1 == s2,
    decreases s1.len(),
{
    assert(s1.len() == s1.to_multiset().len());
    assert(s2.len() == s2.to_multiset().len());
    if s1.len() == 0 {
        assert(s1 =~= s2);
    } else {
        let m = s1.to_multiset();
        assert(s1.to_multiset().contains(s1[0]));
        assert(s2.to_multiset().contains(s2[0]));
        let i = choose|i: int| 0 <= i < s2.len() && s2[i] == s1[0];
        let j = choose|j: int| 0 <= j < s1.len() && s1[j] == s2[0];
        assert(s2[0].0 <= s2[i].0);
        assert(s1[0].0 <= s1[j].0);
        assert(s1[0].0 == s2[0].0);
        assert(s1[0] == s2[0]) by {
            if s1[0] != s2[0] {
                assert(m.contains(s1[0]) && m.contains(s2[0]));
            }
        }
        let t1 = s1.drop_first();
        let t2 = s2.drop_first();
        assert(t1.to_multiset() =~= s1.to_multiset().remove(s1[0])) by {
            assert(s1.remove(0) =~= t1);
        }
        assert(t2.to_multiset() =~= s2.to_multiset().remove(s2[0])) by {
            assert(s2.remove(0) =~= t2);
        }
        assert(sorted_by_dist(t1) && sorted_by_dist(t2)) by {
            assert(forall|x: int| 0 <= x < t1.len() ==> t1[x] == #[trigger] s1[x + 1]);
            assert(forall|x: int| 0 <= x < t2.len() ==> t2[x] == #[trigger] s2[x + 1]);
        }
        assert(distinct_dists_m(t1.to_multiset())) by {
            assert(forall|p: ScoredItem| #[trigger] t1.to_multiset().count(p)
                <= s1.to_multiset().count(p));
        }
        lemma_sorted_unique(t1, t2);
        assert(s1 =~= s2) by {
            assert(forall|x: int| 1 <= x < s1.len() ==> #[trigger] s1[x] == t1[x - 1]);
            assert(forall|x: int| 1 <= x < s2.len() ==> #[trigger] s2[x] == t2[x - 1]);
        }
    }
}

/// Law: feeding one fixed set of scored candidates to the reservoir in any
/// order yields one and the same extraction, of length `k` or the number
/// of candidates, whichever is smaller.
pub proof fn lemma_extract_order_independent(
    r1: Seq<ScoredItem>,
    e1: Seq<ScoredItem>,
    r2: Seq<ScoredItem>,
    e2: Seq<ScoredItem>,
    k: int,
)
    requires
        0 <= k,
        e1.to_multiset() == e2.to_multiset(),
        distinct_dists(e1),
        is_ranked_prefix(r1, e1, k),
        is_ranked_prefix(r2, e2, k),
    ensures
        r1 == r2,
        r1.len() == if k <= e1.len() {
            k
        } else {
            e1.len() as int
        },
{
    assert(e1.len() == e1.to_multiset().len());
    assert(e2.len() == e2.to_multiset().len());
    let s1 = choose|s: Seq<ScoredItem>|
        #[trigger] sorted_arrangement_of(s, e1) && r1 == s.take(
            if k <= e1.len() {
                k
            } else {
                e1.len() as int
            },
        );
    let s2 = choose|s: Seq<ScoredItem>|
        #[trigger] sorted_arrangement_of(s, e2) && r2 == s.take(
            if k <= e2.len() {
                k
            } else {
                e2.len() as int
            },
        );
    lemma_distinct_to_multiset(e1);
    lemma_sorted_unique(s1, s2);
    assert(s1.len() == s1.to_multiset().len());
}

} // verus!
