//! Flow records and the bounded aggregator that keeps the highest-throughput ones.

use crate::common_types::FlowKey;
use vstd::multiset::Multiset;
use vstd::prelude::*;

verus! {

broadcast use vstd::seq_lib::group_to_multiset_ensures, vstd::multiset::group_multiset_properties,
    vstd::multiset::group_multiset_axioms;

/// Throughput of one flow over one drain cycle.
#[derive(Copy, Clone, Debug, PartialEq, Eq, Hash, Structural)]
pub struct FlowInfo {
    pub throughput: u64,
    pub src_addr: u32,
    pub dest_addr: u32,
    pub src_port: u16,
    pub dest_port: u16,
    pub protocol: u8,
}

/// The record of `key` with throughput `t`.
pub open spec fn flow_record(key: FlowKey, t: u64) -> FlowInfo {
    FlowInfo {
        throughput: t,
        src_addr: key.src_addr,
        dest_addr: key.dest_addr,
        src_port: key.src_port,
        dest_port: key.dest_port,
        protocol: key.protocol,
    }
}

impl FlowInfo {
    pub fn new(key: &FlowKey, throughput: u64) -> (r: FlowInfo)
        ensures
            r == flow_record(*key, throughput),
    {
        FlowInfo {
            throughput,
            src_addr: key.src_addr,
            dest_addr: key.dest_addr,
            src_port: key.src_port,
            dest_port: key.dest_port,
            protocol: key.protocol,
        }
    }
}

/// `r` is a member of `m` whose throughput no other member undercuts.
pub open spec fn is_lowest(m: Multiset<FlowInfo>, r: FlowInfo) -> bool {
    &&& m.contains(r)
    &&& forall|x: FlowInfo| #[trigger] m.contains(x) ==> r.throughput <= x.throughput
}

/// Some member of `m` has throughput below `t`.
pub open spec fn has_lower(m: Multiset<FlowInfo>, t: u64) -> bool {
    exists|x: FlowInfo| #[trigger] m.contains(x) && x.throughput < t
}

/// One `add` of `rec` to an aggregator of capacity `n` that held `before` and then holds
/// `after`: below capacity the record goes in; at capacity it replaces a lowest member
/// of strictly smaller throughput, or is discarded.
pub open spec fn add_step(
    n: nat,
    before: Multiset<FlowInfo>,
    rec: FlowInfo,
    after: Multiset<FlowInfo>,
) -> bool {
    if before.len() < n {
        after == before.insert(rec)
    } else if has_lower(before, rec.throughput) {
        exists|x: FlowInfo| #[trigger] is_lowest(before, x) && after == before.remove(x).insert(rec)
    } else {
        after == before
    }
}

/// `states` traces offering each of `recs` in turn to an aggregator of capacity `n`:
/// `states[i]` is what it held before `recs[i]`, and `states[i + 1]` after.
pub open spec fn add_trace(n: nat, recs: Seq<FlowInfo>, states: Seq<Multiset<FlowInfo>>) -> bool {
    &&& states.len() == recs.len() + 1
    &&& forall|i: int| 0 <= i < recs.len() ==> add_step(n, #[trigger] states[i], recs[i], states[i + 1])
}

/// Offering each of `recs` in turn to an aggregator of capacity `n` that held `before`
/// can leave it holding `after`.
pub open spec fn add_all(
    n: nat,
    before: Multiset<FlowInfo>,
    recs: Seq<FlowInfo>,
    after: Multiset<FlowInfo>,
) -> bool {
    exists|states: Seq<Multiset<FlowInfo>>|
        #[trigger] add_trace(n, recs, states) && states[0] == before && states.last() == after
}

/// What holds of an aggregator of capacity `n` holding `held` after `k` records, `all`,
/// were offered from empty.
spec fn keeps_best(n: nat, all: Multiset<FlowInfo>, held: Multiset<FlowInfo>, k: nat) -> bool {
    &&& all.len() == k
    &&& held.len() == if k < n {
        k
    } else {
        n
    }
    &&& held.subset_of(all)
    &&& forall|r: FlowInfo, d: FlowInfo|
        #[trigger] held.contains(r) && #[trigger] all.sub(held).contains(d) ==> r.throughput
            >= d.throughput
}

proof fn lemma_keeps_best_step(
    n: nat,
    all: Multiset<FlowInfo>,
    before: Multiset<FlowInfo>,
    rec: FlowInfo,
    after: Multiset<FlowInfo>,
    k: nat,
)
    requires
        keeps_best(n, all, before, k),
        add_step(n, before, rec, after),
    ensures
        keeps_best(n, all.insert(rec), after, k + 1),
{
    let all2 = all.insert(rec);
    if before.len() < n {
        assert(all.sub(before).len() == 0);
        assert forall|r: FlowInfo, d: FlowInfo|
            #[trigger] after.contains(r) && #[trigger] all2.sub(after).contains(d) implies r.throughput
            >= d.throughput by {
            assert(all2.sub(after).count(d) == all.sub(before).count(d));
        }
    } else if has_lower(before, rec.throughput) {
        let x = choose|x: FlowInfo| #[trigger] is_lowest(before, x) && after == before.remove(x).insert(rec);
        assert(before.contains(x));
        assert forall|v: FlowInfo| after.count(v) <= all2.count(v) by {}
        assert forall|r: FlowInfo, d: FlowInfo|
            #[trigger] after.contains(r) && #[trigger] all2.sub(after).contains(d) implies r.throughput
            >= d.throughput by {
            let lower = if r == rec {
                x.throughput
            } else {
                r.throughput
            };
            if r != rec {
                assert(before.contains(r));
            }
            if all.count(d) > before.count(d) {
                assert(all.sub(before).contains(d));
                assert(x.throughput >= d.throughput);
            } else {
                assert(d == x);
            }
        }
    } else {
        assert forall|r: FlowInfo, d: FlowInfo|
            #[trigger] after.contains(r) && #[trigger] all2.sub(after).contains(d) implies r.throughput
            >= d.throughput by {
            if d != rec {
                assert(all.sub(before).contains(d));
            } else {
                assert(!(before.contains(r) && r.throughput < rec.throughput));
            }
        }
    }
}

proof fn lemma_trace_prefix(n: nat, recs: Seq<FlowInfo>, states: Seq<Multiset<FlowInfo>>, i: int)
    requires
        add_trace(n, recs, states),
        states[0] == Multiset::<FlowInfo>::empty(),
        0 <= i <= recs.len(),
    ensures
        keeps_best(n, recs.take(i).to_multiset(), states[i], i as nat),
    decreases i,
{
    if i == 0 {
        assert(recs.take(0) =~= Seq::<FlowInfo>::empty());
        assert(Multiset::<FlowInfo>::empty().sub(Multiset::<FlowInfo>::empty()) =~= Multiset::<FlowInfo>::empty());
    } else {
        lemma_trace_prefix(n, recs, states, i - 1);
        assert(recs.take(i) =~= recs.take(i - 1).push(recs[i - 1]));
        assert(add_step(n, states[i - 1], recs[i - 1], states[i]));
        lemma_keeps_best_step(n, recs.take(i - 1).to_multiset(), states[i - 1], recs[i - 1], states[i], (i - 1) as nat);
    }
}

/// After any run of offers to an aggregator of capacity `n` that started empty, it holds
/// `min(n, k)` of the `k` records offered, and no record it holds has lower throughput
/// than one that was offered and is not held.
pub proof fn lemma_top_k(n: nat, recs: Seq<FlowInfo>, after: Multiset<FlowInfo>)
    requires
        add_all(n, Multiset::empty(), recs, after),
    ensures
        after.len() == if recs.len() < n {
            recs.len()
        } else {
            n
        },
        after.subset_of(recs.to_multiset()),
        forall|r: FlowInfo, d: FlowInfo|
            #[trigger] after.contains(r) && #[trigger] recs.to_multiset().sub(after).contains(d)
                ==> r.throughput >= d.throughput,
{
    let states = choose|states: Seq<Multiset<FlowInfo>>|
        #[trigger] add_trace(n, recs, states) && states[0] == Multiset::<FlowInfo>::empty()
            && states.last() == after;
    lemma_trace_prefix(n, recs, states, recs.len() as int);
    assert(recs.take(recs.len() as int) =~= recs);
}

/// `s` is ordered by throughput, highest first.
pub open spec fn sorted_desc(s: Seq<FlowInfo>) -> bool {
    forall|i: int, j: int| 0 <= i < j < s.len() ==> #[trigger] s[i].throughput >= #[trigger] s[j].throughput
}

/// Top-K aggregator: at most `top_n` records, those of the highest throughput offered.
pub struct LimitedMaxHeap {
    top_n: usize,
    heap: Vec<FlowInfo>,
}

impl View for LimitedMaxHeap {
    type V = Multiset<FlowInfo>;

    closed spec fn view(&self) -> Multiset<FlowInfo> {
        self.heap@.to_multiset()
    }
}

/// The record at `i` is no lighter than its parent's.
spec fn heap_edge(s: Seq<FlowInfo>, i: int) -> bool {
    s[(i - 1) / 2].throughput <= s[i].throughput
}

/// `s` is a binary min-heap by throughput.
spec fn heap_ordered(s: Seq<FlowInfo>) -> bool {
    forall|i: int| 0 < i < s.len() ==> #[trigger] heap_edge(s, i)
}

/// Heap order holds on every edge but the one into `k`.
spec fn ordered_except_into(s: Seq<FlowInfo>, k: int) -> bool {
    forall|i: int| 0 < i < s.len() && i != k ==> (#[trigger] s[(i - 1) / 2]).throughput <= s[i].throughput
}

/// Heap order holds on every edge but those out of `k`.
spec fn ordered_except_from(s: Seq<FlowInfo>, k: int) -> bool {
    forall|i: int|
        0 < i < s.len() && (i - 1) / 2 != k ==> (#[trigger] s[(i - 1) / 2]).throughput <= s[i].throughput
}

/// The parent of `k` is no heavier than the children of `k`.
spec fn bridged(s: Seq<FlowInfo>, k: int) -> bool {
    forall|c: int|
        0 < c < s.len() && (c - 1) / 2 == k && k > 0 ==> s[(k - 1) / 2].throughput <= (#[trigger] s[c]).throughput
}

proof fn lemma_root_lowest(s: Seq<FlowInfo>, j: int)
    requires
        heap_ordered(s),
        0 <= j < s.len(),
    ensures
        s[0].throughput <= s[j].throughput,
    decreases j,
{
    if j > 0 {
        assert(heap_edge(s, j));
        lemma_root_lowest(s, (j - 1) / 2);
    }
}

/// Index of a record of least throughput in `s`.
spec fn lowest_at(s: Seq<FlowInfo>, i: int) -> bool {
    &&& 0 <= i < s.len()
    &&& forall|j: int| 0 <= j < s.len() ==> s[i].throughput <= #[trigger] s[j].throughput
}

proof fn lemma_lowest_at(s: Seq<FlowInfo>, i: int)
    requires
        lowest_at(s, i),
    ensures
        is_lowest(s.to_multiset(), s[i]),
        forall|x: FlowInfo| is_lowest(s.to_multiset(), x) ==> x.throughput == s[i].throughput,
{
    assert(s.contains(s[i]));
    assert forall|x: FlowInfo| #[trigger] s.to_multiset().contains(x) implies s[i].throughput
        <= x.throughput by {
        assert(s.contains(x));
        let j = choose|j: int| 0 <= j < s.len() && s[j] == x;
        assert(s[i].throughput <= s[j].throughput);
    }
}

impl LimitedMaxHeap {
    /// Capacity the aggregator was made with.
    pub closed spec fn capacity(&self) -> nat {
        self.top_n as nat
    }

    pub closed spec fn wf(&self) -> bool {
        &&& self.heap@.len() <= self.top_n
        &&& heap_ordered(self.heap@)
    }

    proof fn lemma_root(&self)
        requires
            heap_ordered(self.heap@),
            self.heap@.len() > 0,
        ensures
            lowest_at(self.heap@, 0),
    {
        assert forall|j: int| 0 <= j < self.heap@.len() implies self.heap@[0].throughput
            <= #[trigger] self.heap@[j].throughput by {
            lemma_root_lowest(self.heap@, j);
        }
    }

    pub fn new(top_n: usize) -> (r: Self)
        ensures
            r.wf(),
            r@ == Multiset::<FlowInfo>::empty(),
            r.capacity() == top_n,
    {
        let r = LimitedMaxHeap { top_n, heap: Vec::new() };
        assert(r.heap@ =~= Seq::<FlowInfo>::empty());
        r
    }

    /// Exchanges the records at `i` and `j`.
    fn swap_entries(&mut self, i: usize, j: usize)
        requires
            i < old(self).heap@.len(),
            j < old(self).heap@.len(),
        ensures
            final(self).top_n == old(self).top_n,
            final(self).heap@ == old(self).heap@.update(i as int, old(self).heap@[j as int]).update(
                j as int,
                old(self).heap@[i as int],
            ),
            final(self).heap@.to_multiset() == old(self).heap@.to_multiset(),
    {
        let ghost s = self.heap@;
        let a = self.heap[i];
        let b = self.heap[j];
        self.heap.set(i, b);
        self.heap.set(j, a);
        proof {
            let s1 = s.update(i as int, b);
            assert(s1.to_multiset() == s.to_multiset().insert(b).remove(a));
            assert(s1[j as int] == b);
            assert(s1.update(j as int, a).to_multiset() == s1.to_multiset().insert(a).remove(b));
            assert(s1.update(j as int, a).to_multiset() =~= s.to_multiset());
        }
    }

    /// Moves the record at `k` up until its parent is no heavier.
    fn sift_up(&mut self, k: usize)
        requires
            k < old(self).heap@.len(),
            ordered_except_into(old(self).heap@, k as int),
            bridged(old(self).heap@, k as int),
        ensures
            final(self).top_n == old(self).top_n,
            final(self).heap@.len() == old(self).heap@.len(),
            final(self).heap@.to_multiset() == old(self).heap@.to_multiset(),
            heap_ordered(final(self).heap@),
    {
        let mut k = k;
        while k > 0 && self.heap[k].throughput < self.heap[(k - 1) / 2].throughput
            invariant
                k < self.heap@.len(),
                self.top_n == old(self).top_n,
                self.heap@.len() == old(self).heap@.len(),
                self.heap@.to_multiset() == old(self).heap@.to_multiset(),
                ordered_except_into(self.heap@, k as int),
                bridged(self.heap@, k as int),
            decreases k,
        {
            let p = (k - 1) / 2;
            let ghost s = self.heap@;
            self.swap_entries(k, p);
            proof {
                let t = self.heap@;
                assert forall|i: int| 0 < i < t.len() && i != p implies (#[trigger] t[(i - 1) / 2]).throughput
                    <= t[i].throughput by {
                    assert(heap_edge(s, i) || i == k);
                }
                assert forall|c: int| 0 < c < t.len() && (c - 1) / 2 == p && p > 0 implies t[(p - 1)
                    / 2].throughput <= (#[trigger] t[c]).throughput by {
                    assert(heap_edge(s, p as int));
                    if c != k {
                        assert(heap_edge(s, c));
                    }
                }
                assert(ordered_except_into(t, p as int));
            }
            k = p;
        }
        proof {
            assert forall|i: int| 0 < i < self.heap@.len() implies heap_edge(self.heap@, i) by {
                if i != k {
                    assert(heap_edge(self.heap@, i));
                }
            }
        }
    }

    /// Moves the record at `k` down until no child is lighter.
    fn sift_down(&mut self, k: usize)
        requires
            k < old(self).heap@.len(),
            ordered_except_from(old(self).heap@, k as int),
            bridged(old(self).heap@, k as int),
        ensures
            final(self).top_n == old(self).top_n,
            final(self).heap@.len() == old(self).heap@.len(),
            final(self).heap@.to_multiset() == old(self).heap@.to_multiset(),
            heap_ordered(final(self).heap@),
    {
        let mut k = k;
        let len = self.heap.len();
        loop
            invariant
                len == self.heap@.len(),
                k < len,
                self.top_n == old(self).top_n,
                self.heap@.len() == old(self).heap@.len(),
                self.heap@.to_multiset() == old(self).heap@.to_multiset(),
                ordered_except_from(self.heap@, k as int),
                bridged(self.heap@, k as int),
            decreases len - k,
        {
            let ghost s = self.heap@;
            if len - 1 - k <= k {
                proof {
                    assert forall|i: int| 0 < i < s.len() implies heap_edge(s, i) by {
                        assert((i - 1) / 2 != k);
                    }
                }
                return;
            }
            let l = 2 * k + 1;
            let m = if l + 1 < len && self.heap[l + 1].throughput < self.heap[l].throughput {
                l + 1
            } else {
                l
            };
            if self.heap[m].throughput >= self.heap[k].throughput {
                proof {
                    assert forall|i: int| 0 < i < s.len() implies heap_edge(s, i) by {
                        if (i - 1) / 2 == k {
                            assert(i == l || i == l + 1);
                        }
                    }
                }
                return;
            }
            self.swap_entries(k, m);
            proof {
                let t = self.heap@;
                assert forall|i: int| 0 < i < t.len() && (i - 1) / 2 != m implies (#[trigger] t[(i - 1)
                    / 2]).throughput <= t[i].throughput by {
                    if (i - 1) / 2 == k {
                        assert(i == l || i == l + 1);
                    } else if i == k {
                        assert(bridged(s, k as int));
                        assert((m - 1) / 2 == k);
                    } else if i != m {
                        assert(heap_edge(s, i));
                    }
                }
                assert forall|c: int| 0 < c < t.len() && (c - 1) / 2 == m implies t[(m - 1) / 2].throughput
                    <= (#[trigger] t[c]).throughput by {
                    assert(heap_edge(s, c));
                }
                assert(ordered_except_from(t, m as int));
            }
            k = m;
        }
    }

    /// Offers the record of `flow_key` with `total_throughput`.
    pub fn add(&mut self, flow_key: &FlowKey, total_throughput: u64)
        requires
            old(self).wf(),
        ensures
            final(self).wf(),
            final(self).capacity() == old(self).capacity(),
            add_step(
                old(self).capacity(),
                old(self)@,
                flow_record(*flow_key, total_throughput),
                final(self)@,
            ),
    {
        let rec = FlowInfo::new(flow_key, total_throughput);
        self.add_record(rec);
    }

    /// Offers each of `recs`, in order.
    pub fn add_records(&mut self, recs: &Vec<FlowInfo>)
        requires
            old(self).wf(),
        ensures
            final(self).wf(),
            final(self).capacity() == old(self).capacity(),
            add_all(old(self).capacity(), old(self)@, recs@, final(self)@),
    {
        let ghost mut states = seq![self@];
        let mut i: usize = 0;
        while i < recs.len()
            invariant
                self.wf(),
                self.capacity() == old(self).capacity(),
                i <= recs@.len(),
                add_trace(self.capacity(), recs@.take(i as int), states),
                states[0] == old(self)@,
                states.last() == self@,
            decreases recs@.len() - i,
        {
            let ghost prev = states;
            self.add_record(recs[i]);
            proof {
                states = states.push(self@);
                let t = recs@.take(i + 1);
                assert forall|j: int| 0 <= j < t.len() implies add_step(
                    self.capacity(),
                    #[trigger] states[j],
                    t[j],
                    states[j + 1],
                ) by {
                    if j < i {
                        assert(states[j] == prev[j]);
                        assert(states[j + 1] == prev[j + 1]);
                        assert(t[j] == recs@.take(i as int)[j]);
                    }
                }
            }
            i += 1;
        }
        assert(recs@.take(recs@.len() as int) =~= recs@);
    }

    fn add_record(&mut self, rec: FlowInfo)
        requires
            old(self).wf(),
        ensures
            final(self).wf(),
            final(self).capacity() == old(self).capacity(),
            add_step(old(self).capacity(), old(self)@, rec, final(self)@),
    {
        let total_throughput = rec.throughput;
        if self.heap.len() < self.top_n {
            let ghost before = self.heap@;
            self.heap.push(rec);
            let k = self.heap.len() - 1;
            proof {
                assert forall|i: int| 0 < i < self.heap@.len() && i != k implies (#[trigger] self.heap@[(i
                    - 1) / 2]).throughput <= self.heap@[i].throughput by {
                    assert(heap_edge(before, i));
                }
            }
            self.sift_up(k);
        } else if self.heap.len() > 0 {
            proof {
                self.lemma_root();
                lemma_lowest_at(self.heap@, 0);
            }
            if self.heap[0].throughput < total_throughput {
                let ghost before = self.heap@;
                self.heap.set(0, rec);
                proof {
                    assert(before.to_multiset().remove(before[0]).insert(rec)
                        =~= before.to_multiset().insert(rec).remove(before[0]));
                    assert forall|i: int| 0 < i < self.heap@.len() && (i - 1) / 2 != 0 implies (
                    #[trigger] self.heap@[(i - 1) / 2]).throughput <= self.heap@[i].throughput by {
                        assert(heap_edge(before, i));
                    }
                }
                self.sift_down(0);
            }
        }
    }

    /// Number of records held.
    pub fn len(&self) -> (r: usize)
        ensures
            r == self@.len(),
    {
        self.heap.len()
    }

    /// Takes out a record of least throughput.
    pub fn pop(&mut self) -> (r: Option<FlowInfo>)
        requires
            old(self).wf(),
        ensures
            final(self).wf(),
            final(self).capacity() == old(self).capacity(),
            old(self)@.len() == 0 ==> (r is None && final(self)@ == old(self)@),
            old(self)@.len() > 0 ==> (r matches Some(x) && is_lowest(old(self)@, x)
                && final(self)@ == old(self)@.remove(x)),
    {
        if self.heap.len() == 0 {
            None
        } else {
            proof {
                self.lemma_root();
                lemma_lowest_at(self.heap@, 0);
            }
            let ghost before = self.heap@;
            let last = self.heap.len() - 1;
            self.swap_entries(0, last);
            let ghost swapped = self.heap@;
            let top = self.heap.pop().unwrap();
            proof {
                assert(swapped.drop_last() =~= swapped.remove(last as int));
                assert(top == before[0]);
                assert forall|i: int| 0 < i < self.heap@.len() && (i - 1) / 2 != 0 implies (
                #[trigger] self.heap@[(i - 1) / 2]).throughput <= self.heap@[i].throughput by {
                    assert(heap_edge(before, i));
                }
            }
            if self.heap.len() > 0 {
                self.sift_down(0);
            }
            Some(top)
        }
    }

    /// Drops every record; the capacity stays.
    pub fn clear(&mut self)
        ensures
            final(self).wf(),
            final(self).capacity() == old(self).capacity(),
            final(self)@ == Multiset::<FlowInfo>::empty(),
    {
        self.heap.clear();
        assert(self.heap@ =~= Seq::<FlowInfo>::empty());
    }

    /// Walks the records held, in no particular order.
    pub fn liter(&self) -> (r: Liter)
        ensures
            r.wf(),
            r.remaining().to_multiset() == self@,
    {
        let r = Liter { items: self.heap.clone(), pos: 0 };
        assert(r.items@.skip(0) =~= self.heap@);
        r
    }

    /// The records held, highest throughput first.
    pub fn top_flows(&self) -> (r: Vec<FlowInfo>)
        ensures
            r@.to_multiset() == self@,
            sorted_desc(r@),
    {
        let mut out: Vec<FlowInfo> = Vec::new();
        let mut i: usize = 0;
        while i < self.heap.len()
            invariant
                i <= self.heap@.len(),
                out@.to_multiset() == self.heap@.take(i as int).to_multiset(),
                sorted_desc(out@),
            decreases self.heap@.len() - i,
        {
            let rec = self.heap[i];
            let mut k: usize = 0;
            while k < out.len() && out[k].throughput >= rec.throughput
                invariant
                    k <= out@.len(),
                    forall|j: int| 0 <= j < k ==> #[trigger] out@[j].throughput >= rec.throughput,
                decreases out@.len() - k,
            {
                k += 1;
            }
            let ghost prev = out@;
            out.insert(k, rec);
            proof {
                assert(self.heap@.take(i + 1) =~= self.heap@.take(i as int).push(rec));
                assert forall|a: int, b: int| 0 <= a < b < out@.len() implies #[trigger] out@[a].throughput
                    >= #[trigger] out@[b].throughput by {
                    if b < k {
                    } else if b == k {
                        assert(out@[a] == prev[a]);
                    } else if a < k {
                        assert(out@[b] == prev[b - 1]);
                        assert(out@[a] == prev[a]);
                    } else if a == k {
                        assert(out@[b] == prev[b - 1]);
                    } else {
                        assert(out@[b] == prev[b - 1]);
                        assert(out@[a] == prev[a - 1]);
                    }
                }
            }
            i += 1;
        }
        assert(self.heap@.take(self.heap@.len() as int) =~= self.heap@);
        out
    }
}

/// Cursor over the records an aggregator held when it was made.
pub struct Liter {
    items: Vec<FlowInfo>,
    pos: usize,
}

impl Liter {
    /// Records not yet handed out.
    pub closed spec fn remaining(&self) -> Seq<FlowInfo> {
        self.items@.skip(self.pos as int)
    }

    pub closed spec fn wf(&self) -> bool {
        self.pos <= self.items@.len()
    }

    pub fn next(&mut self) -> (r: Option<FlowInfo>)
        requires
            old(self).wf(),
        ensures
            final(self).wf(),
            old(self).remaining().len() == 0 ==> (r is None && final(self).remaining()
                == old(self).remaining()),
            old(self).remaining().len() > 0 ==> (r == Some(old(self).remaining()[0])
                && final(self).remaining() == old(self).remaining().drop_first()),
    {
        if self.pos < self.items.len() {
            let r = self.items[self.pos];
            self.pos = self.pos + 1;
            assert(self.items@.skip(self.pos as int) =~= self.items@.skip(self.pos - 1).drop_first());
            Some(r)
        } else {
            None
        }
    }
}

} // verus!
