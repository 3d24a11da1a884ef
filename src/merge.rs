use vstd::prelude::*;

use crate::normalize::blank_line;
use crate::text::{join, join_strings};

verus! {

broadcast use vstd::seq_lib::group_to_multiset_ensures;

/// One chunk's persisted partial Markdown, keyed by the chunk's page offset.
pub struct PartialResult {
    pub offset: u64,
    pub content: String,
}

impl View for PartialResult {
    type V = (u64, Seq<char>);

    open spec fn view(&self) -> (u64, Seq<char>) {
        (self.offset, self.content@)
    }
}

impl PartialResult {
    /// A copy of this partial result.
    pub fn duplicate(&self) -> (r: PartialResult)
        ensures
            r@ == self@,
    {
        PartialResult { offset: self.offset, content: self.content.clone() }
    }
}

/// Where `key` goes in `s`: after every element whose offset is at most `key`,
/// counted from the end.
pub open spec fn insert_pos(s: Seq<(u64, Seq<char>)>, key: u64) -> int
    decreases s.len(),
{
    if s.len() == 0 {
        0
    } else if s.last().0 <= key {
        s.len() as int
    } else {
        insert_pos(s.drop_last(), key)
    }
}

/// The parts ordered by offset; parts with equal offsets keep their arrival order.
pub open spec fn sort_by_offset(s: Seq<(u64, Seq<char>)>) -> Seq<(u64, Seq<char>)>
    decreases s.len(),
{
    if s.len() == 0 {
        s
    } else {
        let rest = sort_by_offset(s.drop_last());
        rest.insert(insert_pos(rest, s.last().0), s.last())
    }
}

pub open spec fn ordered_by_offset(s: Seq<(u64, Seq<char>)>) -> bool {
    forall|i: int, j: int| 0 <= i < j < s.len() ==> s[i].0 <= s[j].0
}

/// The merged document: the contents in offset order, separated by blank lines.
pub open spec fn merged(parts: Seq<(u64, Seq<char>)>) -> Seq<char> {
    join(sort_by_offset(parts).map_values(|p: (u64, Seq<char>)| p.1), blank_line())
}

proof fn lemma_insert_pos(s: Seq<(u64, Seq<char>)>, key: u64)
    requires
        ordered_by_offset(s),
    ensures
        0 <= insert_pos(s, key) <= s.len(),
        forall|i: int| 0 <= i < insert_pos(s, key) ==> s[i].0 <= key,
        forall|i: int| insert_pos(s, key) <= i < s.len() ==> s[i].0 > key,
    decreases s.len(),
{
    if s.len() > 0 {
        if s.last().0 > key {
            let d = s.drop_last();
            assert(ordered_by_offset(d)) by {
                assert forall|i: int, j: int| 0 <= i < j < d.len() implies d[i].0 <= d[j].0 by {
                    assert(d[i] == s[i] && d[j] == s[j]);
                }
            }
            lemma_insert_pos(d, key);
            assert forall|i: int| insert_pos(s, key) <= i < s.len() implies s[i].0 > key by {
                if i < s.len() - 1 {
                    assert(s[i] == d[i]);
                }
            }
            assert forall|i: int| 0 <= i < insert_pos(s, key) implies s[i].0 <= key by {
                assert(s[i] == d[i]);
            }
        } else {
            assert forall|i: int| 0 <= i < insert_pos(s, key) implies s[i].0 <= key by {
                if i < s.len() - 1 {
                    assert(s[i].0 <= s[s.len() - 1].0);
                }
            }
        }
    }
}

/// The merge order is fixed by the persisted offsets alone: the parts come out
/// ordered by offset, and they are the parts that went in, whatever their arrival order.
pub proof fn lemma_sort_by_offset(s: Seq<(u64, Seq<char>)>)
    ensures
        ordered_by_offset(sort_by_offset(s)),
        sort_by_offset(s).to_multiset() == s.to_multiset(),
        sort_by_offset(s).len() == s.len(),
    decreases s.len(),
{
    if s.len() > 0 {
        let rest = sort_by_offset(s.drop_last());
        lemma_sort_by_offset(s.drop_last());
        let x = s.last();
        let k = insert_pos(rest, x.0);
        lemma_insert_pos(rest, x.0);
        let r = rest.insert(k, x);
        assert forall|i: int, j: int| 0 <= i < j < r.len() implies r[i].0 <= r[j].0 by {
            if i < k && j < k {
            } else if i < k && j == k {
            } else if i < k {
                assert(r[j] == rest[j - 1]);
            } else if i == k {
                assert(r[j] == rest[j - 1]);
            } else {
                assert(r[i] == rest[i - 1]);
                assert(r[j] == rest[j - 1]);
            }
        }
        vstd::seq_lib::to_multiset_insert(rest, k, x);
        assert(s.drop_last().push(x) =~= s);
        vstd::seq_lib::to_multiset_build(s.drop_last(), x);
    }
}

/// No two parts share an offset.
pub open spec fn distinct_offsets(s: Seq<(u64, Seq<char>)>) -> bool {
    forall|i: int, j: int| 0 <= i < j < s.len() ==> s[i].0 != s[j].0
}

/// An element of `s` that occurs twice in its multiset sits at two positions.
proof fn lemma_twice_at_two_positions(s: Seq<(u64, Seq<char>)>, e: (u64, Seq<char>))
    requires
        s.to_multiset().remove(e).count(e) > 0,
    ensures
        exists|p: int, q: int| 0 <= p < q < s.len() && s[p] == e && s[q] == e,
{
    assert(s.to_multiset().count(e) > 0);
    assert(s.contains(e));
    let p = choose|p: int| 0 <= p < s.len() && s[p] == e;
    let r = s.remove(p);
    assert(r.to_multiset() == s.to_multiset().remove(s[p]));
    assert(r.to_multiset().count(e) > 0);
    assert(r.contains(e));
    let q0 = choose|q: int| 0 <= q < r.len() && r[q] == e;
    if q0 < p {
        assert(s[q0] == e);
    } else {
        assert(s[q0 + 1] == e);
    }
}

/// Reordering keeps the offsets distinct.
proof fn lemma_distinct_offsets_permuted(x: Seq<(u64, Seq<char>)>, y: Seq<(u64, Seq<char>)>)
    requires
        x.to_multiset() == y.to_multiset(),
        distinct_offsets(y),
    ensures
        distinct_offsets(x),
{
    assert forall|i: int, j: int| 0 <= i < j < x.len() implies x[i].0 != x[j].0 by {
        if x[i].0 == x[j].0 {
            if x[i] == x[j] {
                let r = x.remove(j);
                assert(r[i] == x[i]);
                assert(r.contains(x[i]));
                assert(r.to_multiset() == x.to_multiset().remove(x[j]));
                assert(y.to_multiset().remove(x[j]).count(x[j]) > 0);
                lemma_twice_at_two_positions(y, x[j]);
            } else {
                assert(x.contains(x[i]) && x.contains(x[j]));
                assert(x.to_multiset().count(x[i]) > 0 && x.to_multiset().count(x[j]) > 0);
                assert(y.contains(x[i]) && y.contains(x[j]));
                let p = choose|p: int| 0 <= p < y.len() && y[p] == x[i];
                let q = choose|q: int| 0 <= q < y.len() && y[q] == x[j];
                assert(p != q);
                if p < q {
                    assert(y[p].0 != y[q].0);
                } else {
                    assert(y[q].0 != y[p].0);
                }
            }
        }
    }
}

/// Two sequences ordered by distinct offsets that hold the same parts are equal.
proof fn lemma_ordered_unique(x: Seq<(u64, Seq<char>)>, y: Seq<(u64, Seq<char>)>)
    requires
        x.to_multiset() == y.to_multiset(),
        ordered_by_offset(x),
        ordered_by_offset(y),
        distinct_offsets(x),
        distinct_offsets(y),
    ensures
        x == y,
    decreases x.len(),
{
    assert(x.len() == x.to_multiset().len());
    assert(y.len() == y.to_multiset().len());
    if x.len() == 0 {
        assert(x =~= y);
    } else {
        assert(x.contains(x[0]));
        assert(x.to_multiset().count(x[0]) > 0);
        assert(y.contains(x[0]));
        let q = choose|q: int| 0 <= q < y.len() && y[q] == x[0];
        assert(y.contains(y[0]));
        assert(y.to_multiset().count(y[0]) > 0);
        assert(x.contains(y[0]));
        let p = choose|p: int| 0 <= p < x.len() && x[p] == y[0];
        if p != 0 {
            assert(x[0].0 <= x[p].0);
            assert(y[0].0 <= y[q].0);
            assert(x[0].0 != x[p].0);
        }
        assert(x[0] == y[0]);
        let xr = x.drop_first();
        let yr = y.drop_first();
        assert(x.remove(0) =~= xr);
        assert(y.remove(0) =~= yr);
        assert(xr.to_multiset() == x.to_multiset().remove(x[0]));
        assert(yr.to_multiset() == y.to_multiset().remove(y[0]));
        assert(ordered_by_offset(xr)) by {
            assert forall|i: int, j: int| 0 <= i < j < xr.len() implies xr[i].0 <= xr[j].0 by {
                assert(xr[i] == x[i + 1] && xr[j] == x[j + 1]);
            }
        }
        assert(ordered_by_offset(yr)) by {
            assert forall|i: int, j: int| 0 <= i < j < yr.len() implies yr[i].0 <= yr[j].0 by {
                assert(yr[i] == y[i + 1] && yr[j] == y[j + 1]);
            }
        }
        assert(distinct_offsets(xr)) by {
            assert forall|i: int, j: int| 0 <= i < j < xr.len() implies xr[i].0 != xr[j].0 by {
                assert(xr[i] == x[i + 1] && xr[j] == x[j + 1]);
            }
        }
        assert(distinct_offsets(yr)) by {
            assert forall|i: int, j: int| 0 <= i < j < yr.len() implies yr[i].0 != yr[j].0 by {
                assert(yr[i] == y[i + 1] && yr[j] == y[j + 1]);
            }
        }
        lemma_ordered_unique(xr, yr);
        assert(x =~= seq![x[0]] + xr);
        assert(y =~= seq![y[0]] + yr);
    }
}

/// Completion order cannot change the merged document: partial results with
/// distinct offsets that arrive in any two orders merge to the same text.
pub proof fn lemma_merge_ignores_arrival_order(a: Seq<(u64, Seq<char>)>, b: Seq<(u64, Seq<char>)>)
    requires
        a.to_multiset() == b.to_multiset(),
        distinct_offsets(a),
    ensures
        sort_by_offset(a) == sort_by_offset(b),
        merged(a) == merged(b),
{
    lemma_sort_by_offset(a);
    lemma_sort_by_offset(b);
    lemma_distinct_offsets_permuted(sort_by_offset(a), a);
    lemma_distinct_offsets_permuted(sort_by_offset(b), a);
    lemma_ordered_unique(sort_by_offset(a), sort_by_offset(b));
}

/// The merged document of the partial results: their contents in offset order,
/// separated by blank lines.
pub fn merge_partials(parts: &Vec<PartialResult>) -> (r: String)
    ensures
        r@ == merged(parts@.map_values(|p: PartialResult| p@)),
{
    let ghost pv = parts@.map_values(|p: PartialResult| p@);
    let mut sorted: Vec<PartialResult> = Vec::new();
    let mut i: usize = 0;
    while i < parts.len()
        invariant
            i <= parts@.len(),
            pv == parts@.map_values(|p: PartialResult| p@),
            sorted@.map_values(|p: PartialResult| p@) == sort_by_offset(pv.subrange(0, i as int)),
        decreases parts.len() - i,
    {
        let ghost sv = sorted@.map_values(|p: PartialResult| p@);
        let key = parts[i].offset;
        let mut j: usize = sorted.len();
        assert(sv.subrange(0, j as int) =~= sv);
        while j > 0 && sorted[j - 1].offset > key
            invariant
                j <= sorted@.len(),
                sv == sorted@.map_values(|p: PartialResult| p@),
                insert_pos(sv, key) == insert_pos(sv.subrange(0, j as int), key),
            decreases j,
        {
            assert(sv.subrange(0, j as int).drop_last() =~= sv.subrange(0, j - 1));
            j = j - 1;
        }
        proof {
            if j > 0 {
                assert(sv.subrange(0, j as int).last() == sv[j - 1]);
            }
        }
        let item = parts[i].duplicate();
        sorted.insert(j, item);
        i = i + 1;
        proof {
            let prefix = pv.subrange(0, i as int);
            assert(prefix.drop_last() =~= pv.subrange(0, i - 1));
            assert(prefix.last() == parts@[i - 1]@);
            assert(sorted@.map_values(|p: PartialResult| p@) =~= sv.insert(j as int, parts@[i - 1]@));
        }
    }
    assert(pv.subrange(0, i as int) =~= pv);
    let mut contents: Vec<String> = Vec::new();
    let mut k: usize = 0;
    while k < sorted.len()
        invariant
            k <= sorted@.len(),
            contents@.map_values(|c: String| c@) =~= sorted@.map_values(|p: PartialResult| p@.1).subrange(
                0,
                k as int,
            ),
        decreases sorted.len() - k,
    {
        let ghost before = contents@;
        let c = sorted[k].content.clone();
        contents.push(c);
        assert(contents@.map_values(|c: String| c@) =~= before.map_values(|c: String| c@).push(
            sorted@[k as int]@.1,
        ));
        k = k + 1;
    }
    proof {
        reveal_strlit("\n\n");
        assert(sorted@.map_values(|p: PartialResult| p@.1).subrange(0, k as int) =~= sort_by_offset(
            pv,
        ).map_values(|p: (u64, Seq<char>)| p.1));
    }
    assert("\n\n"@ =~= blank_line());
    join_strings(&contents, "\n\n")
}

} // verus!
