//! Putting things in order, the highest first.

use vstd::prelude::*;

verus! {

/// The rank of a thing: first by the one number, then by the other.
#[derive(Clone, Copy, PartialEq, Eq, Structural, Debug)]
pub struct Ranked {
    pub high: i64,
    pub low: i64,
    /// Where the thing stands.
    pub at: usize,
}

/// Whether `a` ranks as high as `b`, or higher.
pub open spec fn not_below(a: Ranked, b: Ranked) -> bool {
    a.high > b.high || (a.high == b.high && a.low >= b.low)
}

/// A list in order with one more thing in its place: behind all that do not rank below it.
pub open spec fn placed(s: Seq<Ranked>, k: Ranked) -> Seq<Ranked>
    decreases s.len(),
{
    if s.len() == 0 || not_below(s.last(), k) {
        s.push(k)
    } else {
        placed(s.drop_last(), k).push(s.last())
    }
}

/// The things in order, the highest first; those of one rank stay as they stood.
pub open spec fn ranked(s: Seq<Ranked>) -> Seq<Ranked>
    decreases s.len(),
{
    if s.len() == 0 {
        seq![]
    } else {
        placed(ranked(s.drop_last()), s.last())
    }
}

/// Whether a list is in order.
pub open spec fn in_rank_order(s: Seq<Ranked>) -> bool {
    forall|i: int, j: int|
        0 <= i < j < s.len() ==> not_below(#[trigger] s[i], #[trigger] s[j])
}

fn place(list: &mut Vec<Ranked>, k: Ranked)
    ensures
        final(list)@ == placed(old(list)@, k),
{
    let ghost s = list@;
    let mut i: usize = list.len();
    assert(s.take(i as int) =~= s);
    assert(s.skip(i as int) =~= seq![]);
    assert(placed(s, k) =~= placed(s.take(i as int), k) + s.skip(i as int));
    while i > 0 && !(list[i - 1].high > k.high || (list[i - 1].high == k.high && list[i - 1].low
        >= k.low))
        invariant
            i <= s.len(),
            list@ == s,
            placed(s, k) == placed(s.take(i as int), k) + s.skip(i as int),
        decreases i,
    {
        assert(s.take(i as int).last() == s[i - 1]);
        assert(s.take(i as int).drop_last() =~= s.take(i - 1));
        assert(placed(s.take(i - 1), k).push(s[i - 1]) + s.skip(i as int) =~= placed(
            s.take(i - 1),
            k,
        ) + s.skip(i - 1));
        i = i - 1;
    }
    list.insert(i, k);
    assert(placed(s.take(i as int), k) =~= s.take(i as int).push(k));
    assert(list@ =~= s.take(i as int).push(k) + s.skip(i as int));
}

/// Puts things in order, the highest first; those of one rank stay as they stand.
pub fn by_rank(v: &Vec<Ranked>) -> (r: Vec<Ranked>)
    ensures
        r@ == ranked(v@),
{
    let mut out: Vec<Ranked> = Vec::new();
    let mut i: usize = 0;
    assert(out@ =~= ranked(v@.take(0)));
    while i < v.len()
        invariant
            i <= v@.len(),
            out@ == ranked(v@.take(i as int)),
        decreases v@.len() - i,
    {
        assert(v@.take(i + 1).drop_last() =~= v@.take(i as int));
        place(&mut out, v[i]);
        i = i + 1;
    }
    assert(v@.take(i as int) =~= v@);
    out
}

proof fn lemma_placed(s: Seq<Ranked>, k: Ranked)
    ensures
        placed(s, k).len() == s.len() + 1,
        forall|x: Ranked| #[trigger] placed(s, k).contains(x) <==> s.contains(x) || x == k,
        in_rank_order(s) ==> in_rank_order(placed(s, k)),
    decreases s.len(),
{
    let p = placed(s, k);
    if s.len() == 0 || not_below(s.last(), k) {
        assert forall|x: Ranked| #[trigger] p.contains(x) <==> s.contains(x) || x == k by {
            lemma_push_contains(s, k, x);
        }
        if in_rank_order(s) {
            assert forall|i: int, j: int| 0 <= i < j < p.len() implies not_below(
                #[trigger] p[i],
                #[trigger] p[j],
            ) by {
                if j == s.len() && i < s.len() - 1 {
                    assert(not_below(s[i], s[s.len() - 1]));
                }
            }
        }
    } else {
        let d = s.drop_last();
        let q = placed(d, k);
        lemma_placed(d, k);
        assert(s =~= d.push(s.last()));
        assert forall|x: Ranked| #[trigger] p.contains(x) <==> s.contains(x) || x == k by {
            lemma_push_contains(q, s.last(), x);
            lemma_push_contains(d, s.last(), x);
            assert(q.contains(x) <==> d.contains(x) || x == k);
        }
        if in_rank_order(s) {
            assert(in_rank_order(d)) by {
                assert forall|i: int, j: int| 0 <= i < j < d.len() implies not_below(
                    #[trigger] d[i],
                    #[trigger] d[j],
                ) by {
                    assert(not_below(s[i], s[j]));
                }
            }
            assert forall|i: int, j: int| 0 <= i < j < p.len() implies not_below(
                #[trigger] p[i],
                #[trigger] p[j],
            ) by {
                if j == q.len() {
                    assert(q.contains(q[i]));
                    if q[i] != k {
                        assert(d.contains(q[i]));
                        let a = choose|a: int| 0 <= a < d.len() && d[a] == q[i];
                        assert(not_below(s[a], s[s.len() - 1]));
                    }
                } else {
                    assert(not_below(q[i], q[j]));
                }
            }
        }
    }
}

proof fn lemma_push_contains(s: Seq<Ranked>, k: Ranked, x: Ranked)
    ensures
        s.push(k).contains(x) <==> s.contains(x) || x == k,
{
    let p = s.push(k);
    if s.contains(x) {
        let a = choose|a: int| 0 <= a < s.len() && s[a] == x;
        assert(p[a] == x);
    }
    if x == k {
        assert(p[s.len() as int] == x);
    }
    if p.contains(x) {
        let a = choose|a: int| 0 <= a < p.len() && p[a] == x;
        if a < s.len() {
            assert(s[a] == x);
        }
    }
}

/// What is put in order holds the same things as before, and is in order.
pub proof fn ranking_orders(s: Seq<Ranked>)
    ensures
        ranked(s).len() == s.len(),
        in_rank_order(ranked(s)),
        forall|x: Ranked| #[trigger] ranked(s).contains(x) <==> s.contains(x),
    decreases s.len(),
{
    if s.len() > 0 {
        let d = s.drop_last();
        ranking_orders(d);
        lemma_placed(ranked(d), s.last());
        assert(s =~= d.push(s.last()));
        assert forall|x: Ranked| #[trigger] ranked(s).contains(x) <==> s.contains(x) by {
            lemma_push_contains(d, s.last(), x);
            assert(ranked(d).contains(x) <==> d.contains(x));
        }
    }
}

/// What is in order already stays as it is.
pub proof fn ordered_stays(s: Seq<Ranked>)
    requires
        in_rank_order(s),
    ensures
        ranked(s) == s,
    decreases s.len(),
{
    if s.len() > 0 {
        let d = s.drop_last();
        assert forall|i: int, j: int| 0 <= i < j < d.len() implies not_below(
            #[trigger] d[i],
            #[trigger] d[j],
        ) by {
            assert(not_below(s[i], s[j]));
        }
        ordered_stays(d);
        if d.len() > 0 {
            assert(not_below(s[s.len() - 2], s[s.len() - 1]));
            assert(d.last() == s[s.len() - 2]);
        }
        assert(s =~= d.push(s.last()));
    } else {
        assert(ranked(s) =~= s);
    }
}

// ---------- taking things out ----------

/// A list without the things whose second number is in `gone`.
pub open spec fn stripped(s: Seq<Ranked>, gone: Seq<i64>) -> Seq<Ranked>
    decreases s.len(),
{
    if s.len() == 0 {
        seq![]
    } else if gone.contains(s.last().low) {
        stripped(s.drop_last(), gone)
    } else {
        stripped(s.drop_last(), gone).push(s.last())
    }
}

proof fn lemma_stripped_contains(s: Seq<Ranked>, gone: Seq<i64>, x: Ranked)
    requires
        stripped(s, gone).contains(x),
    ensures
        s.contains(x),
    decreases s.len(),
{
    if s.len() > 0 {
        let d = s.drop_last();
        lemma_push_contains(stripped(d, gone), s.last(), x);
        if stripped(d, gone).contains(x) {
            lemma_stripped_contains(d, gone, x);
            let a = choose|a: int| 0 <= a < d.len() && d[a] == x;
            assert(s[a] == x);
        } else {
            assert(s[s.len() - 1] == x);
        }
    }
}

proof fn lemma_strip_placed(s: Seq<Ranked>, k: Ranked, gone: Seq<i64>)
    requires
        in_rank_order(s),
    ensures
        stripped(placed(s, k), gone) == (if gone.contains(k.low) {
            stripped(s, gone)
        } else {
            placed(stripped(s, gone), k)
        }),
    decreases s.len(),
{
    if s.len() == 0 || not_below(s.last(), k) {
        assert(s.push(k).drop_last() =~= s);
        let t = stripped(s, gone);
        if t.len() > 0 {
            assert(t.contains(t.last()));
            lemma_stripped_contains(s, gone, t.last());
            let a = choose|a: int| 0 <= a < s.len() && s[a] == t.last();
            if a < s.len() - 1 {
                assert(not_below(s[a], s[s.len() - 1]));
            }
        }
    } else {
        let d = s.drop_last();
        assert forall|i: int, j: int| 0 <= i < j < d.len() implies not_below(
            #[trigger] d[i],
            #[trigger] d[j],
        ) by {
            assert(not_below(s[i], s[j]));
        }
        lemma_strip_placed(d, k, gone);
        let p = placed(s, k);
        assert(p.drop_last() =~= placed(d, k));
        assert(p.last() == s.last());
        let t = stripped(d, gone).push(s.last());
        assert(t.drop_last() =~= stripped(d, gone));
    }
}

/// It makes no difference whether things are taken out before or after the rest is put
/// in order.
pub proof fn stripping_keeps_order(s: Seq<Ranked>, gone: Seq<i64>)
    ensures
        ranked(stripped(s, gone)) == stripped(ranked(s), gone),
    decreases s.len(),
{
    if s.len() > 0 {
        let d = s.drop_last();
        stripping_keeps_order(d, gone);
        ranking_orders(d);
        lemma_strip_placed(ranked(d), s.last(), gone);
        if !gone.contains(s.last().low) {
            let t = stripped(d, gone).push(s.last());
            assert(t.drop_last() =~= stripped(d, gone));
        }
    }
}

/// Whether no two things have the same second number.
pub open spec fn lows_differ(s: Seq<Ranked>) -> bool {
    forall|i: int, j: int| 0 <= i < j < s.len() ==> (#[trigger] s[i]).low != (#[trigger] s[j]).low
}

/// The second numbers of some things.
pub open spec fn lows(s: Seq<Ranked>) -> Seq<i64> {
    s.map_values(|k: Ranked| k.low)
}

proof fn lemma_placed_lows(s: Seq<Ranked>, k: Ranked)
    requires
        lows_differ(s),
        forall|i: int| 0 <= i < s.len() ==> (#[trigger] s[i]).low != k.low,
    ensures
        lows_differ(placed(s, k)),
    decreases s.len(),
{
    let p = placed(s, k);
    if s.len() > 0 && !not_below(s.last(), k) {
        let d = s.drop_last();
        assert(forall|i: int| 0 <= i < d.len() ==> #[trigger] d[i] == s[i]);
        lemma_placed_lows(d, k);
        lemma_placed(d, k);
        let q = placed(d, k);
        assert forall|i: int, j: int| 0 <= i < j < p.len() implies (#[trigger] p[i]).low != (
        #[trigger] p[j]).low by {
            if j == q.len() {
                assert(q.contains(q[i]));
                if q[i] != k {
                    let a = choose|a: int| 0 <= a < d.len() && d[a] == q[i];
                    assert(s[a].low != s[s.len() - 1].low);
                }
            } else {
                assert(q[i].low != q[j].low);
            }
        }
    }
}

/// Things that differ still do when they are in order.
pub proof fn lemma_ranked_lows(s: Seq<Ranked>)
    requires
        lows_differ(s),
    ensures
        lows_differ(ranked(s)),
    decreases s.len(),
{
    if s.len() > 0 {
        let d = s.drop_last();
        assert(forall|i: int| 0 <= i < d.len() ==> #[trigger] d[i] == s[i]);
        lemma_ranked_lows(d);
        ranking_orders(d);
        let q = ranked(d);
        assert forall|i: int| 0 <= i < q.len() implies (#[trigger] q[i]).low != s.last().low by {
            assert(q.contains(q[i]));
            let a = choose|a: int| 0 <= a < d.len() && d[a] == q[i];
            assert(s[a].low != s[s.len() - 1].low);
        }
        lemma_placed_lows(q, s.last());
    }
}

proof fn lemma_strip_prefix(s: Seq<Ranked>, m: int, n: int, gone: Seq<i64>)
    requires
        0 <= m <= s.len(),
        0 <= n <= s.len(),
        forall|i: int| 0 <= i < s.len() ==> (gone.contains((#[trigger] s[i]).low) <==> m <= i),
    ensures
        stripped(s.take(n), gone) == s.take(if n < m {
            n
        } else {
            m
        }),
    decreases n,
{
    if n == 0 {
        assert(stripped(s.take(n), gone) =~= s.take(0));
    } else {
        lemma_strip_prefix(s, m, n - 1, gone);
        assert(s.take(n).drop_last() =~= s.take(n - 1));
        assert(s.take(n).last() == s[n - 1]);
        if n <= m {
            assert(s.take(n - 1).push(s[n - 1]) =~= s.take(n));
        }
    }
}

/// Taking out the things behind the first `m` leaves the first `m`.
pub proof fn lemma_strip_rest(s: Seq<Ranked>, m: int)
    requires
        lows_differ(s),
        0 <= m <= s.len(),
    ensures
        stripped(s, lows(s.skip(m))) == s.take(m),
        forall|i: int|
            0 <= i < s.len() ==> (lows(s.skip(m)).contains((#[trigger] s[i]).low) <==> m <= i),
{
    let gone = lows(s.skip(m));
    assert forall|i: int| 0 <= i < s.len() implies (gone.contains((#[trigger] s[i]).low) <==> m
        <= i) by {
        if m <= i {
            assert(gone[i - m] == s[i].low);
        }
        if gone.contains(s[i].low) {
            let a = choose|a: int| 0 <= a < gone.len() && gone[a] == s[i].low;
            assert(s.skip(m)[a] == s[m + a]);
            if m + a < i {
                assert(s[m + a].low != s[i].low);
            } else if i < m + a {
                assert(s[i].low != s[m + a].low);
            }
        }
    }
    lemma_strip_prefix(s, m, s.len() as int, gone);
    assert(s.take(s.len() as int) =~= s);
}

} // verus!
