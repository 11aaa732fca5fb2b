use vstd::prelude::*;

verus! {

/// Something that carries a count used to rank it.
pub trait Weighted {
    spec fn weight(&self) -> nat;

    fn count_of(&self) -> (c: usize)
        ensures
            c as nat == self.weight(),
    ;
}

/// Sum of the weights of a sequence.
pub open spec fn total<T: Weighted>(s: Seq<T>) -> nat
    decreases s.len(),
{
    if s.len() == 0 {
        0
    } else {
        s[0].weight() + total(s.skip(1))
    }
}

/// First position at or after `i` whose weight is at most `w`.
pub open spec fn slot_from<T: Weighted>(t: Seq<T>, w: nat, i: int) -> int
    decreases t.len() - i,
{
    if i < 0 || i >= t.len() {
        t.len() as int
    } else if t[i].weight() <= w {
        i
    } else {
        slot_from(t, w, i + 1)
    }
}

/// Stable sort by weight, heaviest first: each element goes in front of the
/// later elements that weigh no more than it does.
pub open spec fn sort_desc<T: Weighted>(s: Seq<T>) -> Seq<T>
    decreases s.len(),
{
    if s.len() == 0 {
        s
    } else {
        let t = sort_desc(s.skip(1));
        t.insert(slot_from(t, s[0].weight(), 0), s[0])
    }
}

pub open spec fn non_increasing<T: Weighted>(s: Seq<T>) -> bool {
    forall|i: int, j: int| 0 <= i < j < s.len() ==> s[i].weight() >= s[j].weight()
}

proof fn lemma_slot_from<T: Weighted>(t: Seq<T>, w: nat, i: int)
    requires
        0 <= i <= t.len(),
    ensures
        i <= slot_from(t, w, i) <= t.len(),
        forall|k: int| i <= k < slot_from(t, w, i) ==> t[k].weight() > w,
        slot_from(t, w, i) < t.len() ==> t[slot_from(t, w, i)].weight() <= w,
    decreases t.len() - i,
{
    if i < t.len() && t[i].weight() > w {
        lemma_slot_from(t, w, i + 1);
    }
}

proof fn lemma_total_insert<T: Weighted>(t: Seq<T>, p: int, x: T)
    requires
        0 <= p <= t.len(),
    ensures
        total(t.insert(p, x)) == total(t) + x.weight(),
    decreases p,
{
    if p == 0 {
        assert(t.insert(0, x).skip(1) =~= t);
    } else {
        assert(t.insert(p, x).skip(1) =~= t.skip(1).insert(p - 1, x));
        lemma_total_insert(t.skip(1), p - 1, x);
    }
}

/// Sorting keeps the total weight and yields a non-increasing sequence that
/// holds the same elements.
pub proof fn lemma_sort_desc<T: Weighted>(s: Seq<T>)
    ensures
        sort_desc(s).len() == s.len(),
        total(sort_desc(s)) == total(s),
        non_increasing(sort_desc(s)),
    decreases s.len(),
{
    if s.len() > 0 {
        let t = sort_desc(s.skip(1));
        lemma_sort_desc(s.skip(1));
        let w = s[0].weight();
        let p = slot_from(t, w, 0);
        lemma_slot_from(t, w, 0);
        lemma_total_insert(t, p, s[0]);
        let u = t.insert(p, s[0]);
        assert forall|i: int, j: int| 0 <= i < j < u.len() implies u[i].weight() >= u[j].weight() by {
            if j < p {
            } else if j == p {
            } else if i < p {
                assert(u[i] == t[i]);
                assert(u[j] == t[j - 1]);
                if p < t.len() {
                    assert(t[p].weight() <= w);
                    if j - 1 > p {
                        assert(t[p].weight() >= t[j - 1].weight());
                    }
                }
            } else if i == p {
                assert(t[p].weight() <= w);
                if j - 1 > p {
                    assert(t[p].weight() >= t[j - 1].weight());
                }
            } else {
                assert(u[i] == t[i - 1]);
                assert(u[j] == t[j - 1]);
            }
        }
    }
}

/// Every element of the sorted sequence is an element of the input.
pub proof fn lemma_sort_desc_members<T: Weighted>(s: Seq<T>)
    ensures
        forall|k: int|
            0 <= k < sort_desc(s).len() ==> exists|m: int|
                0 <= m < s.len() && #[trigger] s[m] == #[trigger] sort_desc(s)[k],
    decreases s.len(),
{
    lemma_sort_desc(s);
    if s.len() > 0 {
        let t = sort_desc(s.skip(1));
        lemma_sort_desc_members(s.skip(1));
        lemma_sort_desc(s.skip(1));
        let p = slot_from(t, s[0].weight(), 0);
        lemma_slot_from(t, s[0].weight(), 0);
        let u = t.insert(p, s[0]);
        assert forall|k: int| 0 <= k < u.len() implies exists|m: int|
            0 <= m < s.len() && #[trigger] s[m] == #[trigger] u[k] by {
            if k < p {
                let m = choose|m: int| 0 <= m < s.skip(1).len() && s.skip(1)[m] == t[k];
                assert(s[m + 1] == u[k]);
            } else if k == p {
                assert(s[0] == u[k]);
            } else {
                let m = choose|m: int| 0 <= m < s.skip(1).len() && s.skip(1)[m] == t[k - 1];
                assert(s[m + 1] == u[k]);
            }
        }
    }
}

/// Stable sort, heaviest first.
pub fn sort_by_count_desc<T: Weighted>(v: Vec<T>) -> (r: Vec<T>)
    ensures
        r@ == sort_desc(v@),
{
    let ghost s = v@;
    let mut rest = v;
    let mut out: Vec<T> = Vec::new();
    while rest.len() > 0
        invariant
            rest.len() <= s.len(),
            rest@ == s.take(rest.len() as int),
            out@ == sort_desc(s.skip(rest.len() as int)),
        decreases rest.len(),
    {
        let ghost k = rest.len() as int;
        let x = rest.pop().unwrap();
        assert(x == s[k - 1]);
        let w = x.count_of();
        let mut p: usize = 0;
        while p < out.len() && out[p].count_of() > w
            invariant
                p <= out.len(),
                slot_from(out@, w as nat, p as int) == slot_from(out@, w as nat, 0),
            decreases out.len() - p,
        {
            p = p + 1;
        }
        assert(s.skip(k - 1).skip(1) =~= s.skip(k));
        assert(s.skip(k - 1)[0] == x);
        assert(rest@ =~= s.take(k - 1));
        out.insert(p, x);
    }
    assert(s.skip(0) =~= s);
    out
}

} // verus!
