use vstd::prelude::*;
use crate::color::{ciede2000_floor, perceptual_distance, Rgb};
use crate::sorting::{lemma_sort_desc, lemma_sort_desc_members, non_increasing, sort_by_count_desc, sort_desc, total, Weighted};

verus! {

/// A distinct colour and the number of quantized samples it stands for.
#[derive(Clone, Copy, Debug, PartialEq, Eq, Structural)]
pub struct Bucket {
    pub rgb: Rgb,
    pub count: usize,
}

/// A palette entry after merging: the leader bucket that opened it, its
/// position in order of discovery, the leader's position in the merge input,
/// and the total count merged into it.
#[derive(Clone, Copy, Debug, PartialEq, Eq, Structural)]
pub struct Cluster {
    pub id: usize,
    pub origin: usize,
    pub leader: Bucket,
    pub count: usize,
}

/// A bucket found close to the leader of cluster `target` (its discovery
/// position); merges are listed in the order they were found.
#[derive(Clone, Copy, Debug, PartialEq, Eq, Structural)]
pub struct Merge {
    pub target: usize,
    pub bucket: Bucket,
}

/// Result of the perceptual merge: clusters heaviest first, and the merges
/// that were folded into them, in the order they are to be applied.
pub struct Merged {
    pub clusters: Vec<Cluster>,
    pub merges: Vec<Merge>,
}

impl Weighted for Bucket {
    open spec fn weight(&self) -> nat {
        self.count as nat
    }

    fn count_of(&self) -> (c: usize) {
        self.count
    }
}

impl Weighted for Cluster {
    open spec fn weight(&self) -> nat {
        self.count as nat
    }

    fn count_of(&self) -> (c: usize) {
        self.count
    }
}

/// Position of the first bucket at or after `i` holding colour `c`, or the
/// length when there is none.
pub open spec fn find_rgb(t: Seq<Bucket>, c: Rgb, i: int) -> int
    decreases t.len() - i,
{
    if i < 0 || i >= t.len() {
        t.len() as int
    } else if t[i].rgb == c {
        i
    } else {
        find_rgb(t, c, i + 1)
    }
}

/// Occurrence count of each distinct colour, in order of first occurrence.
pub open spec fn tally(cs: Seq<Rgb>) -> Seq<Bucket>
    decreases cs.len(),
{
    if cs.len() == 0 {
        Seq::empty()
    } else {
        let t = tally(cs.drop_last());
        let c = cs.last();
        let i = find_rgb(t, c, 0);
        if i < t.len() {
            t.update(i, Bucket { rgb: c, count: (t[i].count + 1) as usize })
        } else {
            t.push(Bucket { rgb: c, count: 1 })
        }
    }
}

/// Position of the first cluster at or after `i` whose leader lies closer
/// than `threshold` to the bucket whose distances to the earlier buckets are
/// `row`, or the length when there is none.
pub open spec fn first_close(ls: Seq<Cluster>, row: Seq<u32>, threshold: u32, i: int) -> int
    decreases ls.len() - i,
{
    if i < 0 || i >= ls.len() {
        ls.len() as int
    } else if row[ls[i].origin as int] < threshold {
        i
    } else {
        first_close(ls, row, threshold, i + 1)
    }
}

/// The single greedy pass: each bucket, in order, joins the first leader
/// within the threshold, or becomes a leader itself. Row `x` of `dist` holds
/// the distances from bucket `x` to buckets `0..x`.
pub open spec fn leader_pass(bs: Seq<Bucket>, dist: Seq<Seq<u32>>, threshold: u32) -> (Seq<Cluster>, Seq<Merge>)
    decreases bs.len(),
{
    if bs.len() == 0 {
        (Seq::empty(), Seq::empty())
    } else {
        let (ls, ms) = leader_pass(bs.drop_last(), dist, threshold);
        let x = bs.last();
        let i = first_close(ls, dist[bs.len() - 1], threshold, 0);
        if i < ls.len() {
            (
                ls.update(i, Cluster { count: (ls[i].count + x.count) as usize, ..ls[i] }),
                ms.push(Merge { target: i as usize, bucket: x }),
            )
        } else {
            (ls.push(Cluster { id: ls.len() as usize, origin: (bs.len() - 1) as usize, leader: x, count: x.count }), ms)
        }
    }
}

/// The CIEDE2000 distances, in whole units, from each bucket to the buckets
/// before it.
pub open spec fn ciede2000_table(bs: Seq<Bucket>) -> Seq<Seq<u32>> {
    Seq::new(bs.len(), |x: int| Seq::new(x as nat, |j: int| ciede2000_floor(bs[x].rgb, bs[j].rgb)))
}

/// `dist` has one row per bucket, row `x` of length `x`.
pub open spec fn triangular(dist: Seq<Seq<u32>>, n: int) -> bool {
    dist.len() == n && forall|x: int| 0 <= x < n ==> #[trigger] dist[x].len() == x
}

proof fn lemma_find_rgb(t: Seq<Bucket>, c: Rgb, i: int)
    requires
        0 <= i <= t.len(),
    ensures
        i <= find_rgb(t, c, i) <= t.len(),
        find_rgb(t, c, i) < t.len() ==> t[find_rgb(t, c, i)].rgb == c,
    decreases t.len() - i,
{
    if i < t.len() && t[i].rgb != c {
        lemma_find_rgb(t, c, i + 1);
    }
}

proof fn lemma_first_close(ls: Seq<Cluster>, row: Seq<u32>, threshold: u32, i: int)
    requires
        0 <= i <= ls.len(),
    ensures
        i <= first_close(ls, row, threshold, i) <= ls.len(),
        forall|k: int|
            i <= k < first_close(ls, row, threshold, i) ==> row[ls[k].origin as int] >= threshold,
    decreases ls.len() - i,
{
    if i < ls.len() && row[ls[i].origin as int] >= threshold {
        lemma_first_close(ls, row, threshold, i + 1);
    }
}

proof fn lemma_total_update<T: Weighted>(t: Seq<T>, i: int, x: T)
    requires
        0 <= i < t.len(),
    ensures
        total(t.update(i, x)) + t[i].weight() == total(t) + x.weight(),
    decreases i,
{
    if i == 0 {
        assert(t.update(0, x).skip(1) =~= t.skip(1));
    } else {
        assert(t.update(i, x).skip(1) =~= t.skip(1).update(i - 1, x));
        lemma_total_update(t.skip(1), i - 1, x);
    }
}

proof fn lemma_total_push<T: Weighted>(t: Seq<T>, x: T)
    ensures
        total(t.push(x)) == total(t) + x.weight(),
    decreases t.len(),
{
    if t.len() > 0 {
        assert(t.push(x).skip(1) =~= t.skip(1).push(x));
        lemma_total_push(t.skip(1), x);
    } else {
        assert(t.push(x).skip(1) =~= t);
    }
}

proof fn lemma_total_bounds<T: Weighted>(t: Seq<T>, i: int)
    requires
        0 <= i < t.len(),
    ensures
        t[i].weight() <= total(t),
    decreases i,
{
    if i > 0 {
        lemma_total_bounds(t.skip(1), i - 1);
    }
}

/// The pass keeps the total count, numbers clusters by discovery, keeps
/// each leader as the bucket it came from, discovers leaders in input
/// order, and points every merge at an existing cluster.
proof fn lemma_leader_pass(bs: Seq<Bucket>, dist: Seq<Seq<u32>>, threshold: u32)
    requires
        total(bs) <= usize::MAX,
        bs.len() <= usize::MAX,
    ensures
        ({
            let (ls, ms) = leader_pass(bs, dist, threshold);
            &&& ls.len() <= bs.len()
            &&& total(ls) == total(bs)
            &&& forall|k: int| 0 <= k < ls.len() ==> #[trigger] ls[k].id == k
            &&& forall|k: int|
                0 <= k < ls.len() ==> #[trigger] ls[k].origin < bs.len() && ls[k].leader
                    == bs[ls[k].origin as int]
            &&& forall|k: int, m: int| 0 <= k < m < ls.len() ==> #[trigger] ls[k].origin < #[trigger] ls[m].origin
            &&& forall|k: int| 0 <= k < ms.len() ==> #[trigger] ms[k].target < ls.len()
        }),
    decreases bs.len(),
{
    if bs.len() > 0 {
        let pre = bs.drop_last();
        let x = bs.last();
        assert(bs =~= pre.push(x));
        lemma_total_push(pre, x);
        lemma_leader_pass(pre, dist, threshold);
        let (ls, ms) = leader_pass(pre, dist, threshold);
        assert(ls.len() < usize::MAX);
        let row = dist[bs.len() - 1];
        lemma_first_close(ls, row, threshold, 0);
        let i = first_close(ls, row, threshold, 0);
        if i < ls.len() {
            lemma_total_bounds(ls, i);
            lemma_total_update(ls, i, Cluster { count: (ls[i].count + x.count) as usize, ..ls[i] });
        } else {
            lemma_total_push(
                ls,
                Cluster { id: ls.len() as usize, origin: (bs.len() - 1) as usize, leader: x, count: x.count },
            );
        }
    }
}

proof fn lemma_total_split<T: Weighted>(s: Seq<T>, i: int)
    requires
        0 <= i <= s.len(),
    ensures
        total(s) == total(s.take(i)) + total(s.skip(i)),
    decreases i,
{
    if i == 0 {
        assert(s.skip(0) =~= s);
        assert(s.take(0).len() == 0);
    } else {
        assert(s.take(i).skip(1) =~= s.skip(1).take(i - 1));
        assert(s.skip(i) =~= s.skip(1).skip(i - 1));
        lemma_total_split(s.skip(1), i - 1);
    }
}

proof fn lemma_total_prefix_step<T: Weighted>(s: Seq<T>, i: int)
    requires
        0 <= i < s.len(),
    ensures
        total(s.take(i + 1)) == total(s.take(i)) + s[i].weight(),
        total(s.take(i + 1)) <= total(s),
{
    assert(s.take(i + 1) =~= s.take(i).push(s[i]));
    lemma_total_push(s.take(i), s[i]);
    lemma_total_split(s, i + 1);
}

/// Merging moves counts between entries and never creates or loses any:
/// the merged palette holds the same total count as its input.
pub proof fn lemma_count_conservation(bs: Seq<Bucket>, dist: Seq<Seq<u32>>, threshold: u32)
    requires
        total(bs) <= usize::MAX,
        bs.len() <= usize::MAX,
    ensures
        total(sort_desc(leader_pass(bs, dist, threshold).0)) == total(bs),
{
    lemma_leader_pass(bs, dist, threshold);
    lemma_sort_desc(leader_pass(bs, dist, threshold).0);
}

/// The merged palette is ordered by count, never increasing from one entry
/// to the next.
pub proof fn lemma_palette_sorted(bs: Seq<Bucket>, dist: Seq<Seq<u32>>, threshold: u32)
    ensures
        non_increasing(sort_desc(leader_pass(bs, dist, threshold).0)),
{
    lemma_sort_desc(leader_pass(bs, dist, threshold).0);
}

proof fn lemma_leaders_apart(bs: Seq<Bucket>, dist: Seq<Seq<u32>>, threshold: u32)
    requires
        total(bs) <= usize::MAX,
        bs.len() <= usize::MAX,
    ensures
        forall|i: int, j: int|
            0 <= i < j < leader_pass(bs, dist, threshold).0.len() ==> dist[#[trigger] leader_pass(
                bs,
                dist,
                threshold,
            ).0[j].origin as int][#[trigger] leader_pass(bs, dist, threshold).0[i].origin as int]
                >= threshold,
    decreases bs.len(),
{
    if bs.len() > 0 {
        let pre = bs.drop_last();
        let x = bs.last();
        assert(bs =~= pre.push(x));
        lemma_total_push(pre, x);
        lemma_leaders_apart(pre, dist, threshold);
        lemma_leader_pass(pre, dist, threshold);
        let (ls, ms) = leader_pass(pre, dist, threshold);
        let row = dist[bs.len() - 1];
        lemma_first_close(ls, row, threshold, 0);
        let i = first_close(ls, row, threshold, 0);
        let nl = leader_pass(bs, dist, threshold).0;
        if i < ls.len() {
            assert forall|a: int| 0 <= a < nl.len() implies #[trigger] nl[a].origin == ls[a].origin by {}
        } else {
            assert forall|a: int| 0 <= a < ls.len() implies #[trigger] nl[a].origin == ls[a].origin by {}
        }
    }
}

/// A colour becomes a leader only when it lies at least `threshold`
/// CIEDE2000 units from every leader found before it: of two entries of the
/// merged palette, the one discovered later is that far from the other,
/// measured from the later one's leader colour. (The centroids that merges
/// move afterwards may come closer; the leader colours are those first
/// seen.)
pub proof fn lemma_leaders_distinct(bs: Seq<Bucket>, threshold: u32)
    requires
        total(bs) <= usize::MAX,
        bs.len() <= usize::MAX,
    ensures
        ({
            let u = sort_desc(leader_pass(bs, ciede2000_table(bs), threshold).0);
            forall|a: int, b: int|
                0 <= a < u.len() && 0 <= b < u.len() && u[b].id < u[a].id ==> ciede2000_floor(
                    #[trigger] u[a].leader.rgb,
                    #[trigger] u[b].leader.rgb,
                ) >= threshold
        }),
{
    let dist = ciede2000_table(bs);
    let ls = leader_pass(bs, dist, threshold).0;
    let u = sort_desc(ls);
    lemma_leader_pass(bs, dist, threshold);
    lemma_leaders_apart(bs, dist, threshold);
    lemma_sort_desc_members(ls);
    assert forall|a: int, b: int|
        0 <= a < u.len() && 0 <= b < u.len() && u[b].id < u[a].id implies ciede2000_floor(
        #[trigger] u[a].leader.rgb,
        #[trigger] u[b].leader.rgb,
    ) >= threshold by {
        let ma = choose|m: int| 0 <= m < ls.len() && ls[m] == u[a];
        let mb = choose|m: int| 0 <= m < ls.len() && ls[m] == u[b];
        assert(ls[ma].id == ma);
        assert(ls[mb].id == mb);
        assert(ls[mb].origin < ls[ma].origin);
        assert(dist[ls[ma].origin as int][ls[mb].origin as int] >= threshold);
    }
}

/// Groups the quantized colours by exact equality, counts each, and ranks
/// the buckets heaviest first (ties keep the order of first occurrence).
pub fn count_colors(colors: &Vec<Rgb>) -> (r: Vec<Bucket>)
    ensures
        r@ == sort_desc(tally(colors@)),
        total(r@) == colors.len(),
{
    let mut t: Vec<Bucket> = Vec::new();
    let mut i: usize = 0;
    while i < colors.len()
        invariant
            i <= colors.len(),
            t@ == tally(colors@.take(i as int)),
            total(t@) == i,
        decreases colors.len() - i,
    {
        let c = colors[i];
        let ghost pre = colors@.take(i as int);
        assert(colors@.take(i as int + 1).drop_last() =~= pre);
        assert(colors@.take(i as int + 1).last() == c);
        proof {
            lemma_find_rgb(t@, c, 0);
        }
        let mut j: usize = 0;
        while j < t.len() && t[j].rgb != c
            invariant
                j <= t.len(),
                find_rgb(t@, c, j as int) == find_rgb(t@, c, 0),
            decreases t.len() - j,
        {
            j = j + 1;
        }
        if j < t.len() {
            let old_b = t[j];
            proof {
                lemma_total_bounds(t@, j as int);
                lemma_total_update(t@, j as int, Bucket { rgb: c, count: (old_b.count + 1) as usize });
            }
            t.set(j, Bucket { rgb: c, count: old_b.count + 1 });
        } else {
            proof {
                lemma_total_push(t@, Bucket { rgb: c, count: 1 });
            }
            t.push(Bucket { rgb: c, count: 1 });
        }
        i = i + 1;
    }
    assert(colors@.take(colors.len() as int) =~= colors@);
    proof {
        lemma_sort_desc(t@);
    }
    sort_by_count_desc(t)
}

/// Greedy first-match merge, given the distances between the buckets:
/// `distances[x][j]` is the distance, in whole CIEDE2000 units, from bucket
/// `x` to bucket `j < x`. Each bucket, in the given order, is compared with
/// the leaders found so far, in their order; it joins the first one closer
/// than `threshold`, or else becomes a leader. The merges are recorded, not
/// applied to the leader colours, so later comparisons use each leader's
/// colour as first seen. Clusters come out heaviest first.
pub fn merge_by_distance(palette: &Vec<Bucket>, distances: &Vec<Vec<u32>>, threshold: u32) -> (r: Merged)
    requires
        total(palette@) <= usize::MAX,
        triangular(distances@.map_values(|v: Vec<u32>| v@), palette.len() as int),
    ensures
        r.clusters@ == sort_desc(
            leader_pass(palette@, distances@.map_values(|v: Vec<u32>| v@), threshold).0,
        ),
        r.merges@ == leader_pass(palette@, distances@.map_values(|v: Vec<u32>| v@), threshold).1,
{
    let ghost dist = distances@.map_values(|v: Vec<u32>| v@);
    let mut refined: Vec<Cluster> = Vec::new();
    let mut merges: Vec<Merge> = Vec::new();
    let mut i: usize = 0;
    while i < palette.len()
        invariant
            i <= palette.len(),
            total(palette@) <= usize::MAX,
            dist == distances@.map_values(|v: Vec<u32>| v@),
            triangular(dist, palette.len() as int),
            (refined@, merges@) == leader_pass(palette@.take(i as int), dist, threshold),
            refined.len() <= i,
            total(refined@) == total(palette@.take(i as int)),
            forall|k: int| 0 <= k < refined.len() ==> #[trigger] refined@[k].origin < i,
        decreases palette.len() - i,
    {
        let x = palette[i];
        let row = &distances[i];
        let ghost pre = palette@.take(i as int);
        assert(palette@.take(i as int + 1).drop_last() =~= pre);
        assert(palette@.take(i as int + 1).last() == x);
        assert(row@ == dist[i as int]);
        assert(row.len() == i);
        proof {
            lemma_total_prefix_step(palette@, i as int);
            lemma_first_close(refined@, row@, threshold, 0);
        }
        let mut j: usize = 0;
        while j < refined.len() && row[refined[j].origin] >= threshold
            invariant
                j <= refined.len(),
                row.len() == i,
                forall|k: int| 0 <= k < refined.len() ==> #[trigger] refined@[k].origin < i,
                first_close(refined@, row@, threshold, j as int) == first_close(
                    refined@,
                    row@,
                    threshold,
                    0,
                ),
            decreases refined.len() - j,
        {
            j = j + 1;
        }
        if j < refined.len() {
            let c = refined[j];
            proof {
                lemma_total_bounds(refined@, j as int);
                lemma_total_update(refined@, j as int, Cluster { count: (c.count + x.count) as usize, ..c });
            }
            refined.set(j, Cluster { id: c.id, origin: c.origin, leader: c.leader, count: c.count + x.count });
            merges.push(Merge { target: j, bucket: x });
        } else {
            let n = refined.len();
            proof {
                lemma_total_push(refined@, Cluster { id: n, origin: i, leader: x, count: x.count });
            }
            refined.push(Cluster { id: n, origin: i, leader: x, count: x.count });
        }
        i = i + 1;
    }
    assert(palette@.take(palette.len() as int) =~= palette@);
    Merged { clusters: sort_by_count_desc(refined), merges }
}

/// Perceptual merge of the buckets: computes the CIEDE2000 distance from
/// each bucket to the buckets before it and merges with
/// `merge_by_distance`.
pub fn remove_similar_colors(palette: &Vec<Bucket>, threshold: u32) -> (r: Merged)
    requires
        total(palette@) <= usize::MAX,
    ensures
        r.clusters@ == sort_desc(leader_pass(palette@, ciede2000_table(palette@), threshold).0),
        r.merges@ == leader_pass(palette@, ciede2000_table(palette@), threshold).1,
{
    let ghost want = ciede2000_table(palette@);
    let mut table: Vec<Vec<u32>> = Vec::new();
    let mut x: usize = 0;
    while x < palette.len()
        invariant
            x <= palette.len(),
            want == ciede2000_table(palette@),
            table.len() == x,
            forall|k: int| 0 <= k < x ==> #[trigger] table@[k]@ == want[k],
        decreases palette.len() - x,
    {
        let mut row: Vec<u32> = Vec::new();
        let mut j: usize = 0;
        while j < x
            invariant
                j <= x < palette.len(),
                want == ciede2000_table(palette@),
                row@ =~= want[x as int].take(j as int),
            decreases x - j,
        {
            row.push(perceptual_distance(palette[x].rgb, palette[j].rgb));
            j = j + 1;
        }
        assert(row@ =~= want[x as int]);
        table.push(row);
        x = x + 1;
    }
    assert(table@.map_values(|v: Vec<u32>| v@) =~= want);
    merge_by_distance(palette, &table, threshold)
}

} // verus!
