use crate::id::Id;
use crate::md5_hash::Md5Hash;
use vstd::prelude::*;

verus! {

/// Thresholds and scores are fixed-point numbers with six decimal places:
/// a threshold of `SCALE` is a Euclidean distance of 1, a score of `SCALE`
/// is a silhouette coefficient of 1.
pub const SCALE: u64 = 1_000_000;

/// The score given to a partition whose quality is undefined (every point
/// noise, or all points in one cluster): a silhouette coefficient of -1.
pub const SCORE_FLOOR: i64 = -1_000_000;

/// A vector computed from a text value, keyed by the text's fingerprint.
/// Each component is held as the bit pattern of an IEEE 754 single-precision
/// number.
pub struct Embedding {
    pub md5_hash: Md5Hash,
    pub value: Vec<u32>,
    pub size: u32,
}

impl Clone for Embedding {
    fn clone(&self) -> (r: Self)
        ensures
            r.md5_hash == self.md5_hash,
            r.value@ == self.value@,
            r.size == self.size,
    {
        let value = self.value.clone();
        assert(value@ =~= self.value@);
        Embedding { md5_hash: self.md5_hash, value, size: self.size }
    }
}

/// One clustering run: the parameters chosen and the quality reached.
#[derive(Clone, Copy)]
pub struct Report {
    pub min_points: u32,
    /// The chosen distance threshold, fixed-point (see `SCALE`).
    pub tolerance: u64,
    /// The silhouette score of the chosen partition, fixed-point.
    pub score: i64,
    pub rows: u32,
    pub dimentions: u32,
}

/// One cluster of a report: its members and the member chosen to represent it.
pub struct ReportGroup {
    pub report_id: Id<Report>,
    pub embedding_ids: Vec<Id<Embedding>>,
    pub center_embedding_id: Id<Embedding>,
}

// ---------------------------------------------------------------------------
// Grouping the labels of a density clustering into clusters

/// The first position at or after `k` where `ls` holds `l`, or -1.
pub open spec fn position_from(ls: Seq<usize>, l: usize, k: int) -> int
    decreases ls.len() - k,
{
    if k < 0 || k >= ls.len() {
        -1
    } else if ls[k] == l {
        k
    } else {
        position_from(ls, l, k + 1)
    }
}

/// The clusters of the first `n` points: the labels met so far, in order of
/// first appearance, and for each the points that carry it, in order.
/// Points without a label (noise) belong to no cluster.
pub open spec fn label_groups(labels: Seq<Option<usize>>, n: int) -> (Seq<usize>, Seq<Seq<usize>>)
    decreases n,
{
    if n <= 0 {
        (Seq::empty(), Seq::empty())
    } else {
        let (ls, cs) = label_groups(labels, n - 1);
        match labels[n - 1] {
            None => (ls, cs),
            Some(l) => {
                let k = position_from(ls, l, 0);
                if k >= 0 {
                    (ls, cs.update(k, cs[k].push((n - 1) as usize)))
                } else {
                    (ls.push(l), cs.push(seq![(n - 1) as usize]))
                }
            },
        }
    }
}

/// The members of each cluster of a list of clusters.
pub open spec fn members(cs: Seq<Vec<usize>>) -> Seq<Seq<usize>> {
    cs.map_values(|c: Vec<usize>| c@)
}

/// The clusters that a labelling of points describes.
pub open spec fn clusters_of(labels: Seq<Option<usize>>) -> Seq<Seq<usize>> {
    label_groups(labels, labels.len() as int).1
}

proof fn lemma_position_from(ls: Seq<usize>, l: usize, k: int)
    requires
        0 <= k <= ls.len(),
    ensures
        position_from(ls, l, k) == -1 || (k <= position_from(ls, l, k) < ls.len() && ls[position_from(ls, l, k)] == l),
        position_from(ls, l, k) == -1 ==> forall|j: int| k <= j < ls.len() ==> ls[j] != l,
    decreases ls.len() - k,
{
    if k < ls.len() && ls[k] != l {
        lemma_position_from(ls, l, k + 1);
    }
}

proof fn lemma_label_groups_len(labels: Seq<Option<usize>>, n: int)
    requires
        0 <= n <= labels.len(),
    ensures
        label_groups(labels, n).0.len() == label_groups(labels, n).1.len(),
    decreases n,
{
    if n > 0 {
        lemma_label_groups_len(labels, n - 1);
        let (ls, cs) = label_groups(labels, n - 1);
        if let Some(l) = labels[n - 1] {
            lemma_position_from(ls, l, 0);
        }
    }
}

/// The first position of `l` in `ls`, if any.
fn find_label(ls: &Vec<usize>, l: usize) -> (r: Option<usize>)
    ensures
        match r {
            Some(k) => position_from(ls@, l, 0) == k,
            None => position_from(ls@, l, 0) == -1,
        },
{
    let mut k: usize = 0;
    while k < ls.len()
        invariant
            k <= ls@.len(),
            position_from(ls@, l, 0) == position_from(ls@, l, k as int),
        decreases ls@.len() - k,
    {
        if ls[k] == l {
            return Some(k);
        }
        k = k + 1;
    }
    None
}

/// Groups points by their cluster label: one cluster per label, in order of
/// the label's first appearance, each listing its points in ascending order.
/// Noise points (no label) are left out.
pub fn group_labels(labels: &Vec<Option<usize>>) -> (r: Vec<Vec<usize>>)
    ensures
        members(r@) == clusters_of(labels@),
        forall|k: int, j: int|
            0 <= k < r@.len() && 0 <= j < r@[k]@.len() ==> #[trigger] r@[k]@[j] < labels@.len(),
        forall|k: int| 0 <= k < r@.len() ==> #[trigger] r@[k]@.len() > 0,
        forall|k: int, j: int|
            0 <= k < r@.len() && 0 <= j < r@[k]@.len() ==> labels@[#[trigger] r@[k]@[j] as int] is Some
                && labels@[r@[k]@[j] as int] == labels@[r@[k]@[0] as int],
        forall|k1: int, k2: int|
            0 <= k1 < k2 < r@.len() ==> labels@[(#[trigger] r@[k1])@[0] as int] != labels@[(#[trigger] r@[k2])@[0] as int],
        forall|i: int|
            0 <= i < labels@.len() && (#[trigger] labels@[i]) is Some ==> exists|k: int, j: int|
                0 <= k < r@.len() && 0 <= j < r@[k]@.len() && r@[k]@[j] == i,
{
    let mut ls: Vec<usize> = Vec::new();
    let mut cs: Vec<Vec<usize>> = Vec::new();
    let mut i: usize = 0;
    while i < labels.len()
        invariant
            i <= labels@.len(),
            ls@.len() == cs@.len(),
            (ls@, members(cs@)) == label_groups(labels@, i as int),
            forall|k: int, j: int|
                0 <= k < cs@.len() && 0 <= j < cs@[k]@.len() ==> #[trigger] cs@[k]@[j] < i,
            forall|k: int| 0 <= k < cs@.len() ==> #[trigger] cs@[k]@.len() > 0,
            forall|k: int, j: int|
                0 <= k < cs@.len() && 0 <= j < cs@[k]@.len() ==> labels@[#[trigger] cs@[k]@[j] as int] == Some(ls@[k]),
            forall|k1: int, k2: int| 0 <= k1 < k2 < ls@.len() ==> #[trigger] ls@[k1] != #[trigger] ls@[k2],
            forall|q: int|
                0 <= q < i && (#[trigger] labels@[q]) is Some ==> exists|k: int, j: int|
                    0 <= k < cs@.len() && 0 <= j < cs@[k]@.len() && cs@[k]@[j] == q,
        decreases labels@.len() - i,
    {
        proof {
            lemma_label_groups_len(labels@, i as int);
        }
        match labels[i] {
            None => {},
            Some(l) => {
                match find_label(&ls, l) {
                    Some(k) => {
                        proof {
                            lemma_position_from(ls@, l, 0);
                        }
                        let mut c = cs[k].clone();
                        assert(c@ =~= cs@[k as int]@);
                        c.push(i);
                        let ghost before = members(cs@);
                        let ghost old_cs = cs@;
                        let ghost cv = c@;
                        cs.set(k, c);
                        assert(cs@[k as int]@[cs@[k as int]@.len() - 1] == i);
                        assert forall|q: int|
                            0 <= q < i && (#[trigger] labels@[q]) is Some implies exists|k2: int, j: int|
                                0 <= k2 < cs@.len() && 0 <= j < cs@[k2]@.len() && cs@[k2]@[j] == q by {
                            let (k2, j) = choose|k2: int, j: int|
                                0 <= k2 < old_cs.len() && 0 <= j < old_cs[k2]@.len() && old_cs[k2]@[j] == q;
                            assert(cs@[k2]@[j] == q);
                        }
                        assert(cv =~= before[k as int].push(i));
                        assert(members(cs@) =~= before.update(k as int, before[k as int].push(i)));
                    },
                    None => {
                        let ghost before = members(cs@);
                        proof {
                            lemma_position_from(ls@, l, 0);
                        }
                        ls.push(l);
                        let mut c: Vec<usize> = Vec::new();
                        c.push(i);
                        assert(c@ =~= seq![i]);
                        let ghost old_cs = cs@;
                        cs.push(c);
                        assert(cs@[cs@.len() - 1]@[0] == i);
                        assert forall|q: int|
                            0 <= q < i && (#[trigger] labels@[q]) is Some implies exists|k2: int, j: int|
                                0 <= k2 < cs@.len() && 0 <= j < cs@[k2]@.len() && cs@[k2]@[j] == q by {
                            let (k2, j) = choose|k2: int, j: int|
                                0 <= k2 < old_cs.len() && 0 <= j < old_cs[k2]@.len() && old_cs[k2]@[j] == q;
                            assert(cs@[k2] == old_cs[k2]);
                        }
                        assert(members(cs@) =~= before.push(seq![i]));
                    },
                }
            },
        }
        i = i + 1;
    }
    cs
}

// ---------------------------------------------------------------------------
// Searching for the distance threshold

/// The `i`-th of `samples` thresholds spaced linearly from `lo` towards `hi`.
pub open spec fn sample_threshold(lo: u64, hi: u64, samples: u64, i: int) -> int {
    lo + (hi - lo) * i / (samples as int)
}

/// Whether the silhouette of a partition of `rows` points is undefined:
/// every point is noise, or every point is in one cluster.
pub open spec fn score_undefined(clusters: Seq<Seq<usize>>, rows: nat) -> bool {
    clusters.len() == 0 || (clusters.len() == 1 && clusters[0].len() == rows)
}

/// The quality credited to a partition with silhouette score `score`: the
/// score itself, or the floor where it is undefined.
pub open spec fn quality(clusters: Seq<Seq<usize>>, rows: nat, score: int) -> int {
    if score_undefined(clusters, rows) {
        SCORE_FLOOR as int
    } else {
        score
    }
}

/// The state of a threshold search, as a mathematical value.
pub struct SearchView {
    pub rows: nat,
    pub min_points: nat,
    pub lo: u64,
    pub hi: u64,
    pub samples: u64,
    /// The index of the next sample to try.
    pub next: nat,
    pub done: bool,
    pub best: Seq<Seq<usize>>,
    pub best_threshold: int,
    pub best_score: int,
}

/// What trying one sample does to the search: the clusters found at the
/// sample's threshold replace the best ones when their count times their
/// quality is larger; when it is not and the count fell below the best
/// count, the search stops; it stops anyway after the last sample.
pub open spec fn after_sample(v: SearchView, clusters: Seq<Seq<usize>>, score: int) -> SearchView {
    let n = clusters.len() as int;
    let q = quality(clusters, v.rows, score);
    let next = v.next + 1;
    if n * q > v.best.len() * v.best_score {
        SearchView {
            next,
            done: next >= v.samples,
            best: clusters,
            best_threshold: sample_threshold(v.lo, v.hi, v.samples, v.next as int),
            best_score: q,
            ..v
        }
    } else if n < v.best.len() {
        SearchView { next, done: true, ..v }
    } else {
        SearchView { next, done: next >= v.samples, ..v }
    }
}

/// A grid search for the distance threshold of density clustering.
///
/// The caller asks for the next threshold, clusters the points at it, and
/// hands back the clusters and their silhouette score; the search keeps the
/// best partition seen and says when to stop.
pub struct GridSearch {
    rows: usize,
    min_points: usize,
    lo: u64,
    hi: u64,
    samples: u64,
    next: u64,
    done: bool,
    best: Vec<Vec<usize>>,
    best_threshold: u64,
    best_score: i64,
}

/// The partition that a search settled on.
pub struct SearchOutcome {
    pub clusters: Vec<Vec<usize>>,
    pub threshold: u64,
    pub min_points: usize,
    pub score: i64,
}

impl View for GridSearch {
    type V = SearchView;

    closed spec fn view(&self) -> SearchView {
        SearchView {
            rows: self.rows as nat,
            min_points: self.min_points as nat,
            lo: self.lo,
            hi: self.hi,
            samples: self.samples,
            next: self.next as nat,
            done: self.done,
            best: members(self.best@),
            best_threshold: self.best_threshold as int,
            best_score: self.best_score as int,
        }
    }
}

/// The conditions every state of a search meets.
pub open spec fn search_wf(v: SearchView) -> bool {
    &&& v.lo <= v.hi
    &&& v.next <= v.samples
    &&& !v.done ==> v.next < v.samples
    &&& v.rows < v.min_points ==> v.done && v.best.len() == 0
    &&& v.lo <= v.best_threshold <= v.hi
    &&& -(SCALE as int) <= v.best_score <= SCALE as int
}

proof fn lemma_sample_in_range(lo: u64, hi: u64, samples: u64, i: int)
    requires
        lo <= hi,
        0 <= i < samples,
    ensures
        lo <= sample_threshold(lo, hi, samples, i) <= hi,
{
    let d = (hi - lo) as int;
    assert(d * i <= d * (samples as int)) by (nonlinear_arith)
        requires
            0 <= d,
            0 <= i < samples,
    ;
    assert(0 <= d * i) by (nonlinear_arith)
        requires
            0 <= d,
            0 <= i,
    ;
    assert((d * i) / (samples as int) <= (d * (samples as int)) / (samples as int)) by (nonlinear_arith)
        requires
            d * i <= d * (samples as int),
            samples > 0,
    ;
    assert((d * (samples as int)) / (samples as int) == d) by (nonlinear_arith)
        requires
            samples > 0,
    ;
    assert(0 <= (d * i) / (samples as int)) by (nonlinear_arith)
        requires
            0 <= d * i,
            samples > 0,
    ;
}

/// The `i`-th of `samples` thresholds spaced linearly from `lo` towards `hi`.
fn sample_at(lo: u64, hi: u64, samples: u64, i: u64) -> (r: u64)
    requires
        lo <= hi,
        i < samples,
    ensures
        r == sample_threshold(lo, hi, samples, i as int),
        lo <= r <= hi,
{
    proof {
        lemma_sample_in_range(lo, hi, samples, i as int);
    }
    let d = (hi - lo) as u128;
    assert(d * (i as u128) <= 0xffff_ffff_ffff_ffff * 0xffff_ffff_ffff_ffff) by (nonlinear_arith)
        requires
            d <= 0xffff_ffff_ffff_ffff,
            i <= 0xffff_ffff_ffff_ffff,
    ;
    let offset = d * (i as u128) / (samples as u128);
    lo + offset as u64
}

/// `n` times `q`, for a count and a fixed-point score.
fn weighted(n: usize, q: i64) -> (r: i128)
    requires
        -(SCALE as int) <= q <= SCALE as int,
    ensures
        r == n * q,
{
    assert(-(n as int) * (SCALE as int) <= (n as int) * (q as int) <= (n as int) * (SCALE as int)) by (nonlinear_arith)
        requires
            -(SCALE as int) <= q <= SCALE as int,
            n >= 0,
    ;
    assert((n as int) * (SCALE as int) <= 0xffff_ffff_ffff_ffff * 1_000_000) by (nonlinear_arith)
        requires
            n <= 0xffff_ffff_ffff_ffff,
    ;
    (n as i128) * (q as i128)
}

impl GridSearch {
    /// Starts a search over `samples` thresholds spaced linearly from `lo`
    /// towards `hi`, for `rows` points and clusters of at least `min_points`.
    /// With fewer points than `min_points` (or no samples) there is nothing
    /// to try: the search is over at once, with no cluster.
    pub fn new(rows: usize, min_points: usize, lo: u64, hi: u64, samples: u64) -> (r: GridSearch)
        requires
            lo <= hi,
        ensures
            search_wf(r@),
            r@ == (SearchView {
                rows: rows as nat,
                min_points: min_points as nat,
                lo,
                hi,
                samples,
                next: 0,
                done: rows < min_points || samples == 0,
                best: Seq::empty(),
                best_threshold: lo as int,
                best_score: SCORE_FLOOR as int,
            }),
    {
        let r = GridSearch {
            rows,
            min_points,
            lo,
            hi,
            samples,
            next: 0,
            done: rows < min_points || samples == 0,
            best: Vec::new(),
            best_threshold: lo,
            best_score: SCORE_FLOOR,
        };
        assert(r@.best =~= Seq::<Seq<usize>>::empty());
        r
    }

    pub fn is_done(&self) -> (r: bool)
        ensures
            r == self@.done,
    {
        self.done
    }

    /// The threshold to try next, or `None` once the search is over.
    pub fn next_threshold(&self) -> (r: Option<u64>)
        requires
            search_wf(self@),
        ensures
            self@.done ==> r is None,
            !self@.done ==> r == Some(sample_threshold(self@.lo, self@.hi, self@.samples, self@.next as int) as u64),
            r matches Some(t) ==> self@.lo <= t <= self@.hi,
    {
        if self.done {
            return None;
        }
        Some(sample_at(self.lo, self.hi, self.samples, self.next))
    }

    /// Records the clusters found at the threshold that `next_threshold`
    /// gave, with their silhouette score.
    pub fn record(&mut self, clusters: Vec<Vec<usize>>, score: i64)
        requires
            search_wf(old(self)@),
            !old(self)@.done,
            -(SCALE as int) <= score <= SCALE as int,
        ensures
            search_wf(final(self)@),
            final(self)@ == after_sample(old(self)@, members(clusters@), score as int),
    {
        let n = clusters.len();
        let q: i64 = if n == 0 || (n == 1 && clusters[0].len() == self.rows) {
            SCORE_FLOOR
        } else {
            score
        };
        let candidate = weighted(n, q);
        let best = weighted(self.best.len(), self.best_score);
        let threshold = sample_at(self.lo, self.hi, self.samples, self.next);
        let next = self.next + 1;
        if candidate > best {
            self.best = clusters;
            self.best_threshold = threshold;
            self.best_score = q;
            self.done = next >= self.samples;
        } else if n < self.best.len() {
            self.done = true;
        } else {
            self.done = next >= self.samples;
        }
        self.next = next;
    }

    /// The best partition found.
    pub fn finish(self) -> (r: SearchOutcome)
        requires
            search_wf(self@),
        ensures
            members(r.clusters@) == self@.best,
            r.threshold == self@.best_threshold,
            r.min_points == self@.min_points,
            r.score == self@.best_score,
            self@.lo <= r.threshold <= self@.hi,
            self@.rows < self@.min_points ==> r.clusters@.len() == 0,
    {
        SearchOutcome {
            clusters: self.best,
            threshold: self.best_threshold,
            min_points: self.min_points,
            score: self.best_score,
        }
    }
}

/// For a fixed labelling of the points at a fixed threshold, and its
/// score, the clusters and the resulting state of the search are the same
/// on every run.
pub proof fn lemma_clustering_deterministic(
    labels1: Seq<Option<usize>>,
    labels2: Seq<Option<usize>>,
    v: SearchView,
    score: int,
)
    requires
        labels1 == labels2,
    ensures
        clusters_of(labels1) == clusters_of(labels2),
        after_sample(v, clusters_of(labels1), score) == after_sample(v, clusters_of(labels2), score),
{
}

/// Every state that a search passes through keeps its best threshold within
/// `[lo, hi]`, and holds no cluster when there are fewer points than
/// `min_points`; each sample advances it, and it is over after `samples`
/// samples at most.
pub proof fn lemma_search_stays_in_range(v: SearchView, clusters: Seq<Seq<usize>>, score: int)
    requires
        search_wf(v),
        !v.done,
        -(SCALE as int) <= score <= SCALE as int,
    ensures
        search_wf(after_sample(v, clusters, score)),
        after_sample(v, clusters, score).next == v.next + 1,
        after_sample(v, clusters, score).next == v.samples ==> after_sample(v, clusters, score).done,
        v.lo <= after_sample(v, clusters, score).best_threshold <= v.hi,
{
    lemma_sample_in_range(v.lo, v.hi, v.samples, v.next as int);
}

} // verus!
