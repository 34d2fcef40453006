use crate::clustering::{members, Embedding, Report, ReportGroup, SearchOutcome};
use crate::id::Id;
use crate::persisted::Persisted;
use vstd::prelude::*;

verus! {

/// The numbers of a list of ids.
pub open spec fn id_values<T>(ids: Seq<Id<T>>) -> Seq<u32> {
    ids.map_values(|i: Id<T>| i.spec_value())
}

/// A report group as numbers: its report, its members, its representative.
pub open spec fn group_view(g: ReportGroup) -> (u32, Seq<u32>, u32) {
    (g.report_id.spec_value(), id_values(g.embedding_ids@), g.center_embedding_id.spec_value())
}

/// The group made of `cluster` (positions into `ids`) whose representative
/// is the member at position `center` of the cluster.
pub open spec fn assembled(report_id: u32, ids: Seq<u32>, cluster: Seq<usize>, center: int) -> (u32, Seq<u32>, u32) {
    (report_id, cluster.map_values(|j: usize| ids[j as int]), ids[cluster[center] as int])
}

/// Whether every embedding has `d` components, as its size says.
pub open spec fn uniform_size(es: Seq<Persisted<Embedding>>, d: u32) -> bool {
    forall|i: int| 0 <= i < es.len() ==> (#[trigger] es[i]).value.size == d && es[i].value.value@.len() == d
}

/// Embeddings of different lengths, which cannot be clustered together.
pub struct DimensionMismatch {
    /// The position of the first embedding whose length differs from the
    /// first one's.
    pub index: usize,
}

/// The common length of the embeddings (0 when there are none), or the
/// first one that differs.
pub fn check_dimensions(es: &Vec<Persisted<Embedding>>) -> (r: Result<u32, DimensionMismatch>)
    ensures
        r matches Ok(d) ==> uniform_size(es@, d) && (es@.len() == 0 ==> d == 0),
        r is Err <==> es@.len() > 0 && !uniform_size(es@, es@[0].value.size),
        r matches Err(e) ==> e.index < es@.len(),
{
    if es.len() == 0 {
        return Ok(0);
    }
    let d = es[0].value.size;
    let mut i: usize = 0;
    while i < es.len()
        invariant
            i <= es@.len(),
            es@.len() > 0,
            d == es@[0].value.size,
            forall|k: int| 0 <= k < i ==> (#[trigger] es@[k]).value.size == d && es@[k].value.value@.len() == d,
        decreases es@.len() - i,
    {
        if es[i].value.size != d || es[i].value.value.len() != d as usize {
            return Err(DimensionMismatch { index: i });
        }
        assert(es@[i as int].value.size == d && es@[i as int].value.value@.len() == d);
        i = i + 1;
    }
    Ok(d)
}

/// The components of a list of vectors, one vector after another.
pub open spec fn flat(vs: Seq<Seq<u32>>) -> Seq<u32>
    decreases vs.len(),
{
    if vs.len() == 0 {
        Seq::empty()
    } else {
        flat(vs.drop_last()) + vs.last()
    }
}

/// The vectors of a list of embeddings.
pub open spec fn vectors(es: Seq<Persisted<Embedding>>) -> Seq<Seq<u32>> {
    es.map_values(|e: Persisted<Embedding>| e.value.value@)
}

/// The embeddings' components in row-major order: the matrix with one row
/// per embedding.
pub fn flatten(es: &Vec<Persisted<Embedding>>) -> (r: Vec<u32>)
    ensures
        r@ == flat(vectors(es@)),
{
    let mut out: Vec<u32> = Vec::new();
    let mut i: usize = 0;
    while i < es.len()
        invariant
            i <= es@.len(),
            out@ == flat(vectors(es@.subrange(0, i as int))),
        decreases es@.len() - i,
    {
        let v = &es[i].value.value;
        let ghost before = out@;
        let mut k: usize = 0;
        while k < v.len()
            invariant
                k <= v@.len(),
                out@ == before + v@.subrange(0, k as int),
            decreases v@.len() - k,
        {
            out.push(v[k]);
            k = k + 1;
            assert(out@ =~= before + v@.subrange(0, k as int));
        }
        assert(vectors(es@.subrange(0, i + 1)).drop_last() =~= vectors(es@.subrange(0, i as int)));
        assert(v@.subrange(0, k as int) =~= v@);
        i = i + 1;
    }
    assert(es@.subrange(0, i as int) =~= es@);
    out
}

/// The ids of a list of stored embeddings, in order.
pub fn embedding_ids(es: &Vec<Persisted<Embedding>>) -> (r: Vec<Id<Embedding>>)
    ensures
        r@.len() == es@.len(),
        forall|k: int| 0 <= k < r@.len() ==> (#[trigger] r@[k]).spec_value() == es@[k].id.spec_value(),
{
    let mut out: Vec<Id<Embedding>> = Vec::new();
    let mut i: usize = 0;
    while i < es.len()
        invariant
            i <= es@.len(),
            out@.len() == i,
            forall|k: int| 0 <= k < i ==> (#[trigger] out@[k]).spec_value() == es@[k].id.spec_value(),
        decreases es@.len() - i,
    {
        out.push(es[i].id);
        i = i + 1;
    }
    out
}

/// The groups of a report: one per cluster, whose members are the ids at
/// the cluster's positions and whose representative is the member at
/// position `centers[k]` of cluster `k`.
pub fn assemble_groups(
    report_id: Id<Report>,
    ids: &Vec<Id<Embedding>>,
    clusters: &Vec<Vec<usize>>,
    centers: &Vec<usize>,
) -> (r: Vec<ReportGroup>)
    requires
        centers@.len() == clusters@.len(),
        forall|k: int| 0 <= k < clusters@.len() ==> #[trigger] centers@[k] < clusters@[k]@.len(),
        forall|k: int, j: int|
            0 <= k < clusters@.len() && 0 <= j < clusters@[k]@.len() ==> #[trigger] clusters@[k]@[j] < ids@.len(),
    ensures
        r@.len() == clusters@.len(),
        forall|k: int|
            0 <= k < r@.len() ==> #[trigger] group_view(r@[k]) == assembled(
                report_id.spec_value(),
                id_values(ids@),
                members(clusters@)[k],
                centers@[k] as int,
            ),
{
    let mut out: Vec<ReportGroup> = Vec::new();
    let mut k: usize = 0;
    while k < clusters.len()
        invariant
            k <= clusters@.len(),
            out@.len() == k,
            centers@.len() == clusters@.len(),
            forall|q: int| 0 <= q < clusters@.len() ==> #[trigger] centers@[q] < clusters@[q]@.len(),
            forall|q: int, j: int|
                0 <= q < clusters@.len() && 0 <= j < clusters@[q]@.len() ==> #[trigger] clusters@[q]@[j] < ids@.len(),
            forall|q: int|
                0 <= q < k ==> #[trigger] group_view(out@[q]) == assembled(
                    report_id.spec_value(),
                    id_values(ids@),
                    members(clusters@)[q],
                    centers@[q] as int,
                ),
        decreases clusters@.len() - k,
    {
        let cluster = &clusters[k];
        let mut member_ids: Vec<Id<Embedding>> = Vec::new();
        let mut j: usize = 0;
        while j < cluster.len()
            invariant
                j <= cluster@.len(),
                k < clusters@.len(),
                cluster@ == clusters@[k as int]@,
                forall|p: int| 0 <= p < cluster@.len() ==> #[trigger] cluster@[p] < ids@.len(),
                member_ids@.len() == j,
                forall|p: int| 0 <= p < j ==> #[trigger] member_ids@[p].spec_value() == ids@[cluster@[p] as int].spec_value(),
            decreases cluster@.len() - j,
        {
            let id = ids[cluster[j]];
            member_ids.push(id);
            j = j + 1;
        }
        assert(id_values(member_ids@) =~= cluster@.map_values(|x: usize| id_values(ids@)[x as int]));
        let center = ids[cluster[centers[k]]];
        let group = ReportGroup { report_id, embedding_ids: member_ids, center_embedding_id: center };
        assert(group_view(group) == assembled(
            report_id.spec_value(),
            id_values(ids@),
            members(clusters@)[k as int],
            centers@[k as int] as int,
        ));
        out.push(group);
        k = k + 1;
    }
    out
}

/// A group's representative is one of its members.
pub proof fn lemma_representative_is_member(report_id: u32, ids: Seq<u32>, cluster: Seq<usize>, center: int)
    requires
        0 <= center < cluster.len(),
    ensures
        assembled(report_id, ids, cluster, center).1.contains(assembled(report_id, ids, cluster, center).2),
{
    let g = assembled(report_id, ids, cluster, center);
    assert(g.1[center] == g.2);
}

/// The report of a search over `rows` embeddings of `dimensions` components.
pub fn new_report(outcome: &SearchOutcome, rows: usize, dimensions: u32) -> (r: Report)
    requires
        outcome.min_points <= u32::MAX,
        rows <= u32::MAX,
    ensures
        r.min_points == outcome.min_points,
        r.tolerance == outcome.threshold,
        r.score == outcome.score,
        r.rows == rows,
        r.dimentions == dimensions,
{
    Report {
        min_points: outcome.min_points as u32,
        tolerance: outcome.threshold,
        score: outcome.score,
        rows: rows as u32,
        dimentions: dimensions,
    }
}

} // verus!
