//! Pipelines: iterations that run together over the same rows, in batches.
use vstd::prelude::*;

use crate::ecs::archetype::Archetype;
use crate::ecs::entity::ArchetypeId;
use crate::ecs::execution::iter::partition_count;
use crate::ecs::sort::distinct;
use crate::ecs::storage::table::{partition_end, TablePartitionsMut};
use crate::ecs::util::{assert_no_alias, is_subset, subset};

verus! {

/// Iterations that run one after the other over each batch of rows.
pub struct Pipeline<T>(T, usize);

impl<T> Pipeline<T> {
    pub closed spec fn spec_iters(&self) -> T {
        self.0
    }

    pub closed spec fn spec_batch_size(&self) -> usize {
        self.1
    }

    /// A pipeline of `iters` over batches of `batch_size` rows.
    pub fn new(iters: T, batch_size: usize) -> (r: Self)
        ensures
            r.spec_iters() == iters,
            r.spec_batch_size() == batch_size,
    {
        Pipeline(iters, batch_size)
    }
}

/// Iterations that run over batches of rows in parallel.
pub struct ParPipeline<T>(T, usize);

impl<T> ParPipeline<T> {
    pub closed spec fn spec_iters(&self) -> T {
        self.0
    }

    pub closed spec fn spec_batch_size(&self) -> usize {
        self.1
    }

    /// A parallel pipeline of `iters` over batches of `batch_size` rows.
    pub fn new(iters: T, batch_size: usize) -> (r: Self)
        ensures
            r.spec_iters() == iters,
            r.spec_batch_size() == batch_size,
    {
        ParPipeline(iters, batch_size)
    }
}

/// The places, in order, of those of the first `n` iterations whose value
/// types are all among `types`.
pub open spec fn matching_iters(types: Seq<u64>, iters: Seq<Seq<u64>>, n: nat) -> Seq<usize>
    decreases n,
{
    if n == 0 {
        Seq::empty()
    } else {
        matching_iters(types, iters, (n - 1) as nat) + if is_subset(iters[n - 1], types) {
            seq![(n - 1) as usize]
        } else {
            Seq::empty()
        }
    }
}

/// One round over a batch: each iteration of `m`, in order, gets the rows
/// `start..end` of archetype `id`.
pub open spec fn round_entries(m: Seq<usize>, id: ArchetypeId, start: usize, end: usize) -> Seq<
    (usize, ArchetypeId, usize, usize),
> {
    Seq::new(m.len(), |j: int| (m[j], id, start, end))
}

/// The first `r` rounds over the `len` rows of archetype `id`, in batches of
/// `batch` rows.
pub open spec fn pipeline_rounds(m: Seq<usize>, id: ArchetypeId, len: nat, batch: nat, r: nat) -> Seq<
    (usize, ArchetypeId, usize, usize),
>
    decreases r,
{
    if r == 0 {
        Seq::empty()
    } else {
        let k = r - 1;
        pipeline_rounds(m, id, len, batch, (r - 1) as nat) + round_entries(
            m,
            id,
            (k * batch) as usize,
            partition_end((k * batch) as nat, batch, len) as usize,
        )
    }
}

/// What a pipeline runs over the first `n` archetypes: for each archetype that
/// some iteration matches, batch after batch of its rows, and within a batch
/// every matching iteration in turn; each entry names the iteration, the
/// archetype and the rows.
pub open spec fn pipeline_plan(archetypes: Seq<Archetype>, n: nat, iters: Seq<Seq<u64>>, batch: nat) -> Seq<
    (usize, ArchetypeId, usize, usize),
>
    decreases n,
{
    if n == 0 {
        Seq::empty()
    } else {
        let a = archetypes[n - 1];
        let t = a.spec_table();
        let m = matching_iters(t.spec_type_ids(), iters, iters.len());
        pipeline_plan(archetypes, (n - 1) as nat, iters, batch) + if m.len() == 0 {
            Seq::empty()
        } else {
            pipeline_rounds(m, a.spec_id(), t.spec_len(), batch, partition_count(t.spec_len(), batch))
        }
    }
}

proof fn lemma_matching_iters(types: Seq<u64>, iters: Seq<Seq<u64>>, n: nat)
    requires
        n <= iters.len(),
        iters.len() <= usize::MAX,
    ensures
        forall|j: int|
            0 <= j < matching_iters(types, iters, n).len() ==> #[trigger] matching_iters(types, iters, n)[j] < n
                && is_subset(iters[matching_iters(types, iters, n)[j] as int], types),
    decreases n,
{
    if n > 0 {
        lemma_matching_iters(types, iters, (n - 1) as nat);
        let prev = matching_iters(types, iters, (n - 1) as nat);
        let cur = matching_iters(types, iters, n);
        assert forall|j: int| 0 <= j < cur.len() implies #[trigger] cur[j] < n && is_subset(iters[cur[j] as int], types) by {
            if j < prev.len() {
                assert(cur[j] == prev[j]);
            } else {
                assert(cur[j] == (n - 1) as usize);
            }
        }
    }
}

proof fn lemma_round_count(k: nat, batch: nat, len: nat)
    requires
        batch > 0,
    ensures
        k * batch < len <==> k < partition_count(len, batch),
        (k + 1) * batch == k * batch + batch,
{
    assert(k * batch < len <==> k < (len + batch - 1) / (batch as int)) by (nonlinear_arith)
        requires
            batch > 0,
    ;
    assert((k + 1) * batch == k * batch + batch) by (nonlinear_arith);
}

/// The order in which a pipeline runs its iterations: archetype by
/// archetype, batch by batch of `batch` rows, and within a batch each
/// iteration whose value types the archetype has, in the order of the
/// iterations. No iteration may write a component type twice.
pub fn plan_pipeline(
    archetypes: &[Archetype],
    iter_value_types: &Vec<Vec<u64>>,
    iter_write_types: &Vec<Vec<u64>>,
    batch: usize,
) -> (r: Vec<(usize, ArchetypeId, usize, usize)>)
    requires
        batch > 0,
        forall|t: int| 0 <= t < iter_write_types@.len() ==> distinct((#[trigger] iter_write_types@[t])@),
        forall|i: int|
            0 <= i < archetypes@.len() ==> (#[trigger] archetypes@[i]).spec_table().spec_len() + 2 * batch
                <= usize::MAX,
    ensures
        r@ == pipeline_plan(
            archetypes@,
            archetypes@.len(),
            Seq::new(iter_value_types@.len(), |t: int| iter_value_types@[t]@),
            batch as nat,
        ),
{
    let ghost iters = Seq::new(iter_value_types@.len(), |t: int| iter_value_types@[t]@);
    let mut w: usize = 0;
    while w < iter_write_types.len()
        invariant
            forall|t: int| 0 <= t < iter_write_types@.len() ==> distinct((#[trigger] iter_write_types@[t])@),
        decreases iter_write_types.len() - w,
    {
        assert_no_alias(iter_write_types[w].as_slice(), "aliasing in write components");
        w = w + 1;
    }
    let mut out: Vec<(usize, ArchetypeId, usize, usize)> = Vec::new();
    let mut i: usize = 0;
    while i < archetypes.len()
        invariant
            batch > 0,
            i <= archetypes@.len(),
            iters == Seq::new(iter_value_types@.len(), |t: int| iter_value_types@[t]@),
            out@ == pipeline_plan(archetypes@, i as nat, iters, batch as nat),
            forall|j: int|
                0 <= j < archetypes@.len() ==> (#[trigger] archetypes@[j]).spec_table().spec_len() + 2 * batch
                    <= usize::MAX,
        decreases archetypes.len() - i,
    {
        let archetype = &archetypes[i];
        let table = archetype.table();
        let types = table.type_ids();
        let mut m: Vec<usize> = Vec::new();
        let mut t: usize = 0;
        while t < iter_value_types.len()
            invariant
                t <= iter_value_types@.len(),
                iters == Seq::new(iter_value_types@.len(), |t: int| iter_value_types@[t]@),
                m@ == matching_iters(types@, iters, t as nat),
                forall|j: int| 0 <= j < m@.len() ==> m@[j] < t,
            decreases iter_value_types.len() - t,
        {
            if subset(iter_value_types[t].as_slice(), types) {
                m.push(t);
            }
            t = t + 1;
        }
        let ghost before = out@;
        let ghost len = table.spec_len();
        let id = archetype.id();
        if m.len() > 0 {
            let first = m[0];
            proof {
                lemma_matching_iters(types@, iters, iters.len());
                assert(iters[first as int] == iter_value_types@[first as int]@);
            }
            let mut parts: TablePartitionsMut = table.partitions_mut(iter_value_types[first].as_slice(), batch);
            let ghost mut k: nat = 0;
            loop
                invariant_except_break
                    batch > 0,
                    len + 2 * batch <= usize::MAX,
                    parts.spec_size() == batch,
                    parts.spec_end() == len,
                    parts.spec_curr() == k * batch,
                    k * batch < len + batch,
                    k <= partition_count(len, batch as nat),
                    out@ == before + pipeline_rounds(m@, id, len, batch as nat, k),
                ensures
                    out@ == before + pipeline_rounds(m@, id, len, batch as nat, partition_count(len, batch as nat)),
                decreases len + batch - parts.spec_curr(),
            {
                proof {
                    lemma_round_count(k, batch as nat, len);
                }
                match parts.next() {
                    Some(p) => {
                        let start = p.start();
                        let end = p.end();
                        let ghost mid = out@;
                        let mut j: usize = 0;
                        while j < m.len()
                            invariant
                                j <= m@.len(),
                                out@ == mid + round_entries(m@, id, start, end).take(j as int),
                            decreases m.len() - j,
                        {
                            out.push((m[j], id, start, end));
                            proof {
                                assert(round_entries(m@, id, start, end).take(j as int).push((m@[j as int], id, start, end))
                                    =~= round_entries(m@, id, start, end).take(j + 1 as int));
                            }
                            j = j + 1;
                        }
                        proof {
                            assert(round_entries(m@, id, start, end).take(m@.len() as int) =~= round_entries(m@, id, start, end));
                            k = k + 1;
                            assert(pipeline_rounds(m@, id, len, batch as nat, k) == pipeline_rounds(
                                m@,
                                id,
                                len,
                                batch as nat,
                                (k - 1) as nat,
                            ) + round_entries(m@, id, start, end));
                        }
                    },
                    None => {
                        break ;
                    },
                }
            }
        }
        proof {
            assert(types@ == archetypes@[i as int].spec_table().spec_type_ids());
        }
        i = i + 1;
    }
    out
}

} // verus!
