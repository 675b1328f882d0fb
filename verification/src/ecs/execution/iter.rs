//! Planning a parallel iteration: which rows of which archetypes go to which
//! task.
use vstd::prelude::*;

use crate::ecs::archetype::Archetype;
use crate::ecs::entity::ArchetypeId;
use crate::ecs::sort::distinct;
use crate::ecs::storage::table::{partition_end, TablePartitionsMut};
use crate::ecs::util::{assert_no_alias, is_disjoint, is_subset, subset};

verus! {

/// The number of partitions of `batch` rows that cover `len` rows.
pub open spec fn partition_count(len: nat, batch: nat) -> nat {
    ((len + batch - 1) as nat / batch) as nat
}

/// The partitions of the `len` rows of archetype `id`: the `k`-th starts at
/// row `k * batch` and ends `batch` rows on or at `len`, whichever is less.
pub open spec fn row_partitions(id: ArchetypeId, len: nat, batch: nat) -> Seq<(ArchetypeId, usize, usize)> {
    Seq::new(
        partition_count(len, batch),
        |k: int| (id, (k * batch) as usize, partition_end((k * batch) as nat, batch, len) as usize),
    )
}

/// The tasks of a parallel iteration over the first `n` archetypes: the row
/// partitions of each archetype whose types include all of `wanted`, in the
/// order of the archetypes.
pub open spec fn par_plan(archetypes: Seq<Archetype>, n: nat, wanted: Seq<u64>, batch: nat) -> Seq<
    (ArchetypeId, usize, usize),
>
    decreases n,
{
    if n == 0 {
        Seq::empty()
    } else {
        let a = archetypes[n - 1];
        let t = a.spec_table();
        par_plan(archetypes, (n - 1) as nat, wanted, batch) + if is_subset(wanted, t.spec_type_ids()) {
            row_partitions(a.spec_id(), t.spec_len(), batch)
        } else {
            Seq::empty()
        }
    }
}

proof fn lemma_partition_count(k: nat, batch: nat, len: nat)
    requires
        batch > 0,
    ensures
        k * batch < len <==> k < partition_count(len, batch),
{
    assert(k * batch < len <==> k < (len + batch - 1) / (batch as int)) by (nonlinear_arith)
        requires
            batch > 0,
    ;
}

/// The tasks of a parallel iteration over the components `value_types` of
/// every archetype that has them all: each task is an archetype's number and
/// a range of at most `batch` of its rows. The components written must not
/// repeat, and no component read from elsewhere may be one of them.
pub fn plan_par_iter(
    archetypes: &[Archetype],
    value_types: &[u64],
    write_types: &[u64],
    global_read: &[u64],
    batch: usize,
) -> (r: Vec<(ArchetypeId, usize, usize)>)
    requires
        batch > 0,
        distinct(write_types@),
        is_disjoint(global_read@, write_types@),
        forall|i: int|
            0 <= i < archetypes@.len() ==> (#[trigger] archetypes@[i]).spec_table().spec_len() + 2 * batch
                <= usize::MAX,
    ensures
        r@ == par_plan(archetypes@, archetypes@.len(), value_types@, batch as nat),
{
    assert_no_alias(write_types, "aliasing in write components");
    let mut out: Vec<(ArchetypeId, usize, usize)> = Vec::new();
    let mut i: usize = 0;
    while i < archetypes.len()
        invariant
            batch > 0,
            i <= archetypes@.len(),
            out@ == par_plan(archetypes@, i as nat, value_types@, batch as nat),
            forall|j: int|
                0 <= j < archetypes@.len() ==> (#[trigger] archetypes@[j]).spec_table().spec_len() + 2 * batch
                    <= usize::MAX,
        decreases archetypes.len() - i,
    {
        let archetype = &archetypes[i];
        let table = archetype.table();
        let ghost before = out@;
        let ghost len = table.spec_len();
        let ghost parts_of = row_partitions(archetype.spec_id(), len, batch as nat);
        if subset(value_types, table.type_ids()) {
            let id = archetype.id();
            let mut parts: TablePartitionsMut = table.partitions_mut(value_types, batch);
            let ghost mut k: nat = 0;
            loop
                invariant_except_break
                    batch > 0,
                    len + 2 * batch <= usize::MAX,
                    parts.spec_size() == batch,
                    parts.spec_end() == len,
                    parts.spec_curr() == k * batch,
                    k * batch < len + batch,
                    k <= partition_count(len, batch as nat),
                    out@ == before + parts_of.take(k as int),
                    parts_of == row_partitions(id, len, batch as nat),
                ensures
                    out@ == before + parts_of,
                decreases len + batch - parts.spec_curr(),
            {
                proof {
                    lemma_partition_count(k, batch as nat, len);
                }
                match parts.next() {
                    Some(p) => {
                        let start = p.start();
                        let end = p.end();
                        out.push((id, start, end));
                        proof {
                            assert(parts_of.take(k as int).push(parts_of[k as int]) =~= parts_of.take(k + 1 as int));
                            k = k + 1;
                            assert(k * batch == (k - 1) * batch + batch) by (nonlinear_arith);
                        }
                    },
                    None => {
                        assert(parts_of.take(k as int) =~= parts_of);
                        break ;
                    },
                }
            }
        }
        proof {
            assert(archetypes@.take(i + 1).last() == archetypes@[i as int]);
        }
        i = i + 1;
    }
    out
}

} // verus!
