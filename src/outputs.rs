use vstd::prelude::*;
use crate::builder::{group_below, well_formed, Circuit, CircuitBuilder, CircuitModel, Group};
use crate::feed_map::FeedMap;
use crate::types::{BuilderError, Failure, Node, ParseError, TypedValue, ValueType};

verus! {

/// `q`, ascending and without repeats, with `z` added in its place (no
/// change when `z` is already there).
pub open spec fn insert_sorted(q: Seq<usize>, z: usize) -> Seq<usize>
    decreases q.len(),
{
    if q.len() == 0 {
        seq![z]
    } else if q.last() == z {
        q
    } else if q.last() < z {
        q.push(z)
    } else {
        insert_sorted(q.drop_last(), z).push(q.last())
    }
}

pub open spec fn strictly_ascending(q: Seq<usize>) -> bool {
    forall|i: int, j: int| 0 <= i < j < q.len() ==> q[i] < q[j]
}

/// The output groups that `descs` cut from the ascending gate-output ids
/// `ids`: the last descriptor takes the highest ids, the one before it the
/// highest of the rest, and so on; each id stands for the feed that `map`
/// binds it to. Fails at the first descriptor, from the end, that is wider
/// than what is left.
pub open spec fn output_groups(ids: Seq<usize>, descs: Seq<ValueType>, map: Map<usize, Node>) -> Result<
    Seq<Group>,
    Failure,
>
    decreases descs.len(),
{
    if descs.len() == 0 {
        Ok(Seq::empty())
    } else {
        let d = descs.last();
        let w = d.width();
        if w > ids.len() {
            Err(
                Failure::Builder(
                    BuilderError::InsufficientOutputs {
                        width: w as usize,
                        available: ids.len() as usize,
                    },
                ),
            )
        } else {
            let cut = ids.len() - w;
            match output_groups(ids.take(cut), descs.drop_last(), map) {
                Ok(gs) => Ok(gs.push((d, ids.skip(cut).map_values(|id: usize| map[id])))),
                Err(e) => Err(e),
            }
        }
    }
}

pub open spec fn then_append(r: Result<Seq<Group>, Failure>, tail: Seq<Group>) -> Result<
    Seq<Group>,
    Failure,
> {
    match r {
        Ok(gs) => Ok(gs + tail),
        Err(e) => Err(e),
    }
}

proof fn lemma_insert_above(q: Seq<usize>, z: usize, j: int)
    requires
        0 <= j <= q.len(),
        forall|k: int| j <= k < q.len() ==> q[k] > z,
    ensures
        insert_sorted(q, z) == insert_sorted(q.take(j), z) + q.skip(j),
    decreases q.len() - j,
{
    if j == q.len() {
        assert(q.take(j) =~= q);
        assert(insert_sorted(q, z) =~= insert_sorted(q.take(j), z) + q.skip(j));
    } else {
        let p = q.drop_last();
        lemma_insert_above(p, z, j);
        assert(p.take(j) =~= q.take(j));
        assert(q.skip(j) =~= p.skip(j).push(q.last()));
        assert(insert_sorted(q, z) =~= insert_sorted(q.take(j), z) + q.skip(j));
    }
}

/// Adds `z` to the ascending, repeat-free ids `ids`.
pub fn insert_id(ids: &mut Vec<usize>, z: usize)
    requires
        strictly_ascending(old(ids)@),
    ensures
        final(ids)@ == insert_sorted(old(ids)@, z),
        strictly_ascending(final(ids)@),
        forall|i: int|
            0 <= i < final(ids)@.len() ==> #[trigger] final(ids)@[i] == z || old(ids)@.contains(
                final(ids)@[i],
            ),
        final(ids)@.contains(z),
{
    let ghost q = ids@;
    let mut j = ids.len();
    while j > 0 && ids[j - 1] > z
        invariant
            ids@ == q,
            j <= q.len(),
            forall|k: int| j <= k < q.len() ==> q[k] > z,
        decreases j,
    {
        j -= 1;
    }
    proof {
        lemma_insert_above(q, z, j as int);
        let t = q.take(j as int);
        if j > 0 {
            assert(t.drop_last() =~= q.take(j - 1));
            assert(t.last() == q[j - 1]);
        } else {
            assert(t =~= Seq::<usize>::empty());
        }
    }
    if j > 0 && ids[j - 1] == z {
        assert(q.take(j as int) + q.skip(j as int) =~= q);
        assert(q[j - 1] == z);
        return;
    }
    ids.insert(j, z);
    proof {
        assert(q.take(j as int).push(z) + q.skip(j as int) =~= q.insert(j as int, z));
        assert forall|i: int| 0 <= i < ids@.len() implies #[trigger] ids@[i] == z || q.contains(
            ids@[i],
        ) by {
            if i < j {
                assert(ids@[i] == q[i]);
            } else if i > j {
                assert(ids@[i] == q[i - 1]);
            }
        }
        assert(ids@[j as int] == z);
    }
}

impl CircuitBuilder {
    /// Cuts the output groups that `outputs` declare from the ascending
    /// gate-output ids `ids` (see `output_groups`), attaches them in
    /// declaration order and seals the circuit.
    pub fn finalize(self, ids: &[usize], feeds: &FeedMap, outputs: &[ValueType]) -> (r: Result<
        Circuit,
        ParseError,
    >)
        requires
            well_formed(self@),
            forall|i: int|
                0 <= i < ids@.len() ==> feeds@.contains_key(#[trigger] ids@[i]) && feeds@[ids@[i]].index
                    < self@.feed_count,
        ensures
            match output_groups(ids@, outputs@, feeds@) {
                Ok(gs) => r is Ok && r->Ok_0@ == (CircuitModel {
                    outputs: self@.outputs + gs,
                    ..self@
                }) && well_formed(r->Ok_0@),
                Err(f) => r is Err && r->Err_0@ == f,
            },
    {
        let ghost ids0 = ids@;
        let mut rest = vstd::slice::slice_to_vec(ids);
        let ghost map = feeds@;
        let mut collected: Vec<TypedValue> = Vec::new();
        let mut j = outputs.len();
        assert(outputs@.take(j as int) =~= outputs@);
        while j > 0
            invariant
                j <= outputs@.len(),
                map == feeds@,
                ids0 == ids@,
                well_formed(self@),
                forall|i: int|
                    0 <= i < rest@.len() ==> feeds@.contains_key(#[trigger] rest@[i])
                        && feeds@[rest@[i]].index < self@.feed_count,
                output_groups(ids0, outputs@, map) == then_append(
                    output_groups(rest@, outputs@.take(j as int), map),
                    crate::builder::groups(collected@),
                ),
                forall|i: int|
                    0 <= i < collected@.len() ==> group_below(
                        #[trigger] collected@[i]@,
                        self@.feed_count,
                    ),
            decreases j,
        {
            let ghost descs = outputs@.take(j as int);
            assert(descs.drop_last() =~= outputs@.take(j - 1));
            assert(descs.last() == outputs@[j - 1]);
            let d = outputs[j - 1];
            let w = d.len();
            if w > rest.len() {
                assert(output_groups(rest@, descs, map) == Err::<Seq<Group>, Failure>(
                    Failure::Builder(
                        BuilderError::InsufficientOutputs { width: w, available: rest.len() },
                    ),
                ));
                assert(output_groups(ids0, outputs@, map) == Err::<Seq<Group>, Failure>(
                    Failure::Builder(
                        BuilderError::InsufficientOutputs { width: w, available: rest.len() },
                    ),
                ));
                let err = ParseError::BuilderError(
                    BuilderError::InsufficientOutputs { width: w, available: rest.len() },
                );
                return Err(err);
            }
            let ghost before = rest@;
            let cut = rest.len() - w;
            let tail = rest.split_off(cut);
            let mut nodes: Vec<Node> = Vec::new();
            let mut k: usize = 0;
            while k < tail.len()
                invariant
                    k <= tail@.len(),
                    tail@ == before.skip(cut as int),
                    cut + tail@.len() == before.len(),
                    map == feeds@,
                    forall|i: int|
                        0 <= i < before.len() ==> feeds@.contains_key(#[trigger] before[i])
                            && feeds@[before[i]].index < self@.feed_count,
                    nodes@ =~= tail@.take(k as int).map_values(|id: usize| map[id]),
                    forall|i: int| 0 <= i < nodes@.len() ==> (#[trigger] nodes@[i]).index < self@.feed_count,
                decreases tail@.len() - k,
            {
                assert(tail@[k as int] == before[cut + k]);
                let n = match feeds.resolve(tail[k]) {
                    Ok(n) => n,
                    Err(e) => return Err(e),
                };
                nodes.push(n);
                assert(tail@.take(k + 1).map_values(|id: usize| map[id]) =~= tail@.take(
                    k as int,
                ).map_values(|id: usize| map[id]).push(n));
                k += 1;
            }
            assert(tail@.take(tail@.len() as int) =~= tail@);
            let v = TypedValue { ty: d, feeds: nodes };
            let ghost old_collected = collected@;
            collected.insert(0, v);
            proof {
                assert(crate::builder::groups(collected@) =~= seq![v@] + crate::builder::groups(
                    old_collected,
                ));
                assert(before.take(cut as int) =~= rest@);
                match output_groups(rest@, outputs@.take(j - 1), map) {
                    Ok(gs) => {
                        assert(gs.push(v@) + crate::builder::groups(old_collected) =~= gs
                            + crate::builder::groups(collected@));
                    },
                    Err(e) => {},
                }
                assert forall|i: int| 0 <= i < collected@.len() implies group_below(
                    #[trigger] collected@[i]@,
                    self@.feed_count,
                ) by {
                    if i > 0 {
                        assert(collected@[i] == old_collected[i - 1]);
                    }
                }
            }
            j -= 1;
        }
        assert(outputs@.take(0) =~= Seq::<ValueType>::empty());
        assert(crate::builder::groups(collected@) =~= Seq::empty() + crate::builder::groups(collected@));
        let ghost all = crate::builder::groups(collected@);
        let mut b = self;
        let ghost start = b@;
        while collected.len() > 0
            invariant
                well_formed(b@),
                b@ == (CircuitModel { outputs: b@.outputs, ..start }),
                b@.outputs + crate::builder::groups(collected@) == start.outputs + all,
                forall|i: int|
                    0 <= i < collected@.len() ==> group_below(
                        #[trigger] collected@[i]@,
                        start.feed_count,
                    ),
            decreases collected@.len(),
        {
            let ghost before = collected@;
            let v = collected.remove(0);
            assert(before[0] == v);
            assert(group_below(before[0]@, start.feed_count));
            let ghost outs = b@.outputs;
            b.add_output(v);
            proof {
                assert(crate::builder::groups(before) =~= seq![v@] + crate::builder::groups(
                    collected@,
                ));
                assert(outs.push(v@) + crate::builder::groups(collected@) =~= outs
                    + crate::builder::groups(before));
                assert forall|i: int| 0 <= i < collected@.len() implies group_below(
                    #[trigger] collected@[i]@,
                    start.feed_count,
                ) by {
                    assert(collected@[i] == before[i + 1]);
                }
            }
        }
        assert(b@.outputs =~= b@.outputs + crate::builder::groups(collected@));
        Ok(b.build())
    }
}

} // verus!
