use vstd::prelude::*;
use crate::builder::{CircuitModel, Group};
use crate::lexer::{lines, tokens};
use crate::outputs::{insert_sorted, output_groups};
use crate::parse::{
    apply_gate, input_groups, initial_state, lemma_run_prefix_err, parse_model, run_lines, step_line, total_width, BuildState,
};
use crate::record::{decode, is_record, UncheckedGate};
use crate::types::{BuilderError, Failure, Gate, GateType, Node, ValueType};

verus! {

/// The number of operands a gate of kind `k` reads.
pub open spec fn arity(k: GateType) -> nat {
    match k {
        GateType::Inv => 1,
        _ => 2,
    }
}

/// The kinds of those records among `ls` that decode, in order.
pub open spec fn record_kinds(ls: Seq<Seq<char>>) -> Seq<GateType>
    decreases ls.len(),
{
    if ls.len() == 0 {
        Seq::empty()
    } else {
        let t = tokens(ls.last());
        let p = record_kinds(ls.drop_last());
        if is_record(t) && decode(t) is Ok {
            p.push(decode(t)->Ok_0.gate_type)
        } else {
            p
        }
    }
}

/// Every written id names the result of one of the gates.
pub open spec fn written_are_results(st: BuildState) -> bool {
    forall|i: int|
        0 <= i < st.written.len() ==> exists|k: int|
            0 <= k < st.circuit.gates.len() && #[trigger] st.map[st.written[i]]
                == st.circuit.gates[k].result()
}

proof fn lemma_insert_sorted_elems(q: Seq<usize>, z: usize)
    ensures
        insert_sorted(q, z).len() <= q.len() + 1,
        forall|i: int|
            0 <= i < insert_sorted(q, z).len() ==> #[trigger] insert_sorted(q, z)[i] == z
                || q.contains(insert_sorted(q, z)[i]),
    decreases q.len(),
{
    if q.len() > 0 && q.last() > z {
        let p = q.drop_last();
        lemma_insert_sorted_elems(p, z);
        assert forall|i: int| 0 <= i < insert_sorted(q, z).len() implies #[trigger] insert_sorted(
            q,
            z,
        )[i] == z || q.contains(insert_sorted(q, z)[i]) by {
            if i < insert_sorted(p, z).len() {
                let v = insert_sorted(p, z)[i];
                if v != z {
                    let k = choose|k: int| 0 <= k < p.len() && p[k] == v;
                    assert(q[k] == v);
                }
            } else {
                assert(q[q.len() - 1] == q.last());
            }
        }
    } else if q.len() > 0 && q.last() < z {
        assert forall|i: int| 0 <= i < insert_sorted(q, z).len() implies #[trigger] insert_sorted(
            q,
            z,
        )[i] == z || q.contains(insert_sorted(q, z)[i]) by {
            if i < q.len() {
                assert(q[i] == insert_sorted(q, z)[i]);
            }
        }
    } else if q.len() > 0 {
        assert forall|i: int| 0 <= i < insert_sorted(q, z).len() implies #[trigger] insert_sorted(
            q,
            z,
        )[i] == z || q.contains(insert_sorted(q, z)[i]) by {
            assert(q[i] == insert_sorted(q, z)[i]);
        }
    }
}

/// One line adds a gate exactly when it is a gate record that decodes; the
/// gate has the record's kind and that kind's number of operands, and the
/// ids written so far keep naming gate results.
proof fn lemma_step_line(st: BuildState, line: Seq<char>)
    requires
        step_line(st, line) is Ok,
        written_are_results(st),
    ensures
        ({
            let s = step_line(st, line)->Ok_0;
            let t = tokens(line);
            &&& written_are_results(s)
            &&& s.circuit.outputs == st.circuit.outputs
            &&& s.circuit.gates.len() <= st.circuit.gates.len() + 1
            &&& s.circuit.gates.take(st.circuit.gates.len() as int) == st.circuit.gates
            &&& if is_record(t) && decode(t) is Ok {
                &&& s.circuit.gates.len() == st.circuit.gates.len() + 1
                &&& s.circuit.gates.last().kind() == decode(t)->Ok_0.gate_type
                &&& s.circuit.gates.last().operands().len() == arity(decode(t)->Ok_0.gate_type)
                &&& s.written.len() <= st.written.len() + 1
            } else {
                s == st
            }
        }),
{
    let t = tokens(line);
    let s = step_line(st, line)->Ok_0;
    if is_record(t) && decode(t) is Ok {
        let g = decode(t)->Ok_0;
        lemma_insert_sorted_elems(st.written, g.zref);
        let n = st.circuit.gates.len();
        assert(s.circuit.gates.take(n as int) =~= st.circuit.gates);
        assert forall|i: int| 0 <= i < s.written.len() implies exists|k: int|
            0 <= k < s.circuit.gates.len() && #[trigger] s.map[s.written[i]]
                == s.circuit.gates[k].result() by {
            let id = s.written[i];
            if id == g.zref {
                assert(s.map[id] == s.circuit.gates[n as int].result());
            } else {
                let j = choose|j: int| 0 <= j < st.written.len() && st.written[j] == id;
                let k = choose|k: int|
                    0 <= k < st.circuit.gates.len() && #[trigger] st.map[st.written[j]]
                        == st.circuit.gates[k].result();
                assert(s.circuit.gates[k] == st.circuit.gates[k]);
                assert(s.map[id] == s.circuit.gates[k].result());
            }
        }
    } else {
        assert(st.circuit.gates.take(st.circuit.gates.len() as int) =~= st.circuit.gates);
    }
}

proof fn lemma_run_lines(st: BuildState, ls: Seq<Seq<char>>)
    requires
        run_lines(st, ls) is Ok,
        written_are_results(st),
    ensures
        ({
            let s = run_lines(st, ls)->Ok_0;
            let ks = record_kinds(ls);
            &&& written_are_results(s)
            &&& s.circuit.outputs == st.circuit.outputs
            &&& s.circuit.gates.len() == st.circuit.gates.len() + ks.len()
            &&& s.written.len() <= st.written.len() + ks.len()
            &&& forall|k: int|
                0 <= k < ks.len() ==> (#[trigger] s.circuit.gates[st.circuit.gates.len() + k]).kind()
                    == ks[k] && s.circuit.gates[st.circuit.gates.len() + k].operands().len()
                    == arity(ks[k])
        }),
    decreases ls.len(),
{
    if ls.len() > 0 {
        let p = ls.drop_last();
        lemma_run_lines(st, p);
        let m = run_lines(st, p)->Ok_0;
        lemma_step_line(m, ls.last());
        let s = run_lines(st, ls)->Ok_0;
        let n = st.circuit.gates.len();
        let kp = record_kinds(p);
        let ks = record_kinds(ls);
        assert forall|k: int| 0 <= k < ks.len() implies (#[trigger] s.circuit.gates[n + k]).kind()
            == ks[k] && s.circuit.gates[n + k].operands().len() == arity(ks[k]) by {
            if k < kp.len() {
                assert(s.circuit.gates[n + k] == s.circuit.gates.take(
                    m.circuit.gates.len() as int,
                )[n + k]);
            }
        }
    }
}

/// Gates follow gate records: a loaded circuit holds one gate per gate
/// record of the text, in file order, each of the record's kind and with
/// that kind's number of operands (two for XOR and AND, one for INV). So a
/// text with a single gate record loads to a single gate.
pub proof fn law_gates_follow_records(text: Seq<char>, ins: Seq<ValueType>, outs: Seq<ValueType>)
    requires
        parse_model(text, ins, outs) is Ok,
    ensures
        ({
            let m = parse_model(text, ins, outs)->Ok_0;
            let ks = record_kinds(lines(text));
            &&& m.gates.len() == ks.len()
            &&& forall|k: int|
                0 <= k < ks.len() ==> (#[trigger] m.gates[k]).kind() == ks[k]
                    && m.gates[k].operands().len() == arity(ks[k])
        }),
{
    let st0 = initial_state(ins);
    lemma_run_lines(st0, lines(text));
    let s = run_lines(st0, lines(text))->Ok_0;
    let ks = record_kinds(lines(text));
    assert forall|k: int| 0 <= k < ks.len() implies (#[trigger] s.circuit.gates[k]).kind() == ks[k]
        && s.circuit.gates[k].operands().len() == arity(ks[k]) by {
        assert(s.circuit.gates[0 + k] == s.circuit.gates[k]);
    }
}

/// A text with a single gate record and a single one-wire output: the
/// output group is the descriptor applied to the one feed which that gate
/// drives.
pub proof fn law_single_gate_output(text: Seq<char>, ins: Seq<ValueType>, d: ValueType)
    requires
        record_kinds(lines(text)).len() == 1,
        d.width() == 1,
        parse_model(text, ins, seq![d]) is Ok,
    ensures
        ({
            let m = parse_model(text, ins, seq![d])->Ok_0;
            &&& m.gates.len() == 1
            &&& m.outputs == seq![(d, seq![m.gates[0].result()])]
        }),
{
    let st0 = initial_state(ins);
    lemma_run_lines(st0, lines(text));
    let s = run_lines(st0, lines(text))->Ok_0;
    let descs = seq![d];
    assert(descs.drop_last() =~= Seq::<ValueType>::empty());
    let ids = s.written;
    lemma_output_groups_ok(ids, descs, s.map);
    assert(descs.last() == d);
    assert(total_width(descs) == 1);
    assert(ids.len() == 1);
    assert(written_are_results(s));
    let id0 = ids[0];
    assert(exists|k: int|
        0 <= k < s.circuit.gates.len() && #[trigger] s.map[s.written[0]]
            == s.circuit.gates[k].result());
    let k = choose|k: int|
        0 <= k < s.circuit.gates.len() && #[trigger] s.map[s.written[0]]
            == s.circuit.gates[k].result();
    assert(k == 0);
    assert(ids.take(0) =~= Seq::<usize>::empty());
    assert(ids.skip(0) =~= ids);
    assert(output_groups(ids.take(0), descs.drop_last(), s.map) == Ok::<Seq<Group>, Failure>(
        Seq::empty(),
    ));
    let r = output_groups(ids, descs, s.map);
    assert(r is Ok);
    let gs = r->Ok_0;
    assert(gs.len() == 1);
    assert(gs[0].0 == d);
    assert(gs[0].1.len() == 1);
    assert(gs[0].1[0] == s.map[ids[0]]);
    assert(gs[0].1 =~= seq![s.circuit.gates[0].result()]);
    assert(gs =~= seq![(d, seq![s.circuit.gates[0].result()])]);
}

/// Cutting the outputs succeeds exactly when the output widths together
/// fit in the ids, and every failure is an insufficient-output failure.
pub proof fn lemma_output_groups_ok(ids: Seq<usize>, descs: Seq<ValueType>, map: Map<usize, Node>)
    ensures
        output_groups(ids, descs, map) is Ok <==> total_width(descs) <= ids.len(),
        output_groups(ids, descs, map) is Err ==> (output_groups(ids, descs, map)->Err_0 matches Failure::Builder(BuilderError::InsufficientOutputs { .. })),
    decreases descs.len(),
{
    if descs.len() > 0 {
        let w = descs.last().width();
        if w <= ids.len() {
            lemma_output_groups_ok(ids.take(ids.len() - w), descs.drop_last(), map);
        }
    }
}

/// Declaring more output wires than there are distinct gate-output ids
/// fails with an insufficient-output failure; declaring no more succeeds
/// once the gates have loaded.
pub proof fn law_output_widths(text: Seq<char>, ins: Seq<ValueType>, outs: Seq<ValueType>)
    requires
        run_lines(initial_state(ins), lines(text)) is Ok,
    ensures
        ({
            let st = run_lines(initial_state(ins), lines(text))->Ok_0;
            &&& total_width(outs) > st.written.len() ==> (parse_model(text, ins, outs)->Err_0 matches Failure::Builder(BuilderError::InsufficientOutputs { .. }))
            &&& total_width(outs) > st.written.len() ==> parse_model(text, ins, outs) is Err
            &&& total_width(outs) <= st.written.len() ==> parse_model(text, ins, outs) is Ok
        }),
{
    let st = run_lines(initial_state(ins), lines(text))->Ok_0;
    lemma_output_groups_ok(st.written, outs, st.map);
}

/// Loading is a function of its inputs: two loads of the same text with
/// the same descriptors agree, both failing alike or both giving circuits
/// with the same gates and the same input and output groups.
pub proof fn law_load_twice(
    text: Seq<char>,
    ins: Seq<ValueType>,
    outs: Seq<ValueType>,
    first: Result<CircuitModel, Failure>,
    second: Result<CircuitModel, Failure>,
)
    requires
        first == parse_model(text, ins, outs),
        second == parse_model(text, ins, outs),
    ensures
        first is Ok <==> second is Ok,
        first is Ok ==> first->Ok_0.gates == second->Ok_0.gates && first->Ok_0.inputs
            == second->Ok_0.inputs && first->Ok_0.outputs == second->Ok_0.outputs,
        first is Err ==> first->Err_0 == second->Err_0,
{
}

/// The result ids of those records among `ls` that decode.
pub open spec fn record_results(ls: Seq<Seq<char>>) -> Set<usize>
    decreases ls.len(),
{
    if ls.len() == 0 {
        Set::empty()
    } else {
        let t = tokens(ls.last());
        let p = record_results(ls.drop_last());
        if is_record(t) && decode(t) is Ok {
            p.insert(decode(t)->Ok_0.zref)
        } else {
            p
        }
    }
}

/// After a run, the ids that name a feed are those named before it and
/// the result ids of its records.
proof fn lemma_defined_ids(st: BuildState, ls: Seq<Seq<char>>)
    requires
        run_lines(st, ls) is Ok,
    ensures
        run_lines(st, ls)->Ok_0.map.dom() == st.map.dom() + record_results(ls),
    decreases ls.len(),
{
    if ls.len() == 0 {
        assert(st.map.dom() + Set::<usize>::empty() =~= st.map.dom());
    } else {
        let p = ls.drop_last();
        lemma_defined_ids(st, p);
        let m = run_lines(st, p)->Ok_0;
        let t = tokens(ls.last());
        if is_record(t) && decode(t) is Ok {
            let g = decode(t)->Ok_0;
            assert(m.map.insert(g.zref, Node { index: m.circuit.feed_count as usize }).dom()
                =~= st.map.dom() + record_results(p).insert(g.zref));
        }
    }
}

/// Use before definition fails: when the lines before line `k` load, and
/// line `k` holds a record reading an id that is neither an input id nor
/// the result of an earlier record, the load fails with an
/// uninitialized-feed failure carrying that id (the first operand is
/// checked before the second).
pub proof fn law_undefined_operand(
    text: Seq<char>,
    ins: Seq<ValueType>,
    outs: Seq<ValueType>,
    k: int,
)
    requires
        0 <= k < lines(text).len(),
        run_lines(initial_state(ins), lines(text).take(k)) is Ok,
        is_record(tokens(lines(text)[k])),
        decode(tokens(lines(text)[k])) is Ok,
    ensures
        ({
            let g = decode(tokens(lines(text)[k]))->Ok_0;
            let defined = |id: usize| id < total_width(ins) || record_results(lines(text).take(k)).contains(id);
            &&& !defined(g.xref) ==> parse_model(text, ins, outs) == Err::<CircuitModel, Failure>(
                Failure::Uninitialized(g.xref),
            )
            &&& defined(g.xref) && g.gate_type != GateType::Inv && !defined(g.yref->Some_0)
                ==> parse_model(text, ins, outs) == Err::<CircuitModel, Failure>(
                Failure::Uninitialized(g.yref->Some_0),
            )
        }),
{
    let ls = lines(text);
    let st0 = initial_state(ins);
    let g = decode(tokens(ls[k]))->Ok_0;
    let defined = |id: usize| id < total_width(ins) || record_results(ls.take(k)).contains(id);
    lemma_defined_ids(st0, ls.take(k));
    let s = run_lines(st0, ls.take(k))->Ok_0;
    assert forall|id: usize| s.map.contains_key(id) <==> defined(id) by {
        assert(s.map.dom().contains(id) <==> (st0.map.dom().contains(id) || record_results(
            ls.take(k),
        ).contains(id)));
    }
    assert(g.gate_type != GateType::Inv ==> g.yref is Some);
    assert(ls.take(k + 1).drop_last() =~= ls.take(k));
    assert(ls.take(k + 1).last() == ls[k]);
    if !defined(g.xref) || (g.gate_type != GateType::Inv && !defined(g.yref->Some_0)) {
        assert(run_lines(st0, ls.take(k + 1)) == step_line(s, ls[k]));
        lemma_run_prefix_err(st0, ls, k + 1);
    }
}

/// The number of lines among `ls` that are gate records.
pub open spec fn record_count(ls: Seq<Seq<char>>) -> nat
    decreases ls.len(),
{
    if ls.len() == 0 {
        0
    } else {
        record_count(ls.drop_last()) + if is_record(tokens(ls.last())) {
            1nat
        } else {
            0nat
        }
    }
}

/// What record `g` becomes when its operand ids are input
/// ids and `w` feeds exist before it.
pub open spec fn gate_from_inputs(g: UncheckedGate, w: nat) -> Gate {
    let x = Node { index: g.xref };
    let z = Node { index: w as usize };
    match g.gate_type {
        GateType::Inv => Gate::Inv { x, z },
        GateType::Xor => Gate::Xor { x, y: Node { index: g.yref->Some_0 }, z },
        GateType::And => Gate::And { x, y: Node { index: g.yref->Some_0 }, z },
    }
}

proof fn lemma_some_record(ls: Seq<Seq<char>>)
    requires
        record_count(ls) > 0,
    ensures
        exists|i: int| 0 <= i < ls.len() && is_record(tokens(#[trigger] ls[i])),
    decreases ls.len(),
{
    let p = ls.drop_last();
    if is_record(tokens(ls.last())) {
        assert(is_record(tokens(ls[ls.len() - 1])));
    } else {
        lemma_some_record(p);
        let i = choose|i: int| 0 <= i < p.len() && is_record(tokens(#[trigger] p[i]));
        assert(ls[i] == p[i]);
    }
}

/// Lines holding at most one gate record, which decodes to `g`, leave the
/// state alone but for that record.
proof fn lemma_run_one_record(st: BuildState, ls: Seq<Seq<char>>, g: UncheckedGate)
    requires
        record_count(ls) <= 1,
        forall|i: int|
            0 <= i < ls.len() && is_record(tokens(#[trigger] ls[i])) ==> decode(tokens(ls[i]))
                == Ok::<UncheckedGate, Failure>(g),
        apply_gate(st, g) is Ok,
    ensures
        run_lines(st, ls) == if record_count(ls) == 0 {
            Ok::<BuildState, Failure>(st)
        } else {
            apply_gate(st, g)
        },
    decreases ls.len(),
{
    if ls.len() > 0 {
        let p = ls.drop_last();
        assert forall|i: int|
            0 <= i < p.len() && is_record(tokens(#[trigger] p[i])) implies decode(tokens(p[i]))
            == Ok::<UncheckedGate, Failure>(g) by {
            assert(p[i] == ls[i]);
        }
        lemma_run_one_record(st, p, g);
        assert(ls.last() == ls[ls.len() - 1]);
    }
}

/// A text with exactly one gate record, whose operand ids are input ids,
/// and a single one-wire output loads to exactly one gate: of the record's
/// kind, reading the input feeds its ids name (two for XOR and AND, one
/// for INV), driving the feed after the inputs, which is the output.
pub proof fn law_single_gate(text: Seq<char>, ins: Seq<ValueType>, d: ValueType, g: UncheckedGate)
    requires
        record_count(lines(text)) == 1,
        forall|i: int|
            0 <= i < lines(text).len() && is_record(tokens(#[trigger] lines(text)[i])) ==> decode(
                tokens(lines(text)[i]),
            ) == Ok::<UncheckedGate, Failure>(g),
        g.xref < total_width(ins),
        g.yref is Some ==> g.yref->Some_0 < total_width(ins),
        total_width(ins) < usize::MAX,
        d.width() == 1,
    ensures
        parse_model(text, ins, seq![d]) == Ok::<CircuitModel, Failure>(
            CircuitModel {
                feed_count: total_width(ins) + 1,
                inputs: input_groups(ins),
                gates: seq![gate_from_inputs(g, total_width(ins))],
                outputs: seq![(d, seq![Node { index: total_width(ins) as usize }])],
            },
        ),
        gate_from_inputs(g, total_width(ins)).kind() == g.gate_type,
        gate_from_inputs(g, total_width(ins)).operands().len() == arity(g.gate_type),
{
    let ls = lines(text);
    let w = total_width(ins);
    let st0 = initial_state(ins);
    lemma_some_record(ls);
    let i = choose|i: int| 0 <= i < ls.len() && is_record(tokens(#[trigger] ls[i]));
    assert(decode(tokens(ls[i])) == Ok::<UncheckedGate, Failure>(g));
    assert(g.gate_type != GateType::Inv ==> g.yref is Some);
    assert(st0.map.contains_key(g.xref));
    let gate = gate_from_inputs(g, w);
    let z = Node { index: w as usize };
    assert(apply_gate(st0, g) is Ok);
    lemma_run_one_record(st0, ls, g);
    let s = apply_gate(st0, g)->Ok_0;
    assert(s.circuit.gates =~= seq![gate]);
    assert(s.written =~= seq![g.zref]);
    assert(s.map[g.zref] == z);
    let descs = seq![d];
    assert(descs.drop_last() =~= Seq::<ValueType>::empty());
    assert(descs.last() == d);
    let ids = s.written;
    assert(ids.take(0) =~= Seq::<usize>::empty());
    assert(output_groups(ids.take(0), descs.drop_last(), s.map) == Ok::<Seq<Group>, Failure>(
        Seq::empty(),
    ));
    let r = output_groups(ids, descs, s.map);
    assert(r is Ok);
    let gs = r->Ok_0;
    assert(gs.len() == 1);
    assert(gs[0].1[0] == s.map[ids[0]]);
    assert(gs[0].1 =~= seq![z]);
    assert(gs =~= seq![(d, seq![z])]);
}

} // verus!
