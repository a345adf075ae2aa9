use vstd::prelude::*;
use crate::builder::{
    fresh_nodes, well_formed, with_gate, Circuit, CircuitBuilder, CircuitModel, Group,
};
use crate::feed_map::FeedMap;
use crate::lexer::{
    all_digits, chars_of, lemma_lines_nonempty, lines, span_all_digits, span_texts, tokenize,
    tokens,
};
use crate::outputs::{insert_id, insert_sorted, output_groups, strictly_ascending};
use crate::record::{decode, is_record, UncheckedGate};
use crate::types::{Failure, Gate, GateType, Node, ParseError, ValueType};

verus! {

/// Everything a load has built after a prefix of the file: the circuit so
/// far, the map from file ids to feeds, and the ids that gates have
/// written, ascending and without repeats.
pub struct BuildState {
    pub circuit: CircuitModel,
    pub map: Map<usize, Node>,
    pub written: Seq<usize>,
}

/// The number of wires that the descriptors `descs` span together.
pub open spec fn total_width(descs: Seq<ValueType>) -> nat
    decreases descs.len(),
{
    if descs.len() == 0 {
        0
    } else {
        total_width(descs.drop_last()) + descs.last().width()
    }
}

/// The input groups: each descriptor in turn takes the next run of fresh
/// feeds.
pub open spec fn input_groups(descs: Seq<ValueType>) -> Seq<Group>
    decreases descs.len(),
{
    if descs.len() == 0 {
        Seq::empty()
    } else {
        let p = descs.drop_last();
        input_groups(p).push((descs.last(), fresh_nodes(total_width(p), descs.last().width())))
    }
}

/// The state once the inputs are declared: file ids `0..n` of the `n`
/// input wires name feeds `0..n`.
pub open spec fn initial_state(descs: Seq<ValueType>) -> BuildState {
    BuildState {
        circuit: CircuitModel {
            feed_count: total_width(descs),
            inputs: input_groups(descs),
            gates: Seq::empty(),
            outputs: Seq::empty(),
        },
        map: Map::new(|id: usize| id < total_width(descs), |id: usize| Node { index: id }),
        written: Seq::empty(),
    }
}

/// One gate record applied to the state: its operand ids are resolved
/// (the first, then the second), a gate driving a fresh feed is appended,
/// and its result id is bound to that feed and counted as written.
pub open spec fn apply_gate(st: BuildState, g: UncheckedGate) -> Result<BuildState, Failure> {
    let m = st.map;
    let z = Node { index: st.circuit.feed_count as usize };
    if !m.contains_key(g.xref) {
        Err(Failure::Uninitialized(g.xref))
    } else {
        let x = m[g.xref];
        let gate: Result<Gate, Failure> = match g.gate_type {
            GateType::Inv => Ok(Gate::Inv { x, z }),
            _ => match g.yref {
                None => Err(Failure::MissingOperand(g.gate_type)),
                Some(yid) => if !m.contains_key(yid) {
                    Err(Failure::Uninitialized(yid))
                } else if g.gate_type == GateType::Xor {
                    Ok(Gate::Xor { x, y: m[yid], z })
                } else {
                    Ok(Gate::And { x, y: m[yid], z })
                },
            },
        };
        match gate {
            Err(e) => Err(e),
            Ok(gate) => Ok(
                BuildState {
                    circuit: with_gate(st.circuit, gate),
                    map: m.insert(g.zref, z),
                    written: insert_sorted(st.written, g.zref),
                },
            ),
        }
    }
}

/// One line applied to the state: a line that is no gate record changes
/// nothing.
pub open spec fn step_line(st: BuildState, line: Seq<char>) -> Result<BuildState, Failure> {
    let t = tokens(line);
    if !is_record(t) {
        Ok(st)
    } else {
        match decode(t) {
            Err(e) => Err(e),
            Ok(g) => apply_gate(st, g),
        }
    }
}

/// The lines applied in order; the first failure ends the run.
pub open spec fn run_lines(st: BuildState, ls: Seq<Seq<char>>) -> Result<BuildState, Failure>
    decreases ls.len(),
{
    if ls.len() == 0 {
        Ok(st)
    } else {
        match run_lines(st, ls.drop_last()) {
            Err(e) => Err(e),
            Ok(s) => step_line(s, ls.last()),
        }
    }
}

/// The circuit that `text` describes, with the inputs `ins` and the
/// outputs `outs`, or the first failure met on the way.
pub open spec fn parse_model(text: Seq<char>, ins: Seq<ValueType>, outs: Seq<ValueType>) -> Result<
    CircuitModel,
    Failure,
> {
    match run_lines(initial_state(ins), lines(text)) {
        Err(e) => Err(e),
        Ok(st) => match output_groups(st.written, outs, st.map) {
            Err(e) => Err(e),
            Ok(gs) => Ok(CircuitModel { outputs: gs, ..st.circuit }),
        },
    }
}

pub open spec fn loaded(r: Result<Circuit, ParseError>) -> Result<CircuitModel, Failure> {
    match r {
        Ok(c) => Ok(c@),
        Err(e) => Err(e@),
    }
}

/// What the loading loop keeps true of its state.
pub open spec fn state_ok(st: BuildState) -> bool {
    &&& well_formed(st.circuit)
    &&& strictly_ascending(st.written)
    &&& forall|id: usize| #[trigger]
        st.map.contains_key(id) ==> st.map[id].index < st.circuit.feed_count
    &&& forall|i: int| 0 <= i < st.written.len() ==> st.map.contains_key(#[trigger] st.written[i])
}

pub open spec fn state_of(b: CircuitModel, m: Map<usize, Node>, w: Seq<usize>) -> BuildState {
    BuildState { circuit: b, map: m, written: w }
}

/// Whether the fields `spans` of `chars` form a gate record.
fn is_record_spans(chars: &Vec<char>, spans: &Vec<(usize, usize)>) -> (r: bool)
    requires
        forall|k: int|
            0 <= k < spans@.len() ==> (#[trigger] spans@[k]).0 <= spans@[k].1 <= chars@.len(),
    ensures
        r == is_record(span_texts(chars@, spans@)),
{
    let ghost t = span_texts(chars@, spans@);
    let n = spans.len();
    if n != 5 && n != 6 {
        return false;
    }
    let mut i: usize = 0;
    while i < n - 1
        invariant
            n == spans@.len(),
            n == 5 || n == 6,
            i <= n - 1,
            t == span_texts(chars@, spans@),
            forall|k: int|
                0 <= k < spans@.len() ==> (#[trigger] spans@[k]).0 <= spans@[k].1 <= chars@.len(),
            forall|k: int| 0 <= k < i ==> all_digits(#[trigger] t[k]),
        decreases n - 1 - i,
    {
        let s = spans[i];
        assert(t[i as int] == chars@.subrange(s.0 as int, s.1 as int));
        if !span_all_digits(chars, s.0, s.1) {
            assert(!all_digits(t[i as int]));
            return false;
        }
        i += 1;
    }
    let s = spans[n - 1];
    assert(t[n - 1] == chars@.subrange(s.0 as int, s.1 as int));
    !span_all_digits(chars, s.0, s.1)
}

/// Applies the line `chars[start..end]` of `text` to the state held in
/// `builder`, `feeds` and `written` (see `step_line`).
fn load_line(
    text: &str,
    chars: &Vec<char>,
    start: usize,
    end: usize,
    builder: &mut CircuitBuilder,
    feeds: &mut FeedMap,
    written: &mut Vec<usize>,
) -> (r: Result<(), ParseError>)
    requires
        chars@ == text@,
        start <= end <= chars@.len(),
        state_ok(state_of(old(builder)@, old(feeds)@, old(written)@)),
        old(builder)@.feed_count < usize::MAX,
    ensures
        match step_line(
            state_of(old(builder)@, old(feeds)@, old(written)@),
            chars@.subrange(start as int, end as int),
        ) {
            Ok(st) => r is Ok && st == state_of(final(builder)@, final(feeds)@, final(written)@)
                && state_ok(st) && final(builder)@.feed_count <= old(builder)@.feed_count + 1
                && final(builder)@.outputs == old(builder)@.outputs,
            Err(f) => r is Err && r->Err_0@ == f,
        },
{
    let ghost st = state_of(builder@, feeds@, written@);
    let spans = tokenize(chars, start, end);
    if !is_record_spans(chars, &spans) {
        return Ok(());
    }
    let g = match UncheckedGate::parse(text, chars, &spans) {
        Ok(g) => g,
        Err(e) => return Err(e),
    };
    let x = match feeds.resolve(g.xref) {
        Ok(x) => x,
        Err(e) => return Err(e),
    };
    let z = match g.gate_type {
        GateType::Inv => builder.add_inv_gate(x),
        _ => {
            let yid = match g.yref {
                Some(yid) => yid,
                None => return Err(ParseError::MissingOperand(g.gate_type)),
            };
            let y = match feeds.resolve(yid) {
                Ok(y) => y,
                Err(e) => return Err(e),
            };
            if g.gate_type == GateType::Xor {
                builder.add_xor_gate(x, y)
            } else {
                builder.add_and_gate(x, y)
            }
        },
    };
    let ghost w0 = written@;
    feeds.define(g.zref, z);
    insert_id(written, g.zref);
    proof {
        let ns = state_of(builder@, feeds@, written@);
        assert forall|id: usize| #[trigger] ns.map.contains_key(id) implies ns.map[id].index
            < ns.circuit.feed_count by {
            if id != g.zref {
                assert(st.map.contains_key(id));
            }
        }
        assert forall|i: int| 0 <= i < ns.written.len() implies ns.map.contains_key(
            #[trigger] ns.written[i],
        ) by {
            if ns.written[i] != g.zref {
                let k = choose|k: int| 0 <= k < w0.len() && w0[k] == ns.written[i];
                assert(st.map.contains_key(w0[k]));
            }
        }
    }
    Ok(())
}

proof fn lemma_total_width_step(d: Seq<ValueType>, i: int)
    requires
        0 <= i < d.len(),
    ensures
        total_width(d.take(i + 1)) == total_width(d.take(i)) + d[i].width(),
{
    assert(d.take(i + 1).drop_last() =~= d.take(i));
}

proof fn lemma_total_width_prefix(d: Seq<ValueType>, i: int)
    requires
        0 <= i <= d.len(),
    ensures
        total_width(d.take(i)) <= total_width(d),
    decreases d.len() - i,
{
    if i < d.len() {
        lemma_total_width_step(d, i);
        lemma_total_width_prefix(d, i + 1);
    } else {
        assert(d.take(i) =~= d);
    }
}

/// The finished lines of a prefix of `s` are the first lines of `s`.
proof fn lemma_lines_prefix(s: Seq<char>, j: int)
    requires
        0 <= j <= s.len(),
    ensures
        lines(s.take(j)).len() <= lines(s).len(),
        lines(s).take(lines(s.take(j)).len() - 1) == lines(s.take(j)).drop_last(),
    decreases s.len() - j,
{
    lemma_lines_nonempty(s.take(j));
    if j == s.len() {
        assert(s.take(j) =~= s);
        assert(lines(s).take(lines(s).len() - 1) =~= lines(s).drop_last());
    } else {
        lemma_lines_prefix(s, j + 1);
        assert(s.take(j + 1).drop_last() =~= s.take(j));
        let l0 = lines(s.take(j));
        let l1 = lines(s.take(j + 1));
        if s[j] == '\n' {
            assert(l1.drop_last() =~= l0);
            assert(lines(s).take(l0.len() - 1) =~= lines(s).take(l1.len() - 1).take(l0.len() - 1));
            assert(l0.drop_last() =~= l0.take(l0.len() - 1));
        } else {
            assert(l1.drop_last() =~= l0.drop_last());
        }
    }
}

/// A failure on a prefix of the lines is the failure of the whole run.
pub proof fn lemma_run_prefix_err(st: BuildState, ls: Seq<Seq<char>>, k: int)
    requires
        0 <= k <= ls.len(),
        run_lines(st, ls.take(k)) is Err,
    ensures
        run_lines(st, ls) == run_lines(st, ls.take(k)),
    decreases ls.len() - k,
{
    if k == ls.len() {
        assert(ls.take(k) =~= ls);
    } else {
        assert(ls.take(k + 1).drop_last() =~= ls.take(k));
        lemma_run_prefix_err(st, ls, k + 1);
    }
}

impl Circuit {
    /// Loads the circuit described by `text`, a Bristol-fashion gate list. The
    /// input groups `inputs` take the file's wire ids `0, 1, ...` in order;
    /// the output groups `outputs` take the highest ids that gates write.
    pub fn parse(text: &str, inputs: &[ValueType], outputs: &[ValueType]) -> (r: Result<
        Circuit,
        ParseError,
    >)
        requires
            total_width(inputs@) + text@.len() < usize::MAX,
        ensures
            loaded(r) == parse_model(text@, inputs@, outputs@),
            r is Ok ==> well_formed(r->Ok_0@),
    {
        let chars = chars_of(text);
        let mut builder = CircuitBuilder::new();
        let mut feeds = FeedMap::new();
        let mut next: usize = 0;
        let mut i: usize = 0;
        proof {
            assert(inputs@.take(0) =~= Seq::<ValueType>::empty());
            assert(feeds@ =~= initial_state(inputs@.take(0)).map);
        }
        while i < inputs.len()
            invariant
                i <= inputs@.len(),
                total_width(inputs@) + text@.len() < usize::MAX,
                next == total_width(inputs@.take(i as int)),
                builder@ == initial_state(inputs@.take(i as int)).circuit,
                feeds@ == initial_state(inputs@.take(i as int)).map,
                well_formed(builder@),
            decreases inputs@.len() - i,
        {
            proof {
                lemma_total_width_step(inputs@, i as int);
                lemma_total_width_prefix(inputs@, i + 1);
            }
            let d = inputs[i];
            let group = builder.add_input_by_type(d);
            let w = d.len();
            let mut k: usize = 0;
            while k < w
                invariant
                    k <= w == d.width(),
                    next + w <= usize::MAX,
                    group@ == (d, fresh_nodes(next as nat, w as nat)),
                    feeds@ == Map::new(|id: usize| id < next + k, |id: usize| Node { index: id }),
                decreases w - k,
            {
                assert(group.feeds@[k as int] == Node { index: (next + k) as usize });
                feeds.define(next + k, group.feeds[k]);
                assert(feeds@ =~= Map::new(
                    |id: usize| id < next + k + 1,
                    |id: usize| Node { index: id },
                ));
                k += 1;
            }
            proof {
                let t = inputs@.take(i + 1);
                assert(t.drop_last() =~= inputs@.take(i as int));
                assert(t.last() == d);
                assert(feeds@ =~= initial_state(t).map);
            }
            next = next + w;
            i += 1;
        }
        assert(inputs@.take(inputs@.len() as int) =~= inputs@);
        let ghost st0 = initial_state(inputs@);
        let mut written: Vec<usize> = Vec::new();
        let mut line_start: usize = 0;
        let mut i: usize = 0;
        let ghost mut done: Seq<Seq<char>> = Seq::empty();
        proof {
            assert(text@.take(0) =~= Seq::<char>::empty());
            assert(text@.subrange(0, 0) =~= Seq::<char>::empty());
            assert(lines(text@.take(0)) =~= done.push(text@.subrange(0, 0)));
            assert forall|id: usize| #[trigger] feeds@.contains_key(id) implies feeds@[id].index
                < builder@.feed_count by {}
        }
        while i < chars.len()
            invariant
                chars@ == text@,
                st0 == initial_state(inputs@),
                line_start <= i <= chars@.len(),
                total_width(inputs@) + text@.len() < usize::MAX,
                lines(text@.take(i as int)) == done.push(text@.subrange(line_start as int, i as int)),
                run_lines(st0, done) == Ok::<BuildState, Failure>(
                    state_of(builder@, feeds@, written@),
                ),
                state_ok(state_of(builder@, feeds@, written@)),
                builder@.feed_count <= total_width(inputs@) + done.len(),
                builder@.outputs.len() == 0,
                done.len() <= i,
            decreases chars@.len() - i,
        {
            let ghost line = text@.subrange(line_start as int, i as int);
            assert(text@.take(i + 1).drop_last() =~= text@.take(i as int));
            if chars[i] == '\n' {
                let res = load_line(
                    text,
                    &chars,
                    line_start,
                    i,
                    &mut builder,
                    &mut feeds,
                    &mut written,
                );
                proof {
                    assert(done.push(line).drop_last() =~= done);
                    lemma_lines_prefix(text@, i + 1);
                    assert(lines(text@.take(i + 1)).drop_last() =~= done.push(line));
                }
                match res {
                    Err(e) => {
                        proof {
                            let l1 = lines(text@.take(i + 1));
                            assert(l1 == lines(text@.take(i as int)).push(Seq::<char>::empty()));
                            assert(l1.len() - 1 == done.len() + 1);
                            assert(lines(text@).take(done.len() + 1 as int) == done.push(line));
                            assert(done.push(line).last() == line);
                            assert(run_lines(st0, done.push(line)) == Err::<BuildState, Failure>(e@));
                            lemma_run_prefix_err(st0, lines(text@), done.len() + 1 as int);
                        }
                        return Err(e);
                    },
                    Ok(()) => {},
                }
                proof {
                    done = done.push(line);
                    assert(text@.subrange(i + 1, i + 1) =~= Seq::<char>::empty());
                }
                line_start = i + 1;
            } else {
                assert(text@.subrange(line_start as int, i + 1) =~= line.push(chars@[i as int]));
            }
            i += 1;
        }
        assert(text@.take(text@.len() as int) =~= text@);
        let res = load_line(
            text,
            &chars,
            line_start,
            chars.len(),
            &mut builder,
            &mut feeds,
            &mut written,
        );
        proof {
            let line = text@.subrange(line_start as int, text@.len() as int);
            assert(done.push(line).drop_last() =~= done);
        }
        match res {
            Err(e) => return Err(e),
            Ok(()) => {},
        }
        let r = builder.finalize(written.as_slice(), &feeds, outputs);
        proof {
            if r is Ok {
                assert(r->Ok_0@.outputs =~= Seq::empty() + r->Ok_0@.outputs);
            }
        }
        r
    }
}

} // verus!
