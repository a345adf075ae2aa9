use vstd::prelude::*;
use crate::types::{Gate, Node, TypedValue, ValueType};

verus! {

/// A value group as plain values: its type and its feeds.
pub type Group = (ValueType, Seq<Node>);

/// A circuit, or a circuit under construction, as plain values.
pub struct CircuitModel {
    /// Feeds allocated so far: inputs first, then one per gate.
    pub feed_count: nat,
    pub inputs: Seq<Group>,
    pub gates: Seq<Gate>,
    pub outputs: Seq<Group>,
}

pub open spec fn groups(v: Seq<TypedValue>) -> Seq<Group> {
    v.map_values(|g: TypedValue| g@)
}

/// `n` consecutive handles starting at `start`.
pub open spec fn fresh_nodes(start: nat, n: nat) -> Seq<Node> {
    Seq::new(n, |k: int| Node { index: (start + k) as usize })
}

pub open spec fn group_below(g: Group, bound: nat) -> bool {
    forall|k: int| 0 <= k < g.1.len() ==> (#[trigger] g.1[k]).index < bound
}

/// The graph is in topological order: gate `k` drives the feed that
/// follows the inputs by `k`, and reads only feeds allocated before it.
pub open spec fn well_formed(m: CircuitModel) -> bool {
    let base = m.feed_count - m.gates.len();
    &&& m.gates.len() <= m.feed_count <= usize::MAX
    &&& forall|k: int|
        0 <= k < m.gates.len() ==> (#[trigger] m.gates[k]).result().index == base + k
            && forall|j: int|
            0 <= j < m.gates[k].operands().len() ==> (#[trigger] m.gates[k].operands()[j]).index
                < base + k
    &&& forall|i: int| 0 <= i < m.inputs.len() ==> group_below(#[trigger] m.inputs[i], base as nat)
    &&& forall|i: int| 0 <= i < m.outputs.len() ==> group_below(#[trigger] m.outputs[i], m.feed_count)
}

/// The mutable context in which a circuit is built.
pub struct CircuitBuilder {
    feed_count: usize,
    inputs: Vec<TypedValue>,
    gates: Vec<Gate>,
    outputs: Vec<TypedValue>,
}

/// A finished circuit: ordered input groups, ordered output groups and the
/// gates that connect them. It has no operation that changes it.
pub struct Circuit {
    feed_count: usize,
    inputs: Vec<TypedValue>,
    gates: Vec<Gate>,
    outputs: Vec<TypedValue>,
}

impl View for CircuitBuilder {
    type V = CircuitModel;

    closed spec fn view(&self) -> CircuitModel {
        CircuitModel {
            feed_count: self.feed_count as nat,
            inputs: groups(self.inputs@),
            gates: self.gates@,
            outputs: groups(self.outputs@),
        }
    }
}

impl View for Circuit {
    type V = CircuitModel;

    closed spec fn view(&self) -> CircuitModel {
        CircuitModel {
            feed_count: self.feed_count as nat,
            inputs: groups(self.inputs@),
            gates: self.gates@,
            outputs: groups(self.outputs@),
        }
    }
}

/// A gate appended to a model: it drives a fresh feed.
pub open spec fn with_gate(m: CircuitModel, g: Gate) -> CircuitModel {
    CircuitModel { feed_count: m.feed_count + 1, gates: m.gates.push(g), ..m }
}

impl CircuitBuilder {
    pub fn new() -> (r: CircuitBuilder)
        ensures
            r@ == (CircuitModel {
                feed_count: 0,
                inputs: Seq::empty(),
                gates: Seq::empty(),
                outputs: Seq::empty(),
            }),
            well_formed(r@),
    {
        let r = CircuitBuilder {
            feed_count: 0,
            inputs: Vec::new(),
            gates: Vec::new(),
            outputs: Vec::new(),
        };
        assert(groups(r.inputs@) =~= Seq::empty());
        assert(groups(r.outputs@) =~= Seq::empty());
        r
    }

    pub fn feed_count(&self) -> (r: usize)
        ensures
            r == self@.feed_count,
    {
        self.feed_count
    }

    /// Allocates the feeds of one input group of type `ty` and records the
    /// group. Inputs come before any gate.
    pub fn add_input_by_type(&mut self, ty: ValueType) -> (r: TypedValue)
        requires
            well_formed(old(self)@),
            old(self)@.gates.len() == 0,
            old(self)@.feed_count + ty.width() <= usize::MAX,
        ensures
            r@ == (ty, fresh_nodes(old(self)@.feed_count, ty.width())),
            final(self)@ == (CircuitModel {
                feed_count: old(self)@.feed_count + ty.width(),
                inputs: old(self)@.inputs.push(r@),
                ..old(self)@
            }),
            well_formed(final(self)@),
    {
        let w = ty.len();
        let start = self.feed_count;
        let mut feeds: Vec<Node> = Vec::new();
        let mut kept: Vec<Node> = Vec::new();
        let mut k: usize = 0;
        while k < w
            invariant
                k <= w == ty.width(),
                start + w <= usize::MAX,
                feeds@ =~= fresh_nodes(start as nat, k as nat),
                kept@ == feeds@,
            decreases w - k,
        {
            feeds.push(Node { index: start + k });
            kept.push(Node { index: start + k });
            k += 1;
        }
        let r = TypedValue { ty, feeds };
        self.inputs.push(TypedValue { ty, feeds: kept });
        self.feed_count = start + w;
        assert(groups(self.inputs@) =~= groups(old(self).inputs@).push(r@));
        r
    }

    /// Appends an XOR gate over `x` and `y`; returns the feed it drives.
    pub fn add_xor_gate(&mut self, x: Node, y: Node) -> (z: Node)
        requires
            well_formed(old(self)@),
            x.index < old(self)@.feed_count,
            y.index < old(self)@.feed_count,
            old(self)@.feed_count < usize::MAX,
        ensures
            z == (Node { index: old(self)@.feed_count as usize }),
            final(self)@ == with_gate(old(self)@, Gate::Xor { x, y, z }),
            well_formed(final(self)@),
    {
        let z = Node { index: self.feed_count };
        self.push_gate(Gate::Xor { x, y, z });
        z
    }

    /// Appends an AND gate over `x` and `y`; returns the feed it drives.
    pub fn add_and_gate(&mut self, x: Node, y: Node) -> (z: Node)
        requires
            well_formed(old(self)@),
            x.index < old(self)@.feed_count,
            y.index < old(self)@.feed_count,
            old(self)@.feed_count < usize::MAX,
        ensures
            z == (Node { index: old(self)@.feed_count as usize }),
            final(self)@ == with_gate(old(self)@, Gate::And { x, y, z }),
            well_formed(final(self)@),
    {
        let z = Node { index: self.feed_count };
        self.push_gate(Gate::And { x, y, z });
        z
    }

    /// Appends an inverter over `x`; returns the feed it drives.
    pub fn add_inv_gate(&mut self, x: Node) -> (z: Node)
        requires
            well_formed(old(self)@),
            x.index < old(self)@.feed_count,
            old(self)@.feed_count < usize::MAX,
        ensures
            z == (Node { index: old(self)@.feed_count as usize }),
            final(self)@ == with_gate(old(self)@, Gate::Inv { x, z }),
            well_formed(final(self)@),
    {
        let z = Node { index: self.feed_count };
        self.push_gate(Gate::Inv { x, z });
        z
    }

    fn push_gate(&mut self, g: Gate)
        requires
            well_formed(old(self)@),
            g.result().index == old(self)@.feed_count,
            forall|j: int|
                0 <= j < g.operands().len() ==> (#[trigger] g.operands()[j]).index < old(
                    self,
                )@.feed_count,
            old(self)@.feed_count < usize::MAX,
        ensures
            final(self)@ == with_gate(old(self)@, g),
            well_formed(final(self)@),
    {
        self.gates.push(g);
        self.feed_count = self.feed_count + 1;
        proof {
            let m = self@;
            let o = old(self)@;
            assert forall|i: int| 0 <= i < m.outputs.len() implies group_below(
                #[trigger] m.outputs[i],
                m.feed_count,
            ) by {
                assert(group_below(o.outputs[i], o.feed_count));
            }
            assert forall|i: int| 0 <= i < m.inputs.len() implies group_below(
                #[trigger] m.inputs[i],
                (m.feed_count - m.gates.len()) as nat,
            ) by {
                assert(group_below(o.inputs[i], (o.feed_count - o.gates.len()) as nat));
            }
            assert(m =~= with_gate(o, g));
        }
    }

    /// Records an output group; its feeds must already exist.
    pub fn add_output(&mut self, v: TypedValue)
        requires
            well_formed(old(self)@),
            group_below(v@, old(self)@.feed_count),
        ensures
            final(self)@ == (CircuitModel { outputs: old(self)@.outputs.push(v@), ..old(self)@ }),
            well_formed(final(self)@),
    {
        self.outputs.push(v);
        proof {
            assert(groups(self.outputs@) =~= groups(old(self).outputs@).push(v@));
        }
    }

    /// Seals the builder into a circuit with the same contents.
    pub fn build(self) -> (r: Circuit)
        ensures
            r@ == self@,
    {
        Circuit {
            feed_count: self.feed_count,
            inputs: self.inputs,
            gates: self.gates,
            outputs: self.outputs,
        }
    }
}

impl Circuit {
    pub fn feed_count(&self) -> (r: usize)
        ensures
            r == self@.feed_count,
    {
        self.feed_count
    }

    pub fn inputs(&self) -> (r: &Vec<TypedValue>)
        ensures
            groups(r@) == self@.inputs,
    {
        &self.inputs
    }

    pub fn outputs(&self) -> (r: &Vec<TypedValue>)
        ensures
            groups(r@) == self@.outputs,
    {
        &self.outputs
    }

    pub fn gates(&self) -> (r: &Vec<Gate>)
        ensures
            r@ == self@.gates,
    {
        &self.gates
    }
}

} // verus!
