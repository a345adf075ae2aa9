use vstd::prelude::*;

verus! {

/// A handle to one wire (feed) of a circuit: an index into the circuit's
/// arena of feeds. Two handles are equal iff they denote the same wire.
#[derive(Clone, Copy, Debug, PartialEq, Eq, Structural)]
pub struct Node {
    pub index: usize,
}

/// The kinds of gate in a Bristol-fashion circuit.
#[derive(Clone, Copy, Debug, PartialEq, Eq, Structural)]
pub enum GateType {
    /// XOR gate.
    Xor,
    /// AND gate.
    And,
    /// Inverter gate.
    Inv,
}

/// A gate of the circuit graph: its operands and the feed it drives.
#[derive(Clone, Copy, Debug, PartialEq, Eq, Structural)]
pub enum Gate {
    Xor { x: Node, y: Node, z: Node },
    And { x: Node, y: Node, z: Node },
    Inv { x: Node, z: Node },
}

impl Gate {
    pub open spec fn kind(self) -> GateType {
        match self {
            Gate::Xor { .. } => GateType::Xor,
            Gate::And { .. } => GateType::And,
            Gate::Inv { .. } => GateType::Inv,
        }
    }

    /// The operands, in order.
    pub open spec fn operands(self) -> Seq<Node> {
        match self {
            Gate::Xor { x, y, .. } => seq![x, y],
            Gate::And { x, y, .. } => seq![x, y],
            Gate::Inv { x, .. } => seq![x],
        }
    }

    pub open spec fn result(self) -> Node {
        match self {
            Gate::Xor { z, .. } => z,
            Gate::And { z, .. } => z,
            Gate::Inv { z, .. } => z,
        }
    }

    pub fn gate_type(&self) -> (r: GateType)
        ensures
            r == self.kind(),
    {
        match self {
            Gate::Xor { .. } => GateType::Xor,
            Gate::And { .. } => GateType::And,
            Gate::Inv { .. } => GateType::Inv,
        }
    }

    pub fn inputs(&self) -> (r: Vec<Node>)
        ensures
            r@ == self.operands(),
    {
        match self {
            Gate::Xor { x, y, .. } => vec![*x, *y],
            Gate::And { x, y, .. } => vec![*x, *y],
            Gate::Inv { x, .. } => vec![*x],
        }
    }

    pub fn output(&self) -> (r: Node)
        ensures
            r == self.result(),
    {
        match self {
            Gate::Xor { z, .. } => *z,
            Gate::And { z, .. } => *z,
            Gate::Inv { z, .. } => *z,
        }
    }
}

/// How a contiguous run of wires is grouped into one typed value.
#[derive(Clone, Copy, Debug, PartialEq, Eq, Structural)]
pub enum ValueType {
    /// A single bit.
    Bit,
    /// Unsigned integers, least significant wire first.
    U8,
    U16,
    U32,
    U64,
    U128,
    /// A raw vector of the given number of bits.
    Bits(usize),
}

impl ValueType {
    /// The number of wires that a value of this type spans.
    pub open spec fn width(self) -> nat {
        match self {
            ValueType::Bit => 1,
            ValueType::U8 => 8,
            ValueType::U16 => 16,
            ValueType::U32 => 32,
            ValueType::U64 => 64,
            ValueType::U128 => 128,
            ValueType::Bits(n) => n as nat,
        }
    }

    pub fn len(&self) -> (r: usize)
        ensures
            r == self.width(),
    {
        match self {
            ValueType::Bit => 1,
            ValueType::U8 => 8,
            ValueType::U16 => 16,
            ValueType::U32 => 32,
            ValueType::U64 => 64,
            ValueType::U128 => 128,
            ValueType::Bits(n) => *n,
        }
    }

    /// Groups `feeds` into a value of this type; fails unless exactly
    /// `width` feeds are given.
    pub fn to_bin_repr(&self, feeds: &[Node]) -> (r: Result<TypedValue, BuilderError>)
        ensures
            feeds@.len() == self.width() ==> r == Ok::<TypedValue, BuilderError>(
                TypedValue { ty: *self, feeds: r->Ok_0.feeds },
            ) && r->Ok_0.feeds@ == feeds@,
            feeds@.len() != self.width() ==> r == Err::<TypedValue, BuilderError>(
                BuilderError::WidthMismatch { expected: self.width() as usize, actual: feeds@.len() as usize },
            ),
    {
        let w = self.len();
        if feeds.len() != w {
            return Err(BuilderError::WidthMismatch { expected: w, actual: feeds.len() });
        }
        let mut v: Vec<Node> = Vec::new();
        let mut i: usize = 0;
        while i < feeds.len()
            invariant
                i <= feeds@.len(),
                v@ == feeds@.take(i as int),
            decreases feeds@.len() - i,
        {
            v.push(feeds[i]);
            i += 1;
        }
        assert(v@ == feeds@.take(feeds@.len() as int));
        Ok(TypedValue { ty: *self, feeds: v })
    }
}

/// A value group: a value type together with the feeds that carry it.
#[derive(Clone, Debug, PartialEq, Eq)]
pub struct TypedValue {
    pub ty: ValueType,
    pub feeds: Vec<Node>,
}

impl View for TypedValue {
    type V = (ValueType, Seq<Node>);

    open spec fn view(&self) -> (ValueType, Seq<Node>) {
        (self.ty, self.feeds@)
    }
}

/// Failures of the circuit builder.
#[derive(Clone, Copy, Debug, PartialEq, Eq, Structural)]
pub enum BuilderError {
    /// An output of the given width was declared when only `available`
    /// gate outputs were left to carry it.
    InsufficientOutputs { width: usize, available: usize },
    /// A value type was given a number of feeds other than its width.
    WidthMismatch { expected: usize, actual: usize },
}

/// Failures of loading a circuit.
#[derive(Clone, Debug)]
pub enum ParseError {
    /// The source text could not be read.
    IOError(String),
    /// A numeric field does not fit a `usize`; carries the field.
    ParseIntError(String),
    /// A gate reads a wire that no input or earlier gate defined.
    UninitializedFeed(usize),
    /// A gate record names a kind other than XOR, AND or INV.
    UnsupportedGateType(String),
    /// A two-operand gate record has only one operand.
    MissingOperand(GateType),
    BuilderError(BuilderError),
}

/// What a `ParseError` says, as plain values.
pub enum Failure {
    Io(Seq<char>),
    BadNumber(Seq<char>),
    Uninitialized(usize),
    Unsupported(Seq<char>),
    MissingOperand(GateType),
    Builder(BuilderError),
}

impl View for ParseError {
    type V = Failure;

    open spec fn view(&self) -> Failure {
        match self {
            ParseError::IOError(s) => Failure::Io(s@),
            ParseError::ParseIntError(s) => Failure::BadNumber(s@),
            ParseError::UninitializedFeed(id) => Failure::Uninitialized(*id),
            ParseError::UnsupportedGateType(s) => Failure::Unsupported(s@),
            ParseError::MissingOperand(t) => Failure::MissingOperand(*t),
            ParseError::BuilderError(e) => Failure::Builder(*e),
        }
    }
}

} // verus!
