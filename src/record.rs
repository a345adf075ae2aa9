use vstd::prelude::*;
use crate::lexer::{
    all_digits, digits_value, span_string, span_texts, span_value,
};
use crate::types::{Failure, GateType, ParseError};

verus! {

/// A gate record as written in the file: wire ids not yet checked against
/// the wires defined so far.
#[derive(Clone, Copy, Debug, PartialEq, Eq, Structural)]
pub struct UncheckedGate {
    pub xref: usize,
    pub yref: Option<usize>,
    pub zref: usize,
    pub gate_type: GateType,
}

/// Whether the fields of a line form a gate record:
/// `<inputs> <outputs> <x> [<y>] <z> <KIND>`, numbers in all but the last
/// field, and a last field that is not a number.
pub open spec fn is_record(t: Seq<Seq<char>>) -> bool {
    &&& (t.len() == 5 || t.len() == 6)
    &&& forall|i: int| 0 <= i < t.len() - 1 ==> all_digits(#[trigger] t[i])
    &&& !all_digits(t.last())
}

pub open spec fn kind_of(k: Seq<char>) -> Option<GateType> {
    if k == seq!['X', 'O', 'R'] {
        Some(GateType::Xor)
    } else if k == seq!['A', 'N', 'D'] {
        Some(GateType::And)
    } else if k == seq!['I', 'N', 'V'] {
        Some(GateType::Inv)
    } else {
        None
    }
}

pub open spec fn fits(t: Seq<char>) -> bool {
    digits_value(t) <= usize::MAX
}

/// What a gate record decodes to: every numeric field (the two counts,
/// the operand ids, the result id), checked in that order to fit a
/// `usize`, then its kind, then that an XOR or AND record has two operands.
/// The counts are checked but not kept.
pub open spec fn decode(t: Seq<Seq<char>>) -> Result<UncheckedGate, Failure> {
    let two = t.len() == 6;
    let x = t[2];
    let y = t[3];
    let z = t[t.len() - 2];
    let k = t.last();
    if !fits(t[0]) {
        Err(Failure::BadNumber(t[0]))
    } else if !fits(t[1]) {
        Err(Failure::BadNumber(t[1]))
    } else if !fits(x) {
        Err(Failure::BadNumber(x))
    } else if two && !fits(y) {
        Err(Failure::BadNumber(y))
    } else if !fits(z) {
        Err(Failure::BadNumber(z))
    } else if kind_of(k) is None {
        Err(Failure::Unsupported(k))
    } else if kind_of(k) != Some(GateType::Inv) && !two {
        Err(Failure::MissingOperand(kind_of(k)->Some_0))
    } else {
        Ok(
            UncheckedGate {
                xref: digits_value(x) as usize,
                yref: if two {
                    Some(digits_value(y) as usize)
                } else {
                    None
                },
                zref: digits_value(z) as usize,
                gate_type: kind_of(k)->Some_0,
            },
        )
    }
}

pub open spec fn decoded(r: Result<UncheckedGate, ParseError>) -> Result<UncheckedGate, Failure> {
    match r {
        Ok(g) => Ok(g),
        Err(e) => Err(e@),
    }
}

/// Whether `chars[start..end]` spells `word`.
fn span_is(chars: &Vec<char>, start: usize, end: usize, word: &str) -> (r: bool)
    requires
        start <= end <= chars@.len(),
    ensures
        r == (chars@.subrange(start as int, end as int) == word@),
{
    let w = crate::lexer::chars_of(word);
    if end - start != w.len() {
        return false;
    }
    let mut i: usize = 0;
    while i < w.len()
        invariant
            start <= end <= chars@.len(),
            end - start == w@.len(),
            w@ == word@,
            i <= w@.len(),
            forall|k: int| 0 <= k < i ==> chars@[start + k] == w@[k],
        decreases w@.len() - i,
    {
        if chars[start + i] != w[i] {
            assert(chars@.subrange(start as int, end as int)[i as int] != word@[i as int]);
            return false;
        }
        i += 1;
    }
    assert(chars@.subrange(start as int, end as int) =~= word@);
    true
}

impl UncheckedGate {
    /// Decodes the record whose fields are the ranges `spans` of
    /// `text`.
    pub fn parse(text: &str, chars: &Vec<char>, spans: &Vec<(usize, usize)>) -> (r: Result<
        UncheckedGate,
        ParseError,
    >)
        requires
            chars@ == text@,
            forall|k: int|
                0 <= k < spans@.len() ==> (#[trigger] spans@[k]).0 <= spans@[k].1 <= chars@.len(),
            is_record(span_texts(chars@, spans@)),
        ensures
            decoded(r) == decode(span_texts(chars@, spans@)),
    {
        let ghost t = span_texts(chars@, spans@);
        let n = spans.len();
        let two = n == 6;
        assert(all_digits(t[2]));
        assert(all_digits(t[n - 2]));
        let mut c: usize = 0;
        while c < 2
            invariant
                c <= 2,
                chars@ == text@,
                n == spans@.len(),
                n == 5 || n == 6,
                t == span_texts(chars@, spans@),
                is_record(t),
                forall|k: int|
                    0 <= k < spans@.len() ==> (#[trigger] spans@[k]).0 <= spans@[k].1 <= chars@.len(),
                forall|k: int| 0 <= k < c ==> fits(#[trigger] t[k]),
            decreases 2 - c,
        {
            let cs = spans[c];
            assert(all_digits(t[c as int]));
            assert(t[c as int] == chars@.subrange(cs.0 as int, cs.1 as int));
            if span_value(chars, cs.0, cs.1).is_none() {
                return Err(ParseError::ParseIntError(span_string(text, cs.0, cs.1)));
            }
            c += 1;
        }
        let xs = spans[2];
        let xref = match span_value(chars, xs.0, xs.1) {
            Some(v) => v,
            None => return Err(ParseError::ParseIntError(span_string(text, xs.0, xs.1))),
        };
        let mut yref: Option<usize> = None;
        if two {
            let ys = spans[3];
            assert(all_digits(t[3]));
            match span_value(chars, ys.0, ys.1) {
                Some(v) => {
                    yref = Some(v);
                },
                None => return Err(ParseError::ParseIntError(span_string(text, ys.0, ys.1))),
            }
        }
        let zs = spans[n - 2];
        let zref = match span_value(chars, zs.0, zs.1) {
            Some(v) => v,
            None => return Err(ParseError::ParseIntError(span_string(text, zs.0, zs.1))),
        };
        let ks = spans[n - 1];
        proof {
            reveal_strlit("XOR");
            reveal_strlit("AND");
            reveal_strlit("INV");
            assert("XOR"@ =~= seq!['X', 'O', 'R']);
            assert("AND"@ =~= seq!['A', 'N', 'D']);
            assert("INV"@ =~= seq!['I', 'N', 'V']);
            assert(t[n - 1] == chars@.subrange(ks.0 as int, ks.1 as int));
        }
        let gate_type = if span_is(chars, ks.0, ks.1, "XOR") {
            GateType::Xor
        } else if span_is(chars, ks.0, ks.1, "AND") {
            GateType::And
        } else if span_is(chars, ks.0, ks.1, "INV") {
            GateType::Inv
        } else {
            return Err(ParseError::UnsupportedGateType(span_string(text, ks.0, ks.1)));
        };
        if !two && gate_type != GateType::Inv {
            return Err(ParseError::MissingOperand(gate_type));
        }
        Ok(UncheckedGate { xref, yref, zref, gate_type })
    }
}

} // verus!
