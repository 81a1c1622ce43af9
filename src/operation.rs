use vstd::prelude::*;

verus! {

/// One instruction of the tape language.
#[derive(Debug, Clone, Copy, PartialEq, Eq, Structural)]
pub enum Operation {
    /// `>`: move the cursor one cell to the right.
    IncrementDp,
    /// `<`: move the cursor one cell to the left.
    DecrementDp,
    /// `+`: add one to the current cell.
    IncrementByte,
    /// `-`: subtract one from the current cell.
    DecrementByte,
    /// `.`: write the current cell.
    OutputByte,
    /// `,`: read a byte into the current cell.
    InputByte,
    /// `[`: skip past the matching `]` when the current cell is zero.
    LeftBracket,
    /// `]`: go back past the matching `[` when the current cell is not zero.
    RightBracket,
}

/// The operation that a source character stands for, if any.
pub open spec fn op_of(c: char) -> Option<Operation> {
    if c == '>' {
        Some(Operation::IncrementDp)
    } else if c == '<' {
        Some(Operation::DecrementDp)
    } else if c == '+' {
        Some(Operation::IncrementByte)
    } else if c == '-' {
        Some(Operation::DecrementByte)
    } else if c == '.' {
        Some(Operation::OutputByte)
    } else if c == ',' {
        Some(Operation::InputByte)
    } else if c == '[' {
        Some(Operation::LeftBracket)
    } else if c == ']' {
        Some(Operation::RightBracket)
    } else {
        None
    }
}

/// The operations of a source text, in order, with every other character dropped.
pub open spec fn lex(s: Seq<char>) -> Seq<Operation>
    decreases s.len(),
{
    if s.len() == 0 {
        Seq::empty()
    } else {
        let rest = lex(s.drop_last());
        match op_of(s.last()) {
            Some(op) => rest.push(op),
            None => rest,
        }
    }
}

impl Operation {
    /// The operation written as `c`, or `None` for a character that is commentary.
    pub fn from_char(c: char) -> (r: Option<Operation>)
        ensures
            r == op_of(c),
    {
        match c {
            '>' => Some(Operation::IncrementDp),
            '<' => Some(Operation::DecrementDp),
            '+' => Some(Operation::IncrementByte),
            '-' => Some(Operation::DecrementByte),
            '.' => Some(Operation::OutputByte),
            ',' => Some(Operation::InputByte),
            '[' => Some(Operation::LeftBracket),
            ']' => Some(Operation::RightBracket),
            _ => None,
        }
    }
}

/// The operations of `s` in source order.
pub fn lex_str(s: &str) -> (r: Vec<Operation>)
    ensures
        r@ == lex(s@),
{
    let mut ops: Vec<Operation> = Vec::new();
    let ghost chars = s@;
    for c in it: s.chars()
        invariant
            chars == s@,
            it.seq() == chars,
            ops@ == lex(chars.take(it.index() as int)),
    {
        proof {
            let pre = chars.take(it.index() as int + 1);
            assert(pre.drop_last() =~= chars.take(it.index() as int));
        }
        if let Some(op) = Operation::from_char(c) {
            ops.push(op);
        }
    }
    assert(chars.take(chars.len() as int) =~= s@);
    ops
}

} // verus!
