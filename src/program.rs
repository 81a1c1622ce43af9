use vstd::prelude::*;
use std::collections::HashMap;
use crate::operation::{Operation, lex, lex_str};

verus! {

broadcast use vstd::std_specs::hash::group_hash_axioms;

/// The one way translation can fail.
#[derive(Debug, Clone, Copy, PartialEq, Eq, Structural)]
pub enum Error {
    /// A `]` without an open `[` before it, or a `[` that is never closed.
    BracketMismatch,
}

/// How an operation changes the bracket nesting depth.
pub open spec fn delta(op: Operation) -> int {
    match op {
        Operation::LeftBracket => 1,
        Operation::RightBracket => -1,
        _ => 0,
    }
}

/// Opens minus closes among the first `k` operations.
pub open spec fn depth(ops: Seq<Operation>, k: int) -> int
    decreases k,
{
    if k <= 0 {
        0
    } else {
        depth(ops, k - 1) + delta(ops[k - 1])
    }
}

/// No prefix closes more loops than it opens, and the whole sequence closes all it opens.
pub open spec fn balanced(ops: Seq<Operation>) -> bool {
    &&& forall|k: int| 0 <= k <= ops.len() ==> #[trigger] depth(ops, k) >= 0
    &&& depth(ops, ops.len() as int) == 0
}

/// `[` or `]`.
pub open spec fn is_bracket(op: Operation) -> bool {
    op is LeftBracket || op is RightBracket
}

/// The `[` at `i` and the `]` at `j` enclose one loop: `j` is the first
/// position after `i` at which the depth falls back to what it was before `i`.
pub open spec fn matching(ops: Seq<Operation>, i: int, j: int) -> bool {
    &&& 0 <= i < j < ops.len()
    &&& ops[i] is LeftBracket
    &&& ops[j] is RightBracket
    &&& depth(ops, j + 1) == depth(ops, i)
    &&& forall|k: int| i < k <= j ==> #[trigger] depth(ops, k) > depth(ops, i)
}

/// `m` has one entry for each bracket of `ops`, which leads to its partner.
pub open spec fn is_jump_table(ops: Seq<Operation>, m: Map<usize, usize>) -> bool {
    &&& forall|k: usize| #[trigger]
        m.contains_key(k) <==> (k < ops.len() && is_bracket(ops[k as int]))
    &&& forall|k: usize|
        m.contains_key(k) && ops[k as int] is LeftBracket ==> matching(
            ops,
            k as int,
            #[trigger] m[k] as int,
        )
    &&& forall|k: usize|
        m.contains_key(k) && ops[k as int] is RightBracket ==> matching(
            ops,
            #[trigger] m[k] as int,
            k as int,
        )
}

/// The jump table of `ops`; there is one when the brackets balance.
pub open spec fn jump_table_of(ops: Seq<Operation>) -> Map<usize, usize> {
    choose|m: Map<usize, usize>| is_jump_table(ops, m)
}

/// Builds the table that pairs each `[` of `ops` with its `]`, in both directions.
pub fn get_bracket_map(ops: &[Operation]) -> (r: Result<HashMap<usize, usize>, Error>)
    ensures
        r is Ok <==> balanced(ops@),
        r matches Ok(m) ==> is_jump_table(ops@, m@),
{
    let mut map: HashMap<usize, usize> = HashMap::new();
    let mut stack: Vec<usize> = Vec::new();
    let n = ops.len();
    let mut i: usize = 0;
    while i < n
        invariant
            n == ops@.len(),
            0 <= i <= n,
            forall|k: int| 0 <= k <= i ==> #[trigger] depth(ops@, k) >= 0,
            depth(ops@, i as int) == stack@.len(),
            forall|t: int|
                0 <= t < stack@.len() ==> {
                    &&& #[trigger] stack@[t] < i
                    &&& ops@[stack@[t] as int] is LeftBracket
                    &&& depth(ops@, stack@[t] as int) == t
                },
            forall|t1: int, t2: int|
                0 <= t1 < t2 < stack@.len() ==> #[trigger] stack@[t1] < #[trigger] stack@[t2],
            forall|t: int, k: int|
                #![trigger stack@[t], depth(ops@, k)]
                0 <= t < stack@.len() && stack@[t] < k <= i ==> depth(ops@, k) > t,
            forall|k: usize| #[trigger]
                map@.contains_key(k) <==> (k < i && is_bracket(ops@[k as int])
                    && !stack@.contains(k)),
            forall|k: usize|
                map@.contains_key(k) && ops@[k as int] is LeftBracket ==> matching(
                    ops@,
                    k as int,
                    #[trigger] map@[k] as int,
                ),
            forall|k: usize|
                map@.contains_key(k) && ops@[k as int] is RightBracket ==> matching(
                    ops@,
                    #[trigger] map@[k] as int,
                    k as int,
                ),
        decreases n - i,
    {
        assert(depth(ops@, i as int + 1) == depth(ops@, i as int) + delta(ops@[i as int]));
        match ops[i] {
            Operation::LeftBracket => {
                let ghost old_stack = stack@;
                stack.push(i);
                proof {
                    assert forall|k: usize| old_stack.contains(k) implies stack@.contains(k) by {
                        let t = choose|t: int| 0 <= t < old_stack.len() && old_stack[t] == k;
                        assert(stack@[t] == k);
                    }
                    assert(stack@[old_stack.len() as int] == i);
                    assert(stack@.contains(i));
                }
            },
            Operation::RightBracket => {
                if stack.len() == 0 {
                    assert(depth(ops@, i as int + 1) < 0);
                    return Err(Error::BracketMismatch);
                }
                let ghost old_stack = stack@;
                let left = stack.pop().unwrap();
                proof {
                    let top = old_stack.len() - 1;
                    assert(old_stack[top] == left);
                    assert(matching(ops@, left as int, i as int));
                    assert forall|k: usize| old_stack.contains(k) && k != left implies stack@.contains(
                        k,
                    ) by {
                        let t = choose|t: int| 0 <= t < old_stack.len() && old_stack[t] == k;
                        assert(t != top);
                        assert(stack@[t] == k);
                    }
                    assert forall|k: usize| stack@.contains(k) implies old_stack.contains(k)
                        && k != left by {
                        let t = choose|t: int| 0 <= t < stack@.len() && stack@[t] == k;
                        assert(old_stack[t] == k);
                        assert(old_stack[t] < old_stack[top]);
                    }
                }
                map.insert(left, i);
                map.insert(i, left);
            },
            _ => {},
        }
        proof {
            assert forall|k: usize| stack@.contains(k) implies k <= i by {
                let t = choose|t: int| 0 <= t < stack@.len() && stack@[t] == k;
            }
            assert forall|k: usize|
                map@.contains_key(k) <==> (k < i + 1 && is_bracket(ops@[k as int])
                    && !stack@.contains(k)) by {
                if k == i {
                    if ops@[k as int] is LeftBracket {
                        assert(stack@.contains(k));
                    }
                }
            }
        }
        i += 1;
    }
    if stack.len() != 0 {
        return Err(Error::BracketMismatch);
    }
    proof {
        assert forall|k: usize| !stack@.contains(k) by {}
    }
    Ok(map)
}

/// A translated program: its operations and the table that pairs its brackets.
pub struct Program {
    ops: Vec<Operation>,
    bracket_map: HashMap<usize, usize>,
}

impl Program {
    /// The operations, in order.
    pub closed spec fn ops(&self) -> Seq<Operation> {
        self.ops@
    }

    /// The jump table, keyed by operation position.
    pub closed spec fn jump(&self) -> Map<usize, usize> {
        self.bracket_map@
    }

    /// The brackets balance and the table pairs each of them with its partner.
    pub open spec fn wf(&self) -> bool {
        &&& self.ops().len() <= usize::MAX
        &&& balanced(self.ops())
        &&& is_jump_table(self.ops(), self.jump())
    }

    /// Translates source text; fails exactly when its brackets do not balance.
    pub fn try_from(s: &str) -> (r: Result<Program, Error>)
        ensures
            r is Ok <==> balanced(lex(s@)),
            r matches Ok(p) ==> p.ops() == lex(s@) && p.wf() && p.jump() == jump_table_of(
                lex(s@),
            ),
    {
        let ops = lex_str(s);
        let n = ops.len();
        assert(ops@.len() == n);
        let bracket_map = get_bracket_map(ops.as_slice())?;
        proof {
            lemma_jump_table_unique(ops@, bracket_map@, jump_table_of(ops@));
        }
        Ok(Program { ops, bracket_map })
    }

    /// The number of operations.
    pub fn len(&self) -> (r: usize)
        ensures
            r == self.ops().len(),
    {
        self.ops.len()
    }

    /// The operation at position `i`.
    pub fn op_at(&self, i: usize) -> (r: Operation)
        requires
            i < self.ops().len(),
        ensures
            r == self.ops()[i as int],
    {
        self.ops[i]
    }

    /// The position of the partner of the bracket at `i`.
    pub fn jump_target(&self, i: usize) -> (r: usize)
        requires
            self.wf(),
            i < self.ops().len(),
            is_bracket(self.ops()[i as int]),
        ensures
            r == self.jump()[i],
            r < self.ops().len(),
    {
        match self.bracket_map.get(&i) {
            Some(j) => *j,
            None => {
                proof {
                    assert(self.jump().contains_key(i));
                }
                0
            },
        }
    }
}

/// A `[` has at most one matching `]`.
pub proof fn lemma_matching_unique_close(ops: Seq<Operation>, i: int, j1: int, j2: int)
    requires
        matching(ops, i, j1),
        matching(ops, i, j2),
    ensures
        j1 == j2,
{
    if j1 < j2 {
        assert(depth(ops, j1 + 1) > depth(ops, i));
    } else if j2 < j1 {
        assert(depth(ops, j2 + 1) > depth(ops, i));
    }
}

/// A `]` has at most one matching `[`.
pub proof fn lemma_matching_unique_open(ops: Seq<Operation>, i1: int, i2: int, j: int)
    requires
        matching(ops, i1, j),
        matching(ops, i2, j),
    ensures
        i1 == i2,
{
    if i1 < i2 {
        assert(depth(ops, i2) > depth(ops, i1));
    } else if i2 < i1 {
        assert(depth(ops, i1) > depth(ops, i2));
    }
}

/// A sequence of operations has at most one jump table.
pub proof fn lemma_jump_table_unique(ops: Seq<Operation>, m1: Map<usize, usize>, m2: Map<usize, usize>)
    requires
        is_jump_table(ops, m1),
        is_jump_table(ops, m2),
    ensures
        m1 == m2,
{
    assert forall|k: usize| m1.contains_key(k) implies m1[k] == m2[k] by {
        if ops[k as int] is LeftBracket {
            lemma_matching_unique_close(ops, k as int, m1[k] as int, m2[k] as int);
        } else {
            lemma_matching_unique_open(ops, m1[k] as int, m2[k] as int, k as int);
        }
    }
    assert(m1 =~= m2);
}

/// Translation is deterministic: any two programs that `try_from` yields for
/// one source text have the same operations and the same jump table.
pub proof fn lemma_translation_deterministic(s: Seq<char>, p: Program, q: Program)
    requires
        p.wf(),
        q.wf(),
        p.ops() == lex(s),
        q.ops() == lex(s),
    ensures
        p.ops() == q.ops(),
        p.jump() == q.jump(),
{
    lemma_jump_table_unique(lex(s), p.jump(), q.jump());
}

/// In a translated program, the `[` at `i` and the `]` at `j` that enclose one
/// loop lead to each other; and every entry of the table leads back to its key.
pub proof fn lemma_jump_table_symmetric(p: Program, i: usize, j: usize)
    requires
        p.wf(),
        matching(p.ops(), i as int, j as int),
    ensures
        p.jump().contains_key(i),
        p.jump().contains_key(j),
        p.jump()[i] == j,
        p.jump()[j] == i,
        forall|k: usize| #[trigger]
            p.jump().contains_key(k) ==> p.jump().contains_key(p.jump()[k]) && p.jump()[p.jump()[k]]
                == k,
{
    let ops = p.ops();
    let m = p.jump();
    assert(m.contains_key(i));
    assert(m.contains_key(j));
    lemma_matching_unique_close(ops, i as int, m[i] as int, j as int);
    lemma_matching_unique_open(ops, m[j] as int, i as int, j as int);
    assert forall|k: usize| #[trigger] m.contains_key(k) implies m.contains_key(m[k]) && m[m[k]] == k by {
        if ops[k as int] is LeftBracket {
            let c = m[k];
            assert(m.contains_key(c));
            lemma_matching_unique_open(ops, m[c] as int, k as int, c as int);
        } else {
            let o = m[k];
            assert(m.contains_key(o));
            lemma_matching_unique_close(ops, o as int, m[o] as int, k as int);
        }
    }
}

} // verus!
