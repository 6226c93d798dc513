//! The compiler: from source text to a flat instruction sequence in which
//! every loop bracket already knows where to jump.

use vstd::prelude::*;
use vstd::string::StringExecFns;
use vstd::utf8::encode_utf8;
use crate::brackets::{
    balanced, close_of, depth, first_overclosed, last_unclosed, lemma_balanced_partners,
    lemma_depth_next, lemma_first_overclosed, lemma_last_unclosed, lemma_partners, matched,
    open_of, open_through, overclosed, unclosed,
};
use crate::decimal::{decimal, to_decimal};

verus! {

/// One machine instruction.
///
/// A jump target is the index of the instruction *after* the partner bracket:
/// `LoopStart(t)` skips to just past its `LoopEnd`, and `LoopEnd(t)` goes back
/// to the first instruction of the loop body, just past its `LoopStart`.
#[derive(Debug, Copy, Clone, PartialEq, Eq, Structural)]
pub enum Instruction {
    /// Move the memory pointer by a signed number of cells.
    MovePtr(isize),
    /// Add to the current cell, wrapping modulo 256.
    Add(u8),
    /// Read one byte of input into the current cell.
    Read,
    /// Write the current cell to the output.
    Write,
    /// Jump to the target if the current cell is zero.
    LoopStart(usize),
    /// Jump to the target if the current cell is not zero.
    LoopEnd(usize),
}

/// Why a source text has no compiled form. Positions count characters of the
/// source text from zero.
#[derive(Debug, Clone, Copy, PartialEq, Eq, Structural)]
pub enum Error {
    /// The `[` at this position is never closed.
    UnmatchedOpenBracket(usize),
    /// The `]` at this position has nothing to close.
    UnmatchedCloseBracket(usize),
}

impl Error {
    /// The text of the error message.
    pub open spec fn message(self) -> Seq<char> {
        match self {
            Error::UnmatchedOpenBracket(at) => "Unmatched '[' at position "@ + decimal(at as nat),
            Error::UnmatchedCloseBracket(at) => "Unmatched ']' at position "@ + decimal(
                at as nat,
            ),
        }
    }

    /// Renders the error for display: which bracket is unmatched, and the
    /// position of its character in the source text.
    pub fn to_string(&self) -> (s: String)
        ensures
            s@ == self.message(),
    {
        match self {
            Error::UnmatchedOpenBracket(at) => {
                String::from_str("Unmatched '[' at position ").concat(to_decimal(*at).as_str())
            },
            Error::UnmatchedCloseBracket(at) => {
                String::from_str("Unmatched ']' at position ").concat(to_decimal(*at).as_str())
            },
        }
    }
}

/// Whether `c` is one of the eight characters that stand for an instruction.
/// Every other character is commentary.
pub open spec fn is_op(c: char) -> bool {
    c == '>' || c == '<' || c == '+' || c == '-' || c == '.' || c == ',' || c == '[' || c == ']'
}

/// How many of the first `n` characters of `src` stand for an instruction.
/// For a position `p` that holds one, this is the index of its instruction.
pub open spec fn op_count(src: Seq<char>, n: int) -> int
    decreases n,
{
    if n <= 0 {
        0
    } else {
        op_count(src, n - 1) + if is_op(src[n - 1]) {
            1int
        } else {
            0int
        }
    }
}

/// The instruction that the character at position `p` of `src` stands for.
pub open spec fn lower(src: Seq<char>, p: int) -> Instruction {
    let c = src[p];
    if c == '>' {
        Instruction::MovePtr(1isize)
    } else if c == '<' {
        Instruction::MovePtr(-1isize)
    } else if c == '+' {
        Instruction::Add(1)
    } else if c == '-' {
        Instruction::Add(255)
    } else if c == '.' {
        Instruction::Write
    } else if c == ',' {
        Instruction::Read
    } else if c == '[' {
        Instruction::LoopStart((op_count(src, close_of(src, p)) + 1) as usize)
    } else {
        Instruction::LoopEnd((op_count(src, open_of(src, p)) + 1) as usize)
    }
}

/// The instructions for the first `n` characters of `src`, in order.
pub open spec fn lowered(src: Seq<char>, n: int) -> Seq<Instruction>
    decreases n,
{
    if n <= 0 {
        Seq::empty()
    } else if is_op(src[n - 1]) {
        lowered(src, n - 1).push(lower(src, n - 1))
    } else {
        lowered(src, n - 1)
    }
}

/// What compiling `src` yields: the lowered text if every bracket has a
/// partner; otherwise the first `]` with nothing to close, or, if there is
/// none, the innermost `[` that is never closed.
pub open spec fn compile_spec(src: Seq<char>) -> Result<Seq<Instruction>, Error> {
    if exists|q: int| overclosed(src, q) {
        Err(Error::UnmatchedCloseBracket(first_overclosed(src) as usize))
    } else if exists|p: int| unclosed(src, p) {
        Err(Error::UnmatchedOpenBracket(last_unclosed(src) as usize))
    } else {
        Ok(lowered(src, src.len() as int))
    }
}

/// The mathematical content of a compilation result.
pub open spec fn result_view(r: Result<Vec<Instruction>, Error>) -> Result<Seq<Instruction>, Error> {
    match r {
        Ok(code) => Ok(code@),
        Err(e) => Err(e),
    }
}

/// Compiles a source text.
///
/// Characters outside the eight-symbol alphabet are skipped. The result is
/// the lowered text when every bracket has a partner. Otherwise it is
/// the position of the first `]` with nothing to close or, if there is
/// none, of the innermost `[` left open.
pub fn compile(prog: &str) -> (r: Result<Vec<Instruction>, Error>)
    ensures
        result_view(r) == compile_spec(prog@),
{
    let ghost src = prog@;
    // A text has no more characters than bytes: measuring the bytes shows
    // that every position fits in a `usize`.
    let _ = prog.as_bytes().len();
    let mut instrs: Vec<Instruction> = Vec::new();
    let mut loop_stack: Vec<(usize, usize)> = Vec::new();
    // For each instruction, the position of the character it came from.
    let ghost mut origin: Seq<int> = Seq::empty();
    let mut i: usize = 0;
    proof {
        lemma_chars_fit(src);
        lemma_compiling_start(src);
    }
    for c in it: prog.chars()
        invariant
            it.seq() == src,
            src == prog@,
            i == it.index(),
            compiling(src, i as int, instrs@, loop_stack@, origin),
    {
        let ghost n = i as int;
        assert(c == src[n]);
        proof {
            if c == '[' {
                lemma_compiling_open(
                    src,
                    n,
                    instrs@,
                    loop_stack@,
                    origin,
                    Instruction::LoopStart(usize::MAX),
                );
            } else if c == ']' && loop_stack.len() == 0 {
                lemma_compiling_stray(src, n, instrs@, loop_stack@, origin);
            } else if c == ']' {
                lemma_compiling_close(src, n, instrs@, loop_stack@, origin);
            } else if is_op(c) {
                lemma_compiling_plain(src, n, instrs@, loop_stack@, origin);
            } else {
                lemma_compiling_skip(src, n, instrs@, loop_stack@, origin);
            }
            if is_op(c) {
                origin = origin.push(n);
            }
        }
        match c {
            '>' => instrs.push(Instruction::MovePtr(1)),
            '<' => instrs.push(Instruction::MovePtr(-1)),
            '+' => instrs.push(Instruction::Add(1)),
            '-' => instrs.push(Instruction::Add(u8::MAX)),
            '.' => instrs.push(Instruction::Write),
            ',' => instrs.push(Instruction::Read),
            '[' => {
                instrs.push(Instruction::LoopStart(usize::MAX));
                loop_stack.push((instrs.len(), i));
            },
            ']' => {
                let (start, _) = match loop_stack.pop() {
                    Some(open) => open,
                    None => {
                        return Err(Error::UnmatchedCloseBracket(i));
                    },
                };
                instrs.push(Instruction::LoopEnd(start));
                let end = instrs.len();
                instrs.set(start - 1, Instruction::LoopStart(end));
            },
            _ => (),
        }
        i = i + 1;
    }
    if !loop_stack.is_empty() {
        let (_, at) = loop_stack[loop_stack.len() - 1];
        proof {
            lemma_compiling_left_open(src, instrs@, loop_stack@, origin);
        }
        return Err(Error::UnmatchedOpenBracket(at));
    }
    proof {
        lemma_compiling_done(src, instrs@, loop_stack@, origin);
    }
    Ok(instrs)
}

/// A text compiles exactly when its brackets are balanced.
pub proof fn lemma_compiles_iff_balanced(src: Seq<char>)
    ensures
        compile_spec(src) is Ok <==> balanced(src),
{
}

/// Compiling is a function of the text: whatever two runs on the same text
/// return, they return the same.
pub proof fn lemma_compile_deterministic(
    src: Seq<char>,
    first: Result<Vec<Instruction>, Error>,
    second: Result<Vec<Instruction>, Error>,
)
    requires
        result_view(first) == compile_spec(src),
        result_view(second) == compile_spec(src),
    ensures
        result_view(first) == result_view(second),
        first is Ok ==> second is Ok && first->Ok_0@ == second->Ok_0@,
        first is Err ==> second is Err && first->Err_0 == second->Err_0,
{
}

/// Loops are mutually resolved. In compiled code a `LoopStart` at index `i`
/// with target `t` has its `LoopEnd` at index `t - 1`, further on in the
/// code, and that `LoopEnd` has target `i + 1`. The other way round, a
/// `LoopEnd` at index `i` with target `t` has its `LoopStart` at index
/// `t - 1`, earlier in the code, with target `i + 1`.
pub proof fn lemma_loops_resolved(src: Seq<char>, code: Seq<Instruction>, i: int)
    requires
        src.len() <= usize::MAX,
        compile_spec(src) == Ok::<Seq<Instruction>, Error>(code),
        0 <= i < code.len(),
    ensures
        code[i] matches Instruction::LoopStart(t) ==> i + 1 < t <= code.len() && code[t - 1]
            == Instruction::LoopEnd((i + 1) as usize),
        code[i] matches Instruction::LoopEnd(t) ==> 1 <= t <= i && code[t - 1]
            == Instruction::LoopStart((i + 1) as usize),
{
    let len = src.len() as int;
    lemma_compiles_iff_balanced(src);
    lemma_lowered_len(src, len);
    let p = lemma_position_of(src, len, i);
    lemma_lowered_at(src, len, p);
    lemma_balanced_partners(src, p);
    if src[p] == '[' {
        let q = close_of(src, p);
        lemma_op_count_grows(src, p, q);
        lemma_lowered_at(src, len, q);
    } else if src[p] == ']' {
        let o = open_of(src, p);
        lemma_op_count_grows(src, o, p);
        lemma_lowered_at(src, len, o);
    }
}

/// Instruction indices grow with the position, and an instruction-bearing
/// position has an index of its own.
pub proof fn lemma_op_count_grows(src: Seq<char>, p: int, n: int)
    requires
        0 <= p <= n,
    ensures
        0 <= op_count(src, p) <= op_count(src, n) <= n,
        p < n && is_op(src[p]) ==> op_count(src, p) < op_count(src, n),
    decreases n,
{
    if p < n {
        lemma_op_count_grows(src, p, n - 1);
    } else if 0 < n {
        lemma_op_count_grows(src, 0, n - 1);
    }
}

/// The lowered text holds one instruction per instruction-bearing character,
/// at that character's index.
pub proof fn lemma_lowered_at(src: Seq<char>, n: int, p: int)
    requires
        0 <= p < n,
        is_op(src[p]),
    ensures
        lowered(src, n).len() == op_count(src, n),
        0 <= op_count(src, p) < op_count(src, n),
        lowered(src, n)[op_count(src, p)] == lower(src, p),
    decreases n,
{
    lemma_op_count_grows(src, p, n);
    lemma_lowered_len(src, n - 1);
    if p < n - 1 {
        lemma_lowered_at(src, n - 1, p);
    }
}

/// The lowered text holds as many instructions as there are
/// instruction-bearing characters.
pub proof fn lemma_lowered_len(src: Seq<char>, n: int)
    ensures
        lowered(src, n).len() == op_count(src, n),
    decreases n,
{
    if n > 0 {
        lemma_lowered_len(src, n - 1);
    }
}

/// Every index below the number of instructions belongs to some
/// instruction-bearing position.
pub proof fn lemma_position_of(src: Seq<char>, n: int, k: int) -> (p: int)
    requires
        0 <= k < op_count(src, n),
    ensures
        0 <= p < n,
        is_op(src[p]),
        op_count(src, p) == k,
    decreases n,
{
    if is_op(src[n - 1]) && op_count(src, n - 1) == k {
        n - 1
    } else {
        lemma_position_of(src, n - 1, k)
    }
}

/// Two instruction-bearing positions with the same index are the same
/// position.
pub proof fn lemma_op_count_injective(src: Seq<char>, p1: int, p2: int)
    requires
        0 <= p1,
        0 <= p2,
        is_op(src[p1]),
        is_op(src[p2]),
        op_count(src, p1) == op_count(src, p2),
    ensures
        p1 == p2,
{
    if p1 < p2 {
        lemma_op_count_grows(src, p1, p2);
    } else if p2 < p1 {
        lemma_op_count_grows(src, p2, p1);
    }
}

/// A character other than `]` closes nothing: what was open before it is
/// open after it.
proof fn lemma_stays_open(src: Seq<char>, p: int, n: int)
    requires
        open_through(src, p, n),
        n < src.len(),
        src[n] != ']',
    ensures
        open_through(src, p, n + 1),
{
    assert(depth(src, n + 1) >= depth(src, n));
}

/// A `]` met while the innermost open `[` is at `p` is the partner of that
/// bracket.
proof fn lemma_closes_innermost(src: Seq<char>, p: int, n: int)
    requires
        open_through(src, p, n),
        n < src.len(),
        src[n] == ']',
        depth(src, p) + 1 == depth(src, n),
    ensures
        matched(src, p, n),
{
    assert(depth(src, n + 1) == depth(src, n) - 1);
}

/// A `]` closes no bracket but the innermost open one.
proof fn lemma_outer_stays_open(src: Seq<char>, p: int, n: int, other: int)
    requires
        open_through(src, p, n),
        n < src.len(),
        src[n] == ']',
        depth(src, p) + 1 == depth(src, n),
        open_through(src, other, n),
        other != p,
    ensures
        open_through(src, other, n + 1),
{
    assert(depth(src, n + 1) == depth(src, n) - 1);
    if other < p {
        assert(depth(src, p) > depth(src, other));
    } else {
        assert(depth(src, other) > depth(src, p));
        assert(depth(src, n) > depth(src, other));
    }
}

/// The state of a compilation that has read the first `n` characters of
/// `src` without meeting a `]` that has nothing to close.
///
/// `stack` holds the brackets that are still open, outermost first, each as
/// the index just past its instruction and its position in the text.
/// `origin` gives for each instruction the position of its character. An
/// instruction is final as soon as its character is no bracket that is still
/// open.
spec fn compiling(
    src: Seq<char>,
    n: int,
    instrs: Seq<Instruction>,
    stack: Seq<(usize, usize)>,
    origin: Seq<int>,
) -> bool {
    &&& 0 <= n <= src.len() <= usize::MAX
    &&& instrs.len() == op_count(src, n)
    &&& origin.len() == instrs.len()
    &&& forall|m: int| 0 <= m <= n ==> depth(src, m) >= 0
    &&& stack.len() == depth(src, n)
    &&& forall|j: int|
        0 <= j < stack.len() ==> {
            &&& open_through(src, (#[trigger] stack[j]).1 as int, n)
            &&& depth(src, stack[j].1 as int) == j
            &&& stack[j].0 == op_count(src, stack[j].1 as int) + 1
        }
    &&& forall|k: int|
        0 <= k < origin.len() ==> {
            &&& 0 <= #[trigger] origin[k] < n
            &&& is_op(src[origin[k]])
            &&& op_count(src, origin[k]) == k
            &&& (!open_through(src, origin[k], n) ==> instrs[k] == lower(src, origin[k]))
        }
}

/// Compilation starts with nothing read and nothing emitted.
proof fn lemma_compiling_start(src: Seq<char>)
    requires
        src.len() <= usize::MAX,
    ensures
        compiling(src, 0, Seq::empty(), Seq::empty(), Seq::empty()),
{
}

/// A character that is no instruction leaves the state as it is.
proof fn lemma_compiling_skip(
    src: Seq<char>,
    n: int,
    instrs: Seq<Instruction>,
    stack: Seq<(usize, usize)>,
    origin: Seq<int>,
)
    requires
        compiling(src, n, instrs, stack, origin),
        n < src.len(),
        !is_op(src[n]),
    ensures
        compiling(src, n + 1, instrs, stack, origin),
{
    lemma_depth_next(src, n);
    assert forall|j: int| 0 <= j < stack.len() implies open_through(
        src,
        (#[trigger] stack[j]).1 as int,
        n + 1,
    ) by {
        lemma_stays_open(src, stack[j].1 as int, n);
    }
    assert forall|k: int|
        0 <= k < origin.len() && !open_through(src, #[trigger] origin[k], n + 1) implies instrs[k]
        == lower(src, origin[k]) by {
        if open_through(src, origin[k], n) {
            lemma_stays_open(src, origin[k], n);
        }
    }
}

/// An instruction that is no bracket is final at once.
proof fn lemma_compiling_plain(
    src: Seq<char>,
    n: int,
    instrs: Seq<Instruction>,
    stack: Seq<(usize, usize)>,
    origin: Seq<int>,
)
    requires
        compiling(src, n, instrs, stack, origin),
        n < src.len(),
        is_op(src[n]),
        src[n] != '[',
        src[n] != ']',
    ensures
        compiling(src, n + 1, instrs.push(lower(src, n)), stack, origin.push(n)),
{
    let instrs2 = instrs.push(lower(src, n));
    let origin2 = origin.push(n);
    lemma_depth_next(src, n);
    assert forall|j: int| 0 <= j < stack.len() implies open_through(
        src,
        (#[trigger] stack[j]).1 as int,
        n + 1,
    ) by {
        lemma_stays_open(src, stack[j].1 as int, n);
    }
    assert forall|k: int|
        0 <= k < origin2.len() && !open_through(src, #[trigger] origin2[k], n + 1) implies instrs2[k]
        == lower(src, origin2[k]) by {
        if k < origin.len() && open_through(src, origin[k], n) {
            lemma_stays_open(src, origin[k], n);
        }
    }
}

/// A `[` is emitted with a target still to come and joins the open brackets.
proof fn lemma_compiling_open(
    src: Seq<char>,
    n: int,
    instrs: Seq<Instruction>,
    stack: Seq<(usize, usize)>,
    origin: Seq<int>,
    placeholder: Instruction,
)
    requires
        compiling(src, n, instrs, stack, origin),
        n < src.len(),
        src[n] == '[',
    ensures
        instrs.len() + 1 <= usize::MAX,
        compiling(
            src,
            n + 1,
            instrs.push(placeholder),
            stack.push(((instrs.len() + 1) as usize, n as usize)),
            origin.push(n),
        ),
{
    let instrs2 = instrs.push(placeholder);
    let stack2 = stack.push(((instrs.len() + 1) as usize, n as usize));
    let origin2 = origin.push(n);
    lemma_depth_next(src, n);
    lemma_op_count_grows(src, n, n);
    assert forall|j: int| 0 <= j < stack2.len() implies open_through(
        src,
        (#[trigger] stack2[j]).1 as int,
        n + 1,
    ) by {
        if j < stack.len() {
            lemma_stays_open(src, stack[j].1 as int, n);
        }
    }
    assert forall|k: int|
        0 <= k < origin2.len() && !open_through(src, #[trigger] origin2[k], n + 1) implies instrs2[k]
        == lower(src, origin2[k]) by {
        if k < origin.len() && open_through(src, origin[k], n) {
            lemma_stays_open(src, origin[k], n);
        }
    }
}

/// A `]` met while a bracket is open closes the innermost one: both
/// instructions get their targets and become final.
proof fn lemma_compiling_close(
    src: Seq<char>,
    n: int,
    instrs: Seq<Instruction>,
    stack: Seq<(usize, usize)>,
    origin: Seq<int>,
)
    requires
        compiling(src, n, instrs, stack, origin),
        n < src.len(),
        src[n] == ']',
        stack.len() > 0,
    ensures
        1 <= stack.last().0 <= instrs.len() < usize::MAX,
        compiling(
            src,
            n + 1,
            instrs.push(Instruction::LoopEnd(stack.last().0)).update(
                stack.last().0 - 1,
                Instruction::LoopStart((instrs.len() + 1) as usize),
            ),
            stack.drop_last(),
            origin.push(n),
        ),
{
    let start = stack.last().0;
    let p = stack.last().1 as int;
    let instrs2 = instrs.push(Instruction::LoopEnd(start)).update(
        start - 1,
        Instruction::LoopStart((instrs.len() + 1) as usize),
    );
    let stack2 = stack.drop_last();
    let origin2 = origin.push(n);
    lemma_depth_next(src, n);
    lemma_op_count_grows(src, n, n);
    lemma_op_count_grows(src, p, n);
    lemma_closes_innermost(src, p, n);
    lemma_partners(src, p, n);
    lemma_op_count_injective(src, origin[op_count(src, p)], p);
    assert forall|j: int| 0 <= j < stack2.len() implies open_through(
        src,
        (#[trigger] stack2[j]).1 as int,
        n + 1,
    ) by {
        assert(stack2[j] == stack[j]);
        lemma_outer_stays_open(src, p, n, stack[j].1 as int);
    }
    assert forall|k: int|
        0 <= k < origin2.len() && !open_through(src, #[trigger] origin2[k], n + 1) implies instrs2[k]
        == lower(src, origin2[k]) by {
        if k < origin.len() && origin[k] != p {
            if open_through(src, origin[k], n) {
                lemma_outer_stays_open(src, p, n, origin[k]);
            }
            if k == op_count(src, p) {
                lemma_op_count_injective(src, origin[k], p);
            }
        }
    }
}

/// A `]` met while no bracket is open is the first with nothing to close.
proof fn lemma_compiling_stray(
    src: Seq<char>,
    n: int,
    instrs: Seq<Instruction>,
    stack: Seq<(usize, usize)>,
    origin: Seq<int>,
)
    requires
        compiling(src, n, instrs, stack, origin),
        n < src.len(),
        src[n] == ']',
        stack.len() == 0,
    ensures
        compile_spec(src) == Err::<Seq<Instruction>, Error>(
            Error::UnmatchedCloseBracket(n as usize),
        ),
{
    lemma_depth_next(src, n);
    assert(overclosed(src, n));
    lemma_first_overclosed(src, n);
}

/// At the end of the text, a bracket still open makes the text ill-formed,
/// and the innermost one is reported.
proof fn lemma_compiling_left_open(
    src: Seq<char>,
    instrs: Seq<Instruction>,
    stack: Seq<(usize, usize)>,
    origin: Seq<int>,
)
    requires
        compiling(src, src.len() as int, instrs, stack, origin),
        stack.len() > 0,
    ensures
        compile_spec(src) == Err::<Seq<Instruction>, Error>(
            Error::UnmatchedOpenBracket(stack.last().1),
        ),
{
    let p = stack.last().1 as int;
    assert(unclosed(src, p));
    lemma_last_unclosed(src, p);
    assert forall|q: int| !overclosed(src, q) by {
        if 0 <= q < src.len() {
            assert(depth(src, q + 1) >= 0);
        }
    }
}

/// At the end of the text, with no bracket open, the instructions emitted
/// are the lowered text.
proof fn lemma_compiling_done(
    src: Seq<char>,
    instrs: Seq<Instruction>,
    stack: Seq<(usize, usize)>,
    origin: Seq<int>,
)
    requires
        compiling(src, src.len() as int, instrs, stack, origin),
        stack.len() == 0,
    ensures
        compile_spec(src) == Ok::<Seq<Instruction>, Error>(instrs),
{
    let len = src.len() as int;
    assert forall|q: int| !overclosed(src, q) by {
        if 0 <= q < src.len() {
            assert(depth(src, q + 1) >= 0);
        }
    }
    assert forall|p: int| !unclosed(src, p) by {
        if 0 <= p < len {
            assert(depth(src, p) >= 0);
        }
    }
    lemma_lowered_len(src, len);
    assert forall|k: int| 0 <= k < instrs.len() implies instrs[k] == lowered(src, len)[k] by {
        lemma_lowered_at(src, len, origin[k]);
        assert(!unclosed(src, origin[k]));
    }
    assert(instrs =~= lowered(src, len));
}

/// A text has no more characters than its encoding has bytes.
proof fn lemma_chars_fit(chars: Seq<char>)
    ensures
        chars.len() <= encode_utf8(chars).len(),
    decreases chars.len(),
{
    if chars.len() > 0 {
        lemma_chars_fit(chars.drop_first());
    }
}

} // verus!
