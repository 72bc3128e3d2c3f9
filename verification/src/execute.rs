//! The execution engine: a register machine stepping through a resolved
//! instruction sequence, with a comparison flag, an optional cycle budget,
//! and a brace-interpolation output formatter.

use crate::compile::no_symbolic;
use crate::token::{instrs, Instr, Label, LabelRef, Token};
use crate::value::{apply_op, cmp3, parse_u8, ArithOp, Comparison, Value};
use crate::push_char;
use vstd::prelude::*;
use vstd::string::StringExecFns;

verus! {

/// The one runtime failure: a division or remainder whose right operand is
/// zero aborts execution immediately.
#[derive(Clone, Copy, Debug, PartialEq, Eq, Structural)]
pub enum RunError {
    DivisionByZero,
}

/// The mathematical state of one execution run: the 256 registers, the
/// instruction pointer, the comparison flag, and the text emitted so far.
pub ghost struct ExecState {
    pub regs: Seq<i64>,
    pub index: int,
    pub flag: Comparison,
    pub output: Seq<char>,
}

impl ExecState {
    pub open spec fn wf(self) -> bool {
        self.regs.len() == 256 && 0 <= self.index
    }

    /// The state a run starts from: all registers zero, the pointer at 0,
    /// the flag `Equal`, nothing emitted.
    pub open spec fn init() -> ExecState {
        ExecState {
            regs: Seq::new(256, |i: int| 0i64),
            index: 0,
            flag: Comparison::Equal,
            output: Seq::empty(),
        }
    }
}

/// The character for one decimal digit.
pub open spec fn digit_char(d: int) -> char {
    if d == 0 {
        '0'
    } else if d == 1 {
        '1'
    } else if d == 2 {
        '2'
    } else if d == 3 {
        '3'
    } else if d == 4 {
        '4'
    } else if d == 5 {
        '5'
    } else if d == 6 {
        '6'
    } else if d == 7 {
        '7'
    } else if d == 8 {
        '8'
    } else {
        '9'
    }
}

/// The decimal digits of a non-negative number, most significant first.
pub open spec fn dec_int(n: int) -> Seq<char>
    decreases n,
    when n >= 0
{
    if n < 10 {
        seq![digit_char(n)]
    } else {
        dec_int(n / 10).push(digit_char(n % 10))
    }
}

/// The decimal rendering of a signed 64-bit number, as Rust prints it.
pub open spec fn dec_i64(v: i64) -> Seq<char> {
    if v >= 0 {
        dec_int(v as int)
    } else {
        seq!['-'] + dec_int(-(v as int))
    }
}

/// The first position at or after `i` holding `{` or `}`, or the template's
/// length if neither occurs again.
pub open spec fn brace_end(t: Seq<char>, i: int) -> int
    decreases t.len() - i,
    when 0 <= i <= t.len()
{
    if i >= t.len() {
        i
    } else if t[i] == '{' || t[i] == '}' {
        i
    } else {
        brace_end(t, i + 1)
    }
}

/// The terminator search stays inside the template and skips no brace.
pub proof fn lemma_brace_end(t: Seq<char>, i: int)
    requires
        0 <= i <= t.len(),
    ensures
        i <= brace_end(t, i) <= t.len(),
        brace_end(t, i) < t.len() ==> t[brace_end(t, i)] == '{' || t[brace_end(t, i)] == '}',
        forall|k: int| i <= k < brace_end(t, i) ==> t[k] != '{' && t[k] != '}',
    decreases t.len() - i,
{
    if i < t.len() && !(t[i] == '{' || t[i] == '}') {
        lemma_brace_end(t, i + 1);
    }
}

/// What formatting the template from position `i` on emits.  An ordinary
/// character is copied; `{` collects a buffer up to the next `{` or `}`: a
/// second `{` discards the buffer and emits one literal `{`, a `}` emits the
/// named register's decimal value (or, for no register, a literal `{` and
/// the raw buffer, without the closing brace), and exhaustion before either
/// terminator emits the same `{`-and-buffer fallback.
pub open spec fn format_from(t: Seq<char>, i: int, regs: Seq<i64>) -> Seq<char>
    decreases t.len() - i,
    when 0 <= i <= t.len() && regs.len() == 256
    via format_from_decreases
{
    if i >= t.len() {
        Seq::empty()
    } else if t[i] != '{' {
        seq![t[i]] + format_from(t, i + 1, regs)
    } else {
        let j = brace_end(t, i + 1);
        let buffer = t.subrange(i + 1, j);
        if j >= t.len() {
            seq!['{'] + buffer
        } else if t[j] == '{' {
            seq!['{'] + format_from(t, j + 1, regs)
        } else {
            (match parse_u8(buffer) {
                Some(register) => dec_i64(regs[register as int]),
                None => seq!['{'] + buffer,
            }) + format_from(t, j + 1, regs)
        }
    }
}

#[via_fn]
proof fn format_from_decreases(t: Seq<char>, i: int, regs: Seq<i64>) {
    if 0 <= i && i < t.len() {
        lemma_brace_end(t, i + 1);
    }
}

/// What formatting a whole template against a register file emits.
pub open spec fn format_spec(t: Seq<char>, regs: Seq<i64>) -> Seq<char> {
    format_from(t, 0, regs)
}

/// Appends the decimal digits of `n` to `out`.
fn push_dec_u64(n: u64, out: &mut String)
    ensures
        final(out)@ == old(out)@ + dec_int(n as int),
    decreases n,
{
    if n >= 10 {
        push_dec_u64(n / 10, out);
    }
    let d = n % 10;
    let c: char = if d == 0 {
        '0'
    } else if d == 1 {
        '1'
    } else if d == 2 {
        '2'
    } else if d == 3 {
        '3'
    } else if d == 4 {
        '4'
    } else if d == 5 {
        '5'
    } else if d == 6 {
        '6'
    } else if d == 7 {
        '7'
    } else if d == 8 {
        '8'
    } else {
        '9'
    };
    push_char(out, c);
    proof {
        if n < 10 {
            assert(final(out)@ =~= old(out)@ + seq![digit_char(n as int)]);
        }
    }
}

/// Appends the decimal rendering of `v` to `out`.
fn push_dec_i64(v: i64, out: &mut String)
    ensures
        final(out)@ == old(out)@ + dec_i64(v),
{
    if v >= 0 {
        push_dec_u64(v as u64, out);
    } else {
        push_char(out, '-');
        push_dec_u64(crate::value::magnitude(v), out);
        proof {
            assert(final(out)@ =~= old(out)@ + dec_i64(v));
        }
    }
}

/// Formats an `out` template against the register file: the brace
/// interpolation of [`format_spec`].
#[verifier::loop_isolation(false)]
pub fn out(output: &str, registers: &Vec<i64>) -> (r: String)
    requires
        registers@.len() == 256,
    ensures
        r@ == format_spec(output@, registers@),
{
    let n = output.unicode_len();
    let mut result = String::new();
    let mut i: usize = 0;
    proof {
        assert(result@ =~= Seq::<char>::empty());
    }
    while i < n
        invariant
            i <= n,
            result@ + format_from(output@, i as int, registers@) == format_spec(
                output@,
                registers@,
            ),
        decreases n - i,
    {
        let ghost pre = result@;
        let c = output.get_char(i);
        if c != '{' {
            push_char(&mut result, c);
            proof {
                assert(pre + format_from(output@, i as int, registers@) =~= result@ + format_from(
                    output@,
                    i + 1,
                    registers@,
                ));
            }
            i += 1;
        } else {
            let mut j = i + 1;
            proof {
                lemma_brace_end(output@, i + 1);
            }
            while j < n && output.get_char(j) != '{' && output.get_char(j) != '}'
                invariant
                    i + 1 <= j <= n,
                    brace_end(output@, i + 1) == brace_end(output@, j as int),
                decreases n - j,
            {
                j += 1;
            }
            proof {
                assert(brace_end(output@, i + 1) == j);
                lemma_brace_end(output@, i + 1);
            }
            let ghost buffer = output@.subrange(i + 1, j as int);
            if j >= n {
                push_char(&mut result, '{');
                result.append(output.substring_char(i + 1, n));
                proof {
                    assert(result@ =~= pre + (seq!['{'] + buffer));
                    assert(format_from(output@, i as int, registers@) == seq!['{'] + buffer);
                }
                i = n;
            } else if output.get_char(j) == '{' {
                push_char(&mut result, '{');
                proof {
                    assert(pre + format_from(output@, i as int, registers@) =~= result@
                        + format_from(output@, j + 1, registers@));
                }
                i = j + 1;
            } else {
                let piece = output.substring_char(i + 1, j);
                match crate::value::parse_u8_str(piece) {
                    Some(register) => {
                        push_dec_i64(registers[register as usize], &mut result);
                        proof {
                            assert(pre + format_from(output@, i as int, registers@) =~= result@
                                + format_from(output@, j + 1, registers@));
                        }
                    },
                    None => {
                        push_char(&mut result, '{');
                        result.append(piece);
                        proof {
                            assert(result@ =~= pre + (seq!['{'] + buffer));
                            assert(pre + format_from(output@, i as int, registers@) =~= result@
                                + format_from(output@, j + 1, registers@));
                        }
                    },
                }
                i = j + 1;
            }
        }
    }
    result
}

/// The state with only the instruction pointer advanced by one.
pub open spec fn advanced(s: ExecState) -> ExecState {
    ExecState { index: s.index + 1, ..s }
}

/// The state after a taken jump: the pointer lands one past the target's own
/// marker instruction, or one past the end for a target outside the program.
pub open spec fn jumped(prog: Seq<Instr>, s: ExecState, target: LabelRef) -> ExecState {
    match target {
        LabelRef::Address(a) => ExecState {
            index: if a < prog.len() {
                a + 1
            } else {
                prog.len() as int
            },
            ..s
        },
        LabelRef::Base(_) => advanced(s),
    }
}

/// The state after one arithmetic instruction: the wrapping result lands in
/// `dest` and the flag records its comparison against zero; a division or
/// remainder by zero fails.
pub open spec fn arith_step(s: ExecState, op: ArithOp, dest: u8, l: Value, r: Value) -> Result<
    ExecState,
    RunError,
> {
    match apply_op(op, l.resolved(s.regs), r.resolved(s.regs)) {
        Some(value) => Ok(
            ExecState {
                regs: s.regs.update(dest as int, value),
                flag: cmp3(value as int, 0),
                index: s.index + 1,
                ..s
            },
        ),
        None => Err(RunError::DivisionByZero),
    }
}

/// What executing the instruction under the pointer does to the state.
pub open spec fn step_spec(prog: Seq<Instr>, s: ExecState) -> Result<ExecState, RunError>
    recommends
        s.wf(),
        0 <= s.index < prog.len(),
        no_symbolic(prog),
{
    match prog[s.index] {
        Instr::Comment(_) => Ok(advanced(s)),
        Instr::Label(_) => Ok(advanced(s)),
        Instr::Out(template) => Ok(
            ExecState { output: s.output + format_spec(template, s.regs), index: s.index + 1, ..s },
        ),
        Instr::Mov(dest, src) => Ok(
            ExecState { regs: s.regs.update(dest as int, src.resolved(s.regs)), index: s.index + 1, ..s },
        ),
        Instr::Add(dest, l, r) => arith_step(s, ArithOp::Add, dest, l, r),
        Instr::Sub(dest, l, r) => arith_step(s, ArithOp::Sub, dest, l, r),
        Instr::Mul(dest, l, r) => arith_step(s, ArithOp::Mul, dest, l, r),
        Instr::Div(dest, l, r) => arith_step(s, ArithOp::Div, dest, l, r),
        Instr::Mod(dest, l, r) => arith_step(s, ArithOp::Mod, dest, l, r),
        Instr::Cmp(l, r) => Ok(
            ExecState {
                flag: cmp3(l.resolved(s.regs) as int, r.resolved(s.regs) as int),
                index: s.index + 1,
                ..s
            },
        ),
        Instr::Jmp(target) => Ok(jumped(prog, s, target)),
        Instr::Jl(target) => Ok(
            if s.flag == Comparison::Less {
                jumped(prog, s, target)
            } else {
                advanced(s)
            },
        ),
        Instr::Jg(target) => Ok(
            if s.flag == Comparison::Greater {
                jumped(prog, s, target)
            } else {
                advanced(s)
            },
        ),
        Instr::Je(target) => Ok(
            if s.flag == Comparison::Equal {
                jumped(prog, s, target)
            } else {
                advanced(s)
            },
        ),
    }
}

/// How one run ends: the pointer ran past the end, the cycle budget ran out
/// first (a pause, not an error), or an instruction failed.
pub enum RunOutcome {
    Finished(ExecState),
    Paused(ExecState),
    Failed(RunError),
}

/// What running with `fuel` remaining cycles from state `s` yields.  The
/// pointer is checked before the budget, so a run already past the end
/// finishes even with no fuel left.
pub open spec fn run_spec(prog: Seq<Instr>, s: ExecState, fuel: nat) -> RunOutcome
    decreases fuel,
{
    if s.index >= prog.len() {
        RunOutcome::Finished(s)
    } else if fuel == 0 {
        RunOutcome::Paused(s)
    } else {
        match step_spec(prog, s) {
            Ok(s2) => run_spec(prog, s2, (fuel - 1) as nat),
            Err(e) => RunOutcome::Failed(e),
        }
    }
}

/// The observable outcome of one execution run: the final registers, the
/// instruction pointer (past the end when the run finished, on the next
/// instruction when it paused), the comparison flag, and everything the
/// `out` instructions emitted.
pub struct Run {
    pub registers: Vec<i64>,
    pub index: usize,
    pub flag: Comparison,
    pub output: String,
}

impl View for Run {
    type V = ExecState;

    open spec fn view(&self) -> ExecState {
        ExecState {
            regs: self.registers@,
            index: self.index as int,
            flag: self.flag,
            output: self.output@,
        }
    }
}

/// Whether every jump in the token sequence already carries an absolute
/// address: the runtime test for [`no_symbolic`], which executing requires.
pub fn all_resolved(tokens: &Vec<Token>) -> (r: bool)
    ensures
        r == no_symbolic(instrs(tokens@)),
{
    let mut i: usize = 0;
    while i < tokens.len()
        invariant
            i <= tokens.len(),
            forall|j: int|
                0 <= j < i ==> !crate::compile::is_symbolic(#[trigger] instrs(tokens@)[j]),
        decreases tokens.len() - i,
    {
        let symbolic: bool = match &tokens[i] {
            Token::Jmp(Label::Base(_)) => true,
            Token::Jl(Label::Base(_)) => true,
            Token::Jg(Label::Base(_)) => true,
            Token::Je(Label::Base(_)) => true,
            _ => false,
        };
        if symbolic {
            proof {
                assert(crate::compile::is_symbolic(instrs(tokens@)[i as int]));
            }
            return false;
        }
        i += 1;
    }
    true
}

/// A fresh machine: all registers zero, the pointer at 0, the flag
/// `Equal`, nothing emitted.
pub fn initial_run() -> (r: Run)
    ensures
        r@ == ExecState::init(),
{
    let mut registers: Vec<i64> = Vec::new();
    let mut k: usize = 0;
    while k < 256
        invariant
            k <= 256,
            registers@.len() == k,
            forall|j: int| 0 <= j < k ==> registers@[j] == 0i64,
        decreases 256 - k,
    {
        registers.push(0);
        k += 1;
    }
    let output = String::new();
    proof {
        assert(registers@ =~= ExecState::init().regs);
        assert(output@ =~= Seq::<char>::empty());
    }
    Run { registers, index: 0, flag: Comparison::Equal, output }
}

/// Runs up to `cycles` further instructions from a saved machine state.
/// The result is exactly what [`run_spec`] prescribes: the state at normal
/// termination or at a budget pause (told apart by the pointer), or the
/// runtime error that aborted the run.
#[verifier::loop_isolation(false)]
pub fn resume(tokens: &Vec<Token>, start: Run, cycles: usize) -> (r: Result<Run, RunError>)
    requires
        no_symbolic(instrs(tokens@)),
        start@.wf(),
    ensures
        ({
            let prog = instrs(tokens@);
            match (r, run_spec(prog, start@, cycles as nat)) {
                (Ok(run), RunOutcome::Finished(s)) => run@ == s && s.index >= prog.len(),
                (Ok(run), RunOutcome::Paused(s)) => run@ == s && s.index < prog.len(),
                (Err(e), RunOutcome::Failed(se)) => e == se,
                _ => false,
            }
        }),
{
    let ghost prog = instrs(tokens@);
    let mut registers = start.registers;
    let mut index = start.index;
    let mut flag = start.flag;
    let mut output = start.output;
    let mut remaining = cycles;
    loop
        invariant
            registers@.len() == 256,
            remaining <= cycles,
            run_spec(
                prog,
                ExecState { regs: registers@, index: index as int, flag, output: output@ },
                remaining as nat,
            ) == run_spec(prog, start@, cycles as nat),
        decreases remaining,
    {
        let ghost cur = ExecState { regs: registers@, index: index as int, flag, output: output@ };
        if index >= tokens.len() {
            proof {
                assert(run_spec(prog, cur, remaining as nat) == RunOutcome::Finished(cur));
            }
            return Ok(Run { registers, index, flag, output });
        }
        if remaining == 0 {
            proof {
                assert(run_spec(prog, cur, 0) == RunOutcome::Paused(cur));
            }
            return Ok(Run { registers, index, flag, output });
        }
        remaining -= 1;
        proof {
            assert(prog[index as int] == tokens@[index as int]@);
        }
        let token = &tokens[index];
        match token {
            Token::Comment(_) => {
                index += 1;
            },
            Token::Label(_) => {
                index += 1;
            },
            Token::Out(template) => {
                let text = out(template.as_str(), &registers);
                output.append(text.as_str());
                index += 1;
            },
            Token::Mov(dest, src) => {
                let value = src.take(&registers);
                registers.set(*dest as usize, value);
                index += 1;
            },
            Token::Add(dest, l, r) => {
                match l.perform_operation(r, &registers, ArithOp::Add) {
                    Some(value) => {
                        registers.set(*dest as usize, value);
                        flag = if value < 0 {
                            Comparison::Less
                        } else if value == 0 {
                            Comparison::Equal
                        } else {
                            Comparison::Greater
                        };
                        index += 1;
                    },
                    None => {
                        proof {
                            assert(false);
                        }
                    },
                }
            },
            Token::Sub(dest, l, r) => {
                match l.perform_operation(r, &registers, ArithOp::Sub) {
                    Some(value) => {
                        registers.set(*dest as usize, value);
                        flag = if value < 0 {
                            Comparison::Less
                        } else if value == 0 {
                            Comparison::Equal
                        } else {
                            Comparison::Greater
                        };
                        index += 1;
                    },
                    None => {
                        proof {
                            assert(false);
                        }
                    },
                }
            },
            Token::Mul(dest, l, r) => {
                match l.perform_operation(r, &registers, ArithOp::Mul) {
                    Some(value) => {
                        registers.set(*dest as usize, value);
                        flag = if value < 0 {
                            Comparison::Less
                        } else if value == 0 {
                            Comparison::Equal
                        } else {
                            Comparison::Greater
                        };
                        index += 1;
                    },
                    None => {
                        proof {
                            assert(false);
                        }
                    },
                }
            },
            Token::Div(dest, l, r) => {
                match l.perform_operation(r, &registers, ArithOp::Div) {
                    Some(value) => {
                        registers.set(*dest as usize, value);
                        flag = if value < 0 {
                            Comparison::Less
                        } else if value == 0 {
                            Comparison::Equal
                        } else {
                            Comparison::Greater
                        };
                        index += 1;
                    },
                    None => {
                        proof {
                            assert(step_spec(prog, cur) == Err::<ExecState, RunError>(
                                RunError::DivisionByZero,
                            ));
                        }
                        return Err(RunError::DivisionByZero);
                    },
                }
            },
            Token::Mod(dest, l, r) => {
                match l.perform_operation(r, &registers, ArithOp::Mod) {
                    Some(value) => {
                        registers.set(*dest as usize, value);
                        flag = if value < 0 {
                            Comparison::Less
                        } else if value == 0 {
                            Comparison::Equal
                        } else {
                            Comparison::Greater
                        };
                        index += 1;
                    },
                    None => {
                        proof {
                            assert(step_spec(prog, cur) == Err::<ExecState, RunError>(
                                RunError::DivisionByZero,
                            ));
                        }
                        return Err(RunError::DivisionByZero);
                    },
                }
            },
            Token::Cmp(l, r) => {
                flag = l.compare(r, &registers);
                index += 1;
            },
            Token::Jmp(target) => {
                match target {
                    Label::Address(a) => {
                        if *a < tokens.len() {
                            index = *a + 1;
                        } else {
                            index = tokens.len();
                        }
                    },
                    Label::Base(_) => {
                        proof {
                            assert(crate::compile::is_symbolic(prog[index as int]));
                            assert(false);
                        }
                    },
                }
            },
            Token::Jl(target) => {
                if flag == Comparison::Less {
                    match target {
                        Label::Address(a) => {
                            if *a < tokens.len() {
                                index = *a + 1;
                            } else {
                                index = tokens.len();
                            }
                        },
                        Label::Base(_) => {
                            proof {
                                assert(crate::compile::is_symbolic(prog[index as int]));
                                assert(false);
                            }
                        },
                    }
                } else {
                    index += 1;
                }
            },
            Token::Jg(target) => {
                if flag == Comparison::Greater {
                    match target {
                        Label::Address(a) => {
                            if *a < tokens.len() {
                                index = *a + 1;
                            } else {
                                index = tokens.len();
                            }
                        },
                        Label::Base(_) => {
                            proof {
                                assert(crate::compile::is_symbolic(prog[index as int]));
                                assert(false);
                            }
                        },
                    }
                } else {
                    index += 1;
                }
            },
            Token::Je(target) => {
                if flag == Comparison::Equal {
                    match target {
                        Label::Address(a) => {
                            if *a < tokens.len() {
                                index = *a + 1;
                            } else {
                                index = tokens.len();
                            }
                        },
                        Label::Base(_) => {
                            proof {
                                assert(crate::compile::is_symbolic(prog[index as int]));
                                assert(false);
                            }
                        },
                    }
                } else {
                    index += 1;
                }
            },
        }
        proof {
            let next = ExecState { regs: registers@, index: index as int, flag, output: output@ };
            assert(step_spec(prog, cur) == Ok::<ExecState, RunError>(next));
            assert(run_spec(prog, cur, (remaining + 1) as nat) == run_spec(
                prog,
                next,
                remaining as nat,
            ));
        }
    }
}

/// Runs a resolved instruction sequence from the initial state, executing at
/// most `cycles` instructions.  Exhausting the budget pauses the run - no
/// error - with the pointer on the next instruction, so that a caller who
/// keeps the returned state can resume it.
pub fn execute(tokens: &Vec<Token>, cycles: usize) -> (r: Result<Run, RunError>)
    requires
        no_symbolic(instrs(tokens@)),
    ensures
        ({
            let prog = instrs(tokens@);
            match (r, run_spec(prog, ExecState::init(), cycles as nat)) {
                (Ok(run), RunOutcome::Finished(s)) => run@ == s && s.index >= prog.len(),
                (Ok(run), RunOutcome::Paused(s)) => run@ == s && s.index < prog.len(),
                (Err(e), RunOutcome::Failed(se)) => e == se,
                _ => false,
            }
        }),
{
    resume(tokens, initial_run(), cycles)
}

/// The state after exactly `n` executed instructions from `s`, or nothing
/// if the run finishes or fails before the `n`-th one.
pub open spec fn stepped(prog: Seq<Instr>, s: ExecState, n: nat) -> Option<ExecState>
    decreases n,
{
    if n == 0 {
        Some(s)
    } else if s.index >= prog.len() {
        None
    } else {
        match step_spec(prog, s) {
            Ok(s2) => stepped(prog, s2, (n - 1) as nat),
            Err(_) => None,
        }
    }
}

/// A budget splits: running with `m + n` cycles is running with `m`, and if
/// that only paused, running on from the paused state with the remaining
/// `n`.  This is what makes a paused run resumable by a fresh run from the
/// persisted state.
pub proof fn lemma_run_split(prog: Seq<Instr>, s: ExecState, m: nat, n: nat)
    ensures
        run_spec(prog, s, (m + n) as nat) == match run_spec(prog, s, m) {
            RunOutcome::Paused(s2) => run_spec(prog, s2, n),
            outcome => outcome,
        },
    decreases m,
{
    if s.index < prog.len() && m > 0 {
        match step_spec(prog, s) {
            Ok(s2) => {
                lemma_run_split(prog, s2, (m - 1) as nat, n);
            },
            Err(_) => {},
        }
    }
}

/// A pause means the budget was spent exactly: a run that pauses after `n`
/// cycles executed precisely `n` instructions, and stands on an instruction
/// still to run.
pub proof fn lemma_paused_exact_count(prog: Seq<Instr>, s: ExecState, n: nat)
    requires
        run_spec(prog, s, n) is Paused,
    ensures
        stepped(prog, s, n) == Some(run_spec(prog, s, n)->Paused_0),
        run_spec(prog, s, n)->Paused_0.index < prog.len(),
    decreases n,
{
    if s.index < prog.len() && n > 0 {
        match step_spec(prog, s) {
            Ok(s2) => {
                lemma_paused_exact_count(prog, s2, (n - 1) as nat);
            },
            Err(_) => {},
        }
    }
}

/// Whether the program contains no jump at all.
pub open spec fn no_jumps(prog: Seq<Instr>) -> bool {
    forall|i: int|
        0 <= i < prog.len() ==> match #[trigger] prog[i] {
            Instr::Jmp(_) => false,
            Instr::Jl(_) => false,
            Instr::Jg(_) => false,
            Instr::Je(_) => false,
            _ => true,
        }
}

/// In a program with no jumps every step advances the pointer by exactly
/// one, so the `k`-th instruction executed is the instruction at offset `k`:
/// execution visits every instruction exactly once, in sequence order.
pub proof fn lemma_sequential_visits(prog: Seq<Instr>, s: ExecState, k: nat)
    requires
        no_jumps(prog),
        0 <= s.index,
        stepped(prog, s, k) is Some,
    ensures
        stepped(prog, s, k)->0.index == s.index + k,
    decreases k,
{
    if k > 0 && s.index < prog.len() {
        match step_spec(prog, s) {
            Ok(s2) => {
                assert(s2.index == s.index + 1);
                lemma_sequential_visits(prog, s2, (k - 1) as nat);
            },
            Err(_) => {},
        }
    }
}

/// A program with no jumps and a budget of at least its length either fails
/// on the way or finishes having executed every one of its instructions
/// exactly once, in order, the pointer one past the end.
pub proof fn lemma_no_jumps_full_run(prog: Seq<Instr>, s: ExecState, fuel: nat)
    requires
        no_jumps(prog),
        0 <= s.index <= prog.len(),
        fuel >= prog.len() - s.index,
        !(run_spec(prog, s, fuel) is Failed),
    ensures
        run_spec(prog, s, fuel) == RunOutcome::Finished(
            stepped(prog, s, (prog.len() - s.index) as nat)->0,
        ),
        stepped(prog, s, (prog.len() - s.index) as nat) is Some,
        stepped(prog, s, (prog.len() - s.index) as nat)->0.index == prog.len(),
    decreases fuel,
{
    if s.index == prog.len() {
    } else {
        assert(match prog[s.index] {
            Instr::Jmp(_) => false,
            Instr::Jl(_) => false,
            Instr::Jg(_) => false,
            Instr::Je(_) => false,
            _ => true,
        });
        match step_spec(prog, s) {
            Ok(s2) => {
                assert(s2.index == s.index + 1);
                lemma_no_jumps_full_run(prog, s2, (fuel - 1) as nat);
            },
            Err(_) => {},
        }
    }
}

} // verus!
