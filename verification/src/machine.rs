use crate::dictionary::{ops, Cell, Immediate, Op, Word};
use crate::error::{fault_text, Error, Fault};
use crate::text::{decimal, ends_with, literal, lowered};
use crate::variable::{
    absolute, display, value_divide, value_lt, value_minus, value_modulo, value_plus, value_times,
    Value,
};
use vstd::prelude::*;

verus! {

/// What the driver is doing.
#[derive(Clone, Copy, Debug, PartialEq, Eq, Structural)]
pub enum State {
    /// Tokens are executed one by one.
    Interpret,
    /// A colon definition has begun and its `;` has not arrived yet.
    FillBuffer,
    /// A complete colon definition waits in the input buffer.
    Compile,
}

/// The machine as a mathematical value. Stacks have their top at index 0;
/// the input buffer has its next token at index 0; `output` holds the
/// fragments written so far, oldest first.
pub struct Machine {
    pub data: Seq<Value>,
    pub ret: Seq<Value>,
    pub words: Map<Seq<char>, Seq<Op>>,
    pub output: Seq<Seq<char>>,
    pub mute: bool,
    pub state: State,
    pub handle_errors: bool,
    pub input: Seq<Seq<char>>,
    pub steps_left: nat,
    pub step_limit: nat,
}

/// A machine after some work, and the fault that ended the work, if any.
pub struct Outcome {
    pub machine: Machine,
    pub fault: Option<Fault>,
}

/// A machine after compiling, and the cells emitted or the fault.
pub struct Emitted {
    pub machine: Machine,
    pub result: Result<Seq<Op>, Fault>,
}

/// A machine after a driver step, and the next state or the fault.
pub struct Turn {
    pub machine: Machine,
    pub result: Result<State, Fault>,
}

/// The outcome of a call that left the machine as `m` and returned `r`.
pub open spec fn outcome(r: Result<(), Error>, m: Machine) -> Outcome {
    Outcome {
        machine: m,
        fault: match r {
            Ok(_) => None,
            Err(e) => Some(e@),
        },
    }
}

/// Work that ended well.
pub open spec fn ok(m: Machine) -> Outcome {
    Outcome { machine: m, fault: None }
}

/// Work that a fault ended.
pub open spec fn failed(m: Machine, f: Fault) -> Outcome {
    Outcome { machine: m, fault: Some(f) }
}

/// The machine with another data stack.
pub open spec fn with_data(m: Machine, data: Seq<Value>) -> Machine {
    Machine { data, ..m }
}

/// The machine with another return stack.
pub open spec fn with_ret(m: Machine, ret: Seq<Value>) -> Machine {
    Machine { ret, ..m }
}

/// The machine with another input buffer.
pub open spec fn with_input(m: Machine, input: Seq<Seq<char>>) -> Machine {
    Machine { input, ..m }
}

/// The machine after `text` went to the sink: a muted machine drops it.
pub open spec fn emit(m: Machine, text: Seq<char>) -> Machine {
    if m.mute {
        m
    } else {
        Machine { output: m.output.push(text), ..m }
    }
}

/// The machine after the fragments went to the sink in order.
pub open spec fn emit_all(m: Machine, fragments: Seq<Seq<char>>) -> Machine
    decreases fragments.len(),
{
    if fragments.len() == 0 {
        m
    } else {
        emit(emit_all(m, fragments.drop_last()), fragments.last())
    }
}

/// Forth's truth values: -1 for true, 0 for false.
pub open spec fn truth(b: bool) -> Value {
    if b {
        Value::Int(-1i64)
    } else {
        Value::Int(0)
    }
}

/// A word that takes `n` values off the data stack and puts `result` (its
/// top first) in their place. With fewer than `n` values it fails, and the
/// values that were there are gone.
pub open spec fn replace_top(m: Machine, n: nat, result: Seq<Value>) -> Outcome {
    if m.data.len() < n {
        failed(with_data(m, Seq::empty()), Fault::Stack)
    } else {
        ok(with_data(m, result + m.data.skip(n as int)))
    }
}

/// A word that rewrites the top of the data stack if it is an integer, and
/// does nothing otherwise.
pub open spec fn rewrite_top(m: Machine, to: spec_fn(i64) -> i64) -> Outcome {
    if m.data.len() > 0 && m.data[0] is Int {
        ok(with_data(m, m.data.update(0, Value::Int(to(m.data[0]->Int_0)))))
    } else {
        ok(m)
    }
}

/// A word that copies the value `depth` places below the top of the return
/// stack onto the data stack.
pub open spec fn fetch_index(m: Machine, depth: int) -> Outcome {
    if depth < m.ret.len() {
        ok(with_data(m, seq![m.ret[depth]] + m.data))
    } else {
        failed(m, Fault::Stack)
    }
}

/// A word that takes the top of the data stack and writes its printed form.
pub open spec fn print_top(m: Machine) -> Outcome {
    if m.data.len() == 0 {
        failed(m, Fault::Stack)
    } else {
        ok(emit(with_data(m, m.data.drop_first()), display(m.data[0])))
    }
}

/// The printed forms, each between two spaces, of the `n` values at the
/// bottom of a stack, the bottom first.
pub open spec fn listing(data: Seq<Value>, n: int) -> Seq<Seq<char>>
    decreases n,
{
    if n <= 0 || n > data.len() {
        Seq::empty()
    } else {
        listing(data, n - 1).push(seq![' '] + display(data[data.len() - n]) + seq![' '])
    }
}

/// The head line of a stack dump: the depth between ` <` and `> `.
pub open spec fn depth_text(n: nat) -> Seq<char> {
    seq![' ', '<'] + decimal(n as int) + seq!['>', ' ']
}

/// What is left of the input after an inline comment: the tokens behind the
/// first one that ends in `)`, or `None` when there is no such token.
pub open spec fn after_comment(input: Seq<Seq<char>>) -> Option<Seq<Seq<char>>>
    decreases input.len(),
{
    if input.len() == 0 {
        None
    } else if ends_with(input[0], ')') {
        Some(input.drop_first())
    } else {
        after_comment(input.drop_first())
    }
}

/// The end of a counted loop's round. The index, on top of the return stack,
/// moves to `next`; while `go_on` holds the index and the limit stay and the
/// word leaves 1, otherwise both are gone and it leaves 0.
pub open spec fn loop_round(m: Machine, next: Value, upwards: bool) -> Outcome {
    if m.ret.len() < 2 {
        failed(with_ret(m, Seq::empty()), Fault::Stack)
    } else {
        let limit = m.ret[1];
        let go_on = if upwards {
            value_lt(next, limit)
        } else {
            value_lt(limit, next)
        };
        if go_on {
            ok(
                Machine {
                    ret: seq![next, limit] + m.ret.skip(2),
                    data: seq![Value::Int(1)] + m.data,
                    ..m
                },
            )
        } else {
            ok(Machine { ret: m.ret.skip(2), data: seq![Value::Int(0)] + m.data, ..m })
        }
    }
}

/// What a native word does to the machine.
pub open spec fn word_effect(w: Word, m: Machine) -> Outcome {
    let d = m.data;
    match w {
        Word::Unimplemented => failed(m, Fault::Unimplemented("Function"@)),
        Word::Dot => print_top(m),
        Word::PrintString => print_top(m),
        Word::Plus => replace_top(m, 2, seq![value_plus(d[1], d[0])]),
        Word::Minus => replace_top(m, 2, seq![value_minus(d[1], d[0])]),
        Word::Times => replace_top(m, 2, seq![value_times(d[1], d[0])]),
        Word::Div => replace_top(m, 2, seq![value_divide(d[1], d[0])]),
        Word::Modulo => replace_top(m, 2, seq![value_divide(d[1], d[0]), value_modulo(d[1], d[0])]),
        Word::Max => replace_top(m, 2, seq![if value_lt(d[0], d[1]) { d[1] } else { d[0] }]),
        Word::Min => replace_top(m, 2, seq![if value_lt(d[1], d[0]) { d[1] } else { d[0] }]),
        Word::Eq => replace_top(m, 2, seq![truth(d[0] == d[1])]),
        Word::Dup => replace_top(m, 1, seq![d[0], d[0]]),
        Word::Drop => replace_top(m, 1, Seq::empty()),
        Word::Swap => replace_top(m, 2, seq![d[1], d[0]]),
        Word::Rot => replace_top(m, 3, seq![d[2], d[0], d[1]]),
        Word::Nip => replace_top(m, 2, seq![d[0]]),
        Word::Tuck => replace_top(m, 2, seq![d[0], d[1], d[0]]),
        Word::Over => replace_top(m, 2, seq![d[1], d[0], d[1]]),
        Word::Negate => rewrite_top(m, |x: i64| x.wrapping_mul(-1i64)),
        Word::Abs => rewrite_top(m, |x: i64| absolute(x)),
        Word::OneMinus => rewrite_top(m, |x: i64| x.wrapping_sub(1)),
        Word::QDup => if d.len() > 0 && d[0] != Value::Int(0) {
            ok(with_data(m, seq![d[0]] + d))
        } else {
            ok(m)
        },
        Word::I => fetch_index(m, 0),
        Word::J => fetch_index(m, 1),
        Word::Cr => ok(emit(m, seq!['\n'])),
        Word::Space => ok(emit(m, seq![' '])),
        Word::DotS => ok(
            emit(
                emit_all(emit(m, depth_text(d.len())), listing(d, d.len() as int)),
                seq!['\n'],
            ),
        ),
        Word::LineComment => ok(with_input(m, Seq::empty())),
        Word::InlineComment => match after_comment(m.input) {
            Some(rest) => ok(with_input(m, rest)),
            None => failed(with_input(m, Seq::empty()), Fault::Parser("EOL"@)),
        },
        Word::Do => if d.len() < 2 {
            failed(with_data(m, Seq::empty()), Fault::Stack)
        } else {
            ok(Machine { data: d.skip(2), ret: seq![d[0], d[1]] + m.ret, ..m })
        },
        Word::Loop => loop_round(m, value_plus(m.ret[0], Value::Int(1)), true),
        Word::PlusLoop => if d.len() == 0 {
            failed(m, Fault::Stack)
        } else {
            loop_round(with_data(m, d.drop_first()), value_plus(m.ret[0], d[0]), true)
        },
        Word::MinusLoop => if d.len() == 0 {
            failed(m, Fault::Stack)
        } else {
            loop_round(with_data(m, d.drop_first()), value_minus(m.ret[0], d[0]), false)
        },
    }
}

/// A native word never adds input and never adds steps.
pub proof fn lemma_word_effect_bounds(w: Word, m: Machine)
    ensures
        word_effect(w, m).machine.input.len() <= m.input.len(),
        word_effect(w, m).machine.steps_left == m.steps_left,
        word_effect(w, m).machine.words == m.words,
{
    if w == Word::InlineComment {
        lemma_after_comment_shorter(m.input);
    }
    if w == Word::DotS {
        let head = emit(m, depth_text(m.data.len()));
        lemma_emit_all_output_only(head, listing(m.data, m.data.len() as int));
    }
}

/// Writing changes nothing but the output.
pub proof fn lemma_emit_all_output_only(m: Machine, fragments: Seq<Seq<char>>)
    ensures
        emit_all(m, fragments) == (Machine { output: emit_all(m, fragments).output, ..m }),
    decreases fragments.len(),
{
    if fragments.len() > 0 {
        lemma_emit_all_output_only(m, fragments.drop_last());
    }
}

/// An inline comment only ever removes tokens.
pub proof fn lemma_after_comment_shorter(input: Seq<Seq<char>>)
    ensures
        after_comment(input) is Some ==> after_comment(input)->Some_0.len() < input.len(),
    decreases input.len(),
{
    if input.len() > 0 && !ends_with(input[0], ')') {
        lemma_after_comment_shorter(input.drop_first());
    }
}

/// The step that a branch takes: its offset if it jumps, 1 if it falls
/// through.
pub open spec fn branch_step(jump: bool, offset: i64) -> int {
    if jump {
        offset as int
    } else {
        1
    }
}

/// Runs `program` from position `pc` until the position leaves the program,
/// a `Return` is met, a fault occurs or the steps run out. Every cell that
/// is executed costs one step.
///
/// The test on the steps before it goes on makes the definition
/// well-founded; it never fails, since no cell adds steps
/// ([`lemma_step_bounds`]).
pub open spec fn run(program: Seq<Op>, pc: int, m: Machine) -> Outcome
    decreases m.steps_left, 0int,
{
    if pc < 0 || pc >= program.len() {
        ok(m)
    } else if m.steps_left == 0 {
        failed(m, Fault::Executor)
    } else {
        let m1 = Machine { steps_left: (m.steps_left - 1) as nat, ..m };
        let after = step(program[pc], m1);
        if after.outcome.fault is Some || after.stop {
            after.outcome
        } else if after.outcome.machine.steps_left < m.steps_left {
            run(program, pc + after.advance, after.outcome.machine)
        } else {
            after.outcome
        }
    }
}

/// One executed cell: the machine after it, whether the routine ends here,
/// and by how much the position moves otherwise.
pub struct Stepped {
    pub outcome: Outcome,
    pub stop: bool,
    pub advance: int,
}

/// A cell after which the routine goes on, `advance` cells further.
pub open spec fn onward(outcome: Outcome, advance: int) -> Stepped {
    Stepped { outcome, stop: false, advance }
}

/// A conditional branch: the offset is on top of the data stack, the flag
/// below it. It jumps when the flag is zero (`on_zero`) or not zero.
pub open spec fn branch_if(m: Machine, on_zero: bool) -> Stepped {
    let d = m.data;
    if d.len() == 0 {
        onward(failed(m, Fault::Stack), 1)
    } else if !(d[0] is Int) {
        onward(failed(with_data(m, d.drop_first()), Fault::Executor), 1)
    } else if d.len() == 1 {
        onward(failed(with_data(m, Seq::empty()), Fault::Stack), 1)
    } else {
        onward(
            ok(with_data(m, d.skip(2))),
            branch_step((d[1] == Value::Int(0)) == on_zero, d[0]->Int_0),
        )
    }
}

/// What one cell does.
pub open spec fn step(op: Op, m: Machine) -> Stepped
    decreases m.steps_left, 1int,
{
    match op {
        Op::Exec(w) => onward(word_effect(w, m), 1),
        Op::Compiled(w) => onward(word_effect(w, m), 1),
        Op::Call(name) => if m.words.contains_key(lowered(name)) {
            onward(run(m.words[lowered(name)], 0, m), 1)
        } else {
            onward(failed(m, Fault::Unimplemented(name)), 1)
        },
        Op::Data(v) => onward(ok(with_data(m, seq![v] + m.data)), 1),
        Op::Return => Stepped { outcome: ok(m), stop: true, advance: 1 },
        Op::Branch => if m.data.len() == 0 {
            onward(failed(m, Fault::Stack), 1)
        } else if !(m.data[0] is Int) {
            onward(failed(with_data(m, m.data.drop_first()), Fault::Executor), 1)
        } else {
            onward(ok(with_data(m, m.data.drop_first())), m.data[0]->Int_0 as int)
        },
        Op::BranchIfZero => branch_if(m, true),
        Op::BranchIfNotZero => branch_if(m, false),
        Op::Compiler(_) => onward(failed(m, Fault::Parser("compile-only word at runtime"@)), 1),
    }
}

/// What a call of the executor's stepping function stands for: `Ok(None)`
/// ends the routine, `Ok(Some(n))` moves the position by `n`.
pub open spec fn stepped(r: Result<Option<i64>, Error>, m: Machine) -> Stepped {
    match r {
        Ok(Some(advance)) => onward(ok(m), advance as int),
        Ok(None) => Stepped { outcome: ok(m), stop: true, advance: 1 },
        Err(e) => onward(failed(m, e@), 1),
    }
}

/// Running a routine never adds input, never adds steps and leaves the
/// dictionary alone.
pub proof fn lemma_run_bounds(program: Seq<Op>, pc: int, m: Machine)
    ensures
        run(program, pc, m).machine.input.len() <= m.input.len(),
        run(program, pc, m).machine.steps_left <= m.steps_left,
        run(program, pc, m).machine.words == m.words,
    decreases m.steps_left, 0int,
{
    if 0 <= pc < program.len() && m.steps_left > 0 {
        let m1 = Machine { steps_left: (m.steps_left - 1) as nat, ..m };
        lemma_step_bounds(program[pc], m1);
        let after = step(program[pc], m1);
        if !(after.outcome.fault is Some || after.stop) {
            lemma_run_bounds(program, pc + after.advance, after.outcome.machine);
        }
    }
}

/// One cell never adds input, never adds steps and leaves the dictionary
/// alone.
pub proof fn lemma_step_bounds(op: Op, m: Machine)
    ensures
        step(op, m).outcome.machine.input.len() <= m.input.len(),
        step(op, m).outcome.machine.steps_left <= m.steps_left,
        step(op, m).outcome.machine.words == m.words,
    decreases m.steps_left, 1int,
{
    match op {
        Op::Exec(w) => lemma_word_effect_bounds(w, m),
        Op::Compiled(w) => lemma_word_effect_bounds(w, m),
        Op::Call(name) => {
            if m.words.contains_key(lowered(name)) {
                lemma_run_bounds(m.words[lowered(name)], 0, m);
            }
        },
        _ => {},
    }
}

/// An offset as a 64-bit integer, held at the nearest bound if it is out of
/// range.
pub open spec fn offset(n: int) -> i64 {
    if n > i64::MAX {
        i64::MAX
    } else if n < i64::MIN {
        i64::MIN
    } else {
        n as i64
    }
}

/// The code of `IF t ELSE f THEN`. The conditional branch skips `t` and the
/// jump behind it when the flag is zero; the jump skips `f`.
pub open spec fn if_code(t: Seq<Op>, f: Seq<Op>) -> Seq<Op> {
    seq![Op::Data(Value::Int(offset(t.len() as int + 3))), Op::BranchIfZero] + t + seq![
        Op::Data(Value::Int(offset(f.len() as int + 1))),
        Op::Branch,
    ] + f
}

/// The code of `DO body LOOP`, where `end` is the run-time word of the
/// closing `loop`, `+loop` or `-loop`. The branch at the end leads back to
/// the first cell of the body.
pub open spec fn do_code(body: Seq<Op>, end: Word) -> Seq<Op> {
    seq![Op::Exec(Word::Do)] + body + seq![
        Op::Exec(end),
        Op::Data(Value::Int(offset(-(body.len() as int + 2)))),
        Op::BranchIfNotZero,
    ]
}

/// The code of a string literal: push the text, print it.
pub open spec fn quote_code(text: Seq<char>) -> Seq<Op> {
    seq![Op::Data(Value::Text(text)), Op::Exec(Word::PrintString)]
}

/// A token without the double quotes at its end.
pub open spec fn trim_quotes(token: Seq<char>) -> Seq<char>
    decreases token.len(),
{
    if ends_with(token, '"') {
        trim_quotes(token.drop_last())
    } else {
        token
    }
}

/// `buffer` with `word` behind it, a blank between the two if neither is
/// empty.
pub open spec fn joined(buffer: Seq<char>, word: Seq<char>) -> Seq<char> {
    if word.len() == 0 {
        buffer
    } else if buffer.len() == 0 {
        word
    } else {
        buffer + seq![' '] + word
    }
}

/// A string literal read from the input: its text (`None` when the closing
/// quote is missing) and the tokens left behind it.
pub struct Quoted {
    pub text: Option<Seq<char>>,
    pub rest: Seq<Seq<char>>,
}

/// Reads a string literal. The tokens up to the first one that ends in a
/// double quote are joined by single blanks; that token gives its part
/// without its trailing quotes.
pub open spec fn quote(input: Seq<Seq<char>>, buffer: Seq<char>) -> Quoted
    decreases input.len(),
{
    if input.len() == 0 {
        Quoted { text: None, rest: input }
    } else if ends_with(input[0], '"') {
        Quoted { text: Some(joined(buffer, trim_quotes(input[0]))), rest: input.drop_first() }
    } else {
        quote(input.drop_first(), joined(buffer, input[0]))
    }
}

/// What is left of the input after a string literal is never longer than
/// the input.
pub proof fn lemma_quote_shorter(input: Seq<Seq<char>>, buffer: Seq<char>)
    ensures
        quote(input, buffer).rest.len() <= input.len(),
    decreases input.len(),
{
    if input.len() > 0 && !ends_with(input[0], '"') {
        lemma_quote_shorter(input.drop_first(), joined(buffer, input[0]));
    }
}

/// Whether a cell is one of the three branches.
pub open spec fn is_branch(op: Op) -> bool {
    op is Branch || op is BranchIfZero || op is BranchIfNotZero
}

/// Whether a cell pushes an integer literal.
pub open spec fn is_offset(op: Op) -> bool {
    op is Data && op->Data_0 is Int
}

/// Every branch of the code stands directly behind a cell that pushes an
/// integer: its offset.
pub open spec fn guarded(code: Seq<Op>) -> bool {
    forall|i: int|
        0 <= i < code.len() && is_branch(#[trigger] code[i]) ==> i > 0 && is_offset(code[i - 1])
}

/// The cells that a compilation hands back, on success or with the token
/// that stopped it.
pub open spec fn code_of(result: Result<Seq<Op>, Fault>) -> Seq<Op> {
    match result {
        Ok(code) => code,
        Err(Fault::Compiler(code, _)) => code,
        Err(_) => Seq::empty(),
    }
}

/// The end-of-line marker that stands for a token when the input ran out.
pub open spec fn eol() -> Seq<char> {
    seq!['E', 'O', 'L']
}

/// A compilation that stopped at `token` with `cells` emitted.
pub open spec fn stopped(m: Machine, cells: Seq<Op>, token: Seq<char>) -> Emitted {
    Emitted { machine: m, result: Err(Fault::Compiler(cells, token)) }
}

/// Compiles tokens from the input into cells behind `acc`, up to a `;`
/// (success), up to a token that is neither a word nor a number (the token
/// comes back with the cells so far), or up to the end of the input (the
/// same, with the end-of-line marker as the token).
///
/// A word whose routine is a single immediate cell is expanded in place;
/// any other word becomes a call by name; a number becomes a literal.
///
/// The test on the input after an expansion makes the definition
/// well-founded; it never fails, since no immediate word adds input
/// ([`lemma_expand_bounds`]).
pub open spec fn compile_loop(m: Machine, acc: Seq<Op>) -> Emitted
    decreases m.input.len(), 1int,
{
    if m.input.len() == 0 {
        stopped(m, acc, eol())
    } else {
        let token = m.input[0];
        let m1 = with_input(m, m.input.drop_first());
        if token == seq![';'] {
            Emitted { machine: m1, result: Ok(acc) }
        } else if m.words.contains_key(lowered(token)) {
            let routine = m.words[lowered(token)];
            if routine.len() == 1 && routine[0] is Compiler {
                let e = expand(routine[0]->Compiler_0, m1);
                if e.result is Ok && e.machine.input.len() < m.input.len() {
                    compile_loop(e.machine, acc + e.result->Ok_0)
                } else {
                    e
                }
            } else {
                compile_loop(m1, acc.push(Op::Call(token)))
            }
        } else if literal(token) is Some {
            compile_loop(m1, acc.push(Op::Data(Value::Int(literal(token)->Some_0))))
        } else {
            stopped(m1, acc, token)
        }
    }
}

/// What an immediate word emits.
pub open spec fn expand(w: Immediate, m: Machine) -> Emitted
    decreases m.input.len(), 2int,
{
    match w {
        Immediate::If => {
            let first = compile_loop(m, Seq::empty());
            match first.result {
                Ok(_) => stopped(first.machine, Seq::empty(), eol()),
                Err(Fault::Compiler(t, token)) => if lowered(token) == "else"@ {
                    if first.machine.input.len() <= m.input.len() {
                        let second = compile_loop(first.machine, Seq::empty());
                        match second.result {
                            Ok(_) => stopped(second.machine, Seq::empty(), eol()),
                            Err(Fault::Compiler(f, last)) => if lowered(last) == "then"@ {
                                Emitted { machine: second.machine, result: Ok(if_code(t, f)) }
                            } else {
                                stopped(second.machine, Seq::empty(), last)
                            },
                            Err(_) => second,
                        }
                    } else {
                        first
                    }
                } else if lowered(token) == "then"@ {
                    Emitted { machine: first.machine, result: Ok(if_code(t, Seq::empty())) }
                } else {
                    stopped(first.machine, Seq::empty(), token)
                },
                Err(_) => first,
            }
        },
        Immediate::Do => {
            let first = compile_loop(m, Seq::empty());
            match first.result {
                Ok(body) => stopped(first.machine, body, eol()),
                Err(Fault::Compiler(body, token)) => if lowered(token) == "loop"@ {
                    Emitted { machine: first.machine, result: Ok(do_code(body, Word::Loop)) }
                } else if lowered(token) == "+loop"@ {
                    Emitted { machine: first.machine, result: Ok(do_code(body, Word::PlusLoop)) }
                } else if lowered(token) == "-loop"@ {
                    Emitted { machine: first.machine, result: Ok(do_code(body, Word::MinusLoop)) }
                } else {
                    stopped(first.machine, seq![Op::Exec(Word::Do)], token)
                },
                Err(_) => first,
            }
        },
        Immediate::DotQuote => {
            let q = quote(m.input, Seq::empty());
            match q.text {
                Some(text) => Emitted {
                    machine: with_input(m, q.rest),
                    result: Ok(quote_code(text)),
                },
                None => Emitted {
                    machine: with_input(m, Seq::empty()),
                    result: Err(Fault::Parser(eol())),
                },
            }
        },
    }
}

/// What a call of a compiling function stands for.
pub open spec fn emitted(r: Result<Vec<Cell>, Error>, m: Machine) -> Emitted {
    Emitted {
        machine: m,
        result: match r {
            Ok(cells) => Ok(ops(cells@)),
            Err(e) => Err(e@),
        },
    }
}

/// Compiling only moves the input forward: it never adds tokens, and it
/// changes nothing else in the machine.
pub proof fn lemma_compile_bounds(m: Machine, acc: Seq<Op>)
    ensures
        compile_loop(m, acc).machine.input.len() <= m.input.len(),
        compile_loop(m, acc).machine == with_input(m, compile_loop(m, acc).machine.input),
    decreases m.input.len(), 1int,
{
    if m.input.len() > 0 {
        let token = m.input[0];
        let m1 = with_input(m, m.input.drop_first());
        if token == seq![';'] {
        } else if m.words.contains_key(lowered(token)) {
            let routine = m.words[lowered(token)];
            if routine.len() == 1 && routine[0] is Compiler {
                lemma_expand_bounds(routine[0]->Compiler_0, m1);
                let e = expand(routine[0]->Compiler_0, m1);
                if e.result is Ok && e.machine.input.len() < m.input.len() {
                    lemma_compile_bounds(e.machine, acc + e.result->Ok_0);
                }
            } else {
                lemma_compile_bounds(m1, acc.push(Op::Call(token)));
            }
        } else if literal(token) is Some {
            lemma_compile_bounds(m1, acc.push(Op::Data(Value::Int(literal(token)->Some_0))));
        }
    }
}

/// An immediate word only moves the input forward.
pub proof fn lemma_expand_bounds(w: Immediate, m: Machine)
    ensures
        expand(w, m).machine.input.len() <= m.input.len(),
        expand(w, m).machine == with_input(m, expand(w, m).machine.input),
    decreases m.input.len(), 2int,
{
    match w {
        Immediate::If => {
            lemma_compile_bounds(m, Seq::empty());
            let first = compile_loop(m, Seq::empty());
            lemma_compile_bounds(first.machine, Seq::empty());
        },
        Immediate::Do => {
            lemma_compile_bounds(m, Seq::empty());
        },
        Immediate::DotQuote => {
            lemma_quote_shorter(m.input, Seq::empty());
        },
    }
}

/// What a call of a driver function stands for.
pub open spec fn turned(r: Result<State, Error>, m: Machine) -> Turn {
    Turn {
        machine: m,
        result: match r {
            Ok(s) => Ok(s),
            Err(e) => Err(e@),
        },
    }
}

/// A colon definition is complete once its `;` is in the input.
pub open spec fn fill_buffer(m: Machine) -> Turn {
    Turn {
        machine: m,
        result: Ok(
            if m.input.contains(seq![';']) {
                State::Compile
            } else {
                State::FillBuffer
            },
        ),
    }
}

/// Interprets the input token by token, up to its end or up to a `:`. A
/// token that names a word runs the word's routine; a number is pushed; any
/// other token is a parser error.
///
/// The test on the input after a word makes the definition well-founded; it
/// never fails, since no routine adds input ([`lemma_run_bounds`]).
pub open spec fn interpret(m: Machine) -> Turn
    decreases m.input.len(),
{
    if m.input.len() == 0 {
        Turn { machine: m, result: Ok(State::Interpret) }
    } else if m.input[0] == seq![':'] {
        fill_buffer(m)
    } else {
        let token = m.input[0];
        let m1 = with_input(m, m.input.drop_first());
        if m.words.contains_key(lowered(token)) {
            let o = run(m.words[lowered(token)], 0, m1);
            if o.fault is Some {
                Turn { machine: o.machine, result: Err(o.fault->Some_0) }
            } else if o.machine.input.len() < m.input.len() {
                interpret(o.machine)
            } else {
                Turn { machine: o.machine, result: Ok(State::Interpret) }
            }
        } else if literal(token) is Some {
            interpret(with_data(m1, seq![Value::Int(literal(token)->Some_0)] + m1.data))
        } else {
            Turn { machine: m1, result: Err(Fault::Parser(token)) }
        }
    }
}

/// Compiles a colon definition: drops the leading `:`, takes the next token
/// as the name, compiles up to `;` and installs the routine under the name.
pub open spec fn define_word(m: Machine) -> Turn {
    if m.input.len() < 2 {
        Turn { machine: with_input(m, Seq::empty()), result: Ok(State::Interpret) }
    } else {
        let name = m.input[1];
        let e = compile_loop(with_input(m, m.input.skip(2)), Seq::empty());
        match e.result {
            Ok(routine) => Turn {
                machine: Machine {
                    words: e.machine.words.insert(lowered(name), routine),
                    ..e.machine
                },
                result: Ok(State::Interpret),
            },
            Err(f) => Turn { machine: e.machine, result: Err(f) },
        }
    }
}

/// The line that reports a fault.
pub open spec fn report_line(f: Fault) -> Seq<char> {
    "Error: "@ + fault_text(f) + seq!['\n']
}

/// Reports a fault. A machine that handles its errors drops the rest of
/// the input and goes back to interpreting; another one hands the fault on.
pub open spec fn report(m: Machine, f: Fault) -> Turn {
    let told = emit(m, report_line(f));
    if m.handle_errors {
        Turn { machine: with_input(told, Seq::empty()), result: Ok(State::Interpret) }
    } else {
        Turn { machine: told, result: Err(f) }
    }
}

/// One turn of the driver, by its state.
pub open spec fn turn(m: Machine) -> Turn {
    match m.state {
        State::Interpret => interpret(m),
        State::FillBuffer => fill_buffer(m),
        State::Compile => define_word(m),
    }
}

/// The driver has nothing to do: it waits for the `;` of a definition, or
/// the input is used up and no definition waits to be compiled.
pub open spec fn at_rest(m: Machine) -> bool {
    ||| m.state is FillBuffer && !m.input.contains(seq![';'])
    ||| m.input.len() == 0 && !(m.state is Compile)
}

/// An order on the states in which every turn without input moves down.
pub open spec fn rank(s: State) -> int {
    match s {
        State::Interpret => 2,
        State::FillBuffer => 1,
        State::Compile => 0,
    }
}

/// Whether the driver has moved on from `before` to `after`.
pub open spec fn advanced(before: Machine, after: Machine) -> bool {
    after.input.len() < before.input.len() || (after.input.len() == before.input.len() && rank(
        after.state,
    ) < rank(before.state))
}

/// Runs the driver until it is at rest or a fault is handed on. A fault is
/// reported; a machine that handles its errors then rests, ready to
/// interpret. A turn that neither uses input nor moves down in the order of
/// the states ends the run as well: there is one such turn, that of a
/// machine set to compile with nothing in its input.
pub open spec fn pump(m: Machine) -> Outcome
    decreases m.input.len(), rank(m.state),
{
    if at_rest(m) {
        ok(m)
    } else {
        let t = turn(m);
        match t.result {
            Ok(s) => {
                let next = Machine { state: s, ..t.machine };
                if advanced(m, next) {
                    pump(next)
                } else {
                    ok(next)
                }
            },
            Err(f) => {
                let r = report(t.machine, f);
                match r.result {
                    Ok(s) => ok(Machine { state: s, ..r.machine }),
                    Err(f) => failed(Machine { state: State::Interpret, ..r.machine }, f),
                }
            },
        }
    }
}

/// The machine as an evaluation finds it: the new tokens behind those that
/// waited, and the full number of steps.
pub open spec fn fed(m: Machine, tokens: Seq<Seq<char>>) -> Machine {
    Machine { input: m.input + tokens, steps_left: m.step_limit, ..m }
}

} // verus!
