use crate::builtins::compiled::{
    compiletime_do, compiletime_dot_q, compiletime_if, runtime_do, runtime_dot_q, runtime_loop,
    runtime_minus_loop, runtime_plus_loop,
};
use crate::builtins::core_words::{
    abs, cr, div, dot, drop, dup, eq, i, icomment, j, lcomment, max, min, minus, modulo, negate,
    nip, one_minus, over, plus, qdup, rot, space, swap, times, tuck, unimplemented,
};
use crate::builtins::tools::dot_s;
use crate::dictionary::{ops, Cell, Dictionary, Immediate, Op, Word};
use crate::error::Error;
use crate::laws::lemma_compile_guarded;
use crate::machine::{
    code_of, compile_loop, define_word, emit, emitted, eol, expand, fed, fill_buffer, guarded,
    interpret, lemma_compile_bounds, lemma_expand_bounds, lemma_run_bounds, lemma_step_bounds,
    outcome, pump, rank, report, report_line, run, step, stepped, turned, with_input, word_effect,
    Machine, State,
};
use crate::stack::Stack;
use crate::text::{parse_int, texts, tokenize, words};
use crate::variable::{Value, Variable};
use std::collections::VecDeque;
use vstd::prelude::*;
use vstd::string::StringExecFns;

verus! {

/// The number of steps that a fresh machine grants to one evaluation.
pub const DEFAULT_STEP_LIMIT: u64 = 100_000_000;

/// The whole Forth machine.
#[derive(Debug)]
pub struct VM {
    /// The operands.
    pub value_stack: Stack,
    /// The loop counters.
    pub return_stack: Stack,
    /// The words that can be called.
    pub dictionary: Dictionary,
    /// Everything written so far, fragment by fragment.
    pub output: Vec<String>,
    /// A muted machine drops what it is asked to write.
    pub mute: bool,
    pub state: State,
    /// Whether an error is reported and swallowed, or handed to the caller.
    pub handle_errors: bool,
    /// The tokens that wait to be read.
    pub input_buffer: VecDeque<String>,
    /// How many cells and tokens may still be executed.
    pub steps_left: u64,
    /// The value that `steps_left` starts from at each evaluation.
    pub step_limit: u64,
}

impl View for VM {
    type V = Machine;

    open spec fn view(&self) -> Machine {
        Machine {
            data: self.value_stack@,
            ret: self.return_stack@,
            words: self.dictionary@,
            output: texts(self.output@),
            mute: self.mute,
            state: self.state,
            handle_errors: self.handle_errors,
            input: texts(self.input_buffer@),
            steps_left: self.steps_left as nat,
            step_limit: self.step_limit as nat,
        }
    }
}

/// A machine that has done nothing yet.
pub open spec fn fresh(mute: bool) -> Machine {
    Machine {
        data: Seq::empty(),
        ret: Seq::empty(),
        words: Map::empty(),
        output: Seq::empty(),
        mute,
        state: State::Interpret,
        handle_errors: true,
        input: Seq::empty(),
        steps_left: DEFAULT_STEP_LIMIT as nat,
        step_limit: DEFAULT_STEP_LIMIT as nat,
    }
}

impl State {
    /// Whether the driver can take more input in this state.
    pub fn is_idling(&self) -> (r: bool)
        ensures
            r == !(*self is Compile),
    {
        match self {
            State::Interpret => true,
            State::FillBuffer => true,
            State::Compile => false,
        }
    }
}

impl VM {
    /// A machine with an empty dictionary that records what it writes.
    pub fn new() -> (r: VM)
        ensures
            r@ == fresh(false),
    {
        let r = VM {
            value_stack: Stack::new(),
            return_stack: Stack::new(),
            dictionary: Dictionary::new(),
            output: Vec::new(),
            mute: false,
            state: State::Interpret,
            handle_errors: true,
            input_buffer: VecDeque::new(),
            steps_left: DEFAULT_STEP_LIMIT,
            step_limit: DEFAULT_STEP_LIMIT,
        };
        assert(r@.output =~= Seq::empty());
        assert(r@.input =~= Seq::empty());
        r
    }

    /// A machine with an empty dictionary that drops what it writes.
    pub fn new_null() -> (r: VM)
        ensures
            r@ == fresh(true),
    {
        let mut r = VM::new();
        r.mute = true;
        r
    }

    /// Hands a fragment to the sink.
    pub fn write(&mut self, text: String)
        ensures
            final(self)@ == emit(old(self)@, text@),
    {
        if !self.mute {
            self.output.push(text);
            assert(self@.output =~= old(self)@.output.push(text@));
        }
    }

    /// Takes the next token out of the input buffer.
    pub fn next_token(&mut self) -> (r: Option<String>)
        ensures
            match r {
                Some(token) => old(self)@.input.len() > 0 && token@ == old(self)@.input[0]
                    && final(self)@ == with_input(old(self)@, old(self)@.input.drop_first()),
                None => old(self)@.input.len() == 0 && final(self)@ == old(self)@,
            },
    {
        let r = self.input_buffer.pop_front();
        assert(self@.input =~= if r is Some {
            old(self)@.input.drop_first()
        } else {
            old(self)@.input
        });
        r
    }

    /// Runs a native word.
    pub fn apply(&mut self, w: Word) -> (r: Result<(), Error>)
        ensures
            outcome(r, final(self)@) == word_effect(w, old(self)@),
    {
        match w {
            Word::Unimplemented => unimplemented(self),
            Word::Dot => dot(self),
            Word::Plus => plus(self),
            Word::Minus => minus(self),
            Word::Times => times(self),
            Word::Max => max(self),
            Word::Min => min(self),
            Word::Div => div(self),
            Word::Modulo => modulo(self),
            Word::Dup => dup(self),
            Word::Swap => swap(self),
            Word::Rot => rot(self),
            Word::Nip => nip(self),
            Word::Tuck => tuck(self),
            Word::Over => over(self),
            Word::Drop => drop(self),
            Word::LineComment => lcomment(self),
            Word::InlineComment => icomment(self),
            Word::Negate => negate(self),
            Word::Eq => eq(self),
            Word::Abs => abs(self),
            Word::Cr => cr(self),
            Word::Space => space(self),
            Word::OneMinus => one_minus(self),
            Word::QDup => qdup(self),
            Word::I => i(self),
            Word::J => j(self),
            Word::DotS => dot_s(self),
            Word::PrintString => runtime_dot_q(self),
            Word::Do => runtime_do(self),
            Word::Loop => runtime_loop(self),
            Word::PlusLoop => runtime_plus_loop(self),
            Word::MinusLoop => runtime_minus_loop(self),
        }
    }

    /// A conditional branch: takes the offset and the flag off the data
    /// stack and says how far to move.
    fn branch_if(&mut self, on_zero: bool) -> (r: Result<Option<i64>, Error>)
        ensures
            stepped(r, final(self)@) == crate::machine::branch_if(old(self)@, on_zero),
    {
        let offset = match self.value_stack.pop() {
            Ok(Variable::Int(offset)) => offset,
            Ok(_) => {
                return Err(Error::Executor);
            },
            Err(e) => {
                return Err(e);
            },
        };
        let flag = match self.value_stack.pop() {
            Ok(flag) => flag,
            Err(e) => {
                assert(self@.data =~= Seq::empty());
                return Err(e);
            },
        };
        assert(self@.data =~= old(self)@.data.skip(2));
        if flag.equals(&Variable::Int(0)) == on_zero {
            Ok(Some(offset))
        } else {
            Ok(Some(1))
        }
    }

    /// Executes one cell. `Ok(None)` means that the routine ends here,
    /// `Ok(Some(n))` that the position moves by `n`.
    pub fn step(&mut self, cell: &Cell) -> (r: Result<Option<i64>, Error>)
        ensures
            stepped(r, final(self)@) == step(cell@, old(self)@),
        decreases old(self).steps_left, 1int,
    {
        match cell {
            Cell::Exec(w) => {
                self.apply(*w)?;
                Ok(Some(1))
            },
            Cell::Compiled(w) => {
                self.apply(*w)?;
                Ok(Some(1))
            },
            Cell::Call(name) => {
                let routine = self.dictionary.get(name.as_str())?;
                self.execute(routine)?;
                Ok(Some(1))
            },
            Cell::Data(v) => {
                self.value_stack.push(v.clone());
                Ok(Some(1))
            },
            Cell::ControlReturn => Ok(None),
            Cell::ControlBranch => match self.value_stack.pop() {
                Ok(Variable::Int(offset)) => Ok(Some(offset)),
                Ok(_) => Err(Error::Executor),
                Err(e) => Err(e),
            },
            Cell::ControlBranchIfZero => self.branch_if(true),
            Cell::ControlBranchIfNotZero => self.branch_if(false),
            Cell::Compiler(_) => Err(
                Error::Parser(String::from_str("compile-only word at runtime")),
            ),
        }
    }

    /// Executes a routine from its first cell on: until the position leaves
    /// the routine, a `Return` is met, a cell fails or the steps run out.
    /// Every executed cell costs one of `steps_left`; with none left the
    /// routine fails with `Executor`.
    pub fn execute(&mut self, program: Vec<Cell>) -> (r: Result<(), Error>)
        ensures
            outcome(r, final(self)@) == run(ops(program@), 0, old(self)@),
        decreases old(self).steps_left, 0int,
    {
        let mut pc: usize = 0;
        while pc < program.len()
            invariant
                run(ops(program@), pc as int, self@) == run(ops(program@), 0, old(self)@),
                self.steps_left <= old(self).steps_left,
            decreases self.steps_left,
        {
            if self.steps_left == 0 {
                return Err(Error::Executor);
            }
            self.steps_left = self.steps_left - 1;
            proof {
                lemma_step_bounds(ops(program@)[pc as int], self@);
            }
            let advance = match self.step(&program[pc]) {
                Ok(Some(advance)) => advance,
                Ok(None) => {
                    return Ok(());
                },
                Err(e) => {
                    return Err(e);
                },
            };
            let target: i128 = pc as i128 + advance as i128;
            if target < 0 || target >= program.len() as i128 {
                assert(run(ops(program@), target as int, self@) == crate::machine::ok(self@));
                return Ok(());
            }
            pc = target as usize;
        }
        Ok(())
    }

    /// Runs an immediate word: it reads what it needs from the input and
    /// hands back the cells that stand for it.
    pub fn expand(&mut self, w: Immediate) -> (r: Result<Vec<Cell>, Error>)
        ensures
            emitted(r, final(self)@) == expand(w, old(self)@),
        decreases old(self)@.input.len(), 3int,
    {
        match w {
            Immediate::If => compiletime_if(self),
            Immediate::Do => compiletime_do(self),
            Immediate::DotQuote => compiletime_dot_q(self),
        }
    }

    /// Compiles the tokens of the input buffer into a routine, up to `;`.
    /// A token that is neither a word nor a number stops the compiler: it
    /// comes back in a `Compiler` error with the cells emitted so far, and
    /// so does the end of the input, as the token `EOL`.
    pub fn compile(&mut self) -> (r: Result<Vec<Cell>, Error>)
        ensures
            emitted(r, final(self)@) == compile_loop(old(self)@, Seq::empty()),
            guarded(code_of(emitted(r, final(self)@).result)),
        decreases old(self)@.input.len(), 1int,
    {
        proof {
            lemma_compile_guarded(self@, Seq::empty());
        }
        proof {
            reveal_strlit(";");
        }
        let end = String::from_str(";");
        assert(end@ =~= seq![';']);
        let mut function: Vec<Cell> = Vec::new();
        assert(ops(function@) =~= Seq::empty());
        loop
            invariant
                end@ == seq![';'],
                compile_loop(self@, ops(function@)) == compile_loop(old(self)@, Seq::empty()),
                guarded(code_of(compile_loop(old(self)@, Seq::empty()).result)),
                self@.input.len() <= old(self)@.input.len(),
            decreases self@.input.len(),
        {
            let ghost before = self@;
            let ghost acc = ops(function@);
            let token = match self.next_token() {
                Some(token) => token,
                None => {
                    proof {
                        reveal_strlit("EOL");
                    }
                    let marker = String::from_str("EOL");
                    assert(marker@ =~= eol());
                    return Err(Error::Compiler(function, marker));
                },
            };
            if token == end {
                return Ok(function);
            }
            match self.dictionary.get(token.as_str()) {
                Ok(routine) => {
                    let immediate = if routine.len() == 1 {
                        match &routine[0] {
                            Cell::Compiler(w) => Some(*w),
                            _ => None,
                        }
                    } else {
                        None
                    };
                    match immediate {
                        Some(w) => {
                            proof {
                                lemma_expand_bounds(w, self@);
                            }
                            let mut cells = self.expand(w)?;
                            let ghost emitted_cells = ops(cells@);
                            function.append(&mut cells);
                            assert(ops(function@) =~= acc + emitted_cells);
                        },
                        None => {
                            function.push(Cell::Call(token));
                            assert(ops(function@) =~= acc.push(Op::Call(token@)));
                        },
                    }
                },
                Err(_) => match parse_int(token.as_str()) {
                    Some(n) => {
                        function.push(Cell::Data(Variable::Int(n)));
                        assert(ops(function@) =~= acc.push(Op::Data(Value::Int(n))));
                    },
                    None => {
                        return Err(Error::Compiler(function, token));
                    },
                },
            }
        }
    }

    /// Whether the input buffer holds a `;`.
    pub fn definition_complete(&self) -> (r: bool)
        ensures
            r == self@.input.contains(seq![';']),
    {
        proof {
            reveal_strlit(";");
        }
        let end = String::from_str(";");
        assert(end@ =~= seq![';']);
        let n = self.input_buffer.len();
        let mut k: usize = 0;
        while k < n
            invariant
                k <= n,
                n == self.input_buffer@.len(),
                end@ == seq![';'],
                forall|i: int| 0 <= i < k ==> self@.input[i] != seq![';'],
            decreases n - k,
        {
            if self.input_buffer[k] == end {
                assert(self@.input[k as int] == seq![';']);
                return true;
            }
            k = k + 1;
        }
        false
    }

    /// The state after `:` was seen: `Compile` once the `;` is there,
    /// `FillBuffer` until then.
    pub fn state_fill_buffer(&mut self) -> (r: Result<State, Error>)
        ensures
            turned(r, final(self)@) == fill_buffer(old(self)@),
    {
        if self.definition_complete() {
            Ok(State::Compile)
        } else {
            Ok(State::FillBuffer)
        }
    }

    /// Compiles the definition that waits in the input buffer and installs
    /// it.
    pub fn state_compile(&mut self) -> (r: Result<State, Error>)
        ensures
            turned(r, final(self)@) == define_word(old(self)@),
    {
        let _ = self.next_token();
        match self.next_token() {
            Some(name) => {
                assert(self@.input =~= old(self)@.input.skip(2));
                let function = self.compile()?;
                proof {
                    let body = with_input(old(self)@, old(self)@.input.skip(2));
                    lemma_compile_bounds(body, Seq::empty());
                }
                self.dictionary.add(name.as_str(), function);
            },
            None => {
                assert(self@.input =~= Seq::empty());
            },
        }
        Ok(State::Interpret)
    }

    /// Interprets the input buffer up to its end or up to a `:`.
    pub fn state_interpret(&mut self) -> (r: Result<State, Error>)
        ensures
            turned(r, final(self)@) == interpret(old(self)@),
    {
        proof {
            reveal_strlit(":");
        }
        let colon = String::from_str(":");
        assert(colon@ =~= seq![':']);
        loop
            invariant
                interpret(self@) == interpret(old(self)@),
                colon@ == seq![':'],
            decreases self@.input.len(),
        {
            if self.input_buffer.len() == 0 {
                return Ok(State::Interpret);
            }
            if self.input_buffer[0] == colon {
                return self.state_fill_buffer();
            }
            let ghost before = self@;
            let token = match self.next_token() {
                Some(token) => token,
                None => {
                    return Ok(State::Interpret);
                },
            };
            match self.dictionary.get(token.as_str()) {
                Ok(word) => {
                    proof {
                        lemma_run_bounds(ops(word@), 0, self@);
                    }
                    self.execute(word)?;
                },
                Err(_) => match parse_int(token.as_str()) {
                    Some(n) => {
                        self.value_stack.push(Variable::Int(n));
                    },
                    None => {
                        return Err(Error::Parser(token));
                    },
                },
            }
        }
    }

    /// Reports an error on the sink. A machine that handles its errors
    /// then drops the rest of the input and goes on interpreting; another
    /// one hands the error back.
    pub fn state_error(&mut self, error: Error) -> (r: Result<State, Error>)
        ensures
            turned(r, final(self)@) == report(old(self)@, error@),
    {
        proof {
            reveal_strlit("\n");
        }
        let mut line = String::from_str("Error: ");
        line.append(error.to_string().as_str());
        line.append("\n");
        assert(line@ =~= report_line(error@));
        self.write(line);
        if self.handle_errors {
            self.input_buffer.clear();
            assert(self@.input =~= Seq::empty());
            Ok(State::Interpret)
        } else {
            Err(error)
        }
    }

    /// Puts tokens behind those that wait in the input buffer.
    pub fn feed(&mut self, tokens: Vec<String>)
        ensures
            final(self)@ == (Machine { input: old(self)@.input + texts(tokens@), ..old(self)@ }),
    {
        let mut tokens = tokens;
        let ghost all = texts(tokens@);
        let n = tokens.len();
        let mut k: usize = 0;
        assert(self@.input =~= old(self)@.input + all.take(0));
        while k < n
            invariant
                k <= n,
                n == tokens@.len(),
                all == texts(tokens@),
                self@ == (Machine { input: old(self)@.input + all.take(k as int), ..old(self)@ }),
            decreases n - k,
        {
            let token = tokens[k].clone();
            let ghost waiting = self.input_buffer@;
            let ghost text = token@;
            self.input_buffer.push_back(token);
            k = k + 1;
            assert(all[k as int - 1] == text);
            assert(all.take(k as int) =~= all.take(k as int - 1).push(text));
            assert(texts(waiting.push(token)) =~= texts(waiting).push(text));
            assert((old(self)@.input + all.take(k as int - 1)).push(text) =~= old(self)@.input
                + all.take(k as int));
        }
        assert(all.take(n as int) =~= all);
    }

    /// The place of the state in the order that [`rank`] gives.
    fn state_rank(&self) -> (r: u8)
        ensures
            r == rank(self.state),
    {
        match self.state {
            State::Interpret => 2,
            State::FillBuffer => 1,
            State::Compile => 0,
        }
    }

    /// Takes an input line and evaluates it: the tokens are interpreted, and
    /// colon definitions are compiled and installed, until the input is used
    /// up or a definition waits for its `;`. Every evaluation starts with the
    /// full number of steps.
    pub fn eval(&mut self, input: &str) -> (r: Result<(), Error>)
        ensures
            outcome(r, final(self)@) == pump(fed(old(self)@, words(input@))),
    {
        self.feed(tokenize(input));
        self.steps_left = self.step_limit;
        loop
            invariant
                pump(self@) == pump(fed(old(self)@, words(input@))),
            decreases self@.input.len(), rank(self.state),
        {
            let waiting = match self.state {
                State::FillBuffer => !self.definition_complete(),
                State::Interpret => self.input_buffer.len() == 0,
                State::Compile => false,
            };
            if waiting {
                return Ok(());
            }
            let tokens_before = self.input_buffer.len();
            let rank_before = self.state_rank();
            let new_state = match self.state {
                State::Interpret => self.state_interpret(),
                State::FillBuffer => self.state_fill_buffer(),
                State::Compile => self.state_compile(),
            };
            match new_state {
                Ok(state) => {
                    self.state = state;
                    let tokens = self.input_buffer.len();
                    if !(tokens < tokens_before || (tokens == tokens_before && self.state_rank()
                        < rank_before)) {
                        return Ok(());
                    }
                },
                Err(error) => {
                    match self.state_error(error) {
                        Ok(state) => {
                            self.state = state;
                            return Ok(());
                        },
                        Err(error) => {
                            self.state = State::Interpret;
                            return Err(error);
                        },
                    }
                },
            }
        }
    }
}

} // verus!
