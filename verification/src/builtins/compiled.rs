use crate::builtins::core_words::pop_two;
use crate::context::VM;
use crate::dictionary::{ops, Cell, Immediate, Op, Word};
use crate::error::{Error, Fault};
use crate::machine::{
    do_code, emitted, eol, expand, if_code, joined, lemma_compile_bounds, loop_round, offset,
    outcome, quote, quote_code, trim_quotes, with_input, word_effect,
};
use crate::text::{ends_in, lowercase};
use crate::variable::{value_minus, value_plus, Variable};
use vstd::prelude::*;
use vstd::string::{StrSliceExecFns, StringExecFns};

verus! {

/// The run-time part of `."`: takes the top value and writes it.
pub fn runtime_dot_q(vm: &mut VM) -> (r: Result<(), Error>)
    ensures
        outcome(r, final(vm)@) == word_effect(Word::PrintString, old(vm)@),
{
    let comment = vm.value_stack.pop()?;
    vm.write(comment.to_string());
    Ok(())
}

/// The run-time part of `do`: moves the index (on top) and the limit (below
/// it) from the data stack to the return stack, the index on top again.
pub fn runtime_do(vm: &mut VM) -> (r: Result<(), Error>)
    ensures
        outcome(r, final(vm)@) == word_effect(Word::Do, old(vm)@),
{
    let (index, limit) = pop_two(vm)?;
    vm.return_stack.push(limit);
    vm.return_stack.push(index);
    assert(vm@.ret =~= seq![index@, limit@] + old(vm)@.ret);
    Ok(())
}

/// Ends a round of a counted loop. The index moves by `step`, up or down;
/// the word leaves 1 and keeps index and limit while the index has not
/// reached the limit, and leaves 0 and removes both once it has.
fn end_round(vm: &mut VM, step: Variable, upwards: bool) -> (r: Result<(), Error>)
    ensures
        outcome(r, final(vm)@) == loop_round(
            old(vm)@,
            if upwards {
                value_plus(old(vm)@.ret[0], step@)
            } else {
                value_minus(old(vm)@.ret[0], step@)
            },
            upwards,
        ),
{
    let index = match vm.return_stack.pop() {
        Ok(index) => index,
        Err(e) => {
            assert(vm@.ret =~= Seq::empty());
            return Err(e);
        },
    };
    let i_next = if upwards {
        index.plus(&step)
    } else {
        index.minus(&step)
    };
    let limit = match vm.return_stack.pop() {
        Ok(limit) => limit,
        Err(e) => {
            assert(vm@.ret =~= Seq::empty());
            return Err(e);
        },
    };
    let go_on = if upwards {
        i_next.less_than(&limit)
    } else {
        limit.less_than(&i_next)
    };
    if go_on {
        vm.return_stack.push(limit);
        vm.return_stack.push(i_next);
        vm.value_stack.push(Variable::Int(1));
        assert(vm@.ret =~= seq![i_next@, limit@] + old(vm)@.ret.skip(2));
    } else {
        vm.value_stack.push(Variable::Int(0));
        assert(vm@.ret =~= old(vm)@.ret.skip(2));
    }
    Ok(())
}

/// The run-time part of `loop`: adds one to the index and goes on while it
/// is below the limit.
pub fn runtime_loop(vm: &mut VM) -> (r: Result<(), Error>)
    ensures
        outcome(r, final(vm)@) == word_effect(Word::Loop, old(vm)@),
{
    end_round(vm, Variable::Int(1), true)
}

/// The run-time part of `+loop`: adds the top of the data stack to the index
/// and goes on while it is below the limit.
pub fn runtime_plus_loop(vm: &mut VM) -> (r: Result<(), Error>)
    ensures
        outcome(r, final(vm)@) == word_effect(Word::PlusLoop, old(vm)@),
{
    let offset = vm.value_stack.pop()?;
    end_round(vm, offset, true)
}

/// The run-time part of `-loop`: takes the top of the data stack off the
/// index and goes on while it is above the limit.
pub fn runtime_minus_loop(vm: &mut VM) -> (r: Result<(), Error>)
    ensures
        outcome(r, final(vm)@) == word_effect(Word::MinusLoop, old(vm)@),
{
    let offset = vm.value_stack.pop()?;
    end_round(vm, offset, false)
}

/// An offset of `len + extra` cells, forwards or backwards.
fn cell_offset(len: usize, extra: u8, backwards: bool) -> (r: i64)
    ensures
        r == offset(if backwards {
            -(len as int + extra as int)
        } else {
            len as int + extra as int
        }),
{
    let n: i128 = len as i128 + extra as i128;
    let n: i128 = if backwards {
        -n
    } else {
        n
    };
    if n > i64::MAX as i128 {
        i64::MAX
    } else if n < i64::MIN as i128 {
        i64::MIN
    } else {
        n as i64
    }
}

/// A compiler error without cells.
fn refused(token: String) -> (r: Error)
    ensures
        r@ == Fault::Compiler(Seq::empty(), token@),
{
    let cells: Vec<Cell> = Vec::new();
    assert(ops(cells@) =~= Seq::empty());
    Error::Compiler(cells, token)
}

/// Puts the two branches of a conditional together.
fn assemble_if(branch_true: Vec<Cell>, branch_false: Vec<Cell>) -> (r: Vec<Cell>)
    ensures
        ops(r@) == if_code(ops(branch_true@), ops(branch_false@)),
{
    let mut branch_true = branch_true;
    let mut branch_false = branch_false;
    let ghost t = ops(branch_true@);
    let ghost f = ops(branch_false@);
    let mut program: Vec<Cell> = Vec::new();
    program.push(Cell::Data(Variable::Int(cell_offset(branch_true.len(), 3, false))));
    program.push(Cell::ControlBranchIfZero);
    program.append(&mut branch_true);
    program.push(Cell::Data(Variable::Int(cell_offset(branch_false.len(), 1, false))));
    program.push(Cell::ControlBranch);
    program.append(&mut branch_false);
    assert(ops(program@) =~= if_code(t, f));
    program
}

/// Puts a counted loop together around its body.
fn assemble_do(body: Vec<Cell>, end: Word) -> (r: Vec<Cell>)
    ensures
        ops(r@) == do_code(ops(body@), end),
{
    let mut body = body;
    let ghost b = ops(body@);
    let back = cell_offset(body.len(), 2, true);
    let mut program: Vec<Cell> = Vec::new();
    program.push(Cell::Exec(Word::Do));
    program.append(&mut body);
    program.push(Cell::Exec(end));
    program.push(Cell::Data(Variable::Int(back)));
    program.push(Cell::ControlBranchIfNotZero);
    assert(ops(program@) =~= do_code(b, end));
    program
}

/// The compiler stopped for good: no cells, and the end-of-line marker.
fn unfinished(cells: Vec<Cell>) -> (r: Error)
    ensures
        r@ == Fault::Compiler(ops(cells@), eol()),
        cells@.len() == 0 ==> r@ == Fault::Compiler(Seq::empty(), eol()),
{
    assert(cells@.len() == 0 ==> ops(cells@) =~= Seq::empty());
    proof {
        reveal_strlit("EOL");
    }
    let token = String::from_str("EOL");
    assert(token@ =~= eol());
    Error::Compiler(cells, token)
}

/// The compile-time part of `if`. Compiles the branch up to `else` or
/// `then`, and after `else` the other branch up to `then`, and emits the
/// two with their branches. Any other token that stops the compiler comes
/// back as a compiler error without cells; so does a definition that ends
/// before `then`, with the end-of-line marker.
pub fn compiletime_if(vm: &mut VM) -> (r: Result<Vec<Cell>, Error>)
    ensures
        emitted(r, final(vm)@) == expand(Immediate::If, old(vm)@),
    decreases old(vm)@.input.len(), 2int,
{
    proof {
        lemma_compile_bounds(vm@, Seq::empty());
    }
    let (branch_true, token) = match vm.compile() {
        Ok(_) => {
            return Err(unfinished(Vec::new()));
        },
        Err(Error::Compiler(branch, token)) => (branch, token),
        Err(e) => {
            return Err(e);
        },
    };
    let word = lowercase(token.as_str());
    if word == String::from_str("else") {
        let (branch_false, last) = match vm.compile() {
            Ok(_) => {
                return Err(unfinished(Vec::new()));
            },
            Err(Error::Compiler(branch, token)) => (branch, token),
            Err(e) => {
                return Err(e);
            },
        };
        if lowercase(last.as_str()) == String::from_str("then") {
            Ok(assemble_if(branch_true, branch_false))
        } else {
            Err(refused(last))
        }
    } else if word == String::from_str("then") {
        let branch_false: Vec<Cell> = Vec::new();
        assert(ops(branch_false@) =~= Seq::empty());
        Ok(assemble_if(branch_true, branch_false))
    } else {
        Err(refused(token))
    }
}

/// `buffer` with `word` behind it, a blank between the two if neither is
/// empty.
fn join(buffer: &mut String, word: &str)
    ensures
        final(buffer)@ == joined(old(buffer)@, word@),
{
    proof {
        reveal_strlit(" ");
    }
    if word.unicode_len() > 0 {
        if buffer.as_str().unicode_len() > 0 {
            buffer.append(" ");
        }
        buffer.append(word);
        assert(buffer@ =~= joined(old(buffer)@, word@));
    }
}

/// The token without the double quotes at its end.
fn trimmed(token: &str) -> (r: &str)
    ensures
        r@ == trim_quotes(token@),
{
    let mut n = token.unicode_len();
    assert(token@.take(n as int) =~= token@);
    while n > 0 && token.get_char(n - 1) == '"'
        invariant
            n <= token@.len(),
            trim_quotes(token@) == trim_quotes(token@.take(n as int)),
        decreases n,
    {
        assert(token@.take(n as int).drop_last() =~= token@.take(n as int - 1));
        n = n - 1;
    }
    let r = token.substring_char(0, n);
    assert(r@ =~= token@.take(n as int));
    r
}

/// The compile-time part of `."`. Reads the tokens up to the one that ends
/// in a double quote, joins them by single blanks and emits the text and
/// the word that prints it. Fails with `Parser("EOL")` when the input ends
/// before the closing quote.
pub fn compiletime_dot_q(vm: &mut VM) -> (r: Result<Vec<Cell>, Error>)
    ensures
        emitted(r, final(vm)@) == expand(Immediate::DotQuote, old(vm)@),
{
    let mut buffer = String::new();
    loop
        invariant
            quote(vm@.input, buffer@) == quote(old(vm)@.input, Seq::empty()),
            vm@ == with_input(old(vm)@, vm@.input),
        decreases vm@.input.len(),
    {
        match vm.next_token() {
            None => {
                proof {
                    reveal_strlit("EOL");
                }
                let token = String::from_str("EOL");
                assert(token@ =~= eol());
                assert(vm@.input =~= Seq::empty());
                return Err(Error::Parser(token));
            },
            Some(token) => {
                if ends_in(token.as_str(), '"') {
                    join(&mut buffer, trimmed(token.as_str()));
                    let mut program: Vec<Cell> = Vec::new();
                    program.push(Cell::Data(Variable::String(buffer)));
                    program.push(Cell::Exec(Word::PrintString));
                    assert(ops(program@) =~= quote_code(buffer@));
                    return Ok(program);
                }
                join(&mut buffer, token.as_str());
            },
        }
    }
}

/// The compile-time part of `do`. Compiles the body up to `loop`, `+loop`
/// or `-loop` and emits it between the word that sets the loop up and the
/// word and branch that end a round. Any other token that stops the
/// compiler comes back as a compiler error; a definition that ends before
/// the loop is closed does too, with the end-of-line marker.
pub fn compiletime_do(vm: &mut VM) -> (r: Result<Vec<Cell>, Error>)
    ensures
        emitted(r, final(vm)@) == expand(Immediate::Do, old(vm)@),
    decreases old(vm)@.input.len(), 2int,
{
    let (routine, token) = match vm.compile() {
        Ok(routine) => {
            return Err(unfinished(routine));
        },
        Err(Error::Compiler(routine, token)) => (routine, token),
        Err(e) => {
            return Err(e);
        },
    };
    let word = lowercase(token.as_str());
    if word == String::from_str("loop") {
        Ok(assemble_do(routine, Word::Loop))
    } else if word == String::from_str("+loop") {
        Ok(assemble_do(routine, Word::PlusLoop))
    } else if word == String::from_str("-loop") {
        Ok(assemble_do(routine, Word::MinusLoop))
    } else {
        let mut branch: Vec<Cell> = Vec::new();
        branch.push(Cell::Exec(Word::Do));
        assert(ops(branch@) =~= seq![Op::Exec(Word::Do)]);
        Err(Error::Compiler(branch, token))
    }
}

} // verus!
