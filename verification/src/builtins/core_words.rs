use crate::context::VM;
use crate::dictionary::Word;
use crate::error::{Error, Fault};
use crate::machine::{after_comment, outcome, with_data, word_effect};
use crate::text::ends_in;
use crate::variable::Variable;
use vstd::prelude::*;
use vstd::string::StringExecFns;

verus! {

/// Takes the top value off the data stack.
pub fn pop_one(vm: &mut VM) -> (r: Result<Variable, Error>)
    ensures
        match r {
            Ok(top) => old(vm)@.data.len() >= 1 && top@ == old(vm)@.data[0] && final(vm)@
                == with_data(old(vm)@, old(vm)@.data.skip(1)),
            Err(e) => old(vm)@.data.len() < 1 && e@ == Fault::Stack && final(vm)@ == with_data(
                old(vm)@,
                Seq::empty(),
            ),
        },
{
    let r = vm.value_stack.pop();
    assert(vm@.data =~= if r is Ok {
        old(vm)@.data.skip(1)
    } else {
        Seq::empty()
    });
    r
}

/// Takes the two top values off the data stack: the top, then the one
/// below it. With fewer than two values the stack is left empty.
pub fn pop_two(vm: &mut VM) -> (r: Result<(Variable, Variable), Error>)
    ensures
        match r {
            Ok((top, second)) => old(vm)@.data.len() >= 2 && top@ == old(vm)@.data[0] && second@
                == old(vm)@.data[1] && final(vm)@ == with_data(old(vm)@, old(vm)@.data.skip(2)),
            Err(e) => old(vm)@.data.len() < 2 && e@ == Fault::Stack && final(vm)@ == with_data(
                old(vm)@,
                Seq::empty(),
            ),
        },
{
    let top = pop_one(vm)?;
    match vm.value_stack.pop() {
        Ok(second) => {
            assert(vm@.data =~= old(vm)@.data.skip(2));
            Ok((top, second))
        },
        Err(e) => {
            assert(vm@.data =~= Seq::empty());
            Err(e)
        },
    }
}

/// Puts the given values on the data stack, the last one on top.
fn push_two(vm: &mut VM, below: Variable, top: Variable)
    ensures
        final(vm)@ == with_data(old(vm)@, seq![top@, below@] + old(vm)@.data),
{
    vm.value_stack.push(below);
    vm.value_stack.push(top);
    assert(vm@.data =~= seq![top@, below@] + old(vm)@.data);
}

/// Puts one value on the data stack.
fn push_one(vm: &mut VM, top: Variable)
    ensures
        final(vm)@ == with_data(old(vm)@, seq![top@] + old(vm)@.data),
{
    vm.value_stack.push(top);
}

/// A placeholder word: it always fails with `Unimplemented`.
pub fn unimplemented(vm: &mut VM) -> (r: Result<(), Error>)
    ensures
        outcome(r, final(vm)@) == word_effect(Word::Unimplemented, old(vm)@),
{
    Err(Error::Unimplemented(String::from_str("Function")))
}

/// `.`: takes the top value and writes it.
pub fn dot(vm: &mut VM) -> (r: Result<(), Error>)
    ensures
        outcome(r, final(vm)@) == word_effect(Word::Dot, old(vm)@),
{
    let v = vm.value_stack.pop()?;
    vm.write(v.to_string());
    Ok(())
}

/// `+`: replaces the two top values by their sum.
pub fn plus(vm: &mut VM) -> (r: Result<(), Error>)
    ensures
        outcome(r, final(vm)@) == word_effect(Word::Plus, old(vm)@),
{
    let (b, a) = pop_two(vm)?;
    push_one(vm, a.plus(&b));
    Ok(())
}

/// `-`: replaces the two top values by the lower one minus the top.
pub fn minus(vm: &mut VM) -> (r: Result<(), Error>)
    ensures
        outcome(r, final(vm)@) == word_effect(Word::Minus, old(vm)@),
{
    let (b, a) = pop_two(vm)?;
    push_one(vm, a.minus(&b));
    Ok(())
}

/// `*`: replaces the two top values by their product.
pub fn times(vm: &mut VM) -> (r: Result<(), Error>)
    ensures
        outcome(r, final(vm)@) == word_effect(Word::Times, old(vm)@),
{
    let (b, a) = pop_two(vm)?;
    push_one(vm, a.times(&b));
    Ok(())
}

/// `max`: replaces the two top values by the greater one.
pub fn max(vm: &mut VM) -> (r: Result<(), Error>)
    ensures
        outcome(r, final(vm)@) == word_effect(Word::Max, old(vm)@),
{
    let (b, a) = pop_two(vm)?;
    if b.less_than(&a) {
        push_one(vm, a);
    } else {
        push_one(vm, b);
    }
    Ok(())
}

/// `min`: replaces the two top values by the smaller one.
pub fn min(vm: &mut VM) -> (r: Result<(), Error>)
    ensures
        outcome(r, final(vm)@) == word_effect(Word::Min, old(vm)@),
{
    let (b, a) = pop_two(vm)?;
    if a.less_than(&b) {
        push_one(vm, a);
    } else {
        push_one(vm, b);
    }
    Ok(())
}

/// `/`: replaces the two top values by the lower one divided by the top.
pub fn div(vm: &mut VM) -> (r: Result<(), Error>)
    ensures
        outcome(r, final(vm)@) == word_effect(Word::Div, old(vm)@),
{
    let (b, a) = pop_two(vm)?;
    push_one(vm, a.divide(&b));
    Ok(())
}

/// `mod`: replaces the two top values by the remainder and, on top of it,
/// the quotient of the lower one divided by the top.
pub fn modulo(vm: &mut VM) -> (r: Result<(), Error>)
    ensures
        outcome(r, final(vm)@) == word_effect(Word::Modulo, old(vm)@),
{
    let (b, a) = pop_two(vm)?;
    push_two(vm, a.modulo(&b), a.divide(&b));
    Ok(())
}

/// `dup`: puts a copy of the top value on top.
pub fn dup(vm: &mut VM) -> (r: Result<(), Error>)
    ensures
        outcome(r, final(vm)@) == word_effect(Word::Dup, old(vm)@),
{
    let value = pop_one(vm)?;
    push_two(vm, value.clone(), value);
    Ok(())
}

/// `swap`: exchanges the two top values.
pub fn swap(vm: &mut VM) -> (r: Result<(), Error>)
    ensures
        outcome(r, final(vm)@) == word_effect(Word::Swap, old(vm)@),
{
    let (a, b) = pop_two(vm)?;
    push_two(vm, a, b);
    Ok(())
}

/// `rot`: brings the third value to the top.
pub fn rot(vm: &mut VM) -> (r: Result<(), Error>)
    ensures
        outcome(r, final(vm)@) == word_effect(Word::Rot, old(vm)@),
{
    let (x3, x2) = pop_two(vm)?;
    let x1 = pop_one(vm)?;
    push_two(vm, x2, x3);
    push_one(vm, x1);
    assert(vm@.data =~= seq![x1@, x3@, x2@] + old(vm)@.data.skip(3));
    Ok(())
}

/// `nip`: removes the value below the top.
pub fn nip(vm: &mut VM) -> (r: Result<(), Error>)
    ensures
        outcome(r, final(vm)@) == word_effect(Word::Nip, old(vm)@),
{
    let (value, _) = pop_two(vm)?;
    push_one(vm, value);
    Ok(())
}

/// `tuck`: puts a copy of the top value below the second.
pub fn tuck(vm: &mut VM) -> (r: Result<(), Error>)
    ensures
        outcome(r, final(vm)@) == word_effect(Word::Tuck, old(vm)@),
{
    let (b, a) = pop_two(vm)?;
    push_two(vm, b.clone(), a);
    push_one(vm, b);
    assert(vm@.data =~= seq![b@, a@, b@] + old(vm)@.data.skip(2));
    Ok(())
}

/// `over`: puts a copy of the second value on top.
pub fn over(vm: &mut VM) -> (r: Result<(), Error>)
    ensures
        outcome(r, final(vm)@) == word_effect(Word::Over, old(vm)@),
{
    let (b, a) = pop_two(vm)?;
    push_two(vm, a.clone(), b);
    push_one(vm, a);
    assert(vm@.data =~= seq![a@, b@, a@] + old(vm)@.data.skip(2));
    Ok(())
}

/// `drop`: removes the top value.
pub fn drop(vm: &mut VM) -> (r: Result<(), Error>)
    ensures
        outcome(r, final(vm)@) == word_effect(Word::Drop, old(vm)@),
{
    let _ = pop_one(vm)?;
    assert(vm@.data =~= Seq::empty() + old(vm)@.data.skip(1));
    Ok(())
}

/// `\`: drops the rest of the input.
pub fn lcomment(vm: &mut VM) -> (r: Result<(), Error>)
    ensures
        outcome(r, final(vm)@) == word_effect(Word::LineComment, old(vm)@),
{
    vm.input_buffer.clear();
    assert(vm@.input =~= Seq::empty());
    Ok(())
}

/// `(`: drops the input up to and including the first token that ends in
/// `)`. Without such a token the whole input is dropped and the word fails.
pub fn icomment(vm: &mut VM) -> (r: Result<(), Error>)
    ensures
        outcome(r, final(vm)@) == word_effect(Word::InlineComment, old(vm)@),
{
    loop
        invariant
            after_comment(vm@.input) == after_comment(old(vm)@.input),
            vm@ == crate::machine::with_input(old(vm)@, vm@.input),
        decreases vm@.input.len(),
    {
        match vm.next_token() {
            Some(token) => {
                if ends_in(token.as_str(), ')') {
                    return Ok(());
                }
            },
            None => {
                assert(vm@.input =~= Seq::empty());
                return Err(Error::Parser(String::from_str("EOL")));
            },
        }
    }
}

/// `negate`: changes the sign of the top value if it is an integer.
pub fn negate(vm: &mut VM) -> (r: Result<(), Error>)
    ensures
        outcome(r, final(vm)@) == word_effect(Word::Negate, old(vm)@),
{
    if let Ok(v) = vm.value_stack.at_mut(0) {
        match v {
            Variable::Int(n) => *n = n.wrapping_mul(-1),
            _ => {},
        }
    }
    assert(vm@.data =~= word_effect(Word::Negate, old(vm)@).machine.data);
    Ok(())
}

/// `=`: replaces the two top values by true (-1) if they are equal and by
/// false (0) if not.
pub fn eq(vm: &mut VM) -> (r: Result<(), Error>)
    ensures
        outcome(r, final(vm)@) == word_effect(Word::Eq, old(vm)@),
{
    let (a, b) = pop_two(vm)?;
    if a.equals(&b) {
        push_one(vm, Variable::Int(-1));
    } else {
        push_one(vm, Variable::Int(0));
    }
    Ok(())
}

/// `abs`: replaces the top value by its absolute value if it is an integer.
pub fn abs(vm: &mut VM) -> (r: Result<(), Error>)
    ensures
        outcome(r, final(vm)@) == word_effect(Word::Abs, old(vm)@),
{
    if let Ok(v) = vm.value_stack.at_mut(0) {
        match v {
            Variable::Int(n) => if *n < 0 {
                *n = 0i64.wrapping_sub(*n)
            },
            _ => {},
        }
    }
    assert(vm@.data =~= word_effect(Word::Abs, old(vm)@).machine.data);
    Ok(())
}

/// `cr`: writes a line break.
pub fn cr(vm: &mut VM) -> (r: Result<(), Error>)
    ensures
        outcome(r, final(vm)@) == word_effect(Word::Cr, old(vm)@),
{
    proof {
        reveal_strlit("\n");
    }
    let text = String::from_str("\n");
    assert(text@ =~= seq!['\n']);
    vm.write(text);
    Ok(())
}

/// `space`: writes a blank.
pub fn space(vm: &mut VM) -> (r: Result<(), Error>)
    ensures
        outcome(r, final(vm)@) == word_effect(Word::Space, old(vm)@),
{
    proof {
        reveal_strlit(" ");
    }
    let text = String::from_str(" ");
    assert(text@ =~= seq![' ']);
    vm.write(text);
    Ok(())
}

/// `1-`: takes one off the top value if it is an integer.
pub fn one_minus(vm: &mut VM) -> (r: Result<(), Error>)
    ensures
        outcome(r, final(vm)@) == word_effect(Word::OneMinus, old(vm)@),
{
    if let Ok(v) = vm.value_stack.at_mut(0) {
        match v {
            Variable::Int(n) => *n = n.wrapping_sub(1),
            _ => {},
        }
    }
    assert(vm@.data =~= word_effect(Word::OneMinus, old(vm)@).machine.data);
    Ok(())
}

/// `?dup`: puts a copy of the top value on top unless it is zero.
pub fn qdup(vm: &mut VM) -> (r: Result<(), Error>)
    ensures
        outcome(r, final(vm)@) == word_effect(Word::QDup, old(vm)@),
{
    if let Ok(v) = vm.value_stack.at(0) {
        if !v.equals(&Variable::Int(0)) {
            let copy = v.clone();
            vm.value_stack.push(copy);
        }
    }
    Ok(())
}

/// `i`: copies the index of the innermost loop onto the data stack.
pub fn i(vm: &mut VM) -> (r: Result<(), Error>)
    ensures
        outcome(r, final(vm)@) == word_effect(Word::I, old(vm)@),
{
    let idx = vm.return_stack.at(0)?.clone();
    vm.value_stack.push(idx);
    Ok(())
}

/// `j`: copies the limit of the innermost loop, which lies below its index,
/// onto the data stack.
pub fn j(vm: &mut VM) -> (r: Result<(), Error>)
    ensures
        outcome(r, final(vm)@) == word_effect(Word::J, old(vm)@),
{
    let idx = vm.return_stack.at(1)?.clone();
    vm.value_stack.push(idx);
    Ok(())
}

} // verus!
