use frust::builtins::{
    abs, cr, div, dot, dot_s, drop, dup, eq, i, icomment, j, lcomment, max, min, minus, modulo,
    negate, nip, one_minus, over, plus, qdup, rot, runtime_do, runtime_dot_q, runtime_loop,
    runtime_minus_loop, runtime_plus_loop, space, swap, times, tuck, unimplemented,
};
use frust::{Error, Variable, Word, VM};

fn with_data(values: &[i64]) -> VM {
    let mut vm = VM::new();
    for n in values {
        vm.value_stack.push(Variable::Int(*n));
    }
    vm
}

fn text(s: &str) -> Variable {
    Variable::String(s.to_string())
}

#[test]
fn unimplemented_always_fails() {
    let mut vm = VM::new_null();
    assert_eq!(
        unimplemented(&mut vm),
        Err(Error::Unimplemented("Function".to_owned()))
    );
}

#[test]
fn dot_prints_the_top() {
    let mut vm = with_data(&[23]);
    assert_eq!(dot(&mut vm), Ok(()));
    assert_eq!(vm.output, vec!["23".to_string()]);
    assert_eq!(dot(&mut vm), Err(Error::Stack));
}

#[test]
fn plus_adds() {
    let mut vm = with_data(&[23, 42]);
    assert_eq!(plus(&mut vm), Ok(()));
    assert_eq!(vm.value_stack.pop(), Ok(Variable::Int(65)));
    assert_eq!(vm.value_stack.len(), 0);
}

#[test]
fn plus_wraps_around() {
    let mut vm = with_data(&[i64::MAX, 1]);
    assert_eq!(plus(&mut vm), Ok(()));
    assert_eq!(vm.value_stack.pop(), Ok(Variable::Int(i64::MIN)));
}

#[test]
fn underflow_empties_the_stack() {
    let mut vm = with_data(&[23]);
    assert_eq!(plus(&mut vm), Err(Error::Stack));
    assert_eq!(vm.value_stack.len(), 0);
    let mut vm = with_data(&[1, 2]);
    assert_eq!(rot(&mut vm), Err(Error::Stack));
    assert_eq!(vm.value_stack.len(), 0);
}

#[test]
fn minus_subtracts() {
    let mut vm = with_data(&[23, 42]);
    assert_eq!(minus(&mut vm), Ok(()));
    assert_eq!(vm.value_stack.pop(), Ok(Variable::Int(-19)));
}

#[test]
fn times_multiplies() {
    let mut vm = with_data(&[4, 3]);
    assert_eq!(times(&mut vm), Ok(()));
    assert_eq!(vm.value_stack.pop(), Ok(Variable::Int(12)));
}

#[test]
fn max_keeps_the_greater() {
    let mut vm = with_data(&[4, 3]);
    assert_eq!(max(&mut vm), Ok(()));
    assert_eq!(vm.value_stack.pop(), Ok(Variable::Int(4)));
    let mut vm = with_data(&[3, 4]);
    assert_eq!(max(&mut vm), Ok(()));
    assert_eq!(vm.value_stack.pop(), Ok(Variable::Int(4)));
}

#[test]
fn min_keeps_the_smaller() {
    let mut vm = with_data(&[4, 3]);
    assert_eq!(min(&mut vm), Ok(()));
    assert_eq!(vm.value_stack.pop(), Ok(Variable::Int(3)));
    let mut vm = with_data(&[-4, 3]);
    assert_eq!(min(&mut vm), Ok(()));
    assert_eq!(vm.value_stack.pop(), Ok(Variable::Int(-4)));
}

#[test]
fn values_of_different_kinds_are_ordered_by_kind() {
    let mut vm = VM::new();
    vm.value_stack.push(text("zebra"));
    vm.value_stack.push(Variable::Int(-5));
    assert_eq!(max(&mut vm), Ok(()));
    assert_eq!(vm.value_stack.pop(), Ok(Variable::Int(-5)));
    vm.value_stack.push(Variable::Array(vec![Variable::Int(9)]));
    vm.value_stack.push(text("a"));
    assert_eq!(min(&mut vm), Ok(()));
    assert_eq!(vm.value_stack.pop(), Ok(Variable::Array(vec![Variable::Int(9)])));
    vm.value_stack.push(text("abc"));
    vm.value_stack.push(text("abd"));
    assert_eq!(min(&mut vm), Ok(()));
    assert_eq!(vm.value_stack.pop(), Ok(text("abc")));
    vm.value_stack.push(Variable::Array(vec![Variable::Int(1), Variable::Int(2)]));
    vm.value_stack.push(Variable::Array(vec![Variable::Int(1)]));
    assert_eq!(max(&mut vm), Ok(()));
    assert_eq!(
        vm.value_stack.pop(),
        Ok(Variable::Array(vec![Variable::Int(1), Variable::Int(2)]))
    );
}

#[test]
fn div_divides() {
    let mut vm = with_data(&[8, 2]);
    assert_eq!(div(&mut vm), Ok(()));
    assert_eq!(vm.value_stack.pop(), Ok(Variable::Int(4)));
    let mut vm = with_data(&[-7, 2]);
    assert_eq!(div(&mut vm), Ok(()));
    assert_eq!(vm.value_stack.pop(), Ok(Variable::Int(-3)));
    let mut vm = with_data(&[i64::MIN, -1]);
    assert_eq!(div(&mut vm), Ok(()));
    assert_eq!(vm.value_stack.pop(), Ok(Variable::Int(i64::MIN)));
}

#[test]
fn division_by_zero_is_not_a_number() {
    let mut vm = with_data(&[8, 0]);
    assert_eq!(div(&mut vm), Ok(()));
    assert_eq!(vm.value_stack.pop(), Ok(text("NAN")));
    let mut vm = with_data(&[8, 0]);
    assert_eq!(modulo(&mut vm), Ok(()));
    assert_eq!(vm.value_stack.pop(), Ok(text("NAN")));
    assert_eq!(vm.value_stack.pop(), Ok(text("NAN")));
}

#[test]
fn mixed_arithmetic_is_not_a_number() {
    let mut vm = VM::new();
    vm.value_stack.push(Variable::Int(1));
    vm.value_stack.push(text("one"));
    assert_eq!(plus(&mut vm), Ok(()));
    assert_eq!(vm.value_stack.pop(), Ok(text("NAN")));
    assert_eq!(Variable::Int(1).times(&text("x")), text("NAN"));
    assert_eq!(text("x").minus(&Variable::Int(1)), text("NAN"));
}

#[test]
fn modulo_leaves_quotient_over_remainder() {
    let mut vm = with_data(&[9, 2]);
    assert_eq!(modulo(&mut vm), Ok(()));
    assert_eq!(vm.value_stack.pop(), Ok(Variable::Int(4)));
    assert_eq!(vm.value_stack.pop(), Ok(Variable::Int(1)));
    let mut vm = with_data(&[-9, 2]);
    assert_eq!(modulo(&mut vm), Ok(()));
    assert_eq!(vm.value_stack.pop(), Ok(Variable::Int(-4)));
    assert_eq!(vm.value_stack.pop(), Ok(Variable::Int(-1)));
    let mut vm = with_data(&[i64::MIN, -1]);
    assert_eq!(modulo(&mut vm), Ok(()));
    assert_eq!(vm.value_stack.pop(), Ok(Variable::Int(i64::MIN)));
    assert_eq!(vm.value_stack.pop(), Ok(Variable::Int(0)));
}

#[test]
fn dup_copies_the_top() {
    let mut vm = with_data(&[9]);
    assert_eq!(dup(&mut vm), Ok(()));
    assert_eq!(vm.value_stack.pop(), Ok(Variable::Int(9)));
    assert_eq!(vm.value_stack.pop(), Ok(Variable::Int(9)));
    assert_eq!(dup(&mut vm), Err(Error::Stack));
}

#[test]
fn swap_exchanges() {
    let mut vm = with_data(&[9, 1]);
    assert_eq!(swap(&mut vm), Ok(()));
    assert_eq!(vm.value_stack.pop(), Ok(Variable::Int(9)));
    assert_eq!(vm.value_stack.pop(), Ok(Variable::Int(1)));
}

#[test]
fn rot_rotates() {
    let mut vm = with_data(&[1, 2, 3]);
    assert_eq!(rot(&mut vm), Ok(()));
    assert_eq!(vm.value_stack.pop(), Ok(Variable::Int(1)));
    assert_eq!(vm.value_stack.pop(), Ok(Variable::Int(3)));
    assert_eq!(vm.value_stack.pop(), Ok(Variable::Int(2)));
}

#[test]
fn nip_removes_the_second() {
    let mut vm = with_data(&[1, 2, 3]);
    assert_eq!(nip(&mut vm), Ok(()));
    assert_eq!(vm.value_stack.pop(), Ok(Variable::Int(3)));
    assert_eq!(vm.value_stack.pop(), Ok(Variable::Int(1)));
}

#[test]
fn tuck_copies_the_top_below() {
    let mut vm = with_data(&[1, 2]);
    assert_eq!(tuck(&mut vm), Ok(()));
    assert_eq!(vm.value_stack.pop(), Ok(Variable::Int(2)));
    assert_eq!(vm.value_stack.pop(), Ok(Variable::Int(1)));
    assert_eq!(vm.value_stack.pop(), Ok(Variable::Int(2)));
}

#[test]
fn over_copies_the_second() {
    let mut vm = with_data(&[1, 2]);
    assert_eq!(over(&mut vm), Ok(()));
    assert_eq!(vm.value_stack.pop(), Ok(Variable::Int(1)));
    assert_eq!(vm.value_stack.pop(), Ok(Variable::Int(2)));
    assert_eq!(vm.value_stack.pop(), Ok(Variable::Int(1)));
}

#[test]
fn drop_removes_the_top() {
    let mut vm = with_data(&[1, 2]);
    assert_eq!(drop(&mut vm), Ok(()));
    assert_eq!(vm.value_stack.pop(), Ok(Variable::Int(1)));
    assert_eq!(drop(&mut vm), Err(Error::Stack));
}

#[test]
fn lcomment_drops_the_input() {
    let mut vm = VM::new();
    vm.input_buffer.push_back("a".to_string());
    vm.input_buffer.push_back("b".to_string());
    assert_eq!(lcomment(&mut vm), Ok(()));
    assert!(vm.input_buffer.is_empty());
}

#[test]
fn icomment_drops_up_to_the_closing_token() {
    let mut vm = VM::new_null();
    vm.input_buffer = vec![
        "this".to_owned(),
        "is".to_owned(),
        "a".to_owned(),
        "tokenized".to_owned(),
        "comment)".to_owned(),
        "forth_code".to_owned(),
    ]
    .into();
    assert_eq!(icomment(&mut vm), Ok(()));
    assert_eq!(vm.input_buffer.pop_front(), Some("forth_code".to_owned()));
    assert_eq!(icomment(&mut vm), Err(Error::Parser("EOL".to_string())));
}

#[test]
fn negate_changes_the_sign() {
    let mut vm = with_data(&[1]);
    assert_eq!(negate(&mut vm), Ok(()));
    assert_eq!(vm.value_stack.pop(), Ok(Variable::Int(-1)));
    assert_eq!(negate(&mut vm), Ok(()));
    assert_eq!(vm.value_stack.len(), 0);
    vm.value_stack.push(text("x"));
    assert_eq!(negate(&mut vm), Ok(()));
    assert_eq!(vm.value_stack.pop(), Ok(text("x")));
    let mut vm = with_data(&[i64::MIN]);
    assert_eq!(negate(&mut vm), Ok(()));
    assert_eq!(vm.value_stack.pop(), Ok(Variable::Int(i64::MIN)));
}

#[test]
fn eq_compares() {
    let mut vm = with_data(&[1, 1]);
    assert_eq!(eq(&mut vm), Ok(()));
    assert_eq!(vm.value_stack.pop(), Ok(Variable::Int(-1)));
    vm.value_stack.push(text("foo"));
    vm.value_stack.push(text("foo"));
    assert_eq!(eq(&mut vm), Ok(()));
    assert_eq!(vm.value_stack.pop(), Ok(Variable::Int(-1)));
    vm.value_stack.push(text("foo"));
    vm.value_stack.push(Variable::Int(2));
    assert_eq!(eq(&mut vm), Ok(()));
    assert_eq!(vm.value_stack.pop(), Ok(Variable::Int(0)));
}

#[test]
fn abs_takes_the_absolute_value() {
    let mut vm = with_data(&[-1]);
    assert_eq!(abs(&mut vm), Ok(()));
    assert_eq!(vm.value_stack.pop(), Ok(Variable::Int(1)));
    let mut vm = with_data(&[5]);
    assert_eq!(abs(&mut vm), Ok(()));
    assert_eq!(vm.value_stack.pop(), Ok(Variable::Int(5)));
    let mut vm = with_data(&[i64::MIN]);
    assert_eq!(abs(&mut vm), Ok(()));
    assert_eq!(vm.value_stack.pop(), Ok(Variable::Int(i64::MIN)));
}

#[test]
fn cr_and_space_write() {
    let mut vm = VM::new();
    assert_eq!(cr(&mut vm), Ok(()));
    assert_eq!(space(&mut vm), Ok(()));
    assert_eq!(vm.output, vec!["\n".to_string(), " ".to_string()]);
}

#[test]
fn one_minus_counts_down() {
    let mut vm = with_data(&[1]);
    assert_eq!(one_minus(&mut vm), Ok(()));
    assert_eq!(vm.value_stack.pop(), Ok(Variable::Int(0)));
    assert_eq!(one_minus(&mut vm), Ok(()));
    let mut vm = with_data(&[i64::MIN]);
    assert_eq!(one_minus(&mut vm), Ok(()));
    assert_eq!(vm.value_stack.pop(), Ok(Variable::Int(i64::MAX)));
}

#[test]
fn qdup_copies_unless_zero() {
    let mut vm = with_data(&[3]);
    assert_eq!(qdup(&mut vm), Ok(()));
    assert_eq!(vm.value_stack.len(), 2);
    let mut vm = with_data(&[0]);
    assert_eq!(qdup(&mut vm), Ok(()));
    assert_eq!(vm.value_stack.len(), 1);
    let mut vm = VM::new();
    assert_eq!(qdup(&mut vm), Ok(()));
    assert_eq!(vm.value_stack.len(), 0);
}

#[test]
fn i_and_j_read_the_return_stack() {
    let mut vm = VM::new();
    assert_eq!(i(&mut vm), Err(Error::Stack));
    vm.return_stack.push(Variable::Int(10));
    assert_eq!(j(&mut vm), Err(Error::Stack));
    vm.return_stack.push(Variable::Int(3));
    assert_eq!(i(&mut vm), Ok(()));
    assert_eq!(j(&mut vm), Ok(()));
    assert_eq!(vm.value_stack.pop(), Ok(Variable::Int(10)));
    assert_eq!(vm.value_stack.pop(), Ok(Variable::Int(3)));
    assert_eq!(vm.return_stack.len(), 2);
}

#[test]
fn dot_s_lists_the_stack_from_the_bottom() {
    let mut vm = with_data(&[1, -2]);
    vm.value_stack.push(text("three"));
    assert_eq!(dot_s(&mut vm), Ok(()));
    assert_eq!(
        vm.output,
        vec![
            " <3> ".to_string(),
            " 1 ".to_string(),
            " -2 ".to_string(),
            " three ".to_string(),
            "\n".to_string()
        ]
    );
    assert_eq!(vm.value_stack.len(), 3);
    let mut vm = VM::new();
    assert_eq!(dot_s(&mut vm), Ok(()));
    assert_eq!(vm.output, vec![" <0> ".to_string(), "\n".to_string()]);
}

#[test]
fn runtime_dot_q_prints_the_text() {
    let mut vm = VM::new();
    vm.value_stack.push(text("hello world"));
    assert_eq!(runtime_dot_q(&mut vm), Ok(()));
    assert_eq!(vm.output, vec!["hello world".to_string()]);
    assert_eq!(runtime_dot_q(&mut vm), Err(Error::Stack));
}

#[test]
fn runtime_do_moves_index_and_limit() {
    let mut vm = with_data(&[7, 10, 2]);
    assert_eq!(runtime_do(&mut vm), Ok(()));
    assert_eq!(vm.value_stack.len(), 1);
    assert_eq!(vm.return_stack.pop(), Ok(Variable::Int(2)));
    assert_eq!(vm.return_stack.pop(), Ok(Variable::Int(10)));
    let mut vm = with_data(&[7]);
    assert_eq!(runtime_do(&mut vm), Err(Error::Stack));
}

#[test]
fn runtime_loop_counts_up_to_the_limit() {
    let mut vm = VM::new();
    vm.return_stack.push(Variable::Int(3));
    vm.return_stack.push(Variable::Int(1));
    assert_eq!(runtime_loop(&mut vm), Ok(()));
    assert_eq!(vm.value_stack.pop(), Ok(Variable::Int(1)));
    assert_eq!(vm.return_stack.at(0), Ok(&Variable::Int(2)));
    assert_eq!(vm.return_stack.at(1), Ok(&Variable::Int(3)));
    assert_eq!(runtime_loop(&mut vm), Ok(()));
    assert_eq!(vm.value_stack.pop(), Ok(Variable::Int(0)));
    assert_eq!(vm.return_stack.len(), 0);
    assert_eq!(runtime_loop(&mut vm), Err(Error::Stack));
    vm.return_stack.push(Variable::Int(3));
    assert_eq!(runtime_loop(&mut vm), Err(Error::Stack));
    assert_eq!(vm.return_stack.len(), 0);
}

#[test]
fn runtime_plus_loop_steps_by_the_top() {
    let mut vm = with_data(&[5]);
    vm.return_stack.push(Variable::Int(10));
    vm.return_stack.push(Variable::Int(1));
    assert_eq!(runtime_plus_loop(&mut vm), Ok(()));
    assert_eq!(vm.value_stack.pop(), Ok(Variable::Int(1)));
    assert_eq!(vm.return_stack.at(0), Ok(&Variable::Int(6)));
    vm.value_stack.push(Variable::Int(4));
    assert_eq!(runtime_plus_loop(&mut vm), Ok(()));
    assert_eq!(vm.value_stack.pop(), Ok(Variable::Int(0)));
    assert_eq!(vm.return_stack.len(), 0);
    assert_eq!(runtime_plus_loop(&mut vm), Err(Error::Stack));
}

#[test]
fn runtime_minus_loop_steps_down() {
    let mut vm = with_data(&[2]);
    vm.return_stack.push(Variable::Int(0));
    vm.return_stack.push(Variable::Int(5));
    assert_eq!(runtime_minus_loop(&mut vm), Ok(()));
    assert_eq!(vm.value_stack.pop(), Ok(Variable::Int(1)));
    assert_eq!(vm.return_stack.at(0), Ok(&Variable::Int(3)));
    vm.value_stack.push(Variable::Int(3));
    assert_eq!(runtime_minus_loop(&mut vm), Ok(()));
    assert_eq!(vm.value_stack.pop(), Ok(Variable::Int(0)));
    assert_eq!(vm.return_stack.len(), 0);
}

#[test]
fn apply_runs_the_word() {
    let mut vm = with_data(&[2, 3]);
    assert_eq!(vm.apply(Word::Times), Ok(()));
    assert_eq!(vm.value_stack.pop(), Ok(Variable::Int(6)));
}
