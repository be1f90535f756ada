use frust::builtins;
use frust::{Cell, Error, Immediate, State, Variable, Word, VM};

fn word(vm: &mut VM, name: &str, w: Word) {
    vm.dictionary.add(name, vec![Cell::Exec(w)]);
}

fn machine() -> VM {
    let mut vm = VM::new();
    word(&mut vm, "+", Word::Plus);
    word(&mut vm, "-", Word::Minus);
    word(&mut vm, "*", Word::Times);
    word(&mut vm, "/", Word::Div);
    word(&mut vm, "mod", Word::Modulo);
    word(&mut vm, "\\", Word::LineComment);
    word(&mut vm, "(", Word::InlineComment);
    word(&mut vm, ".", Word::Dot);
    word(&mut vm, "cr", Word::Cr);
    word(&mut vm, "space", Word::Space);
    word(&mut vm, "1-", Word::OneMinus);
    word(&mut vm, "dup", Word::Dup);
    word(&mut vm, ".s", Word::DotS);
    word(&mut vm, "abs", Word::Abs);
    word(&mut vm, "=", Word::Eq);
    word(&mut vm, "max", Word::Max);
    word(&mut vm, "min", Word::Min);
    word(&mut vm, "nip", Word::Nip);
    word(&mut vm, "roll", Word::Unimplemented);
    word(&mut vm, "pick", Word::Unimplemented);
    word(&mut vm, "over", Word::Over);
    word(&mut vm, "tuck", Word::Tuck);
    word(&mut vm, "negate", Word::Negate);
    word(&mut vm, "swap", Word::Swap);
    word(&mut vm, "rot", Word::Rot);
    word(&mut vm, "drop", Word::Drop);
    word(&mut vm, "?dup", Word::QDup);
    word(&mut vm, "i", Word::I);
    word(&mut vm, "j", Word::J);
    vm.dictionary.add("if", vec![Cell::Compiler(Immediate::If)]);
    vm.dictionary.add("do", vec![Cell::Compiler(Immediate::Do)]);
    vm.dictionary.add(".\"", vec![Cell::Compiler(Immediate::DotQuote)]);
    vm
}

fn written(vm: &VM) -> String {
    vm.output.concat()
}

fn data(vm: &mut VM) -> Vec<Variable> {
    let mut out = Vec::new();
    while let Ok(v) = vm.value_stack.pop() {
        out.push(v);
    }
    out.reverse();
    out
}

fn ints(values: &[i64]) -> Vec<Variable> {
    values.iter().map(|n| Variable::Int(*n)).collect()
}

fn tokens(vm: &mut VM, words: &[&str]) {
    for w in words {
        vm.input_buffer.push_back(w.to_string());
    }
}

#[test]
fn adds_and_prints() {
    let mut vm = machine();
    assert_eq!(vm.eval("5 4 + ."), Ok(()));
    assert_eq!(written(&vm), "9");
    assert_eq!(vm.value_stack.len(), 0);
}

#[test]
fn defines_and_calls_square() {
    let mut vm = machine();
    assert_eq!(vm.eval(": square dup * ; 7 square ."), Ok(()));
    assert_eq!(written(&vm), "49");
}

#[test]
fn sign_with_nested_if() {
    let mut vm = machine();
    // `a b >` written with the words at hand: true when max(a, b) is a and a is not b.
    assert_eq!(
        vm.eval(": > over over = IF drop drop 0 ELSE over max = THEN ;"),
        Ok(())
    );
    assert_eq!(
        vm.eval(": sign dup 0 = IF drop 0 ELSE 0 > IF 1 ELSE -1 THEN THEN ; -7 sign ."),
        Ok(())
    );
    assert_eq!(written(&vm), "-1");
    assert_eq!(vm.eval("7 sign . 0 sign ."), Ok(()));
    assert_eq!(written(&vm), "-110");
}

#[test]
fn prints_a_string_literal() {
    let mut vm = machine();
    assert_eq!(vm.eval(": hi .\" hello world\" ; hi"), Ok(()));
    assert_eq!(written(&vm), "hello world");
}

#[test]
fn string_literal_with_separate_closing_quote() {
    let mut vm = machine();
    assert_eq!(vm.eval(": foo .\" bar baz \" 1 1 + ; "), Ok(()));
    assert_eq!(vm.eval(" foo "), Ok(()));
    assert_eq!(vm.output, vec!["bar baz".to_string()]);
    assert_eq!(vm.eval(" . "), Ok(()));
    assert_eq!(vm.output, vec!["bar baz".to_string(), "2".to_string()]);
}

#[test]
fn counts_in_a_loop() {
    let mut vm = machine();
    assert_eq!(vm.eval(": countdown 0 do i . 1- loop ; 3 countdown"), Ok(()));
    // The index starts at the top of the stack (0) and runs up to the limit (3).
    assert_eq!(vm.output, vec!["0".to_string(), "1".to_string(), "2".to_string()]);
    assert_eq!(vm.return_stack.len(), 0);
}

#[test]
fn garbage_is_reported() {
    let mut vm = machine();
    assert_eq!(vm.eval("garbage"), Ok(()));
    let line = written(&vm);
    assert!(line.contains("Parser"));
    assert!(line.contains("garbage"));
    assert_eq!(line, "Error: Parser(\"garbage\")\n");
    assert_eq!(vm.state, State::Interpret);
}

#[test]
fn unhandled_error_is_handed_back() {
    let mut vm = machine();
    vm.handle_errors = false;
    assert_eq!(vm.eval("1 garbage 2"), Err(Error::Parser("garbage".to_string())));
    assert_eq!(written(&vm), "Error: Parser(\"garbage\")\n");
    // The rest of the input stays.
    assert_eq!(vm.input_buffer.len(), 1);
    assert_eq!(vm.state, State::Interpret);
}

#[test]
fn handled_error_flushes_the_input() {
    let mut vm = machine();
    assert_eq!(vm.eval("1 garbage 2 3"), Ok(()));
    assert_eq!(vm.input_buffer.len(), 0);
    assert_eq!(data(&mut vm), ints(&[1]));
}

#[test]
fn dot_on_empty_stack_raises_stack_and_the_driver_resumes() {
    let mut vm = machine();
    assert_eq!(builtins::dot(&mut vm), Err(Error::Stack));
    assert_eq!(vm.eval("."), Ok(()));
    assert_eq!(written(&vm), "Error: Stack\n");
    assert_eq!(vm.eval("1 2 + ."), Ok(()));
    assert_eq!(written(&vm), "Error: Stack\n3");
}

#[test]
fn if_without_then_stops_on_eol() {
    let mut vm = machine();
    tokens(&mut vm, &["if", "1"]);
    match vm.compile() {
        Err(Error::Compiler(_, token)) => assert_eq!(token, "EOL"),
        other => panic!("unexpected {:?}", other),
    }
    let mut vm = machine();
    vm.handle_errors = false;
    match vm.eval(": foo if 1 ;") {
        Err(Error::Compiler(cells, token)) => {
            assert_eq!(token, "EOL");
            assert!(cells.is_empty());
        }
        other => panic!("unexpected {:?}", other),
    }
    assert_eq!(written(&vm), "Error: Compiler(\"EOL\")\n");
}

#[test]
fn string_literal_without_closing_quote() {
    let mut vm = machine();
    tokens(&mut vm, &["hello", "world"]);
    assert_eq!(
        builtins::compiletime_dot_q(&mut vm),
        Err(Error::Parser("EOL".to_string()))
    );
    assert_eq!(vm.input_buffer.len(), 0);
    let mut vm = machine();
    vm.handle_errors = false;
    assert_eq!(
        vm.eval(": foo .\" hello ;"),
        Err(Error::Parser("EOL".to_string()))
    );
}

#[test]
fn do_with_limit_equal_to_index_runs_the_body_once() {
    let mut vm = machine();
    assert_eq!(vm.eval(": once do 7 . loop ; 3 3 once"), Ok(()));
    assert_eq!(vm.output, vec!["7".to_string()]);
    assert_eq!(vm.return_stack.len(), 0);
    assert_eq!(vm.value_stack.len(), 0);
}

#[test]
fn plus_loop_and_minus_loop() {
    let mut vm = machine();
    assert_eq!(vm.eval(": up 0 do i . 2 +loop ; 5 up"), Ok(()));
    assert_eq!(vm.output, vec!["0".to_string(), "2".to_string(), "4".to_string()]);
    let mut vm = machine();
    assert_eq!(vm.eval(": down 5 do i . 2 -loop ; 0 down"), Ok(()));
    assert_eq!(vm.output, vec!["5".to_string(), "3".to_string(), "1".to_string()]);
}

#[test]
fn compiled_if_has_the_documented_layout() {
    let mut vm = machine();
    tokens(&mut vm, &["1", "2", "ELSE", "3", "Then", "9"]);
    let code = builtins::compiletime_if(&mut vm).expect("if compiles");
    assert_eq!(
        code,
        vec![
            Cell::Data(Variable::Int(5)),
            Cell::ControlBranchIfZero,
            Cell::Data(Variable::Int(1)),
            Cell::Data(Variable::Int(2)),
            Cell::Data(Variable::Int(2)),
            Cell::ControlBranch,
            Cell::Data(Variable::Int(3)),
        ]
    );
    assert_eq!(vm.input_buffer.len(), 1);
}

#[test]
fn compiled_if_without_else() {
    let mut vm = machine();
    tokens(&mut vm, &["dup", "then"]);
    let code = builtins::compiletime_if(&mut vm).expect("if compiles");
    assert_eq!(
        code,
        vec![
            Cell::Data(Variable::Int(4)),
            Cell::ControlBranchIfZero,
            Cell::Call("dup".to_string()),
            Cell::Data(Variable::Int(1)),
            Cell::ControlBranch,
        ]
    );
}

#[test]
fn if_hands_an_unknown_token_on() {
    let mut vm = machine();
    tokens(&mut vm, &["1", "Loop"]);
    assert_eq!(
        builtins::compiletime_if(&mut vm),
        Err(Error::Compiler(vec![], "Loop".to_string()))
    );
}

#[test]
fn compiled_do_has_the_documented_layout() {
    let mut vm = machine();
    tokens(&mut vm, &["i", ".", "LOOP"]);
    let code = builtins::compiletime_do(&mut vm).expect("do compiles");
    assert_eq!(
        code,
        vec![
            Cell::Exec(Word::Do),
            Cell::Call("i".to_string()),
            Cell::Call(".".to_string()),
            Cell::Exec(Word::Loop),
            Cell::Data(Variable::Int(-4)),
            Cell::ControlBranchIfNotZero,
        ]
    );
    let mut vm = machine();
    tokens(&mut vm, &["+loop"]);
    assert_eq!(
        builtins::compiletime_do(&mut vm),
        Ok(vec![
            Cell::Exec(Word::Do),
            Cell::Exec(Word::PlusLoop),
            Cell::Data(Variable::Int(-2)),
            Cell::ControlBranchIfNotZero,
        ])
    );
    let mut vm = machine();
    tokens(&mut vm, &["-loop"]);
    assert_eq!(
        builtins::compiletime_do(&mut vm),
        Ok(vec![
            Cell::Exec(Word::Do),
            Cell::Exec(Word::MinusLoop),
            Cell::Data(Variable::Int(-2)),
            Cell::ControlBranchIfNotZero,
        ])
    );
}

#[test]
fn do_without_loop() {
    let mut vm = machine();
    tokens(&mut vm, &["1", "then"]);
    assert_eq!(
        builtins::compiletime_do(&mut vm),
        Err(Error::Compiler(vec![Cell::Exec(Word::Do)], "then".to_string()))
    );
    let mut vm = machine();
    tokens(&mut vm, &["1", ";"]);
    assert_eq!(
        builtins::compiletime_do(&mut vm),
        Err(Error::Compiler(vec![Cell::Data(Variable::Int(1))], "EOL".to_string()))
    );
}

#[test]
fn compile_emits_calls_literals_and_expansions() {
    let mut vm = machine();
    tokens(&mut vm, &["DUP", "-12", ".\"", "a", "b\"", ";", "rest"]);
    assert_eq!(
        vm.compile(),
        Ok(vec![
            Cell::Call("DUP".to_string()),
            Cell::Data(Variable::Int(-12)),
            Cell::Data(Variable::String("a b".to_string())),
            Cell::Exec(Word::PrintString),
        ])
    );
    assert_eq!(vm.input_buffer.len(), 1);
}

#[test]
fn compile_stops_at_an_unknown_token_and_at_the_end() {
    let mut vm = machine();
    tokens(&mut vm, &["1", "what", "2"]);
    assert_eq!(
        vm.compile(),
        Err(Error::Compiler(vec![Cell::Data(Variable::Int(1))], "what".to_string()))
    );
    assert_eq!(vm.input_buffer.len(), 1);
    assert_eq!(
        vm.compile(),
        Err(Error::Compiler(vec![Cell::Data(Variable::Int(2))], "EOL".to_string()))
    );
}

#[test]
fn every_compiled_branch_follows_an_integer_literal() {
    let mut vm = machine();
    tokens(
        &mut vm,
        &["dup", "if", "1", "do", "i", "loop", "else", "if", "2", "then", "then", ";"],
    );
    let code = vm.compile().expect("compiles");
    for (k, cell) in code.iter().enumerate() {
        if matches!(
            cell,
            Cell::ControlBranch | Cell::ControlBranchIfZero | Cell::ControlBranchIfNotZero
        ) {
            assert!(k > 0);
            assert!(matches!(code[k - 1], Cell::Data(Variable::Int(_))));
        }
    }
}

#[test]
fn definition_waits_for_its_semicolon() {
    let mut vm = machine();
    assert_eq!(vm.eval(": seven 3"), Ok(()));
    assert_eq!(vm.state, State::FillBuffer);
    assert_eq!(vm.input_buffer.len(), 3);
    assert_eq!(vm.eval("4 + ; seven ."), Ok(()));
    assert_eq!(vm.state, State::Interpret);
    assert_eq!(written(&vm), "7");
}

#[test]
fn definition_in_the_middle_of_a_line() {
    let mut vm = machine();
    assert_eq!(vm.eval("2 : twice dup + ; twice twice ."), Ok(()));
    assert_eq!(written(&vm), "8");
}

#[test]
fn definition_leaves_the_same_stack_as_its_body() {
    let mut direct = machine();
    assert_eq!(direct.eval("3 4 over over * swap drop 17"), Ok(()));
    let mut defined = machine();
    assert_eq!(defined.eval(": foo 3 4 over over * swap drop 17 ; foo"), Ok(()));
    assert_eq!(data(&mut direct), data(&mut defined));
    let mut literal = machine();
    assert_eq!(literal.eval(": foo 42 ; foo"), Ok(()));
    assert_eq!(data(&mut literal), ints(&[42]));
}

#[test]
fn words_are_found_whatever_their_case() {
    let mut vm = machine();
    assert_eq!(vm.eval(": Square DUP * ; 3 SQUARE sQuArE ."), Ok(()));
    assert_eq!(written(&vm), "81");
}

#[test]
fn redefinition_reaches_earlier_callers() {
    let mut vm = machine();
    assert_eq!(vm.eval(": inner 1 ; : outer inner inner + ; outer ."), Ok(()));
    assert_eq!(written(&vm), "2");
    assert_eq!(vm.eval(": inner 10 ; outer ."), Ok(()));
    assert_eq!(written(&vm), "220");
}

#[test]
fn comments_are_skipped() {
    let mut vm = machine();
    assert_eq!(vm.eval("1 ( this is a comment) 2 + . \\ 3 4 5"), Ok(()));
    assert_eq!(written(&vm), "3");
    assert_eq!(vm.value_stack.len(), 0);
    assert_eq!(vm.eval("( never closed"), Ok(()));
    assert_eq!(written(&vm), "3Error: Parser(\"EOL\")\n");
}

#[test]
fn stack_effects_follow_one_another() {
    let mut vm = machine();
    assert_eq!(vm.eval("1 2 3 rot swap over"), Ok(()));
    assert_eq!(data(&mut vm), ints(&[2, 1, 3, 1]));
}

#[test]
fn stack_laws_on_values() {
    let mut vm = machine();
    assert_eq!(vm.eval("1 2 dup drop"), Ok(()));
    assert_eq!(data(&mut vm), ints(&[1, 2]));
    assert_eq!(vm.eval("1 2 swap swap"), Ok(()));
    assert_eq!(data(&mut vm), ints(&[1, 2]));
    assert_eq!(vm.eval("1 2 over over"), Ok(()));
    assert_eq!(data(&mut vm), ints(&[1, 2, 1, 2]));
}

#[test]
fn integer_literals_round_trip() {
    let mut vm = machine();
    assert_eq!(vm.eval("9223372036854775807 -9223372036854775808 +0 -0 007"), Ok(()));
    assert_eq!(data(&mut vm), ints(&[i64::MAX, i64::MIN, 0, 0, 7]));
    assert_eq!(vm.eval("9223372036854775808"), Ok(()));
    assert_eq!(written(&vm), "Error: Parser(\"9223372036854775808\")\n");
}

#[test]
fn execute_follows_branches() {
    let mut vm = machine();
    let program = vec![
        Cell::Data(Variable::Int(1)),
        Cell::Data(Variable::Int(3)),
        Cell::ControlBranch,
        Cell::Data(Variable::Int(2)),
        Cell::ControlReturn,
        Cell::Data(Variable::Int(0)),
        Cell::Data(Variable::Int(-3)),
        Cell::ControlBranchIfZero,
        Cell::Data(Variable::Int(4)),
    ];
    assert_eq!(vm.execute(program), Ok(()));
    assert_eq!(data(&mut vm), ints(&[1]));
    let fall_through = vec![
        Cell::Data(Variable::Int(5)),
        Cell::Data(Variable::Int(7)),
        Cell::Data(Variable::Int(2)),
        Cell::ControlBranchIfZero,
        Cell::Data(Variable::Int(6)),
    ];
    assert_eq!(vm.execute(fall_through), Ok(()));
    assert_eq!(data(&mut vm), ints(&[5, 6]));
    let jump_out = vec![
        Cell::Data(Variable::Int(-100)),
        Cell::ControlBranch,
        Cell::Data(Variable::Int(6)),
    ];
    assert_eq!(vm.execute(jump_out), Ok(()));
    assert_eq!(vm.value_stack.len(), 0);
}

#[test]
fn execute_reports_what_goes_wrong() {
    let mut vm = machine();
    assert_eq!(
        vm.execute(vec![Cell::Compiler(Immediate::If)]),
        Err(Error::Parser("compile-only word at runtime".to_string()))
    );
    assert_eq!(
        vm.execute(vec![Cell::Call("Nowhere".to_string())]),
        Err(Error::Unimplemented("Nowhere".to_string()))
    );
    assert_eq!(vm.execute(vec![Cell::ControlBranch]), Err(Error::Stack));
    assert_eq!(
        vm.execute(vec![Cell::Data(Variable::Int(1)), Cell::ControlBranchIfNotZero]),
        Err(Error::Stack)
    );
    assert_eq!(
        vm.execute(vec![
            Cell::Data(Variable::String("x".to_string())),
            Cell::ControlBranch
        ]),
        Err(Error::Executor)
    );
    assert_eq!(vm.execute(vec![Cell::Compiled(Word::Unimplemented)]),
        Err(Error::Unimplemented("Function".to_string())));
}

#[test]
fn endless_routine_runs_out_of_steps() {
    let mut vm = machine();
    vm.step_limit = 1000;
    vm.handle_errors = false;
    // A word can call itself once its name is known: calls are bound when they run.
    assert_eq!(vm.eval(": forever 1 ; : forever forever ;"), Ok(()));
    assert_eq!(vm.eval("forever"), Err(Error::Executor));
    assert_eq!(vm.steps_left, 0);
    // The next evaluation starts with the full number of steps again.
    assert_eq!(vm.eval("1 2 + ."), Ok(()));
    assert_eq!(vm.steps_left, 998);
}

#[test]
fn muted_machine_writes_nothing() {
    let mut vm = VM::new_null();
    vm.dictionary.add(".", vec![Cell::Exec(Word::Dot)]);
    assert_eq!(vm.eval("1 . nothing"), Ok(()));
    assert!(vm.output.is_empty());
    assert!(vm.mute);
    assert!(!VM::new().mute);
}

#[test]
fn states_that_idle() {
    assert!(State::Interpret.is_idling());
    assert!(State::FillBuffer.is_idling());
    assert!(!State::Compile.is_idling());
}

#[test]
fn state_error_reports_and_resets() {
    let mut vm = machine();
    tokens(&mut vm, &["left", "over"]);
    assert_eq!(vm.state_error(Error::Type), Ok(State::Interpret));
    assert_eq!(written(&vm), "Error: Type\n");
    assert_eq!(vm.input_buffer.len(), 0);
    vm.handle_errors = false;
    assert_eq!(vm.state_error(Error::Executor), Err(Error::Executor));
}

#[test]
fn error_lines() {
    assert_eq!(Error::Stack.to_string(), "Stack");
    assert_eq!(Error::Executor.to_string(), "Executor");
    assert_eq!(Error::Type.to_string(), "Type");
    assert_eq!(Error::Parser("x".to_string()).to_string(), "Parser(\"x\")");
    assert_eq!(
        Error::Unimplemented("roll".to_string()).to_string(),
        "Unimplemented(\"roll\")"
    );
    assert_eq!(
        Error::Compiler(vec![Cell::ControlReturn], "then".to_string()).to_string(),
        "Compiler(\"then\")"
    );
}

#[test]
fn step_says_how_far_to_move() {
    let mut vm = machine();
    assert_eq!(vm.step(&Cell::Data(Variable::Int(4))), Ok(Some(1)));
    assert_eq!(vm.step(&Cell::Data(Variable::Int(-2))), Ok(Some(1)));
    assert_eq!(vm.step(&Cell::ControlBranch), Ok(Some(-2)));
    assert_eq!(vm.step(&Cell::Data(Variable::Int(9))), Ok(Some(1)));
    assert_eq!(vm.step(&Cell::ControlBranchIfNotZero), Ok(Some(9)));
    assert_eq!(vm.step(&Cell::ControlReturn), Ok(None));
    assert_eq!(vm.step(&Cell::Exec(Word::Drop)), Err(Error::Stack));
    assert_eq!(vm.step(&Cell::Data(Variable::Int(0))), Ok(Some(1)));
    assert_eq!(vm.step(&Cell::Data(Variable::Int(9))), Ok(Some(1)));
    assert_eq!(vm.step(&Cell::ControlBranchIfNotZero), Ok(Some(1)));
    assert_eq!(vm.value_stack.len(), 0);
}

#[test]
fn execute_without_steps_fails() {
    let mut vm = machine();
    vm.steps_left = 2;
    let program = vec![
        Cell::Data(Variable::Int(1)),
        Cell::Data(Variable::Int(2)),
        Cell::Data(Variable::Int(3)),
    ];
    assert_eq!(vm.execute(program), Err(Error::Executor));
    assert_eq!(data(&mut vm), ints(&[1, 2]));
    assert_eq!(vm.execute(vec![]), Ok(()));
}

#[test]
fn expand_runs_the_immediate_word() {
    let mut vm = machine();
    tokens(&mut vm, &["hi\"\""]);
    assert_eq!(
        vm.expand(Immediate::DotQuote),
        Ok(vec![
            Cell::Data(Variable::String("hi".to_string())),
            Cell::Exec(Word::PrintString)
        ])
    );
    tokens(&mut vm, &["then"]);
    assert_eq!(
        vm.expand(Immediate::If),
        Ok(vec![
            Cell::Data(Variable::Int(3)),
            Cell::ControlBranchIfZero,
            Cell::Data(Variable::Int(1)),
            Cell::ControlBranch
        ])
    );
    tokens(&mut vm, &["loop"]);
    assert_eq!(
        vm.expand(Immediate::Do),
        Ok(vec![
            Cell::Exec(Word::Do),
            Cell::Exec(Word::Loop),
            Cell::Data(Variable::Int(-2)),
            Cell::ControlBranchIfNotZero
        ])
    );
}

#[test]
fn driver_states_one_by_one() {
    let mut vm = machine();
    vm.feed(vec![":".to_string(), "two".to_string(), "2".to_string()]);
    assert!(!vm.definition_complete());
    assert_eq!(vm.state_interpret(), Ok(State::FillBuffer));
    assert_eq!(vm.state_fill_buffer(), Ok(State::FillBuffer));
    vm.feed(vec![";".to_string(), "two".to_string(), "what".to_string()]);
    assert!(vm.definition_complete());
    assert_eq!(vm.state_fill_buffer(), Ok(State::Compile));
    assert_eq!(vm.state_compile(), Ok(State::Interpret));
    assert_eq!(vm.dictionary.get("TWO"), Ok(vec![Cell::Data(Variable::Int(2))]));
    assert_eq!(vm.next_token(), Some("two".to_string()));
    assert_eq!(vm.state_interpret(), Err(Error::Parser("what".to_string())));
    assert_eq!(vm.next_token(), None);
    assert_eq!(vm.state_interpret(), Ok(State::Interpret));
    assert_eq!(vm.state_compile(), Ok(State::Interpret));
}

#[test]
fn compile_state_without_a_name() {
    let mut vm = machine();
    vm.state = State::Compile;
    assert_eq!(vm.eval(":"), Ok(()));
    assert_eq!(vm.state, State::Interpret);
    assert_eq!(vm.input_buffer.len(), 0);
}

#[test]
fn write_appends_a_fragment() {
    let mut vm = VM::new();
    vm.write("a".to_string());
    vm.write("b".to_string());
    assert_eq!(vm.output, vec!["a".to_string(), "b".to_string()]);
    assert_eq!(vm.steps_left, vm.step_limit);
}

#[test]
fn popping_helpers() {
    let mut vm = VM::new();
    vm.value_stack.push(Variable::Int(1));
    vm.value_stack.push(Variable::Int(2));
    vm.value_stack.push(Variable::Int(3));
    assert_eq!(
        builtins::core_words::pop_two(&mut vm),
        Ok((Variable::Int(3), Variable::Int(2)))
    );
    assert_eq!(builtins::core_words::pop_two(&mut vm), Err(Error::Stack));
    assert_eq!(vm.value_stack.len(), 0);
    assert_eq!(builtins::core_words::pop_one(&mut vm), Err(Error::Stack));
    vm.value_stack.push(Variable::Int(1));
    assert_eq!(builtins::core_words::pop_one(&mut vm), Ok(Variable::Int(1)));
}
