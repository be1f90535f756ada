//! Laws of the machine, proved over its mathematical model.

use crate::dictionary::{Immediate, Op, Word};
use crate::error::Fault;
use crate::machine::{
    advanced, at_rest, code_of, compile_loop, define_word, depth_text, do_code, emit, emit_all,
    expand, fill_buffer, guarded, if_code, interpret, is_branch, is_offset,
    lemma_compile_bounds, lemma_word_effect_bounds, listing, offset, ok, pump, quote_code, run,
    step, turn, with_data, with_input, word_effect, Emitted, Machine, Outcome, State, Turn,
};
use crate::text::{literal, lowered};
use crate::variable::Value;
use vstd::prelude::*;

verus! {

/// Code whose branches all have their offsets stays so when more such code
/// is put behind it.
pub proof fn lemma_guarded_concat(a: Seq<Op>, b: Seq<Op>)
    requires
        guarded(a),
        guarded(b),
    ensures
        guarded(a + b),
{
    let c = a + b;
    assert forall|i: int| 0 <= i < c.len() && is_branch(#[trigger] c[i]) implies i > 0 && is_offset(
        c[i - 1],
    ) by {
        if i < a.len() {
            assert(c[i] == a[i]);
        } else {
            assert(c[i] == b[i - a.len()]);
            assert(i - a.len() > 0);
            assert(c[i - 1] == b[i - a.len() - 1]);
        }
    }
}

/// The code of a conditional has an offset before each of its branches.
pub proof fn lemma_if_code_guarded(t: Seq<Op>, f: Seq<Op>)
    requires
        guarded(t),
        guarded(f),
    ensures
        guarded(if_code(t, f)),
{
    let head = seq![Op::Data(Value::Int(offset(t.len() as int + 3))), Op::BranchIfZero];
    let middle = seq![Op::Data(Value::Int(offset(f.len() as int + 1))), Op::Branch];
    assert(guarded(head));
    assert(guarded(middle));
    lemma_guarded_concat(head, t);
    lemma_guarded_concat(head + t, middle);
    lemma_guarded_concat(head + t + middle, f);
}

/// The code of a counted loop has an offset before its branch.
pub proof fn lemma_do_code_guarded(body: Seq<Op>, end: Word)
    requires
        guarded(body),
    ensures
        guarded(do_code(body, end)),
{
    let head = seq![Op::Exec(Word::Do)];
    let tail = seq![
        Op::Exec(end),
        Op::Data(Value::Int(offset(-(body.len() as int + 2)))),
        Op::BranchIfNotZero,
    ];
    assert(guarded(head));
    assert(guarded(tail));
    lemma_guarded_concat(head, body);
    lemma_guarded_concat(head + body, tail);
}

/// Whatever the compiler hands back, complete or cut short, every branch in
/// it stands directly behind the integer literal that is its offset.
pub proof fn lemma_compile_guarded(m: Machine, acc: Seq<Op>)
    requires
        guarded(acc),
    ensures
        guarded(code_of(compile_loop(m, acc).result)),
    decreases m.input.len(), 1int,
{
    if m.input.len() > 0 {
        let token = m.input[0];
        let m1 = with_input(m, m.input.drop_first());
        if token == seq![';'] {
        } else if m.words.contains_key(lowered(token)) {
            let routine = m.words[lowered(token)];
            if routine.len() == 1 && routine[0] is Compiler {
                let w = routine[0]->Compiler_0;
                lemma_expand_guarded(w, m1);
                let e = expand(w, m1);
                if e.result is Ok && e.machine.input.len() < m.input.len() {
                    lemma_guarded_concat(acc, e.result->Ok_0);
                    lemma_compile_guarded(e.machine, acc + e.result->Ok_0);
                }
            } else {
                lemma_guarded_concat(acc, seq![Op::Call(token)]);
                assert(acc.push(Op::Call(token)) =~= acc + seq![Op::Call(token)]);
                lemma_compile_guarded(m1, acc.push(Op::Call(token)));
            }
        } else if literal(token) is Some {
            let cell = Op::Data(Value::Int(literal(token)->Some_0));
            lemma_guarded_concat(acc, seq![cell]);
            assert(acc.push(cell) =~= acc + seq![cell]);
            lemma_compile_guarded(m1, acc.push(cell));
        }
    }
}

/// Whatever an immediate word hands back, every branch in it stands
/// directly behind the integer literal that is its offset.
pub proof fn lemma_expand_guarded(w: Immediate, m: Machine)
    ensures
        guarded(code_of(expand(w, m).result)),
    decreases m.input.len(), 2int,
{
    let none = Seq::<Op>::empty();
    match w {
        Immediate::If => {
            lemma_compile_guarded(m, none);
            lemma_compile_bounds(m, none);
            let first = compile_loop(m, none);
            lemma_compile_guarded(first.machine, none);
            let second = compile_loop(first.machine, none);
            lemma_if_code_guarded(code_of(first.result), code_of(second.result));
            lemma_if_code_guarded(code_of(first.result), none);
        },
        Immediate::Do => {
            lemma_compile_guarded(m, none);
            let first = compile_loop(m, none);
            lemma_do_code_guarded(code_of(first.result), Word::Loop);
            lemma_do_code_guarded(code_of(first.result), Word::PlusLoop);
            lemma_do_code_guarded(code_of(first.result), Word::MinusLoop);
            assert(guarded(seq![Op::Exec(Word::Do)]));
        },
        Immediate::DotQuote => {
            assert forall|text: Seq<char>| guarded(#[trigger] quote_code(text)) by {}
        },
    }
}

/// A value that was pushed is the one that the next pop hands out, and the
/// pop leaves the stack as it was before the push. This holds of every
/// value, so of every 64-bit integer.
pub proof fn lemma_push_then_pop(stack: Seq<Value>, v: Value)
    ensures
        (seq![v] + stack).len() > 0,
        (seq![v] + stack)[0] == v,
        (seq![v] + stack).drop_first() == stack,
{
    assert((seq![v] + stack).drop_first() =~= stack);
}

/// A word that was added under one spelling of its name is found under
/// every spelling with the same lower-case form, with the routine it was
/// added with.
pub proof fn lemma_lookup_ignores_case(
    words: Map<Seq<char>, Seq<Op>>,
    added: Seq<char>,
    asked: Seq<char>,
    routine: Seq<Op>,
)
    requires
        lowered(added) == lowered(asked),
    ensures
        words.insert(lowered(added), routine).contains_key(lowered(asked)),
        words.insert(lowered(added), routine)[lowered(asked)] == routine,
{
}

/// A call is bound when it runs: once a name was redefined, a cell that
/// calls it runs the new routine, wherever and whenever the cell was
/// compiled.
pub proof fn lemma_call_runs_latest_definition(m: Machine, name: Seq<char>, routine: Seq<Op>)
    ensures
        ({
            let redefined = Machine { words: m.words.insert(lowered(name), routine), ..m };
            step(Op::Call(name), redefined).outcome == run(routine, 0, redefined)
        }),
{
}

/// `dup drop` leaves a machine with a value on its data stack as it was.
pub proof fn lemma_dup_drop(m: Machine)
    requires
        m.data.len() >= 1,
    ensures
        word_effect(Word::Dup, m).fault is None,
        word_effect(Word::Drop, word_effect(Word::Dup, m).machine) == ok(m),
{
    let after = word_effect(Word::Dup, m).machine;
    assert(after.data.skip(1) =~= m.data);
    assert(Seq::<Value>::empty() + after.data.skip(1) =~= m.data);
}

/// `swap swap` leaves a machine with two values on its data stack as it
/// was.
pub proof fn lemma_swap_swap(m: Machine)
    requires
        m.data.len() >= 2,
    ensures
        word_effect(Word::Swap, m).fault is None,
        word_effect(Word::Swap, word_effect(Word::Swap, m).machine) == ok(m),
{
    let after = word_effect(Word::Swap, m).machine;
    assert(seq![after.data[1], after.data[0]] + after.data.skip(2) =~= m.data);
}

/// `over over` puts a copy of the two top values on the data stack, in
/// their order.
pub proof fn lemma_over_over(m: Machine)
    requires
        m.data.len() >= 2,
    ensures
        word_effect(Word::Over, m).fault is None,
        word_effect(Word::Over, word_effect(Word::Over, m).machine) == ok(
            with_data(m, seq![m.data[0], m.data[1]] + m.data),
        ),
{
    let after = word_effect(Word::Over, m).machine;
    assert(seq![after.data[1], after.data[0], after.data[1]] + after.data.skip(2) =~= seq![
        m.data[0],
        m.data[1],
    ] + m.data);
}

/// What a token of plain input stands for: a native word or a number.
pub enum Item {
    Word(Word),
    Number(i64),
}

/// The words that read from the input buffer.
pub open spec fn reads_input(w: Word) -> bool {
    w == Word::LineComment || w == Word::InlineComment
}

/// Whether an item is one of the words that read from the input buffer.
pub open spec fn item_reads_input(item: Item) -> bool {
    item is Word && reads_input(item->Word_0)
}

/// The effect of one item on the machine: that of the word, or the number
/// pushed.
pub open spec fn item_effect(item: Item, m: Machine) -> Outcome {
    match item {
        Item::Word(w) => word_effect(w, m),
        Item::Number(n) => ok(with_data(m, seq![Value::Int(n)] + m.data)),
    }
}

/// The effects of the items one after the other, up to the first fault.
pub open spec fn effects(items: Seq<Item>, m: Machine) -> Outcome
    decreases items.len(),
{
    if items.len() == 0 {
        ok(m)
    } else {
        let o = item_effect(items[0], m);
        if o.fault is Some {
            o
        } else {
            effects(items.drop_first(), o.machine)
        }
    }
}

/// Whether `token` stands for `item` in a dictionary: it is the name of a
/// native word that leaves the input alone, or it is no name at all and
/// reads as a number. A token that opens or closes a definition stands for
/// nothing.
pub open spec fn denotes(words: Map<Seq<char>, Seq<Op>>, token: Seq<char>, item: Item) -> bool {
    &&& token != seq![':']
    &&& token != seq![';']
    &&& match item {
        Item::Word(w) => !reads_input(w) && words.contains_key(lowered(token)) && words[lowered(
            token,
        )] == seq![Op::Exec(w)],
        Item::Number(n) => !words.contains_key(lowered(token)) && literal(token) == Some(n),
    }
}

/// Whether each token stands for the item at its place.
pub open spec fn all_denote(
    words: Map<Seq<char>, Seq<Op>>,
    tokens: Seq<Seq<char>>,
    items: Seq<Item>,
) -> bool {
    tokens.len() == items.len() && forall|i: int|
        0 <= i < tokens.len() ==> denotes(words, #[trigger] tokens[i], items[i])
}

/// The stacks and the output of `m` in the surroundings of `frame`: its
/// input buffer, its steps and its dictionary.
pub open spec fn moved(m: Machine, frame: Machine) -> Machine {
    Machine { input: frame.input, steps_left: frame.steps_left, words: frame.words, ..m }
}

/// The outcome in the surroundings of `frame`.
pub open spec fn moved_outcome(o: Outcome, frame: Machine) -> Outcome {
    Outcome { machine: moved(o.machine, frame), fault: o.fault }
}

/// Writing does not look at the input buffer, the steps or the dictionary.
pub proof fn lemma_emit_all_moved(m: Machine, fragments: Seq<Seq<char>>, frame: Machine)
    ensures
        emit_all(moved(m, frame), fragments) == moved(emit_all(m, fragments), frame),
    decreases fragments.len(),
{
    if fragments.len() > 0 {
        lemma_emit_all_moved(m, fragments.drop_last(), frame);
    }
}

/// The words that compute a value from the two top values.
pub open spec fn computes(w: Word) -> bool {
    matches!(
        w,
        Word::Plus | Word::Minus | Word::Times | Word::Max | Word::Min | Word::Div | Word::Modulo
            | Word::Eq
    )
}

/// The words that rearrange the top of the data stack.
pub open spec fn shuffles(w: Word) -> bool {
    matches!(
        w,
        Word::Dup | Word::Swap | Word::Rot | Word::Nip | Word::Tuck | Word::Over | Word::Drop
            | Word::QDup
    )
}

/// The words that set up a counted loop or end a round of it.
pub open spec fn loops(w: Word) -> bool {
    matches!(w, Word::Do | Word::Loop | Word::PlusLoop | Word::MinusLoop)
}

/// The words that rewrite the top value, read a loop index, write a value
/// or always fail.
pub open spec fn touches_top(w: Word) -> bool {
    matches!(
        w,
        Word::Negate | Word::Abs | Word::OneMinus | Word::I | Word::J | Word::Dot
            | Word::PrintString | Word::Cr | Word::Space | Word::Unimplemented
    )
}

/// The computing words do not look at the input buffer, the steps or the
/// dictionary.
proof fn lemma_computing_moved(w: Word, m: Machine, frame: Machine)
    requires
        computes(w),
    ensures
        word_effect(w, moved(m, frame)) == moved_outcome(word_effect(w, m), frame),
{
}

/// The shuffling words do not look at the input buffer, the steps or the
/// dictionary.
proof fn lemma_shuffling_moved(w: Word, m: Machine, frame: Machine)
    requires
        shuffles(w),
    ensures
        word_effect(w, moved(m, frame)) == moved_outcome(word_effect(w, m), frame),
{
}

/// The loop words do not look at the input buffer, the steps or the
/// dictionary.
proof fn lemma_looping_moved(w: Word, m: Machine, frame: Machine)
    requires
        loops(w),
    ensures
        word_effect(w, moved(m, frame)) == moved_outcome(word_effect(w, m), frame),
{
}

/// The words that touch the top value do not look at the input buffer, the
/// steps or the dictionary.
proof fn lemma_touching_moved(w: Word, m: Machine, frame: Machine)
    requires
        touches_top(w),
    ensures
        word_effect(w, moved(m, frame)) == moved_outcome(word_effect(w, m), frame),
{
}

/// A word that leaves the input alone does the same to the stacks and the
/// output whatever the input buffer and the dictionary hold and however
/// many steps are left.
pub proof fn lemma_word_effect_moved(w: Word, m: Machine, frame: Machine)
    requires
        !reads_input(w),
    ensures
        word_effect(w, moved(m, frame)) == moved_outcome(word_effect(w, m), frame),
{
    if computes(w) {
        lemma_computing_moved(w, m, frame);
    } else if shuffles(w) {
        lemma_shuffling_moved(w, m, frame);
    } else if loops(w) {
        lemma_looping_moved(w, m, frame);
    } else if touches_top(w) {
        lemma_touching_moved(w, m, frame);
    } else {
        assert(w == Word::DotS);
        let head = emit(m, depth_text(m.data.len()));
        lemma_emit_all_moved(head, listing(m.data, m.data.len() as int), frame);
    }
}

/// Whether none of the items reads from the input buffer.
pub open spec fn leave_input_alone(items: Seq<Item>) -> bool {
    forall|i: int| 0 <= i < items.len() ==> !item_reads_input(#[trigger] items[i])
}

/// The effects of items that leave the input alone are the same whatever
/// the input buffer and the dictionary hold and however many steps are
/// left.
pub proof fn lemma_effects_moved(items: Seq<Item>, m: Machine, frame: Machine)
    requires
        leave_input_alone(items),
    ensures
        effects(items, moved(m, frame)) == moved_outcome(effects(items, m), frame),
    decreases items.len(),
{
    if items.len() > 0 {
        assert(!item_reads_input(items[0]));
        match items[0] {
            Item::Word(w) => lemma_word_effect_moved(w, m, frame),
            Item::Number(_) => {},
        }
        let o = item_effect(items[0], m);
        if o.fault is None {
            let rest = items.drop_first();
            assert forall|i: int| 0 <= i < rest.len() implies !item_reads_input(
                #[trigger] rest[i],
            ) by {
                assert(rest[i] == items[i + 1]);
            }
            lemma_effects_moved(rest, o.machine, frame);
        }
    }
}

/// Tokens that stand for items stand for items that leave the input alone,
/// and so do those behind the first.
pub proof fn lemma_all_denote_rest(
    words: Map<Seq<char>, Seq<Op>>,
    tokens: Seq<Seq<char>>,
    items: Seq<Item>,
)
    requires
        all_denote(words, tokens, items),
    ensures
        leave_input_alone(items),
        tokens.len() > 0 ==> all_denote(words, tokens.drop_first(), items.drop_first()),
{
    assert forall|i: int| 0 <= i < items.len() implies !item_reads_input(#[trigger] items[i]) by {
        assert(denotes(words, tokens[i], items[i]));
    }
    if tokens.len() > 0 {
        let rest = tokens.drop_first();
        let later = items.drop_first();
        assert forall|i: int| 0 <= i < rest.len() implies denotes(
            words,
            #[trigger] rest[i],
            later[i],
        ) by {
            assert(rest[i] == tokens[i + 1]);
            assert(later[i] == items[i + 1]);
        }
    }
}

/// The machine with one step less.
pub open spec fn paid(m: Machine) -> Machine {
    Machine { steps_left: (m.steps_left - 1) as nat, ..m }
}

/// An item has the same effect whatever the input buffer and the
/// dictionary hold and however many steps are left, unless it reads input.
pub proof fn lemma_item_effect_moved(item: Item, m: Machine, frame: Machine)
    requires
        !item_reads_input(item),
    ensures
        item_effect(item, moved(m, frame)) == moved_outcome(item_effect(item, m), frame),
{
    match item {
        Item::Word(w) => lemma_word_effect_moved(w, m, frame),
        Item::Number(_) => {},
    }
}

/// The routine of a native word, a single cell, does what the word does and
/// costs one step.
pub proof fn lemma_run_primitive(w: Word, m: Machine)
    requires
        m.steps_left > 0,
    ensures
        run(seq![Op::Exec(w)], 0, m) == word_effect(w, paid(m)),
{
    let program = seq![Op::Exec(w)];
    let o = word_effect(w, paid(m));
    lemma_word_effect_bounds(w, paid(m));
    assert(step(program[0], paid(m)) == crate::machine::onward(o, 1));
    assert(run(program, 1, o.machine) == ok(o.machine));
}

/// The cell that a plain token compiles to.
pub open spec fn call_of(token: Seq<char>, item: Item) -> Op {
    match item {
        Item::Word(_) => Op::Call(token),
        Item::Number(n) => Op::Data(Value::Int(n)),
    }
}

/// The cell that a plain token compiles to has the effect of the item that
/// the token stands for, and goes on to the next cell. It leaves the input
/// and the dictionary alone and costs at most one step.
pub proof fn lemma_call_has_item_effect(m: Machine, token: Seq<char>, item: Item)
    requires
        denotes(m.words, token, item),
        m.steps_left > 0,
    ensures
        ({
            let s = step(call_of(token, item), m);
            &&& !s.stop
            &&& s.advance == 1
            &&& s.outcome == moved_outcome(item_effect(item, m), s.outcome.machine)
            &&& s.outcome.machine.input == m.input
            &&& s.outcome.machine.words == m.words
            &&& m.steps_left - 1 <= s.outcome.machine.steps_left <= m.steps_left
        }),
{
    match item {
        Item::Word(w) => {
            lemma_run_primitive(w, m);
            lemma_word_effect_moved(w, m, paid(m));
            lemma_word_effect_bounds(w, paid(m));
            assert(paid(m) == moved(m, paid(m)));
        },
        Item::Number(n) => {},
    }
}

/// Two machines with the same stacks and the same output.
pub open spec fn same_stacks(a: Machine, b: Machine) -> bool {
    a.data == b.data && a.ret == b.ret && a.output == b.output
}

/// Interpreting plain input is the composition of the effects of its
/// tokens, in their order. For input whose tokens are names of native words
/// that leave the input alone, or numbers, and with a step left for each
/// token: the stacks and the output after the interpretation are those
/// after the effects of the words and numbers one after the other, and the
/// interpretation fails exactly where they do.
pub proof fn lemma_interpret_composes_effects(m: Machine, items: Seq<Item>)
    requires
        all_denote(m.words, m.input, items),
        m.steps_left >= items.len(),
    ensures
        same_stacks(interpret(m).machine, effects(items, m).machine),
        match interpret(m).result {
            Ok(state) => {
                &&& state == State::Interpret
                &&& effects(items, m).fault is None
                &&& interpret(m).machine.input.len() == 0
            },
            Err(f) => effects(items, m).fault == Some(f),
        },
    decreases m.input.len(),
{
    if m.input.len() > 0 {
        let token = m.input[0];
        let rest = m.input.drop_first();
        let later = items.drop_first();
        let m1 = with_input(m, rest);
        assert(denotes(m.words, token, items[0]));
        lemma_all_denote_rest(m.words, m.input, items);
        let next = match items[0] {
            Item::Word(w) => {
                lemma_run_primitive(w, m1);
                lemma_word_effect_moved(w, m, paid(m1));
                lemma_word_effect_bounds(w, paid(m1));
                assert(paid(m1) == moved(m, paid(m1)));
                word_effect(w, paid(m1))
            },
            Item::Number(n) => ok(with_data(m1, seq![Value::Int(n)] + m1.data)),
        };
        let direct = item_effect(items[0], m);
        assert(next == moved_outcome(direct, next.machine));
        if next.fault is None {
            lemma_interpret_composes_effects(next.machine, later);
            lemma_all_denote_rest(m.words, rest, later);
            lemma_effects_moved(later, direct.machine, next.machine);
        }
    }
}

/// The routine that plain tokens compile to: a call by name for a word, a
/// literal for a number.
pub open spec fn calls(tokens: Seq<Seq<char>>, items: Seq<Item>) -> Seq<Op> {
    Seq::new(
        tokens.len(),
        |i: int| call_of(tokens[i], items[i]),
    )
}

/// Plain tokens up to a `;` compile to calls and literals, one for each
/// token, and the compiler stops behind the `;`.
pub proof fn lemma_compile_plain(
    m: Machine,
    tokens: Seq<Seq<char>>,
    items: Seq<Item>,
    rest: Seq<Seq<char>>,
    acc: Seq<Op>,
)
    requires
        all_denote(m.words, tokens, items),
        m.input == tokens + seq![seq![';']] + rest,
    ensures
        compile_loop(m, acc) == (Emitted {
            machine: with_input(m, rest),
            result: Ok(acc + calls(tokens, items)),
        }),
    decreases tokens.len(),
{
    if tokens.len() == 0 {
        assert(m.input[0] == seq![';']);
        assert(m.input.drop_first() =~= rest);
        assert(acc + calls(tokens, items) =~= acc);
    } else {
        let token = tokens[0];
        assert(m.input[0] == token);
        assert(denotes(m.words, token, items[0]));
        let m1 = with_input(m, m.input.drop_first());
        lemma_all_denote_rest(m.words, tokens, items);
        assert(m1.input =~= tokens.drop_first() + seq![seq![';']] + rest);
        let cell = calls(tokens, items)[0];
        lemma_compile_plain(m1, tokens.drop_first(), items.drop_first(), rest, acc.push(cell));
        assert(acc.push(cell) + calls(tokens.drop_first(), items.drop_first()) =~= acc + calls(
            tokens,
            items,
        ));
    }
}

/// Running the calls and literals that plain tokens compile to has the
/// effects of the items one after the other, given two steps for each.
pub proof fn lemma_run_plain(m: Machine, tokens: Seq<Seq<char>>, items: Seq<Item>, pc: int)
    requires
        all_denote(m.words, tokens, items),
        0 <= pc <= tokens.len(),
        m.steps_left >= 2 * (tokens.len() - pc),
    ensures
        same_stacks(
            run(calls(tokens, items), pc, m).machine,
            effects(items.skip(pc), m).machine,
        ),
        run(calls(tokens, items), pc, m).fault == effects(items.skip(pc), m).fault,
        run(calls(tokens, items), pc, m).machine.input == m.input,
    decreases tokens.len() - pc,
{
    let program = calls(tokens, items);
    if pc < tokens.len() {
        let later = items.skip(pc + 1);
        assert(items.skip(pc).drop_first() =~= later);
        assert(items.skip(pc)[0] == items[pc]);
        assert(denotes(m.words, tokens[pc], items[pc]));
        assert(program[pc] == call_of(tokens[pc], items[pc]));
        lemma_all_denote_rest(m.words, tokens, items);
        assert(leave_input_alone(later)) by {
            assert forall|i: int| 0 <= i < later.len() implies !item_reads_input(
                #[trigger] later[i],
            ) by {
                assert(later[i] == items[pc + 1 + i]);
            }
        }
        let m1 = paid(m);
        lemma_call_has_item_effect(m1, tokens[pc], items[pc]);
        let s = step(program[pc], m1);
        let next = s.outcome;
        lemma_item_effect_moved(items[pc], m, m1);
        assert(m1 == moved(m, m1));
        let direct = item_effect(items[pc], m);
        assert(next == moved_outcome(direct, next.machine));
        if next.fault is None {
            assert(run(program, pc, m) == run(program, pc + 1, next.machine));
            lemma_run_plain(next.machine, tokens, items, pc + 1);
            lemma_effects_moved(later, direct.machine, next.machine);
        } else {
            assert(run(program, pc, m) == next);
        }
    } else {
        assert(items.skip(pc) =~= Seq::empty());
    }
}

/// The machine in another state of the driver.
pub open spec fn in_state(m: Machine, state: State) -> Machine {
    Machine { state, ..m }
}

/// A definition with a plain body is compiled to calls and literals and
/// installed under its name, whatever state the driver is in meanwhile; and
/// calling the new word then leaves the same stacks and the same output as
/// interpreting the body.
proof fn lemma_define_then_call(
    m: Machine,
    name: Seq<char>,
    tokens: Seq<Seq<char>>,
    items: Seq<Item>,
    during: State,
)
    requires
        all_denote(m.words, tokens, items),
        forall|i: int| 0 <= i < tokens.len() ==> lowered(#[trigger] tokens[i]) != lowered(name),
        name != seq![':'],
        m.steps_left >= 2 * tokens.len(),
    ensures
        ({
            let definition = seq![seq![':'], name] + tokens + seq![seq![';'], name];
            let defined = define_word(in_state(with_input(m, definition), during));
            let called = interpret(in_state(defined.machine, m.state));
            let direct = interpret(with_input(m, tokens));
            &&& defined.result == Ok::<State, Fault>(State::Interpret)
            &&& defined.machine.state == during
            &&& defined.machine.input == seq![name]
            &&& defined.machine.words == m.words.insert(lowered(name), calls(tokens, items))
            &&& same_stacks(called.machine, direct.machine)
            &&& called.result == direct.result
            &&& called.result is Ok ==> called.machine.input.len() == 0
        }),
{
    let definition = seq![seq![':'], name] + tokens + seq![seq![';'], name];
    let start = in_state(with_input(m, definition), during);
    let body = with_input(start, start.input.skip(2));
    let routine = calls(tokens, items);
    assert(start.input.len() >= 2);
    assert(start.input[1] == name);
    assert(body.input =~= tokens + seq![seq![';']] + seq![name]);
    lemma_compile_plain(body, tokens, items, seq![name], Seq::empty());
    assert(Seq::<Op>::empty() + routine =~= routine);
    let defined = define_word(start);
    assert(defined.result == Ok::<State, Fault>(State::Interpret));
    assert(defined.machine.input == seq![name]);
    assert(defined.machine.words == m.words.insert(lowered(name), routine));
    let d = in_state(defined.machine, m.state);
    assert(d.input[0] == name);
    let d1 = with_input(d, d.input.drop_first());
    assert(d1.input =~= Seq::empty());
    assert(all_denote(d1.words, tokens, items)) by {
        assert forall|i: int| 0 <= i < tokens.len() implies denotes(
            d1.words,
            #[trigger] tokens[i],
            items[i],
        ) by {
            assert(denotes(m.words, tokens[i], items[i]));
            assert(lowered(tokens[i]) != lowered(name));
        }
    }
    lemma_run_plain(d1, tokens, items, 0);
    assert(items.skip(0) =~= items);
    let o = run(routine, 0, d1);
    assert(d.words.contains_key(lowered(name)));
    assert(d.words[lowered(name)] == routine);
    let called = interpret(d);
    if o.fault is Some {
        assert(called.machine == o.machine);
    } else {
        assert(o.machine.input.len() == 0);
        assert(interpret(o.machine).machine == o.machine);
        assert(called.machine == o.machine);
        assert(called.result == Ok::<State, Fault>(State::Interpret));
    }
    lemma_all_denote_rest(m.words, tokens, items);
    let plain = with_input(m, tokens);
    lemma_interpret_composes_effects(plain, items);
    assert(d1 == moved(plain, d1));
    lemma_effects_moved(items, plain, d1);
    assert(same_stacks(called.machine, interpret(plain).machine));
    assert(called.result == interpret(plain).result);
}

/// `: foo N ; foo` leaves the same stacks and the same output as `N`. This
/// holds for a body `N` of numbers and of names of native words that leave
/// the input alone, none of them the name that is defined, with two steps
/// left for each token of the body: the definition installs the calls and
/// literals of the body under the name, and interpreting the name then does
/// what interpreting the body does.
pub proof fn lemma_definition_runs_as_its_body(
    m: Machine,
    name: Seq<char>,
    tokens: Seq<Seq<char>>,
    items: Seq<Item>,
)
    requires
        all_denote(m.words, tokens, items),
        forall|i: int| 0 <= i < tokens.len() ==> lowered(#[trigger] tokens[i]) != lowered(name),
        name != seq![':'],
        m.steps_left >= 2 * tokens.len(),
    ensures
        ({
            let definition = seq![seq![':'], name] + tokens + seq![seq![';'], name];
            let defined = define_word(with_input(m, definition));
            let called = interpret(defined.machine);
            let direct = interpret(with_input(m, tokens));
            &&& defined.result == Ok::<State, Fault>(State::Interpret)
            &&& defined.machine.input == seq![name]
            &&& defined.machine.words == m.words.insert(lowered(name), calls(tokens, items))
            &&& same_stacks(called.machine, direct.machine)
            &&& called.result == direct.result
        }),
{
    lemma_define_then_call(m, name, tokens, items, m.state);
    let definition = seq![seq![':'], name] + tokens + seq![seq![';'], name];
    assert(in_state(with_input(m, definition), m.state) == with_input(m, definition));
    let defined = define_word(with_input(m, definition));
    assert(in_state(defined.machine, m.state) == defined.machine);
}

/// The stacks after an evaluation of plain input are those after the
/// effects of its tokens one after the other, whether the evaluation ends
/// well or reports an error.
pub proof fn lemma_eval_composes_effects(m: Machine, items: Seq<Item>)
    requires
        m.state == State::Interpret,
        all_denote(m.words, m.input, items),
        m.steps_left >= items.len(),
    ensures
        pump(m).machine.data == effects(items, m).machine.data,
        pump(m).machine.ret == effects(items, m).machine.ret,
        effects(items, m).fault is None ==> pump(m) == ok(
            in_state(interpret(m).machine, State::Interpret),
        ),
{
    lemma_interpret_composes_effects(m, items);
    if m.input.len() > 0 {
        lemma_settles(m, interpret(m));
    }
}

/// The driver after a turn that used up the input, or failed: it comes to
/// rest with the stacks that the turn left.
proof fn lemma_settles(m: Machine, t: Turn)
    requires
        !at_rest(m),
        t == turn(m),
        m.input.len() > 0,
        t.result is Ok ==> t.result->Ok_0 == State::Interpret && t.machine.input.len() == 0,
    ensures
        pump(m).machine.data == t.machine.data,
        pump(m).machine.ret == t.machine.ret,
        t.result is Ok ==> pump(m) == ok(in_state(t.machine, State::Interpret)),
{
    reveal_with_fuel(pump, 2);
    if t.result is Ok {
        let next = in_state(t.machine, State::Interpret);
        assert(advanced(m, next));
        assert(at_rest(next));
        assert(pump(next) == ok(next));
    }
}

/// Evaluating `: foo N ; foo` leaves the same stacks as evaluating `N`.
/// This holds for a body `N` of numbers and of names of native words that
/// leave the input alone, none of them the name that is defined, with two
/// steps for each token of the body.
pub proof fn lemma_eval_definition_as_its_body(
    m: Machine,
    name: Seq<char>,
    tokens: Seq<Seq<char>>,
    items: Seq<Item>,
)
    requires
        m.state == State::Interpret,
        all_denote(m.words, tokens, items),
        forall|i: int| 0 <= i < tokens.len() ==> lowered(#[trigger] tokens[i]) != lowered(name),
        name != seq![':'],
        m.steps_left >= 2 * tokens.len(),
    ensures
        ({
            let definition = seq![seq![':'], name] + tokens + seq![seq![';'], name];
            let defined = pump(with_input(m, definition));
            let direct = pump(with_input(m, tokens));
            defined.machine.data == direct.machine.data && defined.machine.ret
                == direct.machine.ret
        }),
{
    let definition = seq![seq![':'], name] + tokens + seq![seq![';'], name];
    let start = with_input(m, definition);
    let plain = with_input(m, tokens);
    lemma_eval_composes_effects(plain, items);
    lemma_interpret_composes_effects(plain, items);
    lemma_define_then_call(m, name, tokens, items, State::Compile);
    // The driver sees the `:` and, since the `;` is there, goes on to compile.
    assert(start.input[0] == seq![':']);
    assert(start.input[tokens.len() as int + 2] == seq![';']);
    assert(start.input.contains(seq![';']));
    assert(!at_rest(start));
    assert(turn(start) == fill_buffer(start));
    let compiling = in_state(start, State::Compile);
    assert(advanced(start, compiling));
    assert(pump(start) == pump(compiling));
    // The definition is compiled and installed.
    let defined = define_word(compiling);
    assert(!at_rest(compiling));
    assert(turn(compiling) == defined);
    let calling = in_state(defined.machine, State::Interpret);
    assert(advanced(compiling, calling));
    assert(pump(compiling) == pump(calling));
    // The new word is called.
    assert(calling.input.len() == 1);
    assert(!at_rest(calling));
    lemma_settles(calling, interpret(calling));
}

} // verus!
