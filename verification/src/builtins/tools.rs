use crate::context::VM;
use crate::dictionary::Word;
use crate::error::Error;
use crate::machine::{depth_text, emit, emit_all, listing, outcome, word_effect};
use crate::text::count_text;
use vstd::prelude::*;
use vstd::string::StringExecFns;

verus! {

/// `.s`: writes the depth of the data stack, then every value from the
/// bottom to the top, then a line break. The stack stays as it is.
pub fn dot_s(vm: &mut VM) -> (r: Result<(), Error>)
    ensures
        outcome(r, final(vm)@) == word_effect(Word::DotS, old(vm)@),
{
    proof {
        reveal_strlit(" <");
        reveal_strlit("> ");
        reveal_strlit(" ");
        reveal_strlit("\n");
    }
    let n = vm.value_stack.len();
    let mut head = String::from_str(" <");
    head.append(count_text(n).as_str());
    head.append("> ");
    assert(head@ =~= depth_text(n as nat));
    vm.write(head);
    let ghost start = vm@;
    let mut k: usize = 0;
    while k < n
        invariant
            k <= n,
            n == old(vm)@.data.len(),
            start == emit(old(vm)@, depth_text(n as nat)),
            vm@ == emit_all(start, listing(old(vm)@.data, k as int)),
            " "@ == seq![' '],
        decreases n - k,
    {
        proof {
            crate::machine::lemma_emit_all_output_only(start, listing(old(vm)@.data, k as int));
        }
        let mut line = String::from_str(" ");
        match vm.value_stack.at(n - 1 - k) {
            Ok(v) => {
                line.append(v.to_string().as_str());
            },
            Err(_) => {},
        }
        line.append(" ");
        proof {
            let d = old(vm)@.data;
            let more = listing(d, k as int + 1);
            assert(more.drop_last() =~= listing(d, k as int));
            assert(line@ =~= more.last());
        }
        vm.write(line);
        k = k + 1;
    }
    let end = String::from_str("\n");
    assert(end@ =~= seq!['\n']);
    vm.write(end);
    Ok(())
}

} // verus!
