//! The native words of the machine.

pub mod compiled;
pub mod core_words;
pub mod tools;

pub use compiled::{
    compiletime_do, compiletime_dot_q, compiletime_if, runtime_do, runtime_dot_q, runtime_loop,
    runtime_minus_loop, runtime_plus_loop,
};
pub use core_words::{
    abs, cr, div, dot, drop, dup, eq, i, icomment, j, lcomment, max, min, minus, modulo, negate,
    nip, one_minus, over, plus, qdup, rot, space, swap, times, tuck, unimplemented,
};
pub use tools::dot_s;
