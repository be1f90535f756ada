use crate::text::{decimal, int_text, text_less, text_lt_from};
use std::cmp::Ordering;
use vstd::prelude::*;
use vstd::string::StringExecFns;

verus! {

/// A value on one of the machine's stacks.
#[derive(Debug)]
pub enum Variable {
    Array(Vec<Variable>),
    String(String),
    Int(i64),
}

/// The mathematical content of a [`Variable`].
pub enum Value {
    Array(Seq<Value>),
    Text(Seq<char>),
    Int(i64),
}

/// The contents of a sequence of values, element by element.
pub open spec fn contents(items: Seq<Variable>) -> Seq<Value>
    decreases items,
{
    Seq::new(items.len(), |i: int| if 0 <= i < items.len() { items[i]@ } else { Value::Int(0) })
}

impl View for Variable {
    type V = Value;

    open spec fn view(&self) -> Value
        decreases self,
    {
        match self {
            Variable::Int(n) => Value::Int(*n),
            Variable::String(s) => Value::Text(s@),
            Variable::Array(items) => Value::Array(contents(items@)),
        }
    }
}

/// What arithmetic yields when an operand is not an integer, or when the
/// divisor is zero.
pub open spec fn nan() -> Value {
    Value::Text(seq!['N', 'A', 'N'])
}

/// Truncating division on 64-bit integers, wrapping in the one case that
/// overflows. Not meant for a zero divisor.
pub open spec fn quotient(a: i64, b: i64) -> i64 {
    if a == i64::MIN && b == -1 {
        i64::MIN
    } else if (a < 0) == (b < 0) {
        (vstd::math::abs(a as int) / vstd::math::abs(b as int)) as i64
    } else {
        (-(vstd::math::abs(a as int) / vstd::math::abs(b as int))) as i64
    }
}

/// The remainder of truncating division: it has the sign of `a` and is
/// smaller than `b` in magnitude. Not meant for a zero divisor.
pub open spec fn remainder(a: i64, b: i64) -> i64 {
    if a < 0 {
        (-(vstd::math::abs(a as int) % vstd::math::abs(b as int))) as i64
    } else {
        (vstd::math::abs(a as int) % vstd::math::abs(b as int)) as i64
    }
}

/// The absolute value, wrapping at the smallest integer.
pub open spec fn absolute(a: i64) -> i64 {
    if a < 0 {
        0i64.wrapping_sub(a)
    } else {
        a
    }
}

/// The sum of two values.
pub open spec fn value_plus(a: Value, b: Value) -> Value {
    match (a, b) {
        (Value::Int(x), Value::Int(y)) => Value::Int(x.wrapping_add(y)),
        _ => nan(),
    }
}

/// The difference of two values.
pub open spec fn value_minus(a: Value, b: Value) -> Value {
    match (a, b) {
        (Value::Int(x), Value::Int(y)) => Value::Int(x.wrapping_sub(y)),
        _ => nan(),
    }
}

/// The product of two values.
pub open spec fn value_times(a: Value, b: Value) -> Value {
    match (a, b) {
        (Value::Int(x), Value::Int(y)) => Value::Int(x.wrapping_mul(y)),
        _ => nan(),
    }
}

/// The quotient of two values.
pub open spec fn value_divide(a: Value, b: Value) -> Value {
    match (a, b) {
        (Value::Int(x), Value::Int(y)) => if y == 0 {
            nan()
        } else {
            Value::Int(quotient(x, y))
        },
        _ => nan(),
    }
}

/// The remainder of two values.
pub open spec fn value_modulo(a: Value, b: Value) -> Value {
    match (a, b) {
        (Value::Int(x), Value::Int(y)) => if y == 0 {
            nan()
        } else {
            Value::Int(remainder(x, y))
        },
        _ => nan(),
    }
}

/// Arrays come before texts, texts before integers.
pub open spec fn rank(v: Value) -> int {
    match v {
        Value::Array(_) => 0,
        Value::Text(_) => 1,
        Value::Int(_) => 2,
    }
}

/// The strict order on values: by kind first, then integers by size, texts
/// by code point and arrays element by element.
pub open spec fn value_lt(a: Value, b: Value) -> bool
    decreases a, 0int,
{
    match (a, b) {
        (Value::Int(x), Value::Int(y)) => x < y,
        (Value::Text(x), Value::Text(y)) => text_lt_from(x, y, 0),
        (Value::Array(x), Value::Array(y)) => array_lt_from(x, y, 0),
        _ => rank(a) < rank(b),
    }
}

/// Lexicographic order on arrays from position `i` on, given that the two
/// arrays agree before `i`.
pub open spec fn array_lt_from(a: Seq<Value>, b: Seq<Value>, i: int) -> bool
    decreases a, a.len() - i,
{
    if i < 0 || i >= b.len() {
        false
    } else if i >= a.len() {
        true
    } else if a[i] != b[i] {
        value_lt(a[i], b[i])
    } else {
        array_lt_from(a, b, i + 1)
    }
}

/// Any two texts that agree before position `i` are equal, or one comes
/// before the other from `i` on.
pub proof fn lemma_text_order_total(a: Seq<char>, b: Seq<char>, i: int)
    requires
        0 <= i <= a.len(),
        i <= b.len(),
        forall|j: int| 0 <= j < i ==> a[j] == b[j],
    ensures
        a == b || text_lt_from(a, b, i) || text_lt_from(b, a, i),
    decreases a.len() - i,
{
    if i >= a.len() || i >= b.len() {
        if a.len() == b.len() {
            assert(a =~= b);
        }
    } else if a[i] == b[i] {
        lemma_text_order_total(a, b, i + 1);
    }
}

/// Any two values are equal, or one comes before the other: the order on
/// values is total.
pub proof fn lemma_value_order_total(a: Value, b: Value)
    ensures
        a == b || value_lt(a, b) || value_lt(b, a),
    decreases a, 0int,
{
    match (a, b) {
        (Value::Text(x), Value::Text(y)) => lemma_text_order_total(x, y, 0),
        (Value::Array(x), Value::Array(y)) => lemma_array_order_total(x, y, 0),
        _ => {},
    }
}

/// Any two arrays that agree before position `i` are equal, or one comes
/// before the other from `i` on.
pub proof fn lemma_array_order_total(a: Seq<Value>, b: Seq<Value>, i: int)
    requires
        0 <= i <= a.len(),
        i <= b.len(),
        forall|j: int| 0 <= j < i ==> a[j] == b[j],
    ensures
        a == b || array_lt_from(a, b, i) || array_lt_from(b, a, i),
    decreases a, a.len() - i,
{
    if i >= a.len() || i >= b.len() {
        if a.len() == b.len() {
            assert(a =~= b);
        }
    } else if a[i] == b[i] {
        lemma_array_order_total(a, b, i + 1);
    } else {
        lemma_value_order_total(a[i], b[i]);
    }
}

/// What a value looks like when printed: an integer in decimal, a text as it
/// is, an array as its elements one after the other.
pub open spec fn display(v: Value) -> Seq<char>
    decreases v, 0int,
{
    match v {
        Value::Int(n) => decimal(n as int),
        Value::Text(s) => s,
        Value::Array(items) => display_first(items, items.len() as int),
    }
}

/// The printed forms of the first `n` elements, one after the other.
pub open spec fn display_first(items: Seq<Value>, n: int) -> Seq<char>
    decreases items, n,
{
    if n <= 0 || n > items.len() {
        Seq::empty()
    } else {
        display_first(items, n - 1) + display(items[n - 1])
    }
}

/// The magnitude of an integer.
fn magnitude(a: i64) -> (r: u64)
    ensures
        r == vstd::math::abs(a as int),
{
    if a < 0 {
        (-(a as i128)) as u64
    } else {
        a as u64
    }
}

/// Truncating division, wrapping in the one case that overflows.
fn wrapping_quotient(a: i64, b: i64) -> (r: i64)
    requires
        b != 0,
    ensures
        r == quotient(a, b),
{
    if a == i64::MIN && b == -1 {
        return i64::MIN;
    }
    let ma = magnitude(a);
    let mb = magnitude(b);
    let q: u64 = ma / mb;
    assert(q <= ma) by (nonlinear_arith)
        requires
            mb >= 1,
            q == ma / mb,
    ;
    assert(mb >= 2 ==> 2 * q <= ma) by (nonlinear_arith)
        requires
            mb >= 1,
            q == ma / mb,
    ;
    if (a < 0) == (b < 0) {
        q as i64
    } else {
        (-(q as i128)) as i64
    }
}

/// The remainder of truncating division.
fn wrapping_remainder(a: i64, b: i64) -> (r: i64)
    requires
        b != 0,
    ensures
        r == remainder(a, b),
{
    let ma = magnitude(a);
    let mb = magnitude(b);
    let m: u64 = ma % mb;
    assert(m < mb) by (nonlinear_arith)
        requires
            mb >= 1,
            m == ma % mb,
    ;
    if a < 0 {
        (-(m as i128)) as i64
    } else {
        m as i64
    }
}

impl Clone for Variable {
    fn clone(&self) -> (r: Variable)
        ensures
            r@ == self@,
    {
        self.duplicate()
    }
}

impl Variable {
    /// A deep copy: the result has the same content as `self`.
    pub fn duplicate(&self) -> (r: Variable)
        ensures
            r@ == self@,
        decreases self,
    {
        match self {
            Variable::Int(n) => Variable::Int(*n),
            Variable::String(s) => Variable::String(s.clone()),
            Variable::Array(items) => {
                let mut copy: Vec<Variable> = Vec::new();
                let mut k: usize = 0;
                while k < items.len()
                    invariant
                        self is Array,
                        self->Array_0 == *items,
                        k <= items@.len(),
                        copy@.len() == k,
                        forall|i: int| 0 <= i < k ==> (#[trigger] copy@[i])@ == items@[i]@,
                    decreases items@.len() - k,
                {
                    assert(decreases_to!(self => self->Array_0));
                    assert(decreases_to!(self->Array_0 => (self->Array_0)@));
                    assert(decreases_to!((self->Array_0)@ => (self->Array_0)@[k as int]));
                    let c = items[k].duplicate();
                    copy.push(c);
                    k = k + 1;
                }
                assert(contents(copy@) =~= contents(items@));
                Variable::Array(copy)
            },
        }
    }

    /// Whether two values have the same content.
    pub fn equals(&self, other: &Variable) -> (r: bool)
        ensures
            r == (self@ == other@),
        decreases self,
    {
        match (self, other) {
            (Variable::Int(x), Variable::Int(y)) => *x == *y,
            (Variable::String(x), Variable::String(y)) => *x == *y,
            (Variable::Array(x), Variable::Array(y)) => {
                if x.len() != y.len() {
                    assert(contents(x@).len() != contents(y@).len());
                    return false;
                }
                let mut k: usize = 0;
                while k < x.len()
                    invariant
                        self is Array,
                        self->Array_0 == *x,
                        other is Array,
                        other->Array_0 == *y,
                        x@.len() == y@.len(),
                        k <= x@.len(),
                        forall|i: int| 0 <= i < k ==> (#[trigger] x@[i])@ == y@[i]@,
                    decreases x@.len() - k,
                {
                    assert(decreases_to!(self => self->Array_0));
                    assert(decreases_to!(self->Array_0 => (self->Array_0)@));
                    assert(decreases_to!((self->Array_0)@ => (self->Array_0)@[k as int]));
                    if !x[k].equals(&y[k]) {
                        assert(contents(x@)[k as int] != contents(y@)[k as int]);
                        return false;
                    }
                    k = k + 1;
                }
                assert(contents(x@) =~= contents(y@));
                true
            },
            _ => false,
        }
    }

    /// Whether `self` comes strictly before `other` in the order on values.
    pub fn less_than(&self, other: &Variable) -> (r: bool)
        ensures
            r == value_lt(self@, other@),
        decreases self,
    {
        match (self, other) {
            (Variable::Int(x), Variable::Int(y)) => *x < *y,
            (Variable::String(x), Variable::String(y)) => text_less(x.as_str(), y.as_str()),
            (Variable::Array(x), Variable::Array(y)) => {
                let mut k: usize = 0;
                while k < x.len() && k < y.len()
                    invariant
                        self is Array,
                        self->Array_0 == *x,
                        other is Array,
                        other->Array_0 == *y,
                        k <= x@.len(),
                        k <= y@.len(),
                        array_lt_from(contents(x@), contents(y@), 0) == array_lt_from(
                            contents(x@),
                            contents(y@),
                            k as int,
                        ),
                    decreases x@.len() - k,
                {
                    assert(decreases_to!(self => self->Array_0));
                    assert(decreases_to!(self->Array_0 => (self->Array_0)@));
                    assert(decreases_to!((self->Array_0)@ => (self->Array_0)@[k as int]));
                    if !x[k].equals(&y[k]) {
                        return x[k].less_than(&y[k]);
                    }
                    k = k + 1;
                }
                k < y.len()
            },
            (Variable::Array(_), _) => true,
            (Variable::String(_), Variable::Int(_)) => true,
            _ => false,
        }
    }

    /// The sum; not-a-number unless both are integers.
    pub fn plus(&self, other: &Variable) -> (r: Variable)
        ensures
            r@ == value_plus(self@, other@),
    {
        match (self, other) {
            (Variable::Int(x), Variable::Int(y)) => Variable::Int(x.wrapping_add(*y)),
            _ => Variable::not_a_number(),
        }
    }

    /// The difference; not-a-number unless both are integers.
    pub fn minus(&self, other: &Variable) -> (r: Variable)
        ensures
            r@ == value_minus(self@, other@),
    {
        match (self, other) {
            (Variable::Int(x), Variable::Int(y)) => Variable::Int(x.wrapping_sub(*y)),
            _ => Variable::not_a_number(),
        }
    }

    /// The product; not-a-number unless both are integers.
    pub fn times(&self, other: &Variable) -> (r: Variable)
        ensures
            r@ == value_times(self@, other@),
    {
        match (self, other) {
            (Variable::Int(x), Variable::Int(y)) => Variable::Int(x.wrapping_mul(*y)),
            _ => Variable::not_a_number(),
        }
    }

    /// The quotient, rounded towards zero; not-a-number unless both are
    /// integers and the divisor is not zero.
    pub fn divide(&self, other: &Variable) -> (r: Variable)
        ensures
            r@ == value_divide(self@, other@),
    {
        match (self, other) {
            (Variable::Int(x), Variable::Int(y)) => {
                if *y == 0 {
                    Variable::not_a_number()
                } else {
                    Variable::Int(wrapping_quotient(*x, *y))
                }
            },
            _ => Variable::not_a_number(),
        }
    }

    /// The remainder; not-a-number unless both are integers and the divisor
    /// is not zero.
    pub fn modulo(&self, other: &Variable) -> (r: Variable)
        ensures
            r@ == value_modulo(self@, other@),
    {
        match (self, other) {
            (Variable::Int(x), Variable::Int(y)) => {
                if *y == 0 {
                    Variable::not_a_number()
                } else {
                    Variable::Int(wrapping_remainder(*x, *y))
                }
            },
            _ => Variable::not_a_number(),
        }
    }

    /// A text value.
    pub fn text(value: &str) -> (r: Variable)
        ensures
            r@ == Value::Text(value@),
    {
        Variable::String(String::from_str(value))
    }

    /// An array of texts.
    pub fn texts(values: &Vec<String>) -> (r: Variable)
        ensures
            r@ == Value::Array(values@.map_values(|s: String| Value::Text(s@))),
    {
        let mut collection: Vec<Variable> = Vec::new();
        let mut k: usize = 0;
        while k < values.len()
            invariant
                k <= values@.len(),
                collection@.len() == k,
                forall|i: int|
                    0 <= i < k ==> (#[trigger] collection@[i])@ == Value::Text(values@[i]@),
            decreases values@.len() - k,
        {
            collection.push(Variable::text(values[k].as_str()));
            k = k + 1;
        }
        assert(contents(collection@) =~= values@.map_values(|s: String| Value::Text(s@)));
        Variable::Array(collection)
    }

    /// An array of integers.
    pub fn integers(values: &Vec<i64>) -> (r: Variable)
        ensures
            r@ == Value::Array(values@.map_values(|n: i64| Value::Int(n))),
    {
        let mut collection: Vec<Variable> = Vec::new();
        let mut k: usize = 0;
        while k < values.len()
            invariant
                k <= values@.len(),
                collection@.len() == k,
                forall|i: int|
                    0 <= i < k ==> (#[trigger] collection@[i])@ == Value::Int(values@[i]),
            decreases values@.len() - k,
        {
            collection.push(Variable::Int(values[k]));
            k = k + 1;
        }
        assert(contents(collection@) =~= values@.map_values(|n: i64| Value::Int(n)));
        Variable::Array(collection)
    }

    /// The text `NAN`.
    pub fn not_a_number() -> (r: Variable)
        ensures
            r@ == nan(),
    {
        proof {
            reveal_strlit("NAN");
        }
        let r = Variable::String(String::from_str("NAN"));
        assert(r@->Text_0 =~= seq!['N', 'A', 'N']);
        r
    }

    /// The printed form of the value.
    pub fn to_string(&self) -> (r: String)
        ensures
            r@ == display(self@),
        decreases self,
    {
        match self {
            Variable::Int(n) => int_text(*n),
            Variable::String(s) => s.clone(),
            Variable::Array(items) => {
                let mut out = String::new();
                let mut k: usize = 0;
                while k < items.len()
                    invariant
                        self is Array,
                        self->Array_0 == *items,
                        k <= items@.len(),
                        out@ == display_first(contents(items@), k as int),
                    decreases items@.len() - k,
                {
                    assert(decreases_to!(self => self->Array_0));
                    assert(decreases_to!(self->Array_0 => (self->Array_0)@));
                    assert(decreases_to!((self->Array_0)@ => (self->Array_0)@[k as int]));
                    let part = items[k].to_string();
                    out.append(part.as_str());
                    k = k + 1;
                }
                out
            },
        }
    }
}

impl PartialEq for Variable {
    fn eq(&self, other: &Variable) -> (r: bool) {
        self.equals(other)
    }
}

impl vstd::std_specs::cmp::PartialEqSpecImpl for Variable {
    open spec fn obeys_eq_spec() -> bool {
        true
    }

    open spec fn eq_spec(&self, other: &Variable) -> bool {
        self@ == other@
    }
}

impl PartialOrd for Variable {
    fn partial_cmp(&self, other: &Variable) -> (r: Option<Ordering>) {
        if self.less_than(other) {
            Some(Ordering::Less)
        } else if other.less_than(self) {
            Some(Ordering::Greater)
        } else {
            Some(Ordering::Equal)
        }
    }
}

impl vstd::std_specs::cmp::PartialOrdSpecImpl for Variable {
    open spec fn obeys_partial_cmp_spec() -> bool {
        true
    }

    open spec fn partial_cmp_spec(&self, other: &Variable) -> Option<Ordering> {
        if value_lt(self@, other@) {
            Some(Ordering::Less)
        } else if value_lt(other@, self@) {
            Some(Ordering::Greater)
        } else {
            Some(Ordering::Equal)
        }
    }
}

impl From<&str> for Variable {
    fn from(value: &str) -> (r: Variable)
        ensures
            r@ == Value::Text(value@),
    {
        Variable::text(value)
    }
}

impl vstd::std_specs::convert::FromSpecImpl<&str> for Variable {
    open spec fn obeys_from_spec() -> bool {
        false
    }

    open spec fn from_spec(value: &str) -> Variable {
        arbitrary()
    }
}

impl From<&Variable> for Variable {
    fn from(value: &Variable) -> (r: Variable)
        ensures
            r@ == value@,
    {
        value.duplicate()
    }
}

impl vstd::std_specs::convert::FromSpecImpl<&Variable> for Variable {
    open spec fn obeys_from_spec() -> bool {
        false
    }

    open spec fn from_spec(value: &Variable) -> Variable {
        *value
    }
}

impl From<Vec<Variable>> for Variable {
    fn from(value: Vec<Variable>) -> (r: Variable) {
        Variable::Array(value)
    }
}

impl vstd::std_specs::convert::FromSpecImpl<Vec<Variable>> for Variable {
    open spec fn obeys_from_spec() -> bool {
        true
    }

    open spec fn from_spec(value: Vec<Variable>) -> Variable {
        Variable::Array(value)
    }
}

impl From<Vec<String>> for Variable {
    fn from(values: Vec<String>) -> (r: Variable)
        ensures
            r@ == Value::Array(values@.map_values(|s: String| Value::Text(s@))),
    {
        Variable::texts(&values)
    }
}

impl vstd::std_specs::convert::FromSpecImpl<Vec<String>> for Variable {
    open spec fn obeys_from_spec() -> bool {
        false
    }

    open spec fn from_spec(values: Vec<String>) -> Variable {
        arbitrary()
    }
}

impl From<Vec<i64>> for Variable {
    fn from(values: Vec<i64>) -> (r: Variable)
        ensures
            r@ == Value::Array(values@.map_values(|n: i64| Value::Int(n))),
    {
        Variable::integers(&values)
    }
}

impl vstd::std_specs::convert::FromSpecImpl<Vec<i64>> for Variable {
    open spec fn obeys_from_spec() -> bool {
        false
    }

    open spec fn from_spec(values: Vec<i64>) -> Variable {
        arbitrary()
    }
}

impl From<i64> for Variable {
    fn from(value: i64) -> (r: Variable) {
        Variable::Int(value)
    }
}

impl vstd::std_specs::convert::FromSpecImpl<i64> for Variable {
    open spec fn obeys_from_spec() -> bool {
        true
    }

    open spec fn from_spec(value: i64) -> Variable {
        Variable::Int(value)
    }
}

} // verus!
