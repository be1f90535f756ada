use crate::error::{Error, Fault};
use crate::text::{lowercase, lowered};
use crate::variable::{Value, Variable};
use vstd::prelude::*;

verus! {

/// The native words: primitives that the executor runs directly.
#[derive(Clone, Copy, Debug, PartialEq, Eq, Structural)]
pub enum Word {
    Unimplemented,
    Dot,
    Plus,
    Minus,
    Times,
    Max,
    Min,
    Div,
    Modulo,
    Dup,
    Swap,
    Rot,
    Nip,
    Tuck,
    Over,
    Drop,
    LineComment,
    InlineComment,
    Negate,
    Eq,
    Abs,
    Cr,
    Space,
    OneMinus,
    QDup,
    I,
    J,
    DotS,
    PrintString,
    Do,
    Loop,
    PlusLoop,
    MinusLoop,
}

/// The immediate words: they run while a definition is compiled and emit
/// cells into it.
#[derive(Clone, Copy, Debug, PartialEq, Eq, Structural)]
pub enum Immediate {
    If,
    Do,
    DotQuote,
}

/// One slot of a compiled routine.
#[derive(Debug, PartialEq)]
pub enum Cell {
    /// Run a native word.
    Exec(Word),
    /// An immediate word: only the compiler may invoke it.
    Compiler(Immediate),
    /// Run a native word that the compiler emitted.
    Compiled(Word),
    /// Push a literal on the data stack.
    Data(Variable),
    /// Look the name up in the dictionary and run its routine.
    Call(String),
    /// End the routine.
    ControlReturn,
    /// Pop an offset and jump.
    ControlBranch,
    /// Pop an offset and a flag; jump if the flag is zero.
    ControlBranchIfZero,
    /// Pop an offset and a flag; jump if the flag is not zero.
    ControlBranchIfNotZero,
}

/// The mathematical content of a [`Cell`].
pub enum Op {
    Exec(Word),
    Compiler(Immediate),
    Compiled(Word),
    Data(Value),
    Call(Seq<char>),
    Return,
    Branch,
    BranchIfZero,
    BranchIfNotZero,
}

impl View for Cell {
    type V = Op;

    open spec fn view(&self) -> Op {
        match self {
            Cell::Exec(w) => Op::Exec(*w),
            Cell::Compiler(w) => Op::Compiler(*w),
            Cell::Compiled(w) => Op::Compiled(*w),
            Cell::Data(v) => Op::Data(v@),
            Cell::Call(name) => Op::Call(name@),
            Cell::ControlReturn => Op::Return,
            Cell::ControlBranch => Op::Branch,
            Cell::ControlBranchIfZero => Op::BranchIfZero,
            Cell::ControlBranchIfNotZero => Op::BranchIfNotZero,
        }
    }
}

/// The content of a routine, cell by cell.
pub open spec fn ops(cells: Seq<Cell>) -> Seq<Op> {
    cells.map_values(|c: Cell| c@)
}

impl Clone for Cell {
    fn clone(&self) -> (r: Cell)
        ensures
            r@ == self@,
    {
        match self {
            Cell::Exec(w) => Cell::Exec(*w),
            Cell::Compiler(w) => Cell::Compiler(*w),
            Cell::Compiled(w) => Cell::Compiled(*w),
            Cell::Data(v) => Cell::Data(v.clone()),
            Cell::Call(name) => Cell::Call(name.clone()),
            Cell::ControlReturn => Cell::ControlReturn,
            Cell::ControlBranch => Cell::ControlBranch,
            Cell::ControlBranchIfZero => Cell::ControlBranchIfZero,
            Cell::ControlBranchIfNotZero => Cell::ControlBranchIfNotZero,
        }
    }
}

impl From<Word> for Cell {
    fn from(value: Word) -> (r: Cell) {
        Cell::Exec(value)
    }
}

impl vstd::std_specs::convert::FromSpecImpl<Word> for Cell {
    open spec fn obeys_from_spec() -> bool {
        true
    }

    open spec fn from_spec(value: Word) -> Cell {
        Cell::Exec(value)
    }
}

impl From<Immediate> for Cell {
    fn from(value: Immediate) -> (r: Cell) {
        Cell::Compiler(value)
    }
}

impl vstd::std_specs::convert::FromSpecImpl<Immediate> for Cell {
    open spec fn obeys_from_spec() -> bool {
        true
    }

    open spec fn from_spec(value: Immediate) -> Cell {
        Cell::Compiler(value)
    }
}

impl Cell {
    /// The routine that consists of this cell alone.
    pub fn into_routine(self) -> (r: Vec<Cell>)
        ensures
            ops(r@) == seq![self@],
    {
        let mut routine: Vec<Cell> = Vec::new();
        routine.push(self);
        assert(ops(routine@) =~= seq![self@]);
        routine
    }
}

/// A copy of a routine with the same content.
pub fn copy_routine(cells: &Vec<Cell>) -> (r: Vec<Cell>)
    ensures
        ops(r@) == ops(cells@),
{
    let mut copy: Vec<Cell> = Vec::new();
    let mut k: usize = 0;
    while k < cells.len()
        invariant
            k <= cells@.len(),
            copy@.len() == k,
            forall|i: int| 0 <= i < k ==> (#[trigger] copy@[i])@ == cells@[i]@,
        decreases cells@.len() - k,
    {
        copy.push(cells[k].clone());
        k = k + 1;
    }
    assert(ops(copy@) =~= ops(cells@));
    copy
}

/// A word of the dictionary: its lower-case name and its routine.
#[derive(Debug, PartialEq)]
pub struct Entry {
    key: String,
    routine: Vec<Cell>,
}

/// The words that the machine knows, by name. Names are case-insensitive:
/// a word is stored and found under the lower-case form of its name.
#[derive(Debug, PartialEq)]
pub struct Dictionary {
    data: Vec<Entry>,
}

/// The mapping that a list of entries stands for. Where a name occurs
/// twice the later entry counts.
pub closed spec fn mapping(entries: Seq<Entry>) -> Map<Seq<char>, Seq<Op>>
    decreases entries.len(),
{
    if entries.len() == 0 {
        Map::empty()
    } else {
        mapping(entries.drop_last()).insert(entries.last().key@, ops(entries.last().routine@))
    }
}

/// Replacing the last entry of a name is the same as installing the name
/// anew.
proof fn lemma_mapping_update(entries: Seq<Entry>, i: int, entry: Entry)
    requires
        0 <= i < entries.len(),
        entries[i].key@ == entry.key@,
        forall|j: int| i < j < entries.len() ==> (#[trigger] entries[j]).key@ != entry.key@,
    ensures
        mapping(entries.update(i, entry)) == mapping(entries).insert(
            entry.key@,
            ops(entry.routine@),
        ),
    decreases entries.len(),
{
    let changed = entries.update(i, entry);
    let before = entries.drop_last();
    if i == entries.len() - 1 {
        assert(changed.drop_last() =~= before);
        assert(mapping(changed) =~= mapping(entries).insert(entry.key@, ops(entry.routine@)));
    } else {
        let last = entries.last();
        assert(last.key@ != entry.key@);
        assert(changed.drop_last() =~= before.update(i, entry));
        assert(changed.last() == last);
        lemma_mapping_update(before, i, entry);
        assert(mapping(changed) =~= mapping(entries).insert(entry.key@, ops(entry.routine@)));
    }
}

impl View for Dictionary {
    type V = Map<Seq<char>, Seq<Op>>;

    closed spec fn view(&self) -> Map<Seq<char>, Seq<Op>> {
        mapping(self.data@)
    }
}

impl Dictionary {
    /// An empty dictionary.
    pub fn new() -> (r: Dictionary)
        ensures
            r@ == Map::<Seq<char>, Seq<Op>>::empty(),
    {
        Dictionary { data: Vec::new() }
    }

    /// Installs `routine` under `name`, in place of whatever the name stood
    /// for before.
    pub fn add(&mut self, name: &str, routine: Vec<Cell>)
        ensures
            final(self)@ == old(self)@.insert(lowered(name@), ops(routine@)),
    {
        let key = lowercase(name);
        let mut k: usize = self.data.len();
        while k > 0
            invariant
                k <= self.data@.len(),
                key@ == lowered(name@),
                self.data@ == old(self).data@,
                forall|j: int|
                    k <= j < self.data@.len() ==> (#[trigger] self.data@[j]).key@ != key@,
            decreases k,
        {
            k = k - 1;
            if self.data[k].key == key {
                let entry = Entry { key, routine };
                proof {
                    lemma_mapping_update(self.data@, k as int, entry);
                }
                self.data[k] = entry;
                return ;
            }
        }
        let entry = Entry { key, routine };
        proof {
            assert(self.data@.push(entry).drop_last() =~= self.data@);
        }
        self.data.push(entry);
    }

    /// The routine that `name` stands for, as a copy, or `Unimplemented` with
    /// the name as it was given.
    pub fn get(&self, name: &str) -> (r: Result<Vec<Cell>, Error>)
        ensures
            match r {
                Ok(routine) => {
                    &&& self@.contains_key(lowered(name@))
                    &&& ops(routine@) == self@[lowered(name@)]
                },
                Err(e) => !self@.contains_key(lowered(name@)) && e@ == Fault::Unimplemented(name@),
            },
    {
        let key = lowercase(name);
        let mut k: usize = self.data.len();
        let ghost all = mapping(self.data@);
        assert(self.data@.take(k as int) =~= self.data@);
        while k > 0
            invariant
                k <= self.data@.len(),
                key@ == lowered(name@),
                all == mapping(self.data@),
                all.contains_key(key@) == mapping(self.data@.take(k as int)).contains_key(key@),
                all.contains_key(key@) ==> all[key@] == mapping(self.data@.take(k as int))[key@],
            decreases k,
        {
            proof {
                assert(self.data@.take(k as int).drop_last() =~= self.data@.take(k as int - 1));
            }
            k = k - 1;
            if self.data[k].key == key {
                return Ok(copy_routine(&self.data[k].routine));
            }
        }
        Err(Error::Unimplemented(name.to_owned()))
    }
}

} // verus!
