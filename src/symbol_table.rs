use vstd::prelude::*;

use crate::text::owned;

verus! {

/// The first address handed to a variable.
pub const FIRST_VARIABLE: u32 = 16;

/// The bindings every program starts with: the sixteen virtual registers,
/// the segment pointers and the two memory-mapped devices.
pub open spec fn predefined() -> Map<Seq<char>, u16> {
    Map::empty()
        .insert("R0"@, 0).insert("R1"@, 1).insert("R2"@, 2).insert("R3"@, 3)
        .insert("R4"@, 4).insert("R5"@, 5).insert("R6"@, 6).insert("R7"@, 7)
        .insert("R8"@, 8).insert("R9"@, 9).insert("R10"@, 10).insert("R11"@, 11)
        .insert("R12"@, 12).insert("R13"@, 13).insert("R14"@, 14).insert("R15"@, 15)
        .insert("SP"@, 0).insert("LCL"@, 1).insert("ARG"@, 2).insert("THIS"@, 3)
        .insert("THAT"@, 4).insert("SCREEN"@, 16384).insert("KBD"@, 24576)
}

/// What a symbol table means: its bindings and the address the next new
/// variable receives.
pub struct TableModel {
    pub bindings: Map<Seq<char>, u16>,
    pub next: nat,
}

/// The outcome of resolving `name` against `t`: the bound address, or the next
/// free address, which is then bound to `name`.
pub open spec fn resolve(t: TableModel, name: Seq<char>) -> (u16, TableModel) {
    if t.bindings.contains_key(name) {
        (t.bindings[name], t)
    } else {
        (
            t.next as u16,
            TableModel { bindings: t.bindings.insert(name, t.next as u16), next: t.next + 1 },
        )
    }
}

/// Maps symbolic names to 16-bit addresses and hands out variable addresses.
pub struct SymbolTable {
    entries: Vec<(String, u16)>,
    index: u32,
    bindings: Ghost<Map<Seq<char>, u16>>,
}

impl View for SymbolTable {
    type V = TableModel;

    closed spec fn view(&self) -> TableModel {
        TableModel { bindings: self.bindings@, next: self.index as nat }
    }
}

impl SymbolTable {
    /// Every name is stored once, every stored pair is a binding and every
    /// binding is stored; the counter fits below the 16-bit limit.
    pub closed spec fn wf(&self) -> bool {
        &&& FIRST_VARIABLE <= self.index <= 65536
        &&& forall|i: int| #![trigger self.entries@[i]]
            0 <= i < self.entries@.len() ==> self.bindings@.contains_key(self.entries@[i].0@)
                && self.bindings@[self.entries@[i].0@] == self.entries@[i].1
        &&& forall|k: Seq<char>| #![trigger self.bindings@.contains_key(k)]
            self.bindings@.contains_key(k) ==> exists|i: int|
                0 <= i < self.entries@.len() && #[trigger] self.entries@[i].0@ == k
        &&& forall|i: int, j: int|
            0 <= i < j < self.entries@.len() ==> #[trigger] self.entries@[i].0@
                != #[trigger] self.entries@[j].0@
    }

    fn position(&self, symbol: &String) -> (r: Option<usize>)
        requires
            self.wf(),
        ensures
            match r {
                Some(i) => i < self.entries@.len() && self.entries@[i as int].0@ == symbol@,
                None => !self@.bindings.contains_key(symbol@),
            },
    {
        let mut i: usize = 0;
        while i < self.entries.len()
            invariant
                self.wf(),
                i <= self.entries@.len(),
                forall|j: int| 0 <= j < i ==> #[trigger] self.entries@[j].0@ != symbol@,
            decreases self.entries@.len() - i,
        {
            if self.entries[i].0 == *symbol {
                return Some(i);
            }
            i = i + 1;
        }
        None
    }

    fn bind(&mut self, symbol: &String, value: u16)
        requires
            old(self).wf(),
        ensures
            final(self).wf(),
            final(self)@.bindings == old(self)@.bindings.insert(symbol@, value),
            final(self)@.next == old(self)@.next,
    {
        match self.position(symbol) {
            Some(i) => {
                let name = self.entries[i].0.clone();
                self.entries.set(i, (name, value));
                self.bindings = Ghost(self.bindings@.insert(symbol@, value));
                assert forall|k: Seq<char>| #![trigger self.bindings@.contains_key(k)]
                    self.bindings@.contains_key(k) implies exists|j: int|
                    0 <= j < self.entries@.len() && #[trigger] self.entries@[j].0@ == k by {
                    if k == symbol@ {
                        assert(self.entries@[i as int].0@ == k);
                    } else {
                        assert(old(self).bindings@.contains_key(k));
                        let j = choose|j: int|
                            0 <= j < old(self).entries@.len() && #[trigger] old(
                                self,
                            ).entries@[j].0@ == k;
                        assert(self.entries@[j].0@ == k);
                    }
                }
            },
            None => {
                let name = symbol.clone();
                self.entries.push((name, value));
                self.bindings = Ghost(self.bindings@.insert(symbol@, value));
                let n = self.entries.len() - 1;
                assert forall|k: Seq<char>| #![trigger self.bindings@.contains_key(k)]
                    self.bindings@.contains_key(k) implies exists|j: int|
                    0 <= j < self.entries@.len() && #[trigger] self.entries@[j].0@ == k by {
                    if k == symbol@ {
                        assert(self.entries@[n as int].0@ == k);
                    } else {
                        assert(old(self).bindings@.contains_key(k));
                        let j = choose|j: int|
                            0 <= j < old(self).entries@.len() && #[trigger] old(
                                self,
                            ).entries@[j].0@ == k;
                        assert(self.entries@[j].0@ == k);
                    }
                }
                assert forall|a: int, b: int|
                    0 <= a < b < self.entries@.len() implies #[trigger] self.entries@[a].0@
                    != #[trigger] self.entries@[b].0@ by {
                    if b == n {
                        assert(old(self).bindings@.contains_key(old(self).entries@[a].0@));
                    }
                }
            },
        }
    }

    /// A table holding exactly the predefined bindings, with variables
    /// starting at address 16.
    pub fn new() -> (r: SymbolTable)
        ensures
            r.wf(),
            r@.bindings == predefined(),
            r@.next == FIRST_VARIABLE,
    {
        let mut t = SymbolTable {
            entries: Vec::new(),
            index: FIRST_VARIABLE,
            bindings: Ghost(Map::empty()),
        };
        t.bind(&owned("R0"), 0);
        t.bind(&owned("R1"), 1);
        t.bind(&owned("R2"), 2);
        t.bind(&owned("R3"), 3);
        t.bind(&owned("R4"), 4);
        t.bind(&owned("R5"), 5);
        t.bind(&owned("R6"), 6);
        t.bind(&owned("R7"), 7);
        t.bind(&owned("R8"), 8);
        t.bind(&owned("R9"), 9);
        t.bind(&owned("R10"), 10);
        t.bind(&owned("R11"), 11);
        t.bind(&owned("R12"), 12);
        t.bind(&owned("R13"), 13);
        t.bind(&owned("R14"), 14);
        t.bind(&owned("R15"), 15);
        t.bind(&owned("SP"), 0);
        t.bind(&owned("LCL"), 1);
        t.bind(&owned("ARG"), 2);
        t.bind(&owned("THIS"), 3);
        t.bind(&owned("THAT"), 4);
        t.bind(&owned("SCREEN"), 16384);
        t.bind(&owned("KBD"), 24576);
        t
    }

    /// The address bound to `symbol`, if any; the table is left as it is.
    pub fn lookup(&self, symbol: &String) -> (r: Option<u16>)
        requires
            self.wf(),
        ensures
            r == (if self@.bindings.contains_key(symbol@) {
                Some(self@.bindings[symbol@])
            } else {
                None::<u16>
            }),
    {
        match self.position(symbol) {
            Some(i) => Some(self.entries[i].1),
            None => None,
        }
    }

    /// The address the next new variable would receive.
    pub fn next_free(&self) -> (r: u32)
        requires
            self.wf(),
        ensures
            r == self@.next,
    {
        self.index
    }

    /// Resolves `symbol`: its bound address, or else the next free variable
    /// address, which is bound to it and the counter advanced.
    pub fn get(&mut self, symbol: &String) -> (r: u16)
        requires
            old(self).wf(),
            old(self)@.bindings.contains_key(symbol@) || old(self)@.next < 65536,
        ensures
            final(self).wf(),
            (r, final(self)@) == resolve(old(self)@, symbol@),
    {
        match self.position(symbol) {
            Some(i) => self.entries[i].1,
            None => {
                let value = self.index as u16;
                self.bind(symbol, value);
                assert(self.index < 65536);
                self.index = self.index + 1;
                assert(self.wf());
                value
            },
        }
    }

    /// Binds `symbol` to `value`, replacing any earlier binding; true when the
    /// name was not bound before.
    pub fn insert(&mut self, symbol: &String, value: u16) -> (r: bool)
        requires
            old(self).wf(),
        ensures
            final(self).wf(),
            r == !old(self)@.bindings.contains_key(symbol@),
            final(self)@.bindings == old(self)@.bindings.insert(symbol@, value),
            final(self)@.next == old(self)@.next,
    {
        let absent = self.position(symbol).is_none();
        self.bind(symbol, value);
        absent
    }
}

} // verus!
