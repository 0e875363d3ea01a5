//! Type identifiers: a counter that hands out fresh identifiers, and one
//! memoized identifier for each built-in kind of node.
use once_cell::sync::OnceCell;
use vstd::prelude::*;

verus! {

/// `once_cell::sync::OnceCell`, a cell that is written at most once.
#[verifier::external_type_specification]
#[verifier::external_body]
#[verifier::reject_recursive_types(T)]
pub struct ExOnceCell<T>(OnceCell<T>);

/// What a cell of identifiers holds: nothing yet, or the identifier it was
/// filled with.
pub uninterp spec fn cell_value(cell: OnceCell<usize>) -> Option<usize>;

/// `OnceCell::new`: the new cell is empty.
#[verifier::external_body]
fn empty_cell() -> (cell: OnceCell<usize>)
    ensures
        cell_value(cell) is None,
{
    OnceCell::new()
}

/// `OnceCell::get`: the value the cell holds, if it was filled.
#[verifier::external_body]
fn read_cell(cell: &OnceCell<usize>) -> (value: Option<usize>)
    ensures
        value == cell_value(*cell),
{
    cell.get().copied()
}

/// `OnceCell::set`: an empty cell takes `value` and the call reports `true`;
/// a filled cell keeps what it holds and the call reports `false`.
#[verifier::external_body]
fn fill_cell(cell: &mut OnceCell<usize>, value: usize) -> (stored: bool)
    ensures
        stored == (cell_value(*old(cell)) is None),
        cell_value(*final(cell)) == (if stored {
            Some(value)
        } else {
            cell_value(*old(cell))
        }),
{
    cell.set(value).is_ok()
}

/// The built-in kinds of node. All unnamed rules of one kind share one
/// identifier.
#[derive(Clone, Copy, Debug, PartialEq, Eq, Structural)]
pub enum Kind {
    Char,
    Str,
    Ranges,
    Sequence,
    Sor,
    Star,
    Plus,
    Opt,
    Eof,
    Root,
    Unreachable,
}

/// The number of built-in kinds.
pub const KINDS: usize = 11;

impl Kind {
    /// The position of the kind's cell in the registry.
    pub open spec fn slot(self) -> int {
        match self {
            Kind::Char => 0,
            Kind::Str => 1,
            Kind::Ranges => 2,
            Kind::Sequence => 3,
            Kind::Sor => 4,
            Kind::Star => 5,
            Kind::Plus => 6,
            Kind::Opt => 7,
            Kind::Eof => 8,
            Kind::Root => 9,
            Kind::Unreachable => 10,
        }
    }

    /// The name that nodes of this kind carry unless the rule was named.
    pub open spec fn label(self) -> Seq<char> {
        match self {
            Kind::Char => "Char"@,
            Kind::Str => "Str"@,
            Kind::Ranges => "Ranges"@,
            Kind::Sequence => "Seq"@,
            Kind::Sor => "Sor"@,
            Kind::Star => "Star"@,
            Kind::Plus => "Plus"@,
            Kind::Opt => "Opt"@,
            Kind::Eof => "Eof"@,
            Kind::Root => "Root"@,
            Kind::Unreachable => "Unreachable"@,
        }
    }

    fn index(self) -> (i: usize)
        ensures
            i == self.slot(),
            i < KINDS,
    {
        match self {
            Kind::Char => 0,
            Kind::Str => 1,
            Kind::Ranges => 2,
            Kind::Sequence => 3,
            Kind::Sor => 4,
            Kind::Star => 5,
            Kind::Plus => 6,
            Kind::Opt => 7,
            Kind::Eof => 8,
            Kind::Root => 9,
            Kind::Unreachable => 10,
        }
    }

    /// The default name of the kind, as an owned string.
    pub fn default_name(self) -> (name: String)
        ensures
            name@ == self.label(),
    {
        let text = match self {
            Kind::Char => "Char",
            Kind::Str => "Str",
            Kind::Ranges => "Ranges",
            Kind::Sequence => "Seq",
            Kind::Sor => "Sor",
            Kind::Star => "Star",
            Kind::Plus => "Plus",
            Kind::Opt => "Opt",
            Kind::Eof => "Eof",
            Kind::Root => "Root",
            Kind::Unreachable => "Unreachable",
        };
        text.to_owned()
    }
}

/// The allocator of type identifiers.
pub struct Registry {
    next: usize,
    cells: Vec<OnceCell<usize>>,
}

impl Registry {
    /// The identifier that the next allocation hands out.
    pub closed spec fn next_free(&self) -> usize {
        self.next
    }

    /// The identifier memoized for `kind`, if one was allocated.
    pub closed spec fn assigned(&self, kind: Kind) -> Option<usize> {
        cell_value(self.cells@[kind.slot()])
    }

    /// Every memoized identifier was handed out by the counter, and no two
    /// kinds share one.
    pub closed spec fn wf(&self) -> bool {
        &&& self.cells@.len() == KINDS
        &&& forall|k: Kind|
            #![trigger self.assigned(k)]
            self.assigned(k) is Some ==> self.assigned(k)->0 < self.next
        &&& forall|j: Kind, k: Kind|
            #![trigger self.assigned(j), self.assigned(k)]
            self.assigned(j) is Some && self.assigned(j) == self.assigned(k) ==> j == k
    }

    /// The counter can hand out one more identifier.
    pub open spec fn has_room(&self) -> bool {
        self.next_free() < usize::MAX
    }

    /// `self` was reached from `earlier` by allocations only: the counter
    /// did not go back, every identifier that was memoized is still the
    /// same, and every one that was memoized since came from the counter.
    pub open spec fn extends(&self, earlier: &Registry) -> bool {
        &&& earlier.next_free() <= self.next_free()
        &&& forall|k: Kind|
            #![trigger earlier.assigned(k)]
            earlier.assigned(k) is Some ==> self.assigned(k) == earlier.assigned(k)
        &&& forall|k: Kind|
            #![trigger self.assigned(k)]
            earlier.assigned(k) is None && self.assigned(k) is Some ==> earlier.next_free()
                <= self.assigned(k)->0
    }

    /// `self` is what `earlier` becomes when the identifier of `kind` is
    /// asked for and `id` is the answer: the identifier that was memoized,
    /// or else the next one from the counter, which is memoized now.
    pub open spec fn memoized(&self, earlier: &Registry, kind: Kind, id: usize) -> bool {
        &&& self.wf()
        &&& self.extends(earlier)
        &&& self.assigned(kind) == Some(id)
        &&& forall|k: Kind| k != kind ==> self.assigned(k) == earlier.assigned(k)
        &&& earlier.assigned(kind) is Some ==> self.next_free() == earlier.next_free()
        &&& earlier.assigned(kind) is None ==> id == earlier.next_free() && self.next_free() == id
            + 1
    }

    /// `self` is what `earlier` becomes when a fresh identifier is asked for
    /// and `id` is the answer.
    pub open spec fn allocated(&self, earlier: &Registry, id: usize) -> bool {
        &&& self.wf()
        &&& self.extends(earlier)
        &&& id == earlier.next_free()
        &&& self.next_free() == id + 1
        &&& forall|k: Kind| self.assigned(k) == earlier.assigned(k)
        &&& self.issued(id)
        &&& !self.is_singleton(id)
    }

    /// `id` is the memoized identifier of some kind.
    pub open spec fn is_singleton(&self, id: usize) -> bool {
        exists|k: Kind| self.assigned(k) == Some(id)
    }

    /// A registry extends itself.
    pub proof fn lemma_extends_itself(&self)
        ensures
            self.extends(self),
    {
    }

    /// Extension carries over: what extends an extension of `earlier`
    /// extends `earlier`.
    pub proof fn lemma_extends_further(&self, between: &Registry, earlier: &Registry)
        requires
            between.wf(),
            between.extends(earlier),
            self.extends(between),
        ensures
            self.extends(earlier),
    {
        assert forall|k: Kind|
            earlier.assigned(k) is None && self.assigned(k) is Some implies earlier.next_free()
            <= (#[trigger] self.assigned(k))->0 by {
            if between.assigned(k) is Some {
                assert(self.assigned(k) == between.assigned(k));
            }
        }
        assert forall|k: Kind| (#[trigger] earlier.assigned(k)) is Some implies self.assigned(k)
            == earlier.assigned(k) by {
            assert(between.assigned(k) == earlier.assigned(k));
        }
    }

    /// The identifier of a kind is stable: once memoized, it is the same in
    /// every registry reached later.
    pub proof fn lemma_singleton_ids_are_stable(&self, earlier: &Registry, kind: Kind)
        requires
            self.extends(earlier),
            earlier.assigned(kind) is Some,
        ensures
            self.assigned(kind) == earlier.assigned(kind),
    {
    }

    /// An identifier that was handed out and is not the memoized identifier
    /// of any kind never becomes one.
    pub proof fn lemma_fresh_ids_stay_apart(&self, earlier: &Registry, id: usize)
        requires
            self.extends(earlier),
            earlier.issued(id),
            !earlier.is_singleton(id),
        ensures
            !self.is_singleton(id),
    {
        if self.is_singleton(id) {
            let k = choose|k: Kind| self.assigned(k) == Some(id);
            if earlier.assigned(k) is Some {
                assert(self.assigned(k) == earlier.assigned(k));
            } else {
                assert(earlier.next_free() <= self.assigned(k)->0);
            }
        }
    }

    /// No two kinds share an identifier.
    pub proof fn lemma_singletons_differ(&self, one: Kind, other: Kind)
        requires
            self.wf(),
            self.assigned(one) is Some,
            self.assigned(one) == self.assigned(other),
        ensures
            one == other,
    {
    }

    /// Whether `id` has been handed out.
    pub open spec fn issued(&self, id: usize) -> bool {
        id < self.next_free()
    }

    /// A registry that has handed out nothing.
    pub fn new() -> (registry: Registry)
        ensures
            registry.wf(),
            registry.next_free() == 0,
            forall|k: Kind| registry.assigned(k) is None,
    {
        let mut cells: Vec<OnceCell<usize>> = Vec::new();
        while cells.len() < KINDS
            invariant
                cells@.len() <= KINDS,
                forall|i: int| 0 <= i < cells@.len() ==> cell_value(#[trigger] cells@[i]) is None,
            decreases KINDS - cells@.len(),
        {
            cells.push(empty_cell());
        }
        Registry { next: 0, cells }
    }

    /// Whether the counter can hand out one more identifier.
    pub fn room_left(&self) -> (yes: bool)
        ensures
            yes == self.has_room(),
    {
        self.next < usize::MAX
    }

    /// The identifier memoized for `kind`, if one was allocated.
    pub fn lookup(&self, kind: Kind) -> (id: Option<usize>)
        requires
            self.wf(),
        ensures
            id == self.assigned(kind),
    {
        read_cell(&self.cells[kind.index()])
    }

    /// Hands out a fresh identifier.
    pub fn next_id(&mut self) -> (id: usize)
        requires
            old(self).wf(),
            old(self).has_room(),
        ensures
            final(self).allocated(old(self), id),
    {
        let id = self.next;
        self.next = self.next + 1;
        proof {
            assert forall|k: Kind| self.assigned(k) == old(self).assigned(k) by {}
        }
        id
    }

    /// The identifier of `kind`: allocated on the first call, the same on
    /// every later one.
    pub fn singleton_id(&mut self, kind: Kind) -> (id: usize)
        requires
            old(self).wf(),
            old(self).assigned(kind) is None ==> old(self).has_room(),
        ensures
            final(self).memoized(old(self), kind, id),
    {
        let i = kind.index();
        match read_cell(&self.cells[i]) {
            Some(id) => id,
            None => {
                let id = self.next;
                self.next = self.next + 1;
                let _ = fill_cell(&mut self.cells[i], id);
                proof {
                    assert forall|k: Kind| k != kind implies self.assigned(k) == old(
                        self,
                    ).assigned(k) by {
                        assert(k.slot() != kind.slot());
                    }
                    assert(self.assigned(kind) == Some(id));
                }
                id
            },
        }
    }
}

} // verus!
