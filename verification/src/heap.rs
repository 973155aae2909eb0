//! The value heap and the freeze lifecycle.
//!
//! Mutable values live in an evaluation-scoped arena and reference each
//! other by cell index, never by address, so collection and freezing can
//! relocate content without invalidating references.  Freezing walks
//! everything reachable from a root set and produces an immutable heap in
//! which every reachable cell keeps its index, its scalar content and its
//! child references; a two-phase declared value must be bound by then and
//! freezes to the content of its resolved target.  Collection clears the
//! cells that no root can reach and nothing else.

use vstd::prelude::*;

verus! {

broadcast use vstd::seq_lib::group_seq_properties;

/// A reference to a heap cell.
pub type HeapRef = usize;

/// A mutable heap value.
#[verifier::ext_equal]
#[derive(Debug)]
pub enum HeapValue {
    NoneV,
    Bool(bool),
    Int(i64),
    Str(String),
    List(Vec<HeapRef>),
    Tuple(Vec<HeapRef>),
    /// A two-phase value: declared first, bound to its content later.
    /// Freezing fails on an unbound one.
    Declared { bound: Option<HeapRef> },
}

/// An immutable, shareable value.
#[verifier::ext_equal]
#[derive(Debug, PartialEq)]
pub enum FrozenValue {
    NoneV,
    Bool(bool),
    Int(i64),
    Str(String),
    List(Vec<HeapRef>),
    Tuple(Vec<HeapRef>),
}

/// The arena of mutable values.
#[derive(Debug)]
pub struct Heap {
    pub cells: Vec<HeapValue>,
}

/// The arena of frozen values, indexed like the heap it was made from.
#[derive(Debug, PartialEq)]
pub struct FrozenHeap {
    pub cells: Vec<FrozenValue>,
}

/// Why a freeze failed.
#[derive(Debug, Clone, Copy, PartialEq, Eq, Structural)]
pub enum FreezeError {
    /// A reachable declared value was never bound.
    Unbound,
    /// A reachable declared value's binding chain never reaches content.
    Cycle,
}

/// A successful freeze: the frozen arena and the roots, which keep their
/// indices.
#[derive(Debug, PartialEq)]
pub struct FrozenRoots {
    pub heap: FrozenHeap,
    pub roots: Vec<HeapRef>,
}

// ---------------------------------------------------------------------------
// Reachability.
// ---------------------------------------------------------------------------

/// The references a value holds: a container's elements, a declared
/// value's binding.
pub open spec fn value_children(v: HeapValue) -> Seq<HeapRef> {
    match v {
        HeapValue::List(ch) => ch@,
        HeapValue::Tuple(ch) => ch@,
        HeapValue::Declared { bound: Some(b) } => seq![b],
        _ => Seq::empty(),
    }
}

/// A set of cells closed under the child relation.
pub open spec fn closed_set(cells: Seq<HeapValue>, s: Set<int>) -> bool {
    forall|r: int, i: int|
        s.contains(r) && 0 <= r < cells.len() && 0 <= i < value_children(cells[r]).len()
            ==> s.contains(#[trigger] value_children(cells[r])[i] as int)
}

/// Whether a cell lies in every closed superset of the roots: that is,
/// whether it is reachable from the roots.
pub open spec fn reachable(cells: Seq<HeapValue>, roots: Seq<HeapRef>, r: int) -> bool {
    forall|s: Set<int>|
        #[trigger] closed_set(cells, s) && (forall|i: int|
            0 <= i < roots.len() ==> s.contains(#[trigger] roots[i] as int)) ==> s.contains(r)
}

/// How many cells a mark vector leaves unmarked.
pub open spec fn unmarked_count(marks: Seq<bool>, n: int) -> int
    decreases n,
{
    if n <= 0 || n > marks.len() {
        0
    } else {
        unmarked_count(marks, n - 1) + (if marks[n - 1] {
            0int
        } else {
            1int
        })
    }
}

proof fn lemma_unmarked_count_bounds(marks: Seq<bool>, n: int)
    ensures
        0 <= unmarked_count(marks, n),
        0 <= n <= marks.len() ==> unmarked_count(marks, n) <= n,
    decreases n,
{
    if 0 < n <= marks.len() {
        lemma_unmarked_count_bounds(marks, n - 1);
    }
}

/// Marking one unmarked cell lowers the unmarked count by one.
proof fn lemma_unmarked_count_update(marks: Seq<bool>, n: int, r: int)
    requires
        0 <= r < marks.len(),
        !marks[r],
    ensures
        r < n <= marks.len() ==> unmarked_count(marks.update(r, true), n) == unmarked_count(
            marks,
            n,
        ) - 1,
        n <= r ==> unmarked_count(marks.update(r, true), n) == unmarked_count(marks, n),
    decreases n,
{
    if n > 0 {
        lemma_unmarked_count_update(marks, n - 1, r);
    }
}

/// Marks everything reachable from the roots.  The result contains the
/// roots, is closed under children, and contains nothing that some
/// closed superset of the roots omits: it is exactly the reachable set.
#[verifier::loop_isolation(false)]
fn mark_reachable(cells: &Vec<HeapValue>, roots: &Vec<HeapRef>) -> (marks: Vec<bool>)
    requires
        forall|i: int| 0 <= i < roots@.len() ==> (#[trigger] roots@[i]) < cells@.len(),
        forall|r: int, i: int|
            0 <= r < cells@.len() && 0 <= i < value_children(cells@[r]).len() ==> (
            #[trigger] value_children(cells@[r])[i]) < cells@.len(),
    ensures
        marks@.len() == cells@.len(),
        forall|i: int| 0 <= i < roots@.len() ==> marks@[(#[trigger] roots@[i]) as int],
        forall|r: int, i: int|
            0 <= r < cells@.len() && marks@[r] && 0 <= i < value_children(cells@[r]).len()
                ==> marks@[(#[trigger] value_children(cells@[r])[i]) as int],
        forall|r: int| 0 <= r < cells@.len() ==> (marks@[r] == reachable(cells@, roots@, r)),
{
    let n = cells.len();
    let mut marks: Vec<bool> = Vec::new();
    let mut i: usize = 0;
    while i < n
        invariant
            i <= n,
            marks@.len() == i,
            forall|j: int| 0 <= j < i ==> !marks@[j],
        decreases n - i,
    {
        marks.push(false);
        i = i + 1;
    }
    let mut stack: Vec<HeapRef> = Vec::new();
    let mut i: usize = 0;
    while i < roots.len()
        invariant
            i <= roots@.len(),
            marks@.len() == n,
            n == cells@.len(),
            forall|j: int| 0 <= j < roots@.len() ==> (#[trigger] roots@[j]) < n,
            forall|j: int| 0 <= j < i ==> marks@[(#[trigger] roots@[j]) as int],
            forall|j: int| 0 <= j < stack@.len() ==> (#[trigger] stack@[j]) < n,
            forall|r: int| 0 <= r < n && marks@[r] ==> stack@.contains(r as HeapRef),
            forall|r: int| 0 <= r < n && marks@[r] ==> reachable(cells@, roots@, r),
            forall|j: int| 0 <= j < stack@.len() ==> marks@[(#[trigger] stack@[j]) as int],
        decreases roots@.len() - i,
    {
        let r = roots[i];
        if !marks[r] {
            let ghost stack_snap = stack@;
            marks[r] = true;
            stack.push(r);
            proof {
                assert forall|s: Set<int>|
                    #[trigger] closed_set(cells@, s) && (forall|j: int|
                        0 <= j < roots@.len() ==> s.contains(#[trigger] roots@[j] as int))
                    implies s.contains(r as int) by {}
                assert forall|x: int| 0 <= x < n && marks@[x] implies stack@.contains(
                    x as HeapRef,
                ) by {
                    if x != r as int {
                        assert(stack_snap.contains(x as HeapRef));
                        let idx = choose|idx: int|
                            0 <= idx < stack_snap.len() && stack_snap[idx] == x as HeapRef;
                        assert(stack@[idx] == x as HeapRef);
                    } else {
                        assert(stack@[stack_snap.len() as int] == r);
                    }
                }
            }
        }
        i = i + 1;
    }
    while stack.len() > 0
        invariant
            marks@.len() == n,
            n == cells@.len(),
            forall|r: int, j: int|
                0 <= r < cells@.len() && 0 <= j < value_children(cells@[r]).len() ==> (
                #[trigger] value_children(cells@[r])[j]) < n,
            forall|j: int| 0 <= j < roots@.len() ==> marks@[(#[trigger] roots@[j]) as int],
            forall|j: int| 0 <= j < stack@.len() ==> (#[trigger] stack@[j]) < n,
            forall|j: int| 0 <= j < stack@.len() ==> marks@[(#[trigger] stack@[j]) as int],
            forall|r: int| 0 <= r < n && marks@[r] ==> reachable(cells@, roots@, r),
            forall|r: int, j: int|
                0 <= r < n && marks@[r] && !stack@.contains(r as HeapRef) && 0 <= j
                    < value_children(cells@[r]).len() ==> marks@[(
                #[trigger] value_children(cells@[r])[j]) as int],
        decreases unmarked_count(marks@, n as int), stack@.len(),
    {
        let ghost stack_pre = stack@;
        let r = stack.pop().unwrap();
        let ghost marks0 = marks@;
        let ghost stack0 = stack@;
        proof {
            assert(stack_pre =~= stack@.push(r));
            assert forall|x: int|
                0 <= x < n && marks@[x] && !stack@.contains(x as HeapRef) && x != r as int implies !stack_pre.contains(
                x as HeapRef,
            ) by {}
        }
        // Mark every child of r, pushing the newly marked ones.
        let children: Vec<HeapRef> = match &cells[r] {
            HeapValue::List(ch) => copy_refs(ch),
            HeapValue::Tuple(ch) => copy_refs(ch),
            HeapValue::Declared { bound } => {
                match bound {
                    Some(b) => {
                        let mut one: Vec<HeapRef> = Vec::new();
                        one.push(*b);
                        one
                    },
                    None => Vec::new(),
                }
            },
            _ => Vec::new(),
        };
        proof {
            assert(children@ =~= value_children(cells@[r as int]));
        }
        let mut j: usize = 0;
        while j < children.len()
            invariant
                j <= children@.len(),
                marks@.len() == n,
                n == cells@.len(),
                (r as int) < n,
                marks@[r as int],
                children@ == value_children(cells@[r as int]),
                forall|x: int, y: int|
                    0 <= x < cells@.len() && 0 <= y < value_children(cells@[x]).len() ==> (
                    #[trigger] value_children(cells@[x])[y]) < n,
                forall|x: int| 0 <= x < roots@.len() ==> marks@[(#[trigger] roots@[x]) as int],
                forall|x: int| 0 <= x < stack@.len() ==> (#[trigger] stack@[x]) < n,
                forall|x: int| 0 <= x < stack@.len() ==> marks@[(#[trigger] stack@[x]) as int],
                forall|x: int| 0 <= x < n && marks@[x] ==> reachable(cells@, roots@, x),
                forall|x: int| 0 <= x < n && marks0[x] ==> marks@[x],
                forall|x: int|
                    0 <= x < n && marks@[x] && !marks0[x] ==> stack@.contains(x as HeapRef),
                forall|x: int|
                    0 <= x < stack0.len() ==> stack@.contains(#[trigger] stack0[x]),
                forall|x: int, y: int|
                    0 <= x < n && marks@[x] && !stack@.contains(x as HeapRef) && x != r as int && 0
                        <= y < value_children(cells@[x]).len() ==> marks@[(
                    #[trigger] value_children(cells@[x])[y]) as int],
                forall|y: int| 0 <= y < j ==> marks@[(#[trigger] children@[y]) as int],
                unmarked_count(marks@, n as int) <= unmarked_count(marks0, n as int),
                unmarked_count(marks@, n as int) < unmarked_count(marks0, n as int) || (forall|
                    x: int,
                |
                    0 <= x < n ==> marks@[x] == marks0[x]),
                (forall|x: int| 0 <= x < n ==> marks@[x] == marks0[x]) ==> stack@ == stack0,
            decreases children@.len() - j,
        {
            let c = children[j];
            if !marks[c] {
                let ghost marks_snap = marks@;
                let ghost stack_snap = stack@;
                proof {
                    lemma_unmarked_count_update(marks@, n as int, c as int);
                    lemma_unmarked_count_bounds(marks@, n as int);
                    assert forall|s: Set<int>|
                        #[trigger] closed_set(cells@, s) && (forall|x: int|
                            0 <= x < roots@.len() ==> s.contains(#[trigger] roots@[x] as int))
                        implies s.contains(c as int) by {
                        assert(s.contains(r as int));
                        assert(s.contains(value_children(cells@[r as int])[j as int] as int));
                    }
                }
                marks[c] = true;
                stack.push(c);
                proof {
                    assert(marks@[c as int] && !marks0[c as int]);
                    assert forall|x: int|
                        0 <= x < n && marks@[x] && !marks0[x] implies stack@.contains(
                        x as HeapRef,
                    ) by {
                        if x != c as int {
                            assert(stack_snap.contains(x as HeapRef));
                            let idx = choose|idx: int|
                                0 <= idx < stack_snap.len() && stack_snap[idx] == x as HeapRef;
                            assert(stack@[idx] == x as HeapRef);
                        } else {
                            assert(stack@[stack_snap.len() as int] == c);
                        }
                    }
                    assert forall|x: int|
                        0 <= x < stack0.len() implies stack@.contains(#[trigger] stack0[x]) by {
                        assert(stack_snap.contains(stack0[x]));
                        let idx = choose|idx: int|
                            0 <= idx < stack_snap.len() && stack_snap[idx] == stack0[x];
                        assert(stack@[idx] == stack0[x]);
                    }
                }
            }
            j = j + 1;
        }
        proof {
            lemma_unmarked_count_bounds(marks@, n as int);
            if unmarked_count(marks@, n as int) == unmarked_count(marks0, n as int) {
                assert(stack@ == stack0);
                assert(stack@.len() < stack_pre.len());
            }
        }
    }
    proof {
        assert forall|r: int| 0 <= r < n && !marks@[r] implies !reachable(cells@, roots@, r) by {
            let s = Set::new(|x: int| 0 <= x < n && marks@[x]);
            assert(closed_set(cells@, s));
            assert(forall|i: int| 0 <= i < roots@.len() ==> s.contains(#[trigger] roots@[i] as int));
            assert(!s.contains(r));
        }
    }
    marks
}

/// Copies a reference list.
fn copy_refs(ch: &Vec<HeapRef>) -> (r: Vec<HeapRef>)
    ensures
        r@ == ch@,
{
    let mut out: Vec<HeapRef> = Vec::new();
    let mut i: usize = 0;
    while i < ch.len()
        invariant
            i <= ch@.len(),
            out@ == ch@.subrange(0, i as int),
        decreases ch@.len() - i,
    {
        out.push(ch[i]);
        i = i + 1;
    }
    proof {
        assert(out@ =~= ch@);
    }
    out
}


// ---------------------------------------------------------------------------
// The heap API.
// ---------------------------------------------------------------------------

/// Whether a frozen value is the relabeling of a heap value: the same
/// scalar content, or the same kind of container holding the same child
/// references in the same order.
pub open spec fn shapes_match(h: HeapValue, f: FrozenValue) -> bool {
    match h {
        HeapValue::NoneV => f is NoneV,
        HeapValue::Bool(b) => f == FrozenValue::Bool(b),
        HeapValue::Int(i) => f == FrozenValue::Int(i),
        HeapValue::Str(s) => f matches FrozenValue::Str(t) && t@ == s@,
        HeapValue::List(ch) => f matches FrozenValue::List(fc) && fc@ == ch@,
        HeapValue::Tuple(ch) => f matches FrozenValue::Tuple(fc) && fc@ == ch@,
        HeapValue::Declared { .. } => false,
    }
}

/// Follows a declared value's binding chain for at most `fuel` steps:
/// the cell with content it ends at, if it ends.
pub open spec fn resolve_chain(cells: Seq<HeapValue>, r: int, fuel: nat) -> Option<int>
    decreases fuel,
{
    if !(0 <= r < cells.len()) || fuel == 0 {
        None
    } else {
        match cells[r] {
            HeapValue::Declared { bound: Some(b) } => resolve_chain(
                cells,
                b as int,
                (fuel - 1) as nat,
            ),
            HeapValue::Declared { bound: None } => None,
            _ => Some(r),
        }
    }
}

/// Whether a binding chain reaches an unbound declared value within
/// `fuel` steps.
pub open spec fn chain_unbound(cells: Seq<HeapValue>, r: int, fuel: nat) -> bool
    decreases fuel,
{
    0 <= r < cells.len() && fuel > 0 && match cells[r] {
        HeapValue::Declared { bound: Some(b) } => chain_unbound(cells, b as int, (fuel - 1) as nat),
        HeapValue::Declared { bound: None } => true,
        _ => false,
    }
}

impl Heap {
    /// Every reference held by a value points into the arena.
    pub open spec fn wf(self) -> bool {
        forall|r: int, i: int|
            0 <= r < self.cells@.len() && 0 <= i < value_children(self.cells@[r]).len() ==> (
            #[trigger] value_children(self.cells@[r])[i]) < self.cells@.len()
    }

    /// An empty arena.
    pub fn new() -> (r: Heap)
        ensures
            r.wf(),
            r.cells@.len() == 0,
    {
        Heap { cells: Vec::new() }
    }

    /// Inserts a value into the arena.  Succeeds exactly when every
    /// reference the value holds points at an existing cell; the
    /// reference returned stays valid for the arena's lifetime.
    pub fn allocate(&mut self, v: HeapValue) -> (r: Option<HeapRef>)
        requires
            old(self).wf(),
        ensures
            final(self).wf(),
            r is Some == (forall|i: int|
                0 <= i < value_children(v).len() ==> (#[trigger] value_children(v)[i]) < old(
                    self,
                ).cells@.len()),
            r is None ==> *final(self) == *old(self),
            r matches Some(h) ==> {
                &&& h as int == old(self).cells@.len()
                &&& final(self).cells@ == old(self).cells@.push(v)
            },
    {
        let ok = heap_value_valid(&v, self.cells.len());
        if !ok {
            return None;
        }
        let h = self.cells.len();
        self.cells.push(v);
        Some(h)
    }

    /// Binds a declared value to its content.  Succeeds exactly when the
    /// reference names an unbound declared value and the target exists.
    pub fn bind(&mut self, r: HeapRef, target: HeapRef) -> (ok: bool)
        requires
            old(self).wf(),
        ensures
            final(self).wf(),
            ok == (r < old(self).cells@.len() && (old(self).cells@[r as int]
                matches HeapValue::Declared { bound: None }) && target < old(self).cells@.len()),
            !ok ==> *final(self) == *old(self),
            ok ==> final(self).cells@ == old(self).cells@.update(
                r as int,
                HeapValue::Declared { bound: Some(target) },
            ),
    {
        if r >= self.cells.len() || target >= self.cells.len() {
            return false;
        }
        match &self.cells[r] {
            HeapValue::Declared { bound: None } => {},
            _ => {
                return false;
            },
        }
        let cell = &mut self.cells[r];
        *cell = HeapValue::Declared { bound: Some(target) };
        true
    }

    /// Clears every cell that no root reaches, and nothing else.
    /// References held by surviving values stay valid: nothing moves.
    pub fn gc(&mut self, roots: &Vec<HeapRef>)
        requires
            old(self).wf(),
            forall|i: int| 0 <= i < roots@.len() ==> (#[trigger] roots@[i]) < old(self).cells@.len(),
        ensures
            final(self).wf(),
            final(self).cells@.len() == old(self).cells@.len(),
            forall|r: int|
                0 <= r < old(self).cells@.len() && reachable(old(self).cells@, roots@, r)
                    ==> final(self).cells@[r] == old(self).cells@[r],
            forall|r: int|
                0 <= r < old(self).cells@.len() && !reachable(old(self).cells@, roots@, r)
                    ==> final(self).cells@[r] is NoneV,
    {
        let marks = mark_reachable(&self.cells, roots);
        let n = self.cells.len();
        let mut i: usize = 0;
        while i < n
            invariant
                i <= n,
                n == old(self).cells@.len(),
                self.cells@.len() == n,
                marks@.len() == n,
                forall|r: int|
                    0 <= r < n ==> (marks@[r] == reachable(old(self).cells@, roots@, r)),
                forall|r: int| 0 <= r < n && marks@[r] ==> self.cells@[r] == old(self).cells@[r],
                forall|r: int| i <= r < n ==> self.cells@[r] == old(self).cells@[r],
                forall|r: int| 0 <= r < i && !marks@[r] ==> self.cells@[r] is NoneV,
                old(self).wf(),
                forall|r: int, x: int|
                    0 <= r < n && 0 <= x < value_children(self.cells@[r]).len() ==> (
                    #[trigger] value_children(self.cells@[r])[x]) < n,
            decreases n - i,
        {
            if !marks[i] {
                let cell = &mut self.cells[i];
                *cell = HeapValue::NoneV;
            }
            i = i + 1;
        }
        proof {
            assert forall|r: int|
                0 <= r < old(self).cells@.len() && reachable(old(self).cells@, roots@, r)
                implies self.cells@[r] == old(self).cells@[r] by {
                assert(marks@[r]);
            }
            assert forall|r: int|
                0 <= r < old(self).cells@.len() && !reachable(old(self).cells@, roots@, r)
                implies self.cells@[r] is NoneV by {
                assert(!marks@[r]);
            }
        }
    }
}

/// Whether every reference a value holds lies below the bound.
fn heap_value_valid(v: &HeapValue, bound: usize) -> (r: bool)
    ensures
        r == (forall|i: int|
            0 <= i < value_children(*v).len() ==> (#[trigger] value_children(*v)[i]) < bound),
{
    match v {
        HeapValue::List(ch) => {
            let r = refs_valid(ch, bound);
            proof {
                assert(value_children(*v) == ch@);
                if !r {
                    let w = choose|i: int| 0 <= i < ch@.len() && !((#[trigger] ch@[i]) < bound);
                    assert(!(value_children(*v)[w] < bound));
                }
            }
            r
        },
        HeapValue::Tuple(ch) => {
            let r = refs_valid(ch, bound);
            proof {
                assert(value_children(*v) == ch@);
                if !r {
                    let w = choose|i: int| 0 <= i < ch@.len() && !((#[trigger] ch@[i]) < bound);
                    assert(!(value_children(*v)[w] < bound));
                }
            }
            r
        },
        HeapValue::Declared { bound: b } => match b {
            Some(t) => {
                let r = *t < bound;
                proof {
                    assert(value_children(*v) =~= seq![*t]);
                    assert(value_children(*v)[0] == *t);
                }
                r
            },
            None => true,
        },
        _ => true,
    }
}

/// Whether every reference in a list lies below the bound.
fn refs_valid(ch: &Vec<HeapRef>, bound: usize) -> (r: bool)
    ensures
        r == (forall|i: int| 0 <= i < ch@.len() ==> (#[trigger] ch@[i]) < bound),
{
    let mut i: usize = 0;
    while i < ch.len()
        invariant
            i <= ch@.len(),
            forall|j: int| 0 <= j < i ==> (#[trigger] ch@[j]) < bound,
        decreases ch@.len() - i,
    {
        if ch[i] >= bound {
            return false;
        }
        i = i + 1;
    }
    true
}

/// Transitively freezes every value reachable from the roots.
///
/// On success, every reachable cell keeps its index: a scalar or a
/// container freezes to the same content and the same child references,
/// and a declared value freezes to the relabeling of the cell its
/// binding chain resolves to.  Freezing fails with `Unbound` when some
/// reachable binding chain ends in an unbound declared value, and with
/// `Cycle` when some reachable binding chain never reaches content.
pub fn freeze(heap: &Heap, roots: &Vec<HeapRef>) -> (r: Result<FrozenRoots, FreezeError>)
    requires
        heap.wf(),
        forall|i: int| 0 <= i < roots@.len() ==> (#[trigger] roots@[i]) < heap.cells@.len(),
    ensures
        match r {
            Ok(fr) => {
                &&& fr.heap.cells@.len() == heap.cells@.len()
                &&& fr.roots@ == roots@
                &&& forall|x: int|
                    0 <= x < heap.cells@.len() && reachable(heap.cells@, roots@, x) && !(
                    heap.cells@[x] is Declared) ==> shapes_match(
                        #[trigger] heap.cells@[x],
                        fr.heap.cells@[x],
                    )
                &&& forall|x: int|
                    0 <= x < heap.cells@.len() && reachable(heap.cells@, roots@, x)
                        && heap.cells@[x] is Declared ==> ((#[trigger] resolve_chain(
                        heap.cells@,
                        x,
                        (heap.cells@.len() + 1) as nat,
                    )) matches Some(t) && shapes_match(heap.cells@[t], fr.heap.cells@[x]))
            },
            Err(e) => {
                &&& e is Unbound ==> exists|x: int|
                    0 <= x < heap.cells@.len() && reachable(heap.cells@, roots@, x)
                        && #[trigger] chain_unbound(
                        heap.cells@,
                        x,
                        (heap.cells@.len() + 1) as nat,
                    )
                &&& e is Cycle ==> exists|x: int|
                    0 <= x < heap.cells@.len() && reachable(heap.cells@, roots@, x) && (
                    #[trigger] resolve_chain(heap.cells@, x, (heap.cells@.len() + 1) as nat))
                        is None
            },
        },
{
    let marks = mark_reachable(&heap.cells, roots);
    let n = heap.cells.len();
    let mut frozen: Vec<FrozenValue> = Vec::new();
    let mut i: usize = 0;
    while i < n
        invariant
            i <= n,
            n == heap.cells@.len(),
            heap.wf(),
            marks@.len() == n,
            forall|x: int| 0 <= x < n ==> (marks@[x] == reachable(heap.cells@, roots@, x)),
            frozen@.len() == i,
            forall|x: int|
                0 <= x < i && marks@[x] && !(heap.cells@[x] is Declared) ==> shapes_match(
                    #[trigger] heap.cells@[x],
                    frozen@[x],
                ),
            forall|x: int|
                0 <= x < i && marks@[x] && heap.cells@[x] is Declared ==> ((
                #[trigger] resolve_chain(heap.cells@, x, (n + 1) as nat)) matches Some(t)
                    && shapes_match(heap.cells@[t], frozen@[x])),
        decreases n - i,
    {
        if !marks[i] {
            frozen.push(FrozenValue::NoneV);
            i = i + 1;
            continue;
        }
        let is_declared = match &heap.cells[i] {
            HeapValue::Declared { .. } => true,
            _ => false,
        };
        let fv: FrozenValue = match &heap.cells[i] {
            HeapValue::NoneV => FrozenValue::NoneV,
            HeapValue::Bool(b) => FrozenValue::Bool(*b),
            HeapValue::Int(v) => FrozenValue::Int(*v),
            HeapValue::Str(st) => FrozenValue::Str(st.clone()),
            HeapValue::List(ch) => FrozenValue::List(copy_refs(ch)),
            HeapValue::Tuple(ch) => FrozenValue::Tuple(copy_refs(ch)),
            HeapValue::Declared { .. } => {
                // Resolve the binding chain to content.
                let mut cur: usize = i;
                let mut budget: usize = n;
                loop
                    invariant
                        heap.wf(),
                        n == heap.cells@.len(),
                        cur < n,
                        budget <= n,
                        i < n,
                        resolve_chain(heap.cells@, i as int, (n + 1) as nat) == resolve_chain(
                            heap.cells@,
                            cur as int,
                            (budget + 1) as nat,
                        ),
                        chain_unbound(heap.cells@, i as int, (n + 1) as nat) == chain_unbound(
                            heap.cells@,
                            cur as int,
                            (budget + 1) as nat,
                        ),
                        reachable(heap.cells@, roots@, i as int),
                    ensures
                        cur < n,
                        resolve_chain(heap.cells@, i as int, (n + 1) as nat) == Some(cur as int),
                        !(heap.cells@[cur as int] is Declared),
                    decreases budget,
                {
                    match &heap.cells[cur] {
                        HeapValue::Declared { bound } => {
                            match bound {
                                Some(b) => {
                                    proof {
                                        assert(value_children(heap.cells@[cur as int])
                                            =~= seq![*b]);
                                        assert(value_children(heap.cells@[cur as int])[0] == *b);
                                    }
                                    if budget == 0 {
                                        // A chain this long has repeated a
                                        // cell: it can never reach content.
                                        proof {
                                            assert(resolve_chain(heap.cells@, *b as int, 0nat)
                                                is None);
                                            assert(resolve_chain(heap.cells@, cur as int, 1nat)
                                                == resolve_chain(heap.cells@, *b as int, 0nat));
                                            assert(resolve_chain(
                                                heap.cells@,
                                                i as int,
                                                (n + 1) as nat,
                                            ) is None);
                                            assert(reachable(heap.cells@, roots@, i as int));
                                        }
                                        return Err(FreezeError::Cycle);
                                    }
                                    cur = *b;
                                    budget = budget - 1;
                                },
                                None => {
                                    proof {
                                        assert(chain_unbound(
                                            heap.cells@,
                                            i as int,
                                            (n + 1) as nat,
                                        ));
                                        assert(reachable(heap.cells@, roots@, i as int));
                                    }
                                    return Err(FreezeError::Unbound);
                                },
                            }
                        },
                        _ => {
                            break;
                        },
                    }
                }
                let target = cur;
                let out = match &heap.cells[target] {
                    HeapValue::NoneV => FrozenValue::NoneV,
                    HeapValue::Bool(b) => FrozenValue::Bool(*b),
                    HeapValue::Int(v) => FrozenValue::Int(*v),
                    HeapValue::Str(st) => FrozenValue::Str(st.clone()),
                    HeapValue::List(ch) => FrozenValue::List(copy_refs(ch)),
                    HeapValue::Tuple(ch) => FrozenValue::Tuple(copy_refs(ch)),
                    HeapValue::Declared { .. } => FrozenValue::NoneV,
                };
                proof {
                    assert(shapes_match(heap.cells@[target as int], out));
                }
                out
            },
        };
        proof {
            if !is_declared {
                assert(shapes_match(heap.cells@[i as int], fv));
            }
        }
        frozen.push(fv);
        i = i + 1;
    }
    Ok(FrozenRoots { heap: FrozenHeap { cells: frozen }, roots: copy_refs(roots) })
}

} // verus!
