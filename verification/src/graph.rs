//! The incremental computation graph: key-addressed memoization with
//! dependency tracking, equality-based cutoff, request coalescing and
//! cooperative cancellation.
//!
//! A key names a node; its rule says how to compute its value from the
//! values of earlier keys, so the graph is acyclic by construction.  A
//! computed node records the dependencies it read and the value it saw
//! for each, and a demand either returns the cached value, re-verifies
//! the recorded dependencies, or re-runs the rule.  A recomputation whose
//! result is equal, in the key's declared equality, to the previous value
//! leaves dependents untouched: the cutoff.

use vstd::prelude::*;

verus! {

/// A key: the index of its node in the graph.
pub type KeyId = usize;

/// The declared equality of a key: plain value equality, or never equal,
/// which forces recomputation of every dependent whenever the node
/// recomputes.
#[derive(Debug, Clone, Copy, PartialEq, Eq, Structural)]
pub enum EqPolicy {
    ByValue,
    AlwaysUnequal,
}

/// How a node's value is computed: an input cell holding a value, or the
/// wrapping sum of earlier keys' values.
#[derive(Debug)]
pub enum ComputeRule {
    Input(i64),
    Sum(Vec<KeyId>),
}

/// One recorded dependency: the key read and the value seen for it.
#[derive(Debug, Clone, Copy, PartialEq, Eq, Structural)]
pub struct DepRecord {
    pub key: KeyId,
    pub seen: i64,
}

/// The lifecycle of a node.
#[derive(Debug)]
pub enum NodeState {
    /// Never computed, or reset by a cancellation.
    Absent,
    /// A computation is in flight; later requests join it.
    Computing { waiters: u64, prev: Option<i64> },
    /// Computed; `dirty` marks an invalidation not yet re-checked, and
    /// `verified` is the graph epoch at which the value was last known
    /// current.
    Computed { value: i64, deps: Vec<DepRecord>, dirty: bool, verified: u64 },
}

/// One node: its definition and its current state.
#[derive(Debug)]
pub struct Node {
    pub rule: ComputeRule,
    pub eq: EqPolicy,
    pub state: NodeState,
    pub invocations: u64,
}

/// The incremental computation graph.
#[derive(Debug)]
pub struct Graph {
    pub nodes: Vec<Node>,
    /// Bumped by every invalidation; a clean node verified at the current
    /// epoch is served from cache without any dependency walk.
    pub epoch: u64,
}

// ---------------------------------------------------------------------------
// The mathematical reading of a graph.
// ---------------------------------------------------------------------------

/// The keys a rule reads, in request order.
pub open spec fn rule_deps(r: ComputeRule) -> Seq<KeyId> {
    match r {
        ComputeRule::Input(_) => Seq::empty(),
        ComputeRule::Sum(ds) => ds@,
    }
}

/// A 64-bit wrapping reduction of an unbounded integer.
pub open spec fn wrap64(x: int) -> int {
    ((x + 0x8000_0000_0000_0000) % 0x1_0000_0000_0000_0000) - 0x8000_0000_0000_0000
}

/// A rule applied to the values seen for its dependencies, in order.
pub open spec fn apply_rule(r: ComputeRule, seen: Seq<int>) -> int {
    match r {
        ComputeRule::Input(v) => v as int,
        ComputeRule::Sum(_) => wrap_sum(seen, seen.len() as int),
    }
}

/// The wrapping sum of the first `n` values.
pub open spec fn wrap_sum(vals: Seq<int>, n: int) -> int
    decreases n,
{
    if n <= 0 || n > vals.len() {
        0
    } else {
        wrap64(wrap_sum(vals, n - 1) + vals[n - 1])
    }
}

/// What a key's value is, by the rules alone: the denotation that
/// computation caches and incremental recomputation maintains.
pub open spec fn denote(nodes: Seq<Node>, k: int) -> int
    decreases k, 1int,
{
    if 0 <= k < nodes.len() {
        match nodes[k].rule {
            ComputeRule::Input(v) => v as int,
            ComputeRule::Sum(ds) => denote_sum(nodes, ds@, ds@.len() as int, k),
        }
    } else {
        0
    }
}

/// The wrapping sum of the denotations of the first `n` dependencies.
pub open spec fn denote_sum(nodes: Seq<Node>, ds: Seq<KeyId>, n: int, k: int) -> int
    decreases k, 0int, n,
{
    if n <= 0 || n > ds.len() {
        0
    } else {
        let d = ds[n - 1] as int;
        let rest = denote_sum(nodes, ds, n - 1, k);
        if d < k {
            wrap64(rest + denote(nodes, d))
        } else {
            0
        }
    }
}

/// Whether two values are equal under a declared equality.
pub open spec fn policy_eq(p: EqPolicy, a: int, b: int) -> bool {
    match p {
        EqPolicy::ByValue => a == b,
        EqPolicy::AlwaysUnequal => false,
    }
}

/// Every dependency of the rule at `k` points at an earlier key.
pub open spec fn node_rule_wf(nodes: Seq<Node>, k: int) -> bool {
    forall|i: int|
        0 <= i < rule_deps(nodes[k].rule).len() ==> (#[trigger] rule_deps(nodes[k].rule)[i]) < k
}

/// The values a dependency record saw, in order.
pub open spec fn seen_of(deps: Seq<DepRecord>) -> Seq<int> {
    deps.map(|i: int, d: DepRecord| d.seen as int)
}

/// A computed node's record matches its rule: the recorded keys are the
/// rule's dependencies in order, and the value is the rule applied to the
/// values seen.
pub open spec fn node_record_wf(nodes: Seq<Node>, k: int) -> bool {
    nodes[k].state matches NodeState::Computed { value, deps, dirty: false, .. } ==> {
        &&& deps@.len() == rule_deps(nodes[k].rule).len()
        &&& forall|i: int|
            0 <= i < deps@.len() ==> (#[trigger] deps@[i]).key == rule_deps(nodes[k].rule)[i]
        &&& value as int == apply_rule(nodes[k].rule, seen_of(deps@))
    }
}

/// A clean node verified at the current epoch holds its denotation.
pub open spec fn node_current_wf(nodes: Seq<Node>, epoch: u64, k: int) -> bool {
    nodes[k].state matches NodeState::Computed { value, dirty, verified, .. } ==> ((!dirty
        && verified == epoch) ==> value as int == denote(nodes, k))
}

impl Graph {
    /// The graph's invariant: rules are acyclic, records match rules, and
    /// values verified at the current epoch are current.
    pub open spec fn wf(self) -> bool {
        &&& forall|k: int| 0 <= k < self.nodes@.len() ==> node_rule_wf(self.nodes@, k)
        &&& forall|k: int| 0 <= k < self.nodes@.len() ==> node_record_wf(self.nodes@, k)
        &&& forall|k: int|
            0 <= k < self.nodes@.len() ==> node_current_wf(self.nodes@, self.epoch, k)
        &&& forall|k: int|
            0 <= k < self.nodes@.len() ==> (#[trigger] self.nodes@[k].state matches NodeState::Computed {
                verified,
                ..
            } ==> verified <= self.epoch)
    }

    /// A node that can be served straight from cache: computed, clean,
    /// and verified at the current epoch.
    pub open spec fn fresh(self, k: int) -> bool {
        self.nodes@[k].state matches NodeState::Computed { dirty: false, verified, .. }
            && verified == self.epoch
    }

    /// A clean node whose recorded dependency values still pass each
    /// dependency's declared equality against what the rules now say.
    /// Such a node is never recomputed: the cutoff.
    pub open spec fn up_to_date(self, k: int) -> bool {
        self.nodes@[k].state matches NodeState::Computed { deps, dirty: false, .. }
            && forall|i: int|
            0 <= i < deps@.len() ==> policy_eq(
                self.nodes@[(#[trigger] deps@[i]).key as int].eq,
                deps@[i].seen as int,
                denote(self.nodes@, deps@[i].key as int),
            )
    }

    /// The number of keys.
    pub open spec fn spec_len(self) -> int {
        self.nodes@.len() as int
    }

    /// Two graphs define the same keys: same rules and equalities.
    pub open spec fn same_defs(self, other: Graph) -> bool {
        &&& self.nodes@.len() == other.nodes@.len()
        &&& forall|k: int|
            0 <= k < self.nodes@.len() ==> (#[trigger] other.nodes@[k]).rule == self.nodes@[k].rule
                && other.nodes@[k].eq == self.nodes@[k].eq
    }

    /// An empty graph.
    pub fn new() -> (r: Graph)
        ensures
            r.wf(),
            r.spec_len() == 0,
            r.epoch == 0,
    {
        Graph { nodes: Vec::new(), epoch: 0 }
    }

    /// The number of keys.
    pub fn len(&self) -> (r: usize)
        ensures
            r == self.spec_len(),
    {
        self.nodes.len()
    }

    /// How often the key's compute logic has run.
    pub fn invocations(&self, k: KeyId) -> (r: Option<u64>)
        ensures
            match r {
                Some(n) => k < self.spec_len() && n == self.nodes@[k as int].invocations,
                None => k >= self.spec_len(),
            },
    {
        if k < self.nodes.len() {
            Some(self.nodes[k].invocations)
        } else {
            None
        }
    }
}


// ---------------------------------------------------------------------------
// Denotation lemmas.
// ---------------------------------------------------------------------------

/// The denotation reads only the rules: graphs with the same rules give
/// every key the same value.
pub proof fn lemma_denote_stable(a: Seq<Node>, b: Seq<Node>, k: int)
    requires
        a.len() == b.len(),
        forall|j: int| 0 <= j < a.len() ==> (#[trigger] b[j]).rule == a[j].rule,
    ensures
        denote(a, k) == denote(b, k),
    decreases k, 1int,
{
    if 0 <= k < a.len() {
        match a[k].rule {
            ComputeRule::Input(_) => {},
            ComputeRule::Sum(ds) => {
                lemma_denote_sum_stable(a, b, ds@, ds@.len() as int, k);
            },
        }
    }
}

proof fn lemma_denote_sum_stable(a: Seq<Node>, b: Seq<Node>, ds: Seq<KeyId>, n: int, k: int)
    requires
        a.len() == b.len(),
        forall|j: int| 0 <= j < a.len() ==> (#[trigger] b[j]).rule == a[j].rule,
    ensures
        denote_sum(a, ds, n, k) == denote_sum(b, ds, n, k),
    decreases k, 0int, n,
{
    if 0 < n <= ds.len() {
        lemma_denote_sum_stable(a, b, ds, n - 1, k);
        if (ds[n - 1] as int) < k {
            lemma_denote_stable(a, b, ds[n - 1] as int);
        }
    }
}

/// When every recorded value matches its dependency's denotation, the
/// rule applied to the record is the key's denotation.
proof fn lemma_apply_denote(nodes: Seq<Node>, k: int, seen: Seq<int>)
    requires
        0 <= k < nodes.len(),
        node_rule_wf(nodes, k),
        seen.len() == rule_deps(nodes[k].rule).len(),
        forall|i: int|
            0 <= i < seen.len() ==> #[trigger] seen[i] == denote(
                nodes,
                rule_deps(nodes[k].rule)[i] as int,
            ),
    ensures
        apply_rule(nodes[k].rule, seen) == denote(nodes, k),
{
    match nodes[k].rule {
        ComputeRule::Input(_) => {},
        ComputeRule::Sum(ds) => {
            lemma_wrap_sum_denote(nodes, ds@, seen, seen.len() as int, k);
        },
    }
}

proof fn lemma_wrap_sum_denote(nodes: Seq<Node>, ds: Seq<KeyId>, seen: Seq<int>, n: int, k: int)
    requires
        0 <= k < nodes.len(),
        seen.len() == ds.len(),
        forall|i: int| 0 <= i < ds.len() ==> (#[trigger] ds[i]) < k,
        forall|i: int| 0 <= i < seen.len() ==> #[trigger] seen[i] == denote(nodes, ds[i] as int),
    ensures
        wrap_sum(seen, n) == denote_sum(nodes, ds, n, k),
    decreases n,
{
    if 0 < n <= ds.len() {
        lemma_wrap_sum_denote(nodes, ds, seen, n - 1, k);
    }
}

// ---------------------------------------------------------------------------
// Small executable helpers.
// ---------------------------------------------------------------------------

/// One more, stopping at the largest count.
fn bump(x: u64) -> (r: u64)
    ensures
        r == (if x < u64::MAX {
            x + 1
        } else {
            x as int
        }),
{
    if x < u64::MAX {
        x + 1
    } else {
        x
    }
}

/// The 64-bit wrapping sum of two values.
fn wrap_add(a: i64, b: i64) -> (r: i64)
    ensures
        r as int == wrap64(a + b),
{
    let wide: i128 = a as i128 + b as i128;
    let reduced: i128 = if wide > i64::MAX as i128 {
        wide - 0x1_0000_0000_0000_0000
    } else if wide < i64::MIN as i128 {
        wide + 0x1_0000_0000_0000_0000
    } else {
        wide
    };
    reduced as i64
}

/// Whether two values are equal under a declared equality.
fn eq_check(p: EqPolicy, a: i64, b: i64) -> (r: bool)
    ensures
        r == policy_eq(p, a as int, b as int),
{
    match p {
        EqPolicy::ByValue => a == b,
        EqPolicy::AlwaysUnequal => false,
    }
}


impl Graph {
    /// Registers an input key holding the given value.
    pub fn add_input(&mut self, v: i64) -> (k: KeyId)
        requires
            old(self).wf(),
        ensures
            final(self).wf(),
            final(self).spec_len() == old(self).spec_len() + 1,
            k as int == old(self).spec_len(),
            final(self).epoch == old(self).epoch,
            final(self).nodes@[k as int].rule == ComputeRule::Input(v),
            final(self).nodes@[k as int].eq == EqPolicy::ByValue,
            final(self).nodes@[k as int].state is Absent,
            final(self).nodes@[k as int].invocations == 0,
            forall|j: int|
                0 <= j < old(self).spec_len() ==> final(self).nodes@[j] == old(self).nodes@[j],
    {
        let k = self.nodes.len();
        self.nodes.push(
            Node {
                rule: ComputeRule::Input(v),
                eq: EqPolicy::ByValue,
                state: NodeState::Absent,
                invocations: 0,
            },
        );
        proof {
            lemma_wf_after_push(*old(self), *self);
        }
        k
    }

    /// Registers a derived key with its rule and declared equality.
    ///
    /// Succeeds exactly when every dependency names an already registered
    /// key, which keeps the graph acyclic; otherwise the graph is
    /// unchanged.
    pub fn add_key(&mut self, rule: ComputeRule, eq: EqPolicy) -> (r: Option<KeyId>)
        requires
            old(self).wf(),
        ensures
            final(self).wf(),
            match r {
                Some(k) => {
                    &&& forall|i: int|
                        0 <= i < rule_deps(rule).len() ==> (#[trigger] rule_deps(rule)[i])
                            < old(self).spec_len()
                    &&& final(self).spec_len() == old(self).spec_len() + 1
                    &&& k as int == old(self).spec_len()
                    &&& final(self).epoch == old(self).epoch
                    &&& final(self).nodes@[k as int].rule == rule
                    &&& final(self).nodes@[k as int].eq == eq
                    &&& final(self).nodes@[k as int].state is Absent
                    &&& final(self).nodes@[k as int].invocations == 0
                    &&& forall|j: int|
                        0 <= j < old(self).spec_len() ==> final(self).nodes@[j] == old(
                            self,
                        ).nodes@[j]
                },
                None => {
                    &&& !(forall|i: int|
                        0 <= i < rule_deps(rule).len() ==> (#[trigger] rule_deps(rule)[i])
                            < old(self).spec_len())
                    &&& *final(self) == *old(self)
                },
            },
    {
        let ok = match &rule {
            ComputeRule::Input(_) => true,
            ComputeRule::Sum(ds) => {
                let mut i: usize = 0;
                let mut all_ok = true;
                while i < ds.len()
                    invariant
                        i <= ds@.len(),
                        ds@ == rule_deps(rule),
                        all_ok == (forall|j: int|
                            0 <= j < i ==> (#[trigger] rule_deps(rule)[j]) < old(self).spec_len()),
                        *self == *old(self),
                    decreases ds@.len() - i,
                {
                    if ds[i] >= self.nodes.len() {
                        all_ok = false;
                    }
                    i = i + 1;
                }
                all_ok
            },
        };
        if !ok {
            return None;
        }
        let k = self.nodes.len();
        self.nodes.push(Node { rule, eq, state: NodeState::Absent, invocations: 0 });
        proof {
            lemma_wf_after_push(*old(self), *self);
        }
        Some(k)
    }

    /// Marks a key dirty, so the next demand re-checks it.  Returns
    /// whether the key exists; an absent or in-flight node is left as it
    /// is, since there is no cached value to distrust.
    pub fn invalidate(&mut self, k: KeyId) -> (r: bool)
        requires
            old(self).wf(),
            old(self).epoch < u64::MAX,
        ensures
            final(self).wf(),
            r == (k < old(self).spec_len()),
            !r ==> *final(self) == *old(self),
            r ==> {
                &&& final(self).epoch == old(self).epoch + 1
                &&& old(self).same_defs(*final(self))
                &&& forall|j: int|
                    0 <= j < old(self).spec_len() && j != k ==> final(self).nodes@[j] == old(
                        self,
                    ).nodes@[j]
                &&& final(self).nodes@[k as int].rule == old(self).nodes@[k as int].rule
                &&& final(self).nodes@[k as int].invocations == old(
                    self,
                ).nodes@[k as int].invocations
                &&& (old(self).nodes@[k as int].state matches NodeState::Computed {
                    value,
                    deps,
                    ..
                } ==> final(self).nodes@[k as int].state matches NodeState::Computed {
                    value: v2,
                    deps: d2,
                    dirty: true,
                    ..
                } && v2 == value && d2 == deps)
            },
    {
        if k >= self.nodes.len() {
            return false;
        }
        let node = &mut self.nodes[k];
        match &mut node.state {
            NodeState::Computed { dirty, .. } => {
                *dirty = true;
            },
            _ => {},
        }
        self.epoch = self.epoch + 1;
        proof {
            lemma_wf_after_dirty(*old(self), *self, k as int);
        }
        true
    }

    /// Replaces the value of an input key and marks it dirty.  Returns
    /// whether the key exists and is an input.
    pub fn set_input(&mut self, k: KeyId, v: i64) -> (r: bool)
        requires
            old(self).wf(),
            old(self).epoch < u64::MAX,
        ensures
            final(self).wf(),
            r == (k < old(self).spec_len() && old(self).nodes@[k as int].rule is Input),
            !r ==> *final(self) == *old(self),
            r ==> {
                &&& final(self).epoch == old(self).epoch + 1
                &&& final(self).spec_len() == old(self).spec_len()
                &&& final(self).nodes@[k as int].rule == ComputeRule::Input(v)
                &&& forall|j: int|
                    0 <= j < old(self).spec_len() && j != k ==> final(self).nodes@[j] == old(
                        self,
                    ).nodes@[j]
            },
    {
        if k >= self.nodes.len() {
            return false;
        }
        match &self.nodes[k].rule {
            ComputeRule::Input(_) => {},
            _ => {
                return false;
            },
        }
        let node = &mut self.nodes[k];
        node.rule = ComputeRule::Input(v);
        match &mut node.state {
            NodeState::Computed { dirty, .. } => {
                *dirty = true;
            },
            _ => {},
        }
        self.epoch = self.epoch + 1;
        proof {
            lemma_wf_after_set_input(*old(self), *self, k as int);
        }
        true
    }
}

/// Appending a node with no state keeps the invariant.
proof fn lemma_wf_after_push(a: Graph, b: Graph)
    requires
        a.wf(),
        b.epoch == a.epoch,
        b.nodes@.len() == a.nodes@.len() + 1,
        forall|j: int| 0 <= j < a.nodes@.len() ==> b.nodes@[j] == a.nodes@[j],
        b.nodes@.last().state is Absent,
        node_rule_wf(b.nodes@, a.nodes@.len() as int),
    ensures
        b.wf(),
{
    assert forall|k: int| 0 <= k < b.nodes@.len() implies node_rule_wf(b.nodes@, k) by {
        if k < a.nodes@.len() {
            assert(node_rule_wf(a.nodes@, k));
        }
    }
    assert forall|k: int| 0 <= k < b.nodes@.len() implies node_record_wf(b.nodes@, k) by {
        if k < a.nodes@.len() {
            assert(node_record_wf(a.nodes@, k));
        }
    }
    assert forall|k: int| 0 <= k < b.nodes@.len() implies node_current_wf(b.nodes@, b.epoch, k) by {
        if k < a.nodes@.len() {
            assert(node_current_wf(a.nodes@, a.epoch, k));
            lemma_denote_stable_prefix(a.nodes@, b.nodes@, k);
        }
    }
}

/// The denotation of an existing key is unchanged by appending nodes.
proof fn lemma_denote_stable_prefix(a: Seq<Node>, b: Seq<Node>, k: int)
    requires
        a.len() <= b.len(),
        forall|j: int| 0 <= j < a.len() ==> (#[trigger] b[j]).rule == a[j].rule,
        k < a.len(),
    ensures
        denote(a, k) == denote(b, k),
    decreases k, 1int,
{
    if 0 <= k {
        match a[k].rule {
            ComputeRule::Input(_) => {},
            ComputeRule::Sum(ds) => {
                lemma_denote_sum_stable_prefix(a, b, ds@, ds@.len() as int, k);
            },
        }
    }
}

proof fn lemma_denote_sum_stable_prefix(a: Seq<Node>, b: Seq<Node>, ds: Seq<KeyId>, n: int, k: int)
    requires
        a.len() <= b.len(),
        forall|j: int| 0 <= j < a.len() ==> (#[trigger] b[j]).rule == a[j].rule,
        k < a.len(),
    ensures
        denote_sum(a, ds, n, k) == denote_sum(b, ds, n, k),
    decreases k, 0int, n,
{
    if 0 < n <= ds.len() {
        lemma_denote_sum_stable_prefix(a, b, ds, n - 1, k);
        if (ds[n - 1] as int) < k {
            lemma_denote_stable_prefix(a, b, ds[n - 1] as int);
        }
    }
}

/// Marking one node dirty and advancing the epoch keeps the invariant.
proof fn lemma_wf_after_dirty(a: Graph, b: Graph, k: int)
    requires
        a.wf(),
        0 <= k < a.nodes@.len(),
        b.epoch == a.epoch + 1,
        b.nodes@.len() == a.nodes@.len(),
        forall|j: int| 0 <= j < a.nodes@.len() && j != k ==> b.nodes@[j] == a.nodes@[j],
        b.nodes@[k].rule == a.nodes@[k].rule,
        b.nodes@[k].eq == a.nodes@[k].eq,
        b.nodes@[k].state is Computed ==> (b.nodes@[k].state matches NodeState::Computed {
            dirty: true,
            verified,
            ..
        } && verified <= a.epoch),
    ensures
        b.wf(),
{
    assert forall|j: int| 0 <= j < b.nodes@.len() implies node_rule_wf(b.nodes@, j) by {
        assert(node_rule_wf(a.nodes@, j));
    }
    assert forall|j: int| 0 <= j < b.nodes@.len() implies node_record_wf(b.nodes@, j) by {
        assert(node_record_wf(a.nodes@, j));
    }
    assert forall|j: int| 0 <= j < b.nodes@.len() implies node_current_wf(b.nodes@, b.epoch, j) by {
        assert(node_current_wf(a.nodes@, a.epoch, j));
    }
}

/// Replacing an input's value, marking it dirty and advancing the epoch
/// keeps the invariant.
proof fn lemma_wf_after_set_input(a: Graph, b: Graph, k: int)
    requires
        a.wf(),
        0 <= k < a.nodes@.len(),
        a.nodes@[k].rule is Input,
        b.nodes@[k].rule is Input,
        b.epoch == a.epoch + 1,
        b.nodes@.len() == a.nodes@.len(),
        forall|j: int| 0 <= j < a.nodes@.len() && j != k ==> b.nodes@[j] == a.nodes@[j],
        b.nodes@[k].state is Computed ==> (b.nodes@[k].state matches NodeState::Computed {
            dirty: true,
            verified,
            ..
        } && verified <= a.epoch),
    ensures
        b.wf(),
{
    assert forall|j: int| 0 <= j < b.nodes@.len() implies node_rule_wf(b.nodes@, j) by {
        assert(node_rule_wf(a.nodes@, j));
        assert(rule_deps(b.nodes@[j].rule).len() == rule_deps(a.nodes@[j].rule).len());
    }
    assert forall|j: int| 0 <= j < b.nodes@.len() implies node_record_wf(b.nodes@, j) by {
        assert(node_record_wf(a.nodes@, j));
        if j != k {
            assert(b.nodes@[j] == a.nodes@[j]);
        }
    }
    assert forall|j: int| 0 <= j < b.nodes@.len() implies node_current_wf(b.nodes@, b.epoch, j) by {
        assert(node_current_wf(a.nodes@, a.epoch, j));
    }
}


/// What re-verification may change on a node it does not recompute:
/// everything but the verification stamp stays.
pub open spec fn keeps_record(a: Node, b: Node) -> bool {
    &&& b.invocations == a.invocations
    &&& (a.state matches NodeState::Computed { value, deps, dirty: false, .. }
        ==> b.state matches NodeState::Computed { value: v2, deps: d2, dirty: false, .. } && v2
        == value && d2@ == deps@)
}

/// A node that needs no recomputation stays that way across steps that
/// keep its record and the key definitions.
proof fn lemma_up_to_date_carries(a: Graph, b: Graph, j: int)
    requires
        0 <= j < a.nodes@.len(),
        a.wf(),
        a.same_defs(b),
        a.up_to_date(j),
        keeps_record(a.nodes@[j], b.nodes@[j]),
    ensures
        b.up_to_date(j),
{
    let deps = a.nodes@[j].state->Computed_deps;
    assert(a.nodes@[j].state matches NodeState::Computed { dirty: false, .. });
    assert(b.nodes@[j].state matches NodeState::Computed { deps: d2, dirty: false, .. } && d2@
        == deps@);
    assert(b.nodes@[j].state->Computed_deps@ == deps@);
    assert(node_record_wf(a.nodes@, j));
    assert(node_rule_wf(a.nodes@, j));
    assert forall|i: int| 0 <= i < deps@.len() implies policy_eq(
        b.nodes@[(#[trigger] deps@[i]).key as int].eq,
        deps@[i].seen as int,
        denote(b.nodes@, deps@[i].key as int),
    ) by {
        assert(deps@[i].key == rule_deps(a.nodes@[j].rule)[i]);
        assert((deps@[i].key as int) < j);
        assert(policy_eq(
            a.nodes@[(deps@[i]).key as int].eq,
            deps@[i].seen as int,
            denote(a.nodes@, deps@[i].key as int),
        ));
        assert(b.nodes@[deps@[i].key as int].eq == a.nodes@[deps@[i].key as int].eq);
        lemma_denote_stable(a.nodes@, b.nodes@, deps@[i].key as int);
    }
}

/// Copies a dependency record list.
fn copy_deps(deps: &Vec<DepRecord>) -> (r: Vec<DepRecord>)
    ensures
        r@ == deps@,
{
    let mut out: Vec<DepRecord> = Vec::new();
    let mut i: usize = 0;
    while i < deps.len()
        invariant
            i <= deps@.len(),
            out@ == deps@.subrange(0, i as int),
        decreases deps@.len() - i,
    {
        out.push(deps[i]);
        i = i + 1;
    }
    proof {
        assert(out@ =~= deps@);
    }
    out
}

/// Copies a key list.
fn copy_keys(ds: &Vec<KeyId>) -> (r: Vec<KeyId>)
    ensures
        r@ == ds@,
{
    let mut out: Vec<KeyId> = Vec::new();
    let mut i: usize = 0;
    while i < ds.len()
        invariant
            i <= ds@.len(),
            out@ == ds@.subrange(0, i as int),
        decreases ds@.len() - i,
    {
        out.push(ds[i]);
        i = i + 1;
    }
    proof {
        assert(out@ =~= ds@);
    }
    out
}

impl Graph {
    /// Brings a key up to date and returns its value, which is the key's
    /// denotation.  A node that is fresh is served from cache and the
    /// graph does not change at all; a clean but unverified node has its
    /// recorded dependencies re-checked first and is recomputed only when
    /// one of them counts as changed under its declared equality; an
    /// absent or dirty node is recomputed.  Nodes whose record still
    /// passes those checks are never recomputed: the cutoff.
    fn ensure(&mut self, k: KeyId) -> (v: i64)
        requires
            old(self).wf(),
            k < old(self).spec_len(),
            forall|j: int|
                0 <= j <= k ==> !((#[trigger] old(self).nodes@[j].state) is Computing),
        ensures
            final(self).wf(),
            old(self).same_defs(*final(self)),
            final(self).epoch == old(self).epoch,
            v as int == denote(final(self).nodes@, k as int),
            final(self).fresh(k as int),
            final(self).nodes@[k as int].state matches NodeState::Computed { value, .. } && value
                == v,
            forall|j: int|
                k < j < old(self).spec_len() ==> final(self).nodes@[j] == old(self).nodes@[j],
            forall|j: int|
                0 <= j < old(self).spec_len() ==> (#[trigger] final(self).nodes@[j]).invocations
                    >= old(self).nodes@[j].invocations,
            forall|j: int|
                0 <= j <= k ==> !((#[trigger] final(self).nodes@[j].state) is Computing),
            forall|j: int|
                0 <= j < old(self).spec_len() && old(self).fresh(j) ==> final(self).nodes@[j]
                    == old(self).nodes@[j],
            forall|j: int|
                0 <= j < old(self).spec_len() && old(self).up_to_date(j) ==> keeps_record(
                    old(self).nodes@[j],
                    final(self).nodes@[j],
                ),
            old(self).fresh(k as int) ==> *final(self) == *old(self),
            (old(self).nodes@[k as int].state is Absent || old(self).nodes@[k as int].state
                matches NodeState::Computed { dirty: true, .. })
                ==> final(self).nodes@[k as int].invocations == (if old(self).nodes@[k as int].invocations
                < u64::MAX {
                old(self).nodes@[k as int].invocations + 1
            } else {
                old(self).nodes@[k as int].invocations as int
            }),
        decreases k, 1int,
    {
        let ghost g0 = *self;
        // Fresh: serve from cache without touching anything.
        let mut cached: Option<i64> = None;
        match &self.nodes[k].state {
            NodeState::Computed { value, dirty, verified, .. } => {
                if !*dirty && *verified == self.epoch {
                    cached = Some(*value);
                }
            },
            _ => {},
        }
        if let Some(v) = cached {
            proof {
                assert(node_current_wf(self.nodes@, self.epoch, k as int));
            }
            return v;
        }
        // Clean but unverified: re-check the recorded dependencies.
        let mut verify_deps: Option<Vec<DepRecord>> = None;
        match &self.nodes[k].state {
            NodeState::Computed { deps, dirty, .. } => {
                if !*dirty {
                    verify_deps = Some(copy_deps(deps));
                }
            },
            _ => {},
        }
        if let Some(deps) = verify_deps {
            proof {
                assert(node_record_wf(g0.nodes@, k as int));
                assert(node_rule_wf(g0.nodes@, k as int));
                assert forall|x: int| 0 <= x < deps@.len() implies ((#[trigger] deps@[x]).key as int)
                    < k as int by {
                    assert(deps@[x].key == rule_deps(g0.nodes@[k as int].rule)[x]);
                }
            }
            let mut changed = false;
            let mut i: usize = 0;
            while i < deps.len()
                invariant
                    i <= deps@.len(),
                    k < g0.spec_len(),
                    g0.wf(),
                    self.wf(),
                    g0.same_defs(*self),
                    self.epoch == g0.epoch,
                    forall|x: int|
                        0 <= x < deps@.len() ==> ((#[trigger] deps@[x]).key as int) < k as int,
                    forall|j: int| k <= j < g0.spec_len() ==> self.nodes@[j] == g0.nodes@[j],
                    forall|j: int|
                        0 <= j < g0.spec_len() ==> (#[trigger] self.nodes@[j]).invocations
                            >= g0.nodes@[j].invocations,
                    forall|j: int|
                        0 <= j <= k ==> !((#[trigger] self.nodes@[j].state) is Computing),
                    forall|j: int|
                        0 <= j < g0.spec_len() && g0.fresh(j) ==> self.nodes@[j] == g0.nodes@[j],
                    forall|j: int|
                        0 <= j < g0.spec_len() && g0.up_to_date(j) ==> keeps_record(
                            g0.nodes@[j],
                            self.nodes@[j],
                        ),
                    changed == !(forall|x: int|
                        0 <= x < i ==> policy_eq(
                            g0.nodes@[(#[trigger] deps@[x]).key as int].eq,
                            deps@[x].seen as int,
                            denote(g0.nodes@, deps@[x].key as int),
                        )),
                decreases deps@.len() - i,
            {
                let d = deps[i].key;
                let ghost gprev = *self;
                let dv = self.ensure(d);
                proof {
                    lemma_denote_stable(self.nodes@, g0.nodes@, d as int);
                    assert forall|j: int|
                        0 <= j < g0.spec_len() && g0.fresh(j) implies self.nodes@[j]
                        == g0.nodes@[j] by {
                        assert(gprev.nodes@[j] == g0.nodes@[j]);
                        assert(gprev.fresh(j));
                    }
                    assert forall|j: int|
                        0 <= j < g0.spec_len() && g0.up_to_date(j) implies keeps_record(
                        g0.nodes@[j],
                        self.nodes@[j],
                    ) by {
                        assert(keeps_record(g0.nodes@[j], gprev.nodes@[j]));
                        lemma_up_to_date_carries(g0, gprev, j);
                        assert(keeps_record(gprev.nodes@[j], self.nodes@[j]));
                    }
                }
                let deq = self.nodes[d].eq;
                if !eq_check(deq, deps[i].seen, dv) {
                    changed = true;
                }
                i = i + 1;
            }
            proof {
                if changed && g0.up_to_date(k as int) {
                    let x = choose|x: int|
                        0 <= x < deps@.len() && !policy_eq(
                            g0.nodes@[(#[trigger] deps@[x]).key as int].eq,
                            deps@[x].seen as int,
                            denote(g0.nodes@, deps@[x].key as int),
                        );
                    assert(g0.nodes@[k as int].state->Computed_deps@ == deps@);
                    assert(false);
                }
            }
            if !changed {
                // Every recorded value still counts as unchanged: keep
                // the value, stamp it verified.
                let ghost gmid = *self;
                let ep = self.epoch;
                let out: i64;
                match &self.nodes[k].state {
                    NodeState::Computed { value, .. } => {
                        out = *value;
                    },
                    _ => {
                        out = 0;
                    },
                }
                let node = &mut self.nodes[k];
                let deps2 = deps;
                node.state = NodeState::Computed {
                    value: out,
                    deps: deps2,
                    dirty: false,
                    verified: ep,
                };
                proof {
                    let g1 = *self;
                    let seen = seen_of(deps@);
                    assert forall|x: int| 0 <= x < seen.len() implies #[trigger] seen[x] == denote(
                        g0.nodes@,
                        rule_deps(g0.nodes@[k as int].rule)[x] as int,
                    ) by {
                        assert(deps@[x].key == rule_deps(g0.nodes@[k as int].rule)[x]);
                        assert(policy_eq(
                            g0.nodes@[deps@[x].key as int].eq,
                            deps@[x].seen as int,
                            denote(g0.nodes@, deps@[x].key as int),
                        ));
                    }
                    lemma_apply_denote(g0.nodes@, k as int, seen);
                    assert(out as int == denote(g0.nodes@, k as int));
                    lemma_denote_stable(g0.nodes@, g1.nodes@, k as int);
                    assert forall|j: int| 0 <= j < self.nodes@.len() implies node_rule_wf(
                        self.nodes@,
                        j,
                    ) by {
                        assert(node_rule_wf(gmid.nodes@, j));
                    }
                    assert forall|j: int| 0 <= j < self.nodes@.len() implies node_record_wf(
                        self.nodes@,
                        j,
                    ) by {
                        assert(node_record_wf(gmid.nodes@, j));
                        if j == k as int {
                            assert(self.nodes@[j].state->Computed_deps@ == deps@);
                            assert(seen_of(self.nodes@[j].state->Computed_deps@) == seen);
                        }
                    }
                    assert forall|j: int| 0 <= j < self.nodes@.len() implies node_current_wf(
                        self.nodes@,
                        self.epoch,
                        j,
                    ) by {
                        assert(node_current_wf(gmid.nodes@, gmid.epoch, j));
                        lemma_denote_stable(gmid.nodes@, self.nodes@, j);
                        if j == k as int {
                            assert(self.nodes@[j].state->Computed_deps@ == deps@);
                            assert(seen_of(self.nodes@[j].state->Computed_deps@) == seen);
                        }
                    }
                    assert forall|j: int|
                        0 <= j < self.nodes@.len() implies (#[trigger] self.nodes@[j].state matches NodeState::Computed {
                        verified,
                        ..
                    } ==> verified <= self.epoch) by {
                        assert(gmid.nodes@[j].state matches NodeState::Computed { verified, .. }
                            ==> verified <= gmid.epoch);
                    }
                    assert forall|j: int|
                        0 <= j < old(self).spec_len() && old(self).up_to_date(j) implies keeps_record(
                        old(self).nodes@[j],
                        self.nodes@[j],
                    ) by {
                        assert(g0.up_to_date(j));
                        if j == k as int {
                            assert(self.nodes@[j].state->Computed_deps@ == deps@);
                        } else {
                            assert(keeps_record(g0.nodes@[j], self.nodes@[j]));
                        }
                    }
                    assert forall|j: int|
                        0 <= j < old(self).spec_len() && old(self).fresh(j) implies self.nodes@[j]
                        == old(self).nodes@[j] by {
                        assert(g0.fresh(j));
                    }
                    assert(self.wf());
                }
                return out;
            }
        }
        // Recompute: run the rule over freshly ensured dependencies.
        proof {
            if g0.up_to_date(k as int) {
                assert(g0.nodes@[k as int].state matches NodeState::Computed { dirty: false, .. });
                assert(false);
            }
        }
        let mut input_val: Option<i64> = None;
        let mut ds: Vec<KeyId> = Vec::new();
        match &self.nodes[k].rule {
            ComputeRule::Input(v) => {
                input_val = Some(*v);
            },
            ComputeRule::Sum(dd) => {
                ds = copy_keys(dd);
            },
        }
        proof {
            assert(node_rule_wf(g0.nodes@, k as int));
        }
        let mut acc: i64 = 0;
        let mut new_deps: Vec<DepRecord> = Vec::new();
        match input_val {
            Some(v) => {
                acc = v;
            },
            None => {
                let mut i: usize = 0;
                while i < ds.len()
                    invariant
                        i <= ds@.len(),
                        k < g0.spec_len(),
                        g0.wf(),
                        self.wf(),
                        g0.same_defs(*self),
                        self.epoch == g0.epoch,
                        !g0.up_to_date(k as int),
                        ds@ == rule_deps(g0.nodes@[k as int].rule),
                        forall|x: int| 0 <= x < ds@.len() ==> ((#[trigger] ds@[x]) as int) < k as int,
                        forall|j: int| k <= j < g0.spec_len() ==> self.nodes@[j] == g0.nodes@[j],
                        forall|j: int|
                            0 <= j < g0.spec_len() ==> (#[trigger] self.nodes@[j]).invocations
                                >= g0.nodes@[j].invocations,
                        forall|j: int|
                            0 <= j <= k ==> !((#[trigger] self.nodes@[j].state) is Computing),
                        forall|j: int|
                            0 <= j < g0.spec_len() && g0.fresh(j) ==> self.nodes@[j]
                                == g0.nodes@[j],
                        forall|j: int|
                            0 <= j < g0.spec_len() && g0.up_to_date(j) ==> keeps_record(
                                g0.nodes@[j],
                                self.nodes@[j],
                            ),
                        acc as int == denote_sum(g0.nodes@, ds@, i as int, k as int),
                        new_deps@.len() == i,
                        forall|x: int|
                            0 <= x < i ==> (#[trigger] new_deps@[x]).key == ds@[x]
                                && new_deps@[x].seen as int == denote(g0.nodes@, ds@[x] as int),
                    decreases ds@.len() - i,
                {
                    let d = ds[i];
                    let ghost g0v = *self;
                    let dv = self.ensure(d);
                    proof {
                        lemma_denote_stable(self.nodes@, g0.nodes@, d as int);
                        assert forall|j: int|
                            0 <= j < g0.spec_len() && g0.fresh(j) implies self.nodes@[j]
                            == g0.nodes@[j] by {
                            assert(g0v.nodes@[j] == g0.nodes@[j]);
                            assert(g0v.fresh(j));
                        }
                        assert forall|j: int|
                            0 <= j < g0.spec_len() && g0.up_to_date(j) implies keeps_record(
                            g0.nodes@[j],
                            self.nodes@[j],
                        ) by {
                            assert(keeps_record(g0.nodes@[j], g0v.nodes@[j]));
                            lemma_up_to_date_carries(g0, g0v, j);
                            assert(keeps_record(g0v.nodes@[j], self.nodes@[j]));
                        }
                    }
                    acc = wrap_add(acc, dv);
                    new_deps.push(DepRecord { key: d, seen: dv });
                    i = i + 1;
                }
            },
        }
        let ghost gmid = *self;
        let inv = bump(self.nodes[k].invocations);
        let ep = self.epoch;
        let node = &mut self.nodes[k];
        node.invocations = inv;
        node.state = NodeState::Computed { value: acc, deps: new_deps, dirty: false, verified: ep };
        proof {
            let g1 = *self;
            assert(acc as int == denote(g0.nodes@, k as int));
            lemma_denote_stable(g0.nodes@, g1.nodes@, k as int);
            let seen = seen_of(g1.nodes@[k as int].state->Computed_deps@);
            assert forall|x: int| 0 <= x < seen.len() implies #[trigger] seen[x] == denote(
                g0.nodes@,
                rule_deps(g0.nodes@[k as int].rule)[x] as int,
            ) by {}
            lemma_apply_denote(g0.nodes@, k as int, seen);
            assert forall|j: int| 0 <= j < self.nodes@.len() implies node_rule_wf(
                self.nodes@,
                j,
            ) by {
                assert(node_rule_wf(gmid.nodes@, j));
            }
            assert forall|j: int| 0 <= j < self.nodes@.len() implies node_record_wf(
                self.nodes@,
                j,
            ) by {
                assert(node_record_wf(gmid.nodes@, j));
                if j == k as int {
                    assert(apply_rule(self.nodes@[j].rule, seen) == denote(g0.nodes@, j));
                }
            }
            assert forall|j: int| 0 <= j < self.nodes@.len() implies node_current_wf(
                self.nodes@,
                self.epoch,
                j,
            ) by {
                assert(node_current_wf(gmid.nodes@, gmid.epoch, j));
                lemma_denote_stable(gmid.nodes@, self.nodes@, j);
                if j == k as int {
                    assert(apply_rule(self.nodes@[j].rule, seen) == denote(g0.nodes@, j));
                }
            }
            assert forall|j: int|
                0 <= j < self.nodes@.len() implies (#[trigger] self.nodes@[j].state matches NodeState::Computed {
                verified,
                ..
            } ==> verified <= self.epoch) by {
                assert(gmid.nodes@[j].state matches NodeState::Computed { verified, .. }
                    ==> verified <= gmid.epoch);
            }
            assert forall|j: int|
                0 <= j < old(self).spec_len() && old(self).up_to_date(j) implies keeps_record(
                old(self).nodes@[j],
                self.nodes@[j],
            ) by {
                assert(g0.up_to_date(j));
                if j == k as int {
                    assert(!g0.up_to_date(j));
                } else {
                    assert(keeps_record(g0.nodes@[j], self.nodes@[j]));
                }
            }
            assert forall|j: int|
                0 <= j < old(self).spec_len() && old(self).fresh(j) implies self.nodes@[j] == old(
                self,
            ).nodes@[j] by {
                assert(g0.fresh(j));
            }
            assert(self.wf());
        }
        acc
    }

    /// Computes a key's value, caching it and recording its
    /// dependencies.  Succeeds exactly when the key exists and no key up
    /// to it has a computation in flight; the value returned is the key's
    /// denotation, and a key whose cache is fresh is answered without any
    /// change to the graph.
    #[verifier::loop_isolation(false)]
    pub fn compute(&mut self, k: KeyId) -> (r: Option<i64>)
        requires
            old(self).wf(),
        ensures
            final(self).wf(),
            r is Some == (k < old(self).spec_len() && forall|j: int|
                0 <= j <= k ==> !((#[trigger] old(self).nodes@[j].state) is Computing)),
            r is None ==> *final(self) == *old(self),
            r matches Some(v) ==> {
                &&& old(self).same_defs(*final(self))
                &&& final(self).epoch == old(self).epoch
                &&& v as int == denote(final(self).nodes@, k as int)
                &&& final(self).fresh(k as int)
                &&& forall|j: int|
                    0 <= j < old(self).spec_len() && old(self).fresh(j) ==> final(self).nodes@[j]
                        == old(self).nodes@[j]
                &&& forall|j: int|
                    0 <= j < old(self).spec_len() && old(self).up_to_date(j) ==> keeps_record(
                        old(self).nodes@[j],
                        final(self).nodes@[j],
                    )
                &&& old(self).fresh(k as int) ==> *final(self) == *old(self)
            },
    {
        if k >= self.nodes.len() {
            return None;
        }
        let mut i: usize = 0;
        while i <= k
            invariant
                i <= k + 1,
                k < self.spec_len(),
                *self == *old(self),
                forall|j: int| 0 <= j < i ==> !((#[trigger] self.nodes@[j].state) is Computing),
            decreases k + 1 - i,
        {
            match &self.nodes[i].state {
                NodeState::Computing { .. } => {
                    return None;
                },
                _ => {},
            }
            i = i + 1;
        }
        Some(self.ensure(k))
    }
}


/// What a request observed: a fresh cached value, the start of a new
/// computation, or joining one already in flight.
#[derive(Debug, Clone, Copy, PartialEq, Eq, Structural)]
pub enum RequestOutcome {
    Hit(i64),
    Started,
    Joined,
}

impl Graph {
    /// The cached value of a key, if the key is in the computed state.
    pub fn cached_value(&self, k: KeyId) -> (r: Option<i64>)
        ensures
            match r {
                Some(v) => k < self.spec_len() && (self.nodes@[k as int].state
                    matches NodeState::Computed { value, .. } && value == v),
                None => k >= self.spec_len() || !(self.nodes@[k as int].state is Computed),
            },
    {
        if k >= self.nodes.len() {
            return None;
        }
        match &self.nodes[k].state {
            NodeState::Computed { value, .. } => Some(*value),
            _ => None,
        }
    }

    /// One request against a key, in the single-flight protocol: a fresh
    /// node answers from cache and nothing changes; a node already in
    /// flight is joined, with one more waiter and no new invocation of
    /// its compute logic; anything else starts a computation, keeping the
    /// previous value for a possible cancellation.  Returns nothing only
    /// for an unknown key.
    pub fn request(&mut self, k: KeyId) -> (r: Option<RequestOutcome>)
        requires
            old(self).wf(),
        ensures
            final(self).wf(),
            r is None == (k >= old(self).spec_len()),
            r is None ==> *final(self) == *old(self),
            old(self).same_defs(*final(self)),
            final(self).epoch == old(self).epoch,
            forall|j: int|
                0 <= j < old(self).spec_len() && j != k ==> final(self).nodes@[j] == old(
                    self,
                ).nodes@[j],
            r matches Some(o) ==> {
                &&& o matches RequestOutcome::Hit(v) ==> old(self).fresh(k as int) && *final(self)
                    == *old(self) && (old(self).nodes@[k as int].state
                    matches NodeState::Computed { value, .. } && value == v)
                &&& o is Joined ==> {
                    &&& old(self).nodes@[k as int].state is Computing
                    &&& final(self).nodes@[k as int].state matches NodeState::Computing {
                        waiters,
                        prev,
                    } && old(self).nodes@[k as int].state matches NodeState::Computing {
                        waiters: w0,
                        prev: p0,
                    } && waiters == (if w0 < u64::MAX {
                        w0 + 1
                    } else {
                        w0 as int
                    }) && prev == p0
                    &&& final(self).nodes@[k as int].invocations == old(
                        self,
                    ).nodes@[k as int].invocations
                }
                &&& o is Started ==> {
                    &&& !old(self).fresh(k as int) && !(old(self).nodes@[k as int].state
                        is Computing)
                    &&& final(self).nodes@[k as int].state matches NodeState::Computing {
                        waiters: 1u64,
                        prev,
                    } && prev == (match old(self).nodes@[k as int].state {
                        NodeState::Computed { value, .. } => Some(value),
                        _ => None,
                    })
                    &&& final(self).nodes@[k as int].invocations == old(
                        self,
                    ).nodes@[k as int].invocations
                }
            },
    {
        if k >= self.nodes.len() {
            return None;
        }
        let mut outcome: Option<RequestOutcome> = None;
        match &self.nodes[k].state {
            NodeState::Computed { value, dirty, verified, .. } => {
                if !*dirty && *verified == self.epoch {
                    outcome = Some(RequestOutcome::Hit(*value));
                }
            },
            NodeState::Computing { waiters, prev } => {
                let w = bump(*waiters);
                let p = match prev {
                    Some(v) => Some(*v),
                    None => None,
                };
                let node = &mut self.nodes[k];
                node.state = NodeState::Computing { waiters: w, prev: p };
                proof {
                    lemma_wf_after_state(*old(self), *self, k as int);
                }
                return Some(RequestOutcome::Joined);
            },
            NodeState::Absent => {},
        }
        if let Some(o) = outcome {
            return Some(o);
        }
        let prev: Option<i64> = match &self.nodes[k].state {
            NodeState::Computed { value, .. } => Some(*value),
            _ => None,
        };
        let node = &mut self.nodes[k];
        node.state = NodeState::Computing { waiters: 1, prev };
        proof {
            lemma_wf_after_state(*old(self), *self, k as int);
        }
        Some(RequestOutcome::Started)
    }

    /// Cancels an in-flight computation.  The node reverts to its state
    /// before the computation started: absent when there was no value, or
    /// the previous value marked dirty, so a later request re-runs the
    /// compute logic from scratch either way; no invocation is recorded.
    /// Returns whether there was an in-flight computation to cancel.
    pub fn cancel(&mut self, k: KeyId) -> (r: bool)
        requires
            old(self).wf(),
        ensures
            final(self).wf(),
            r == (k < old(self).spec_len() && old(self).nodes@[k as int].state is Computing),
            !r ==> *final(self) == *old(self),
            old(self).same_defs(*final(self)),
            final(self).epoch == old(self).epoch,
            forall|j: int|
                0 <= j < old(self).spec_len() && j != k ==> final(self).nodes@[j] == old(
                    self,
                ).nodes@[j],
            r ==> {
                &&& final(self).nodes@[k as int].invocations == old(
                    self,
                ).nodes@[k as int].invocations
                &&& !final(self).fresh(k as int)
                &&& (old(self).nodes@[k as int].state matches NodeState::Computing {
                    prev: None,
                    ..
                } ==> final(self).nodes@[k as int].state is Absent)
                &&& (old(self).nodes@[k as int].state matches NodeState::Computing {
                    prev: Some(v),
                    ..
                } ==> final(self).nodes@[k as int].state matches NodeState::Computed {
                    value,
                    dirty: true,
                    ..
                } && value == v)
            },
    {
        if k >= self.nodes.len() {
            return false;
        }
        let prev: Option<i64>;
        match &self.nodes[k].state {
            NodeState::Computing { prev: p, .. } => {
                prev = match p {
                    Some(v) => Some(*v),
                    None => None,
                };
            },
            _ => {
                return false;
            },
        }
        let node = &mut self.nodes[k];
        match prev {
            None => {
                node.state = NodeState::Absent;
            },
            Some(v) => {
                node.state = NodeState::Computed {
                    value: v,
                    deps: Vec::new(),
                    dirty: true,
                    verified: 0,
                };
            },
        }
        proof {
            lemma_wf_after_state(*old(self), *self, k as int);
        }
        true
    }

    /// Completes an in-flight computation: runs the key's rule over
    /// freshly ensured dependencies, records the one invocation, caches
    /// the value and hands it to every waiter.  Succeeds exactly when the
    /// key is in flight and no earlier key is; the value returned is the
    /// key's denotation.
    #[verifier::loop_isolation(false)]
    pub fn finish(&mut self, k: KeyId) -> (r: Option<i64>)
        requires
            old(self).wf(),
        ensures
            final(self).wf(),
            r is Some == (k < old(self).spec_len() && old(self).nodes@[k as int].state is Computing
                && forall|j: int|
                0 <= j < k ==> !((#[trigger] old(self).nodes@[j].state) is Computing)),
            r is None ==> *final(self) == *old(self),
            r matches Some(v) ==> {
                &&& old(self).same_defs(*final(self))
                &&& final(self).epoch == old(self).epoch
                &&& v as int == denote(final(self).nodes@, k as int)
                &&& final(self).fresh(k as int)
                &&& final(self).nodes@[k as int].invocations == (if old(
                    self,
                ).nodes@[k as int].invocations < u64::MAX {
                    old(self).nodes@[k as int].invocations + 1
                } else {
                    old(self).nodes@[k as int].invocations as int
                })
            },
    {
        if k >= self.nodes.len() {
            return None;
        }
        match &self.nodes[k].state {
            NodeState::Computing { .. } => {},
            _ => {
                return None;
            },
        }
        let mut i: usize = 0;
        while i < k
            invariant
                i <= k,
                k < self.spec_len(),
                *self == *old(self),
                forall|j: int| 0 <= j < i ==> !((#[trigger] self.nodes@[j].state) is Computing),
            decreases k - i,
        {
            match &self.nodes[i].state {
                NodeState::Computing { .. } => {
                    return None;
                },
                _ => {},
            }
            i = i + 1;
        }
        let node = &mut self.nodes[k];
        node.state = NodeState::Absent;
        proof {
            lemma_wf_after_state(*old(self), *self, k as int);
        }
        let ghost gmid = *self;
        let v = self.ensure(k);
        proof {
            assert(gmid.nodes@[k as int].state is Absent);
            assert(!gmid.up_to_date(k as int));
        }
        Some(v)
    }
}

/// Rewriting one node's state, with no claim on the new state's record,
/// keeps the invariant as long as the new state is not a clean computed
/// record or is one whose claims are vacuous.
proof fn lemma_wf_after_state(a: Graph, b: Graph, k: int)
    requires
        a.wf(),
        0 <= k < a.nodes@.len(),
        b.epoch == a.epoch,
        b.nodes@.len() == a.nodes@.len(),
        forall|j: int| 0 <= j < a.nodes@.len() && j != k ==> b.nodes@[j] == a.nodes@[j],
        b.nodes@[k].rule == a.nodes@[k].rule,
        b.nodes@[k].eq == a.nodes@[k].eq,
        b.nodes@[k].state matches NodeState::Computed { dirty, verified, .. } ==> (dirty && verified
            <= a.epoch),
    ensures
        b.wf(),
{
    assert forall|j: int| 0 <= j < b.nodes@.len() implies node_rule_wf(b.nodes@, j) by {
        assert(node_rule_wf(a.nodes@, j));
        assert(rule_deps(b.nodes@[j].rule) == rule_deps(a.nodes@[j].rule));
    }
    assert forall|j: int| 0 <= j < b.nodes@.len() implies node_record_wf(b.nodes@, j) by {
        assert(node_record_wf(a.nodes@, j));
    }
    assert forall|j: int| 0 <= j < b.nodes@.len() implies node_current_wf(b.nodes@, b.epoch, j) by {
        assert(node_current_wf(a.nodes@, a.epoch, j));
        lemma_denote_stable(a.nodes@, b.nodes@, j);
    }
}

} // verus!
