//! A map whose key is a sequence of path components.
//!
//! Think of the key as the path to the leaf holding the value.  Storing
//! both a key and a prefix of it is impossible: inserting removes every
//! key the new key is a prefix of and every key that is a prefix of it.
//! The special operation is the prefix lookup: searching with a key
//! finds a value stored at any prefix of it, which answers which stored
//! directory a deeper path belongs to.

use vstd::prelude::*;

verus! {

/// One edge of a tree node: a path component and the subtree under it.
#[derive(Debug)]
pub struct Edge<V> {
    pub name: String,
    pub node: DataTree<V>,
}

/// Tree that stores data in the leaves; each edge carries one key
/// component.
#[derive(Debug)]
pub enum DataTree<V> {
    Tree(Vec<Edge<V>>),
    Data(V),
}

/// The subtree under the first edge with the given name, if any.
pub open spec fn s_find<V>(edges: Seq<Edge<V>>, name: Seq<char>) -> Option<DataTree<V>>
    decreases edges.len(),
{
    if edges.len() == 0 {
        None
    } else if edges[0].name@ == name {
        Some(edges[0].node)
    } else {
        s_find(edges.drop_first(), name)
    }
}

/// The value stored at the key `key[from..]`, if that exact key holds
/// one.
pub open spec fn s_get<V>(t: DataTree<V>, key: Seq<Seq<char>>, from: int) -> Option<V>
    decreases key.len() - from,
{
    match t {
        DataTree::Data(v) => if from >= key.len() {
            Some(v)
        } else {
            None
        },
        DataTree::Tree(edges) => if from < 0 || from >= key.len() {
            None
        } else {
            match s_find(edges@, key[from]) {
                Some(child) => s_get(child, key, from + 1),
                None => None,
            }
        },
    }
}

/// The value stored at the shortest stored prefix of `key[from..]`, if
/// any prefix of it holds one.
pub open spec fn s_prefix_get<V>(t: DataTree<V>, key: Seq<Seq<char>>, from: int) -> Option<V>
    decreases key.len() - from,
{
    match t {
        DataTree::Data(v) => Some(v),
        DataTree::Tree(edges) => if from < 0 || from >= key.len() {
            None
        } else {
            match s_find(edges@, key[from]) {
                Some(child) => s_prefix_get(child, key, from + 1),
                None => None,
            }
        },
    }
}

/// The key components of a string list.
pub open spec fn key_values(key: Seq<String>) -> Seq<Seq<char>> {
    key.map(|i: int, s: String| s@)
}

impl<V> DataTree<V> {
    /// An empty tree: no keys, no values.
    pub fn new() -> (r: DataTree<V>)
        ensures
            r matches DataTree::Tree(edges) && edges@.len() == 0,
            forall|k: Seq<Seq<char>>, from: int| s_get(r, k, from) is None,
            forall|k: Seq<Seq<char>>, from: int| s_prefix_get(r, k, from) is None,
    {
        let r = DataTree::Tree(Vec::new());
        proof {
            assert forall|k: Seq<Seq<char>>, from: int| s_get(r, k, from) is None by {
                reveal_with_fuel(s_get, 2);
            }
            assert forall|k: Seq<Seq<char>>, from: int| s_prefix_get(r, k, from) is None by {
                reveal_with_fuel(s_prefix_get, 2);
            }
        }
        r
    }

    /// Gets the value at `key[from..]` or at one of its prefixes.
    pub fn prefix_get(&self, key: &Vec<String>, from: usize) -> (r: Option<&V>)
        ensures
            match r {
                Some(v) => s_prefix_get(*self, key_values(key@), from as int) == Some(*v),
                None => s_prefix_get(*self, key_values(key@), from as int) is None,
            },
        decreases key@.len() - from,
    {
        match self {
            DataTree::Data(v) => Some(v),
            DataTree::Tree(edges) => {
                if from >= key.len() {
                    return None;
                }
                let found = find_edge(edges, &key[from]);
                proof {
                    assert(key_values(key@)[from as int] == key@[from as int]@);
                }
                match found {
                    Some(child) => child.prefix_get(key, from + 1),
                    None => None,
                }
            },
        }
    }
}

/// The first edge with the given name, if any.
fn find_edge<'a, V>(edges: &'a Vec<Edge<V>>, name: &String) -> (r: Option<&'a DataTree<V>>)
    ensures
        match r {
            Some(child) => s_find(edges@, name@) == Some(*child),
            None => s_find(edges@, name@) is None,
        },
{
    let mut i: usize = 0;
    proof {
        assert(edges@.subrange(0, edges@.len() as int) =~= edges@);
    }
    while i < edges.len()
        invariant
            i <= edges@.len(),
            s_find(edges@, name@) == s_find(edges@.subrange(i as int, edges@.len() as int), name@),
        decreases edges@.len() - i,
    {
        let ghost rest = edges@.subrange(i as int, edges@.len() as int);
        if edges[i].name.eq(name) {
            proof {
                assert(rest[0] == edges@[i as int]);
            }
            return Some(&edges[i].node);
        }
        proof {
            assert(rest[0] == edges@[i as int]);
            assert(rest.drop_first() =~= edges@.subrange(i + 1, edges@.len() as int));
        }
        i = i + 1;
    }
    proof {
        assert(edges@.subrange(edges@.len() as int, edges@.len() as int).len() == 0);
    }
    None
}


/// Whether one key is a prefix of another.
pub open spec fn is_key_prefix(a: Seq<Seq<char>>, b: Seq<Seq<char>>) -> bool {
    a.len() <= b.len() && a == b.subrange(0, a.len() as int)
}

/// A lookup with a start offset is the lookup of the key's suffix.
proof fn lemma_get_shift<V>(t: DataTree<V>, key: Seq<Seq<char>>, from: int)
    requires
        0 <= from <= key.len(),
    ensures
        s_get(t, key, from) == s_get(t, key.subrange(from, key.len() as int), 0),
    decreases key.len() - from,
{
    let suffix = key.subrange(from, key.len() as int);
    match t {
        DataTree::Data(_) => {},
        DataTree::Tree(edges) => {
            if from < key.len() {
                assert(suffix[0] == key[from]);
                match s_find(edges@, key[from]) {
                    Some(child) => {
                        lemma_get_shift(child, key, from + 1);
                        assert(key.subrange(from + 1, key.len() as int) =~= suffix.subrange(
                            1,
                            suffix.len() as int,
                        ));
                        lemma_get_shift(child, suffix, 1);
                    },
                    None => {},
                }
            }
        },
    }
}

/// Finding in an edge list with one edge's subtree replaced, where the
/// replaced edge is the first with its name: the replaced name finds the
/// new subtree, every other name finds what it found before.
proof fn lemma_find_update<V>(edges: Seq<Edge<V>>, i: int, e: Edge<V>, n: Seq<char>)
    requires
        0 <= i < edges.len(),
        e.name@ == edges[i].name@,
        forall|j: int| 0 <= j < i ==> (#[trigger] edges[j].name)@ != edges[i].name@,
    ensures
        s_find(edges.update(i, e), n) == (if n == e.name@ {
            Some(e.node)
        } else {
            s_find(edges, n)
        }),
    decreases edges.len(),
{
    if i == 0 {
        assert(edges.update(0, e)[0] == e);
        if n != e.name@ {
            assert(edges.update(0, e).drop_first() =~= edges.drop_first());
        }
    } else {
        assert(edges.update(i, e)[0] == edges[0]);
        assert(edges.update(i, e).drop_first() =~= edges.drop_first().update(i - 1, e));
        assert(forall|j: int|
            0 <= j < i - 1 ==> (#[trigger] edges.drop_first()[j]).name@ == edges[j + 1].name@);
        lemma_find_update(edges.drop_first(), i - 1, e, n);
    }
}

/// Finding in an edge list with one edge appended: a name the list
/// already resolved keeps its result; the appended edge answers only for
/// its own, previously missing, name.
proof fn lemma_find_push<V>(edges: Seq<Edge<V>>, e: Edge<V>, n: Seq<char>)
    ensures
        s_find(edges.push(e), n) == (if s_find(edges, n) is Some {
            s_find(edges, n)
        } else if n == e.name@ {
            Some(e.node)
        } else {
            None::<DataTree<V>>
        }),
    decreases edges.len(),
{
    if edges.len() == 0 {
        assert(edges.push(e)[0] == e);
        assert(s_find(edges, n) is None);
        if n == e.name@ {
            assert(s_find(edges.push(e), n) == Some(e.node));
        } else {
            assert(edges.push(e).drop_first() =~= Seq::<Edge<V>>::empty());
            assert(s_find::<V>(edges.push(e).drop_first(), n) is None);
        }
    } else {
        assert(edges.push(e)[0] == edges[0]);
        assert(edges.push(e).drop_first() =~= edges.drop_first().push(e));
        lemma_find_push(edges.drop_first(), e, n);
    }
}

/// The index of the first edge with the given name, if any.
fn find_edge_index<V>(edges: &Vec<Edge<V>>, name: &String) -> (r: Option<usize>)
    ensures
        match r {
            Some(i) => {
                &&& i < edges@.len()
                &&& edges@[i as int].name@ == name@
                &&& forall|j: int| 0 <= j < i ==> (#[trigger] edges@[j].name)@ != name@
                &&& s_find(edges@, name@) == Some(edges@[i as int].node)
            },
            None => s_find(edges@, name@) is None,
        },
{
    let mut i: usize = 0;
    while i < edges.len()
        invariant
            i <= edges@.len(),
            forall|j: int| 0 <= j < i ==> (#[trigger] edges@[j].name)@ != name@,
        decreases edges@.len() - i,
    {
        if edges[i].name.eq(name) {
            proof {
                lemma_find_first(edges@, i as int, name@);
            }
            return Some(i);
        }
        i = i + 1;
    }
    proof {
        lemma_find_none(edges@, name@);
    }
    None
}

/// The first matching index determines what finding returns.
proof fn lemma_find_first<V>(edges: Seq<Edge<V>>, i: int, n: Seq<char>)
    requires
        0 <= i < edges.len(),
        edges[i].name@ == n,
        forall|j: int| 0 <= j < i ==> (#[trigger] edges[j].name)@ != n,
    ensures
        s_find(edges, n) == Some(edges[i].node),
    decreases i,
{
    if i > 0 {
        assert(edges.drop_first()[i - 1] == edges[i]);
        assert(forall|j: int|
            0 <= j < i - 1 ==> (#[trigger] edges.drop_first()[j]).name@ == edges[j + 1].name@);
        lemma_find_first(edges.drop_first(), i - 1, n);
    }
}

/// A name no edge carries is not found.
proof fn lemma_find_none<V>(edges: Seq<Edge<V>>, n: Seq<char>)
    requires
        forall|j: int| 0 <= j < edges.len() ==> (#[trigger] edges[j].name)@ != n,
    ensures
        s_find(edges, n) is None,
    decreases edges.len(),
{
    if edges.len() > 0 {
        assert(forall|j: int|
            0 <= j < edges.drop_first().len() ==> (#[trigger] edges.drop_first()[j]).name@
                == edges[j + 1].name@);
        lemma_find_none(edges.drop_first(), n);
    }
}

impl<V> DataTree<V> {
    /// Inserts a key-value pair into the tree.
    ///
    /// Afterwards the key `key[from..]` holds the value; every key that
    /// was a strict prefix of it, and every key it is a strict prefix
    /// of, is gone; every other key resolves as it did before.
    pub fn insert(&mut self, key: &Vec<String>, from: usize, value: V)
        requires
            from <= key@.len(),
        ensures
            ({
                let sk = key_values(key@).subrange(from as int, key@.len() as int);
                &&& s_get(*final(self), sk, 0) == Some(value)
                &&& forall|k2: Seq<Seq<char>>|
                    !is_key_prefix(k2, sk) && !is_key_prefix(sk, k2) ==> s_get(
                        *final(self),
                        k2,
                        0,
                    ) == s_get(*old(self), k2, 0)
                &&& forall|k2: Seq<Seq<char>>|
                    is_key_prefix(k2, sk) && k2.len() < sk.len() ==> s_get(*final(self), k2, 0)
                        is None
                &&& forall|k2: Seq<Seq<char>>|
                    is_key_prefix(sk, k2) && k2.len() > sk.len() ==> s_get(*final(self), k2, 0)
                        is None
            }),
        decreases key@.len() - from,
    {
        let ghost sk = key_values(key@).subrange(from as int, key@.len() as int);
        if from >= key.len() {
            // The key ends here: this node becomes the value, whatever
            // stood here before.
            let mut replacement = DataTree::Data(value);
            core::mem::swap(self, &mut replacement);
            proof {
                assert(sk.len() == 0);
                assert(s_get(*self, sk, 0) == Some(value));
                assert forall|k2: Seq<Seq<char>>| true implies is_key_prefix(sk, k2) by {
                    assert(sk =~= k2.subrange(0, 0));
                }
            }
            return ;
        }
        // A value stored at this strict prefix of the key goes away.
        let is_data = match self {
            DataTree::Data(_) => true,
            DataTree::Tree(_) => false,
        };
        if is_data {
            let mut replacement = DataTree::<V>::new();
            core::mem::swap(self, &mut replacement);
        }
        let ghost pre = *self;
        proof {
            assert(key_values(key@)[from as int] == key@[from as int]@);
            assert(sk[0] == key@[from as int]@);
            assert(sk.len() == key@.len() - from);
            // Looking anything up in the tree as it stands now gives what
            // the tree before the data replacement gave, except for the
            // empty key, which both sides treat below.
            assert forall|k2: Seq<Seq<char>>| k2.len() > 0 implies s_get(pre, k2, 0) == s_get(
                *old(self),
                k2,
                0,
            ) by {
                if is_data {
                    assert(s_get(pre, k2, 0) is None);
                    assert(s_get(*old(self), k2, 0) is None);
                }
            }
            assert forall|k2: Seq<Seq<char>>| k2.len() == 0 implies is_key_prefix(k2, sk) by {
                assert(k2 =~= sk.subrange(0, 0));
            }
        }
        match self {
            DataTree::Data(_) => {
                proof {
                    assert(false);
                }
            },
            DataTree::Tree(edges) => {
                let ghost edges0 = edges@;
                let ghost sk1 = key_values(key@).subrange(from + 1, key@.len() as int);
                proof {
                    assert(sk1 =~= sk.subrange(1, sk.len() as int));
                }
                let found = find_edge_index(edges, &key[from]);
                match found {
                    Some(i) => {
                        let slot = &mut edges[i];
                        let mut child = DataTree::<V>::new();
                        core::mem::swap(&mut slot.node, &mut child);
                        let ghost child0 = edges0[i as int].node;
                        child.insert(key, from + 1, value);
                        let ghost newchild = child;
                        let slot = &mut edges[i];
                        slot.node = child;
                        proof {
                            assert(edges@ =~= edges0.update(
                                i as int,
                                Edge { name: edges0[i as int].name, node: newchild },
                            ));
                            lemma_wrap_claims(
                                pre,
                                *self,
                                edges0,
                                child0,
                                newchild,
                                sk,
                                sk1,
                                value,
                            );
                        }
                    },
                    None => {
                        let child = DataTree::<V>::new();
                        let ghost child0 = child;
                        let mut child = child;
                        child.insert(key, from + 1, value);
                        let ghost newchild = child;
                        let name = key[from].clone();
                        edges.push(Edge { name, node: child });
                        proof {
                            let e = edges@.last();
                            assert(edges@ =~= edges0.push(e));
                            assert(e.name@ == sk[0] && e.node == newchild);
                            lemma_wrap_claims_push(
                                pre,
                                *self,
                                edges0,
                                child0,
                                newchild,
                                sk,
                                sk1,
                                value,
                            );
                        }
                    },
                }
            },
        }
    }
}

/// Keys sharing their first component are prefix-related exactly when
/// their tails are.
proof fn lemma_prefix_shift(a: Seq<Seq<char>>, b: Seq<Seq<char>>)
    requires
        a.len() > 0,
        b.len() > 0,
        a[0] == b[0],
    ensures
        is_key_prefix(a, b) == is_key_prefix(
            a.subrange(1, a.len() as int),
            b.subrange(1, b.len() as int),
        ),
{
    let a1 = a.subrange(1, a.len() as int);
    let b1 = b.subrange(1, b.len() as int);
    if a.len() <= b.len() {
        if a1 == b1.subrange(0, a1.len() as int) {
            assert forall|x: int| 0 <= x < a.len() implies a[x] == b.subrange(0, a.len() as int)[x] by {
                if x > 0 {
                    assert(a1[x - 1] == b1.subrange(0, a1.len() as int)[x - 1]);
                }
            }
            assert(a =~= b.subrange(0, a.len() as int));
        }
        if a == b.subrange(0, a.len() as int) {
            assert forall|x: int| 0 <= x < a1.len() implies a1[x] == b1.subrange(
                0,
                a1.len() as int,
            )[x] by {
                assert(a[x + 1] == b.subrange(0, a.len() as int)[x + 1]);
            }
            assert(a1 =~= b1.subrange(0, a1.len() as int));
        }
    }
}

/// The insertion claims carry from the subtree under the key's first
/// component to the whole tree, when that subtree's edge is replaced in
/// place.
proof fn lemma_wrap_claims<V>(
    pre: DataTree<V>,
    post: DataTree<V>,
    edges0: Seq<Edge<V>>,
    child0: DataTree<V>,
    newchild: DataTree<V>,
    sk: Seq<Seq<char>>,
    sk1: Seq<Seq<char>>,
    value: V,
)
    requires
        sk.len() > 0,
        sk1 == sk.subrange(1, sk.len() as int),
        pre matches DataTree::Tree(ev) && ev@ == edges0,
        post matches DataTree::Tree(ev) && ev@.len() == edges0.len(),
        ({
            exists|i: int|
                {
                    &&& 0 <= i < edges0.len()
                    &&& edges0[i].name@ == sk[0]
                    &&& (forall|j: int| 0 <= j < i ==> (#[trigger] edges0[j].name)@ != sk[0])
                    &&& child0 == edges0[i].node
                    &&& post matches DataTree::Tree(ev) && ev@ == edges0.update(
                        i,
                        Edge { name: edges0[i].name, node: newchild },
                    )
                }
        }),
        s_get(newchild, sk1, 0) == Some(value),
        forall|k2: Seq<Seq<char>>|
            !is_key_prefix(k2, sk1) && !is_key_prefix(sk1, k2) ==> s_get(newchild, k2, 0) == s_get(
                child0,
                k2,
                0,
            ),
        forall|k2: Seq<Seq<char>>|
            is_key_prefix(k2, sk1) && k2.len() < sk1.len() ==> s_get(newchild, k2, 0) is None,
        forall|k2: Seq<Seq<char>>|
            is_key_prefix(sk1, k2) && k2.len() > sk1.len() ==> s_get(newchild, k2, 0) is None,
    ensures
        s_get(post, sk, 0) == Some(value),
        forall|k2: Seq<Seq<char>>|
            !is_key_prefix(k2, sk) && !is_key_prefix(sk, k2) ==> s_get(post, k2, 0) == s_get(
                pre,
                k2,
                0,
            ),
        forall|k2: Seq<Seq<char>>|
            is_key_prefix(k2, sk) && k2.len() < sk.len() ==> s_get(post, k2, 0) is None,
        forall|k2: Seq<Seq<char>>|
            is_key_prefix(sk, k2) && k2.len() > sk.len() ==> s_get(post, k2, 0) is None,
{
    let i = choose|i: int|
        {
            &&& 0 <= i < edges0.len()
            &&& edges0[i].name@ == sk[0]
            &&& (forall|j: int| 0 <= j < i ==> (#[trigger] edges0[j].name)@ != sk[0])
            &&& child0 == edges0[i].node
            &&& post matches DataTree::Tree(ev) && ev@ == edges0.update(
                i,
                Edge { name: edges0[i].name, node: newchild },
            )
        };
    let e = Edge { name: edges0[i].name, node: newchild };
    lemma_find_first(edges0, i, sk[0]);
    assert forall|n: Seq<char>| true implies s_find(edges0.update(i, e), n) == (if n == sk[0] {
        Some(newchild)
    } else {
        s_find(edges0, n)
    }) by {
        lemma_find_update(edges0, i, e, n);
    }
    // The inserted key resolves to the value.
    lemma_get_shift(newchild, sk, 1);
    assert(s_get(post, sk, 0) == Some(value));
    // Claims about every other key, by where it departs from sk.
    assert forall|k2: Seq<Seq<char>>|
        !is_key_prefix(k2, sk) && !is_key_prefix(sk, k2) implies s_get(post, k2, 0) == s_get(
        pre,
        k2,
        0,
    ) by {
        if k2.len() > 0 {
            if k2[0] == sk[0] {
                let k21 = k2.subrange(1, k2.len() as int);
                lemma_get_shift(newchild, k2, 1);
                lemma_get_shift(child0, k2, 1);
                lemma_prefix_shift(k2, sk);
                lemma_prefix_shift(sk, k2);
                assert(!is_key_prefix(k21, sk1) && !is_key_prefix(sk1, k21));
                assert(s_get(newchild, k21, 0) == s_get(child0, k21, 0));
            }
        }
    }
    assert forall|k2: Seq<Seq<char>>|
        is_key_prefix(k2, sk) && k2.len() < sk.len() implies s_get(post, k2, 0) is None by {
        if k2.len() > 0 {
            assert(k2[0] == sk[0]);
            let k21 = k2.subrange(1, k2.len() as int);
            lemma_prefix_shift(k2, sk);
            lemma_get_shift(newchild, k2, 1);
            assert(s_get(newchild, k21, 0) is None);
        }
    }
    assert forall|k2: Seq<Seq<char>>|
        is_key_prefix(sk, k2) && k2.len() > sk.len() implies s_get(post, k2, 0) is None by {
        assert(k2[0] == sk[0]);
        let k21 = k2.subrange(1, k2.len() as int);
        lemma_prefix_shift(sk, k2);
        lemma_get_shift(newchild, k2, 1);
        assert(s_get(newchild, k21, 0) is None);
    }
}

/// The insertion claims carry from a freshly built subtree to the whole
/// tree, when its edge is appended under a previously missing name.
proof fn lemma_wrap_claims_push<V>(
    pre: DataTree<V>,
    post: DataTree<V>,
    edges0: Seq<Edge<V>>,
    child0: DataTree<V>,
    newchild: DataTree<V>,
    sk: Seq<Seq<char>>,
    sk1: Seq<Seq<char>>,
    value: V,
)
    requires
        sk.len() > 0,
        sk1 == sk.subrange(1, sk.len() as int),
        pre matches DataTree::Tree(ev) && ev@ == edges0,
        s_find(edges0, sk[0]) is None,
        ({
            exists|e: Edge<V>|
                (#[trigger] e.name)@ == sk[0] && e.node == newchild && (post
                    matches DataTree::Tree(ev) && ev@ == edges0.push(e))
        }),
        forall|k2: Seq<Seq<char>>| s_get(child0, k2, 0) is None,
        s_get(newchild, sk1, 0) == Some(value),
        forall|k2: Seq<Seq<char>>|
            is_key_prefix(k2, sk1) && k2.len() < sk1.len() ==> s_get(newchild, k2, 0) is None,
        forall|k2: Seq<Seq<char>>|
            is_key_prefix(sk1, k2) && k2.len() > sk1.len() ==> s_get(newchild, k2, 0) is None,
        forall|k2: Seq<Seq<char>>|
            !is_key_prefix(k2, sk1) && !is_key_prefix(sk1, k2) ==> s_get(newchild, k2, 0) == s_get(
                child0,
                k2,
                0,
            ),
    ensures
        s_get(post, sk, 0) == Some(value),
        forall|k2: Seq<Seq<char>>|
            !is_key_prefix(k2, sk) && !is_key_prefix(sk, k2) ==> s_get(post, k2, 0) == s_get(
                pre,
                k2,
                0,
            ),
        forall|k2: Seq<Seq<char>>|
            is_key_prefix(k2, sk) && k2.len() < sk.len() ==> s_get(post, k2, 0) is None,
        forall|k2: Seq<Seq<char>>|
            is_key_prefix(sk, k2) && k2.len() > sk.len() ==> s_get(post, k2, 0) is None,
{
    let e = choose|e: Edge<V>|
        (#[trigger] e.name)@ == sk[0] && e.node == newchild && (post matches DataTree::Tree(ev)
            && ev@ == edges0.push(e));
    assert forall|n: Seq<char>| true implies s_find(edges0.push(e), n) == (if n == sk[0] {
        Some(newchild)
    } else {
        s_find(edges0, n)
    }) by {
        lemma_find_push(edges0, e, n);
        if n == sk[0] {
            assert(s_find(edges0, n) is None);
        }
    }
    lemma_get_shift(newchild, sk, 1);
    assert(s_get(post, sk, 0) == Some(value));
    assert forall|k2: Seq<Seq<char>>|
        !is_key_prefix(k2, sk) && !is_key_prefix(sk, k2) implies s_get(post, k2, 0) == s_get(
        pre,
        k2,
        0,
    ) by {
        if k2.len() > 0 {
            if k2[0] == sk[0] {
                let k21 = k2.subrange(1, k2.len() as int);
                lemma_get_shift(newchild, k2, 1);
                lemma_prefix_shift(k2, sk);
                lemma_prefix_shift(sk, k2);
                assert(!is_key_prefix(k21, sk1) && !is_key_prefix(sk1, k21));
                assert(s_get(newchild, k21, 0) == s_get(child0, k21, 0));
                assert(s_get(post, k2, 0) is None);
                assert(s_get(pre, k2, 0) is None);
            }
        }
    }
    assert forall|k2: Seq<Seq<char>>|
        is_key_prefix(k2, sk) && k2.len() < sk.len() implies s_get(post, k2, 0) is None by {
        if k2.len() > 0 {
            assert(k2[0] == sk[0]);
            let k21 = k2.subrange(1, k2.len() as int);
            lemma_prefix_shift(k2, sk);
            lemma_get_shift(newchild, k2, 1);
            assert(s_get(newchild, k21, 0) is None);
        }
    }
    assert forall|k2: Seq<Seq<char>>|
        is_key_prefix(sk, k2) && k2.len() > sk.len() implies s_get(post, k2, 0) is None by {
        assert(k2[0] == sk[0]);
        let k21 = k2.subrange(1, k2.len() as int);
        lemma_prefix_shift(sk, k2);
        lemma_get_shift(newchild, k2, 1);
        assert(s_get(newchild, k21, 0) is None);
    }
}


impl<V> DataTree<V> {
    /// Removes the value stored at `key[from..]` or at one of its
    /// prefixes, returning it.
    ///
    /// The value returned is exactly what a prefix lookup would have
    /// found.  When a value was removed, no prefix of the key holds one
    /// any more; when none was found, every key resolves as it did
    /// before.  Keys unrelated to the given one are untouched either
    /// way.
    pub fn remove(&mut self, key: &Vec<String>, from: usize) -> (r: Option<V>)
        ensures
            r == s_prefix_get(*old(self), key_values(key@), from as int),
            ({
                let sk = key_values(key@).subrange(from as int, key@.len() as int);
                &&& forall|k2: Seq<Seq<char>>|
                    !is_key_prefix(k2, sk) && !is_key_prefix(sk, k2) ==> s_get(
                        *final(self),
                        k2,
                        0,
                    ) == s_get(*old(self), k2, 0)
                &&& r is Some ==> forall|k2: Seq<Seq<char>>|
                    is_key_prefix(k2, sk) ==> s_get(*final(self), k2, 0) is None
                &&& r is None ==> forall|k2: Seq<Seq<char>>|
                    s_get(*final(self), k2, 0) == s_get(*old(self), k2, 0)
            }),
        decreases key@.len() - from,
    {
        let ghost kv = key_values(key@);
        let ghost sk = kv.subrange(from as int, key@.len() as int);
        let is_data = match self {
            DataTree::Data(_) => true,
            DataTree::Tree(_) => false,
        };
        if is_data {
            let mut replacement = DataTree::<V>::new();
            core::mem::swap(self, &mut replacement);
            proof {
                assert forall|k2: Seq<Seq<char>>| true implies s_get(*self, k2, 0) is None by {}
                assert forall|k2: Seq<Seq<char>>|
                    !is_key_prefix(k2, sk) && !is_key_prefix(sk, k2) implies s_get(*self, k2, 0)
                    == s_get(*old(self), k2, 0) by {
                    if k2.len() == 0 {
                        assert(k2 =~= sk.subrange(0, 0));
                        assert(is_key_prefix(k2, sk));
                    }
                }
            }
            return match replacement {
                DataTree::Data(v) => Some(v),
                DataTree::Tree(_) => None,
            };
        }
        let ghost pre = *self;
        match self {
            DataTree::Data(_) => {
                proof {
                    assert(false);
                }
                None
            },
            DataTree::Tree(edges) => {
                if from >= key.len() {
                    return None;
                }
                let ghost edges0 = edges@;
                let ghost sk1 = kv.subrange(from + 1, key@.len() as int);
                proof {
                    assert(kv[from as int] == key@[from as int]@);
                    assert(sk[0] == kv[from as int]);
                    assert(sk1 =~= sk.subrange(1, sk.len() as int));
                }
                let found = find_edge_index(edges, &key[from]);
                match found {
                    Some(i) => {
                        let slot = &mut edges[i];
                        let mut child = DataTree::<V>::new();
                        core::mem::swap(&mut slot.node, &mut child);
                        let ghost child0 = edges0[i as int].node;
                        let data = child.remove(key, from + 1);
                        let ghost newchild = child;
                        let slot = &mut edges[i];
                        slot.node = child;
                        proof {
                            assert(edges@ =~= edges0.update(
                                i as int,
                                Edge { name: edges0[i as int].name, node: newchild },
                            ));
                            lemma_remove_wrap(
                                pre,
                                *self,
                                edges0,
                                i as int,
                                child0,
                                newchild,
                                kv,
                                from as int,
                                sk,
                                sk1,
                                data,
                            );
                        }
                        data
                    },
                    None => None,
                }
            },
        }
    }
}

/// The removal claims carry from the subtree under the key's first
/// component to the whole tree.
proof fn lemma_remove_wrap<V>(
    pre: DataTree<V>,
    post: DataTree<V>,
    edges0: Seq<Edge<V>>,
    i: int,
    child0: DataTree<V>,
    newchild: DataTree<V>,
    kv: Seq<Seq<char>>,
    from: int,
    sk: Seq<Seq<char>>,
    sk1: Seq<Seq<char>>,
    data: Option<V>,
)
    requires
        0 <= from < kv.len(),
        sk == kv.subrange(from, kv.len() as int),
        sk1 == sk.subrange(1, sk.len() as int),
        sk1 == kv.subrange(from + 1, kv.len() as int),
        sk[0] == kv[from],
        pre matches DataTree::Tree(ev) && ev@ == edges0,
        0 <= i < edges0.len(),
        edges0[i].name@ == sk[0],
        forall|j: int| 0 <= j < i ==> (#[trigger] edges0[j].name)@ != sk[0],
        child0 == edges0[i].node,
        post matches DataTree::Tree(ev) && ev@ == edges0.update(
            i,
            Edge { name: edges0[i].name, node: newchild },
        ),
        data == s_prefix_get(child0, kv, from + 1),
        forall|k2: Seq<Seq<char>>|
            !is_key_prefix(k2, sk1) && !is_key_prefix(sk1, k2) ==> s_get(newchild, k2, 0) == s_get(
                child0,
                k2,
                0,
            ),
        data is Some ==> forall|k2: Seq<Seq<char>>|
            is_key_prefix(k2, sk1) ==> s_get(newchild, k2, 0) is None,
        data is None ==> forall|k2: Seq<Seq<char>>|
            s_get(newchild, k2, 0) == s_get(child0, k2, 0),
    ensures
        data == s_prefix_get(pre, kv, from),
        forall|k2: Seq<Seq<char>>|
            !is_key_prefix(k2, sk) && !is_key_prefix(sk, k2) ==> s_get(post, k2, 0) == s_get(
                pre,
                k2,
                0,
            ),
        data is Some ==> forall|k2: Seq<Seq<char>>|
            is_key_prefix(k2, sk) ==> s_get(post, k2, 0) is None,
        data is None ==> forall|k2: Seq<Seq<char>>|
            s_get(post, k2, 0) == s_get(pre, k2, 0),
{
    let e = Edge { name: edges0[i].name, node: newchild };
    lemma_find_first(edges0, i, sk[0]);
    assert(s_prefix_get(pre, kv, from) == s_prefix_get(child0, kv, from + 1));
    assert forall|n: Seq<char>| true implies s_find(edges0.update(i, e), n) == (if n == sk[0] {
        Some(newchild)
    } else {
        s_find(edges0, n)
    }) by {
        lemma_find_update(edges0, i, e, n);
    }
    assert forall|k2: Seq<Seq<char>>|
        !is_key_prefix(k2, sk) && !is_key_prefix(sk, k2) implies s_get(post, k2, 0) == s_get(
        pre,
        k2,
        0,
    ) by {
        if k2.len() > 0 && k2[0] == sk[0] {
            let k21 = k2.subrange(1, k2.len() as int);
            lemma_get_shift(newchild, k2, 1);
            lemma_get_shift(child0, k2, 1);
            lemma_prefix_shift(k2, sk);
            lemma_prefix_shift(sk, k2);
            assert(!is_key_prefix(k21, sk1) && !is_key_prefix(sk1, k21));
            assert(s_get(newchild, k21, 0) == s_get(child0, k21, 0));
        }
    }
    if data is Some {
        assert forall|k2: Seq<Seq<char>>| is_key_prefix(k2, sk) implies s_get(post, k2, 0)
            is None by {
            if k2.len() > 0 {
                assert(k2[0] == sk[0]);
                let k21 = k2.subrange(1, k2.len() as int);
                lemma_prefix_shift(k2, sk);
                assert(is_key_prefix(k21, sk1));
                lemma_get_shift(newchild, k2, 1);
                assert(s_get(newchild, k21, 0) is None);
            }
        }
    }
    if data is None {
        assert forall|k2: Seq<Seq<char>>| true implies s_get(post, k2, 0) == s_get(pre, k2, 0) by {
            if k2.len() > 0 && k2[0] == sk[0] {
                let k21 = k2.subrange(1, k2.len() as int);
                lemma_get_shift(newchild, k2, 1);
                lemma_get_shift(child0, k2, 1);
                assert(s_get(newchild, k21, 0) == s_get(child0, k21, 0));
            }
        }
    }
}

} // verus!
