use vstd::prelude::*;

verus! {

broadcast use vstd::seq_lib::lemma_seq_contains_after_push;

/// A model of a simple undirected graph: for each node, the set of its
/// neighbours. Every neighbour is a node, no node is its own neighbour, and
/// adjacency is symmetric.
pub open spec fn simple_graph(m: Seq<Set<usize>>) -> bool {
    forall|a: int, b: usize|
        0 <= a < m.len() && #[trigger] m[a].contains(b) ==> b < m.len() && b as int != a
            && m[b as int].contains(a as usize)
}

proof fn lemma_push_unique(s: Seq<usize>, x: usize)
    requires
        s.no_duplicates(),
        !s.contains(x),
    ensures
        s.push(x).no_duplicates(),
{
    assert forall|i: int, j: int|
        0 <= i < s.len() + 1 && 0 <= j < s.len() + 1 && i != j implies s.push(x)[i] != s.push(x)[j] by {
        if i == s.len() {
            assert(s[j] == s.push(x)[j]);
        } else if j == s.len() {
            assert(s[i] == s.push(x)[i]);
        }
    }
}

/// An undirected graph without self-loops or repeated edges on the nodes
/// `0..n`, stored as one adjacency list per node.
pub struct Graph {
    adjacency: Vec<Vec<usize>>,
}

impl View for Graph {
    type V = Seq<Set<usize>>;

    closed spec fn view(&self) -> Seq<Set<usize>> {
        Seq::new(self.adjacency@.len(), |i: int| self.adjacency@[i]@.to_set())
    }
}

impl Graph {
    /// The representation invariant: each adjacency list holds every
    /// neighbour once, and the model is a simple graph.
    pub closed spec fn wf(&self) -> bool {
        &&& forall|a: int|
            0 <= a < self.adjacency@.len() ==> #[trigger] self.adjacency@[a]@.no_duplicates()
        &&& simple_graph(self@)
    }

    pub open spec fn adjacent(&self, a: usize, b: usize) -> bool {
        (a as int) < self@.len() && self@[a as int].contains(b)
    }

    /// The graph on `n` nodes with no edges.
    pub fn new(n: usize) -> (g: Graph)
        ensures
            g.wf(),
            simple_graph(g@),
            g@.len() == n,
            forall|a: int| 0 <= a < n ==> #[trigger] g@[a] == Set::<usize>::empty(),
    {
        let mut adjacency: Vec<Vec<usize>> = Vec::new();
        let mut i: usize = 0;
        while i < n
            invariant
                i <= n,
                adjacency@.len() == i,
                forall|a: int| 0 <= a < i ==> #[trigger] adjacency@[a]@ == Seq::<usize>::empty(),
            decreases n - i,
        {
            adjacency.push(Vec::new());
            i = i + 1;
        }
        let g = Graph { adjacency };
        assert forall|a: int| 0 <= a < n implies #[trigger] g@[a] == Set::<usize>::empty() by {
            assert(g@[a] =~= Set::<usize>::empty());
        }
        g
    }

    pub fn node_count(&self) -> (r: usize)
        ensures
            r == self@.len(),
    {
        self.adjacency.len()
    }

    /// Whether `a` and `b` are adjacent; false where either is not a node.
    pub fn has_edge(&self, a: usize, b: usize) -> (r: bool)
        requires
            self.wf(),
        ensures
            r == self.adjacent(a, b),
    {
        if a >= self.adjacency.len() {
            return false;
        }
        let list = &self.adjacency[a];
        let mut t: usize = 0;
        while t < list.len()
            invariant
                t <= list@.len(),
                a < self.adjacency@.len(),
                list@ == self.adjacency@[a as int]@,
                forall|s: int| 0 <= s < t ==> list@[s] != b,
            decreases list@.len() - t,
        {
            if list[t] == b {
                return true;
            }
            t = t + 1;
        }
        false
    }

    /// The neighbours of `v`, each once.
    pub fn neighbors(&self, v: usize) -> (r: &Vec<usize>)
        requires
            self.wf(),
            v < self@.len(),
        ensures
            r@.to_set() == self@[v as int],
            r@.no_duplicates(),
    {
        &self.adjacency[v]
    }

    /// The number of neighbours of `v`.
    pub fn degree(&self, v: usize) -> (r: usize)
        requires
            self.wf(),
            v < self@.len(),
        ensures
            r == self@[v as int].len(),
    {
        let list = self.neighbors(v);
        proof {
            list@.unique_seq_to_set();
        }
        list.len()
    }

    /// Joins `a` and `b`. A self-loop or an edge that is already present is
    /// refused and leaves the graph unchanged; the result tells whether the
    /// edge was added.
    pub fn add_edge(&mut self, a: usize, b: usize) -> (added: bool)
        requires
            old(self).wf(),
            a < old(self)@.len(),
            b < old(self)@.len(),
        ensures
            final(self).wf(),
            simple_graph(final(self)@),
            added == (a != b && !old(self)@[a as int].contains(b)),
            final(self)@ == (if added {
                old(self)@.update(a as int, old(self)@[a as int].insert(b)).update(
                    b as int,
                    old(self)@[b as int].insert(a),
                )
            } else {
                old(self)@
            }),
    {
        if a == b || self.has_edge(a, b) {
            return false;
        }
        let ghost m0 = self@;
        let ghost l0 = self.adjacency@;
        self.adjacency[a].push(b);
        self.adjacency[b].push(a);
        let ghost m1 = m0.update(a as int, m0[a as int].insert(b)).update(
            b as int,
            m0[b as int].insert(a),
        );
        assert(self.adjacency@.len() == l0.len());
        assert(self.adjacency@[a as int]@ == l0[a as int]@.push(b));
        assert(self.adjacency@[b as int]@ == l0[b as int]@.push(a));
        assert forall|v: int| 0 <= v < l0.len() && v != a && v != b implies #[trigger]
            self.adjacency@[v]@ == l0[v]@ by {}
        assert(self@ =~= m1) by {
            assert(self@[a as int] =~= m1[a as int]);
            assert(self@[b as int] =~= m1[b as int]);
            assert forall|v: int| 0 <= v < l0.len() implies #[trigger] self@[v] == m1[v] by {
                if v != a && v != b {
                    assert(self@[v] =~= m1[v]);
                }
            }
        }
        assert forall|v: int|
            0 <= v < self.adjacency@.len() implies #[trigger] self.adjacency@[v]@.no_duplicates() by {
            if v == a {
                assert(!l0[a as int]@.contains(b));
                assert(l0[a as int]@.no_duplicates());
                lemma_push_unique(l0[a as int]@, b);
            } else if v == b {
                assert(!m0[b as int].contains(a));
                assert(!l0[b as int]@.contains(a));
                assert(l0[b as int]@.no_duplicates());
                lemma_push_unique(l0[b as int]@, a);
            } else {
                assert(l0[v]@.no_duplicates());
            }
        }
        true
    }

    /// Every edge once, as a pair `(a, b)` with `a < b`.
    pub fn edges(&self) -> (r: Vec<(usize, usize)>)
        requires
            self.wf(),
        ensures
            r@.no_duplicates(),
            forall|k: int| 0 <= k < r@.len() ==> #[trigger] r@[k].0 < r@[k].1 && self.adjacent(r@[k].0, r@[k].1),
            forall|a: usize, b: usize|
                a < b && #[trigger] self.adjacent(a, b) ==> r@.contains((a, b)),
    {
        let mut r: Vec<(usize, usize)> = Vec::new();
        let n = self.adjacency.len();
        let mut a: usize = 0;
        while a < n
            invariant
                self.wf(),
                n == self.adjacency@.len(),
                a <= n,
                r@.no_duplicates(),
                forall|k: int| 0 <= k < r@.len() ==> #[trigger] r@[k].0 < r@[k].1 && r@[k].0 < a && self.adjacent(r@[k].0, r@[k].1),
                forall|x: usize, y: usize|
                    x < y && x < a && #[trigger] self.adjacent(x, y) ==> r@.contains((x, y)),
            decreases n - a,
        {
            let list = &self.adjacency[a];
            let mut t: usize = 0;
            while t < list.len()
                invariant
                    self.wf(),
                    n == self.adjacency@.len(),
                    a < n,
                    list@ == self.adjacency@[a as int]@,
                    t <= list@.len(),
                    r@.no_duplicates(),
                    forall|k: int| 0 <= k < r@.len() ==> #[trigger] r@[k].0 < r@[k].1 && r@[k].0 <= a && self.adjacent(r@[k].0, r@[k].1),
                    forall|k: int| 0 <= k < r@.len() && #[trigger] r@[k].0 == a ==> list@.subrange(0, t as int).contains(r@[k].1),
                    forall|x: usize, y: usize|
                        x < y && x < a && #[trigger] self.adjacent(x, y) ==> r@.contains((x, y)),
                    forall|s: int| 0 <= s < t && a < list@[s] ==> #[trigger] r@.contains((a, list@[s])),
                decreases list@.len() - t,
            {
                let u = list[t];
                assert(self@[a as int].contains(u));
                if a < u {
                    assert(!r@.contains((a, u))) by {
                        if r@.contains((a, u)) {
                            let k = choose|k: int| 0 <= k < r@.len() && r@[k] == (a, u);
                            assert(r@[k].0 == a);
                            let s = choose|s: int| 0 <= s < t && list@.subrange(0, t as int)[s] == u;
                            assert(list@[s] == list@[t as int]);
                            assert(self.adjacency@[a as int]@.no_duplicates());
                        }
                    }
                    r.push((a, u));
                }
                proof {
                    assert forall|k: int| 0 <= k < r@.len() && #[trigger] r@[k].0 == a implies list@.subrange(0, t + 1).contains(r@[k].1) by {
                        if k < r@.len() - 1 || !(a < u) {
                            let s = choose|s: int| 0 <= s < t && list@.subrange(0, t as int)[s] == r@[k].1;
                            assert(list@.subrange(0, t + 1)[s] == r@[k].1);
                        } else {
                            assert(list@.subrange(0, t + 1)[t as int] == u);
                        }
                    }
                }
                t = t + 1;
            }
            proof {
                assert forall|x: usize, y: usize|
                    x < y && x < a + 1 && #[trigger] self.adjacent(x, y) implies r@.contains((x, y)) by {
                    if x == a {
                        assert(list@.contains(y));
                        let s = choose|s: int| 0 <= s < list@.len() && list@[s] == y;
                    }
                }
            }
            a = a + 1;
        }
        r
    }
}

} // verus!
