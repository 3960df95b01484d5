//! The graph store and the tree renderer.
//!
//! A `Graph<T>` owns a sequence of nodes (dense ids, assigned in insertion
//! order), a forward adjacency list per node, and an optional cached list of
//! source nodes (nodes with no incoming edge).  The renderer walks the
//! adjacency from the sources and emits one line per node, prefixed with the
//! classic box-drawing connectors.

use vstd::prelude::*;

use crate::style::paint_blue;
use crate::style::paint_cyan;
use crate::style::styled_as;

verus! {

/// A generic content holder: a dense id, a logical name used for edge
/// construction, a display label, and an opaque caller-supplied payload.
pub struct Node<T> {
    pub id: usize,
    pub name: String,
    pub label: String,
    pub content: T,
}

impl<T> Node<T> {
    pub fn new(id: usize, name: &str, label: &str, content: T) -> (n: Node<T>)
        ensures
            n.id == id,
            n.name@ == name@,
            n.label@ == label@,
            n.content == content,
    {
        Node { id, name: name.to_owned(), label: label.to_owned(), content }
    }
}

/// The one error of the store: an edge endpoint name that is not present.
#[derive(Debug)]
pub struct GraphError {
    details: String,
}

impl View for GraphError {
    type V = Seq<char>;

    closed spec fn view(&self) -> Seq<char> {
        self.details@
    }
}

impl GraphError {
    pub fn new(msg: String) -> (e: GraphError)
        ensures
            e@ == msg@,
    {
        GraphError { details: msg }
    }

    /// The human-readable message carried by the error.
    pub fn message(&self) -> (m: &str)
        ensures
            m@ == self@,
    {
        self.details.as_str()
    }
}

/// Implemented by callers that know how to assemble a graph of their own data.
pub trait GraphBuilder<T> {
    fn build_graph(&self) -> Graph<T>;
}

/// A directed graph with dense node ids.  `next_nodes[i]` lists, in insertion
/// order, the ids that node `i` points to; `sources` caches the ids with no
/// incoming edge once `find_sources` has computed them.
pub struct Graph<T> {
    pub sources: Option<Vec<usize>>,
    pub nodes: Vec<Node<T>>,
    pub next_nodes: Vec<Vec<usize>>,
}

impl<T> Graph<T> {
    /// The adjacency relation as a sequence of id sequences.
    pub open spec fn adj(&self) -> Seq<Seq<usize>> {
        self.next_nodes@.map_values(|v: Vec<usize>| v@)
    }

    /// The node labels, by id.
    pub open spec fn labels(&self) -> Seq<Seq<char>> {
        self.nodes@.map_values(|n: Node<T>| n.label@)
    }

    /// The node names, by id.
    pub open spec fn names(&self) -> Seq<Seq<char>> {
        self.nodes@.map_values(|n: Node<T>| n.name@)
    }

    /// The cached source list, as a sequence.
    pub open spec fn srcs(&self) -> Option<Seq<usize>> {
        match self.sources {
            Some(v) => Some(v@),
            None => None,
        }
    }

    /// Well-formedness: one adjacency list per node, ids equal to positions,
    /// and every id stored in an adjacency list or in the source cache is a
    /// valid node id.
    pub open spec fn wf(&self) -> bool {
        &&& self.next_nodes@.len() == self.nodes@.len()
        &&& forall|i: int|
            0 <= i < self.nodes@.len() ==> (#[trigger] self.nodes@[i]).id == i
        &&& forall|i: int, j: int|
            0 <= i < self.adj().len() && 0 <= j < self.adj()[i].len() ==> (#[trigger] self.adj()[i][j]) < self.nodes@.len()
        &&& match self.sources {
            Some(v) => forall|k: int| 0 <= k < v@.len() ==> (#[trigger] v@[k]) < self.nodes@.len(),
            None => true,
        }
    }

    /// The id the given name resolves to: the most recently inserted node
    /// with that name (a duplicate name shadows earlier ones).
    pub open spec fn resolve_spec(&self, name: Seq<char>) -> Option<usize> {
        last_index_of(self.names(), name)
    }

    pub fn new() -> (g: Graph<T>)
        ensures
            g.wf(),
            g.sources is None,
            g.nodes@.len() == 0,
            g.next_nodes@.len() == 0,
    {
        Graph { sources: None, nodes: Vec::new(), next_nodes: Vec::new() }
    }

    /// Appends a new node, assigns it the next dense id, and gives it an
    /// empty adjacency list.  The returned id equals the number of nodes
    /// inserted before this one.
    pub fn add_node(&mut self, name: &str, label: &str, content: T) -> (id: usize)
        requires
            old(self).wf(),
            old(self).nodes@.len() < usize::MAX,
        ensures
            final(self).wf(),
            id == old(self).nodes@.len(),
            final(self).nodes@.len() == old(self).nodes@.len() + 1,
            final(self).nodes@.drop_last() == old(self).nodes@,
            final(self).nodes@.last().id == id,
            final(self).nodes@.last().name@ == name@,
            final(self).nodes@.last().label@ == label@,
            final(self).nodes@.last().content == content,
            final(self).adj() == old(self).adj().push(Seq::<usize>::empty()),
            final(self).labels() == old(self).labels().push(label@),
            final(self).names() == old(self).names().push(name@),
            final(self).sources == old(self).sources,
    {
        let new_id = self.nodes.len();
        let node: Node<T> = Node::new(new_id, name, label, content);
        self.nodes.push(node);
        self.next_nodes.push(Vec::new());
        proof {
            assert(self.nodes@.drop_last() =~= old(self).nodes@);
            assert(self.adj() =~= old(self).adj().push(Seq::<usize>::empty()));
            assert(self.labels() =~= old(self).labels().push(label@));
            assert(self.names() =~= old(self).names().push(name@));
        }
        new_id
    }

    /// Resolves a name to an id, scanning from the most recent node down.
    pub fn resolve(&self, name: &str) -> (r: Option<usize>)
        ensures
            r == self.resolve_spec(name@),
            r matches Some(id) ==> id < self.nodes@.len(),
    {
        let name_owned = name.to_owned();
        let mut i: usize = self.nodes.len();
        proof {
            assert(self.names().take(i as int) =~= self.names());
        }
        while i > 0
            invariant
                i <= self.nodes@.len(),
                name_owned@ == name@,
                last_index_of(self.names(), name_owned@) == last_index_of(
                    self.names().take(i as int),
                    name_owned@,
                ),
            decreases i,
        {
            i = i - 1;
            proof {
                assert(self.names().take(i + 1).drop_last() =~= self.names().take(i as int));
                assert(self.names().take(i + 1).last() == self.nodes@[i as int].name@);
            }
            if self.nodes[i].name == name_owned {
                proof {
                    let t = self.names().take(i + 1);
                    assert(t.last() == name_owned@);
                    assert(last_index_of(t, name_owned@) == Some(i));
                }
                return Some(i);
            }
        }
        proof {
            assert(self.names().take(0) =~= Seq::<Seq<char>>::empty());
        }
        None
    }

    /// Resolves both names and, on success, appends `name2`'s id to
    /// `name1`'s adjacency list (parallel edges are allowed).  Fails, and
    /// leaves the graph unchanged, exactly when either name is absent; the
    /// error message names the side that failed.
    pub fn add_edge_byname(&mut self, name1: &str, name2: &str) -> (r: Result<(), GraphError>)
        requires
            old(self).wf(),
        ensures
            final(self).wf(),
            final(self).nodes == old(self).nodes,
            final(self).sources == old(self).sources,
            r is Ok <==> (old(self).resolve_spec(name1@) is Some && old(self).resolve_spec(
                name2@,
            ) is Some),
            r is Ok ==> final(self).adj() == old(self).adj().update(
                old(self).resolve_spec(name1@)->Some_0 as int,
                old(self).adj()[old(self).resolve_spec(name1@)->Some_0 as int].push(
                    old(self).resolve_spec(name2@)->Some_0,
                ),
            ),
            r is Err ==> final(self).next_nodes == old(self).next_nodes,
            r matches Err(e) ==> e@ == (if old(self).resolve_spec(name1@) is None {
                name1@ + edge_err_suffix_from()
            } else {
                name2@ + edge_err_suffix_to()
            }),
    {
        match self.resolve(name1) {
            None => {
                let mut m = name1.to_owned();
                m.append(" not in graph. Cannot add edge.");
                Err(GraphError::new(m))
            },
            Some(id1) => {
                match self.resolve(name2) {
                    None => {
                        let mut m = name2.to_owned();
                        m.append(" not in graph. Cannot add edge");
                        Err(GraphError::new(m))
                    },
                    Some(id2) => {
                        self.next_nodes[id1].push(id2);
                        proof {
                            assert(self.adj() =~~= old(self).adj().update(
                                id1 as int,
                                old(self).adj()[id1 as int].push(id2),
                            ));
                        }
                        Ok(())
                    },
                }
            },
        }
    }

    fn is_target(&self, id: usize) -> (r: bool)
        ensures
            r == is_target_of(self.adj(), id),
    {
        let mut j: usize = 0;
        let mut found = false;
        while j < self.next_nodes.len()
            invariant
                j <= self.next_nodes@.len(),
                self.adj().len() == self.next_nodes@.len(),
                found == exists|jj: int|
                    0 <= jj < j && (#[trigger] self.adj()[jj]).contains(id),
            decreases self.next_nodes@.len() - j,
        {
            let ghost found_before = found;
            let c = vec_contains(&self.next_nodes[j], id);
            if c {
                found = true;
            }
            proof {
                let a = self.adj();
                assert(a[j as int] == self.next_nodes@[j as int]@);
                if c {
                    assert(0 <= j < j + 1 && a[j as int].contains(id));
                } else if found_before {
                    let jj = choose|jj: int| 0 <= jj < j && (#[trigger] a[jj]).contains(id);
                    assert(0 <= jj < j + 1 && a[jj].contains(id));
                }
            }
            j = j + 1;
        }
        found
    }

    /// Recomputes the cached source list: every node id that appears in no
    /// adjacency list, in increasing id order.  The structure of the graph
    /// is left untouched, so recomputing without an intervening structural
    /// change yields the same list again.
    pub fn find_sources(&mut self)
        requires
            old(self).wf(),
        ensures
            final(self).wf(),
            final(self).nodes == old(self).nodes,
            final(self).next_nodes == old(self).next_nodes,
            final(self).srcs() == Some(
                sources_upto(old(self).adj(), old(self).nodes@.len() as nat),
            ),
            forall|id: usize|
                #[trigger] final(self).srcs()->Some_0.contains(id) <==> (id < old(
                    self,
                ).nodes@.len() && !is_target_of(old(self).adj(), id)),
    {
        let ghost g0 = *self;
        let n = self.nodes.len();
        let mut sources: Vec<usize> = Vec::new();
        let mut id: usize = 0;
        while id < n
            invariant
                id <= n,
                *self == g0,
                n == self.nodes@.len(),
                sources@ == sources_upto(self.adj(), id as nat),
            decreases n - id,
        {
            if !self.is_target(id) {
                sources.push(id);
            }
            proof {
                assert(sources@ =~= sources_upto(self.adj(), (id + 1) as nat));
            }
            id = id + 1;
        }
        self.sources = Some(sources);
        proof {
            assert forall|idq: usize|
                #[trigger] self.srcs()->Some_0.contains(idq) <==> (idq < g0.nodes@.len()
                    && !is_target_of(g0.adj(), idq)) by {
                lemma_sources_upto_contains(g0.adj(), g0.nodes@.len() as nat, idq);
            }
            lemma_sources_upto_bound(g0.adj(), g0.nodes@.len() as nat);
        }
    }

    /// Valid only once `find_sources` has computed a source list: inserts a
    /// new node whose adjacency list is the prior source list in the same
    /// order, and replaces the source list with that single new id, turning
    /// an N-source forest into a single-root tree.
    pub fn add_root(&mut self, root_name: &str, content: T) -> (root_id: usize)
        requires
            old(self).wf(),
            old(self).sources is Some,
            old(self).nodes@.len() < usize::MAX,
        ensures
            final(self).wf(),
            root_id == old(self).nodes@.len(),
            final(self).nodes@.len() == old(self).nodes@.len() + 1,
            final(self).nodes@.drop_last() == old(self).nodes@,
            final(self).nodes@.last().id == root_id,
            final(self).nodes@.last().name@ == root_name@,
            final(self).nodes@.last().label@ == root_name@,
            final(self).labels() == old(self).labels().push(root_name@),
            final(self).adj() == old(self).adj().push(old(self).srcs()->Some_0),
            final(self).srcs() == Some(seq![root_id]),
    {
        let root_id = self.add_node(root_name, root_name, content);
        let ghost mid = *self;
        let srcs_copy = match &self.sources {
            Some(v) => copy_ids(v),
            None => Vec::new(),
        };
        self.next_nodes[root_id] = srcs_copy;
        let mut single: Vec<usize> = Vec::new();
        single.push(root_id);
        self.sources = Some(single);
        proof {
            let a0 = old(self).adj();
            let s0 = old(self).srcs()->Some_0;
            assert(self.adj().len() == a0.len() + 1);
            assert(self.adj()[root_id as int] == srcs_copy@);
            assert(self.next_nodes@ == mid.next_nodes@.update(root_id as int, srcs_copy));
            assert forall|i: int| 0 <= i < a0.len() implies self.adj()[i] == a0[i] by {
                assert(self.next_nodes@[i] == mid.next_nodes@[i]);
                assert(mid.adj()[i] == mid.next_nodes@[i]@);
                assert(mid.adj()[i] == a0[i]);
                assert(self.adj()[i] == self.next_nodes@[i]@);
            }
            assert(self.adj() =~= a0.push(s0));
            assert(self.srcs()->Some_0 =~= seq![root_id]);
            assert(self.nodes@.drop_last() == old(self).nodes@);
        }
        root_id
    }

    /// The node name for a valid id.
    pub fn to_name(&self, id: usize) -> (r: &str)
        requires
            id < self.nodes@.len(),
        ensures
            r@ == self.nodes@[id as int].name@,
    {
        self.nodes[id].name.as_str()
    }

    /// Appends to `out` the subtree rooted at `id`: the display prefix, the
    /// node's label and a line break, then every child with its connector
    /// (`├── ` for all but the last child, `└── ` for the last) appended to
    /// the continuation prefix.  Recursion depth is bounded by `fuel`; for an
    /// acyclic graph a fuel of the node count is never exhausted, while a
    /// cyclic adjacency is cut off instead of recursing forever.  An unknown
    /// id appends nothing.
    pub fn recursive_write(&self, out: &mut String, id: usize, prefix: &str, prefix_node: &str, fuel: usize)
        requires
            self.wf(),
        ensures
            final(out)@ == old(out)@ + render_node(
                self.labels(),
                self.adj(),
                id,
                prefix@,
                prefix_node@,
                fuel as nat,
            ),
        decreases fuel,
    {
        let ghost base = out@;
        let ghost piece = render_node(self.labels(), self.adj(), id, prefix@, prefix_node@, fuel as nat);
        if id >= self.nodes.len() {
            proof {
                assert(piece =~= Seq::<char>::empty());
                assert(out@ =~= base + piece);
            }
            return;
        }
        out.append(prefix);
        out.append(self.nodes[id].label.as_str());
        out.append("\n");
        let ghost line = prefix@ + self.labels()[id as int] + nl_text();
        proof {
            assert(self.labels()[id as int] == self.nodes@[id as int].label@);
            assert(out@ == base + line);
        }
        if fuel == 0 {
            proof {
                assert(piece == line);
            }
            return;
        }
        let ghost kids = self.adj()[id as int];
        let kids_len = self.next_nodes[id].len();
        let mut k: usize = 0;
        proof {
            assert(kids == self.next_nodes@[id as int]@);
            assert(piece == line + render_children(
                self.labels(),
                self.adj(),
                kids,
                0,
                prefix_node@,
                (fuel - 1) as nat,
            ));
            assert(base + piece =~= out@ + render_children(
                self.labels(),
                self.adj(),
                kids,
                0,
                prefix_node@,
                (fuel - 1) as nat,
            ));
        }
        while k < kids_len
            invariant
                k <= kids_len,
                self.wf(),
                id < self.nodes@.len(),
                kids_len == kids.len(),
                kids == self.adj()[id as int],
                fuel >= 1,
                base + piece == out@ + render_children(
                    self.labels(),
                    self.adj(),
                    kids,
                    k as int,
                    prefix_node@,
                    (fuel - 1) as nat,
                ),
            decreases kids_len - k,
        {
            let last = k == kids_len - 1;
            let mut rp = prefix_node.to_owned();
            rp.append(if last { "└── " } else { "├── " });
            let mut np = prefix_node.to_owned();
            np.append(if last { "    " } else { "│   " });
            let child = self.next_nodes[id][k];
            proof {
                assert(child == kids[k as int]);
                assert(rp@ == prefix_node@ + (if last { elbow_text() } else { tee_text() }));
                assert(np@ == prefix_node@ + (if last { blank_text() } else { bar_text() }));
            }
            self.recursive_write(out, child, rp.as_str(), np.as_str(), fuel - 1);
            proof {
                let l = self.labels();
                let a = self.adj();
                let cpiece = render_node(l, a, child, rp@, np@, (fuel - 1) as nat);
                assert(render_children(l, a, kids, k as int, prefix_node@, (fuel - 1) as nat)
                    == cpiece + render_children(l, a, kids, k + 1, prefix_node@, (fuel - 1) as nat));
                assert(base + piece =~= out@ + render_children(
                    l,
                    a,
                    kids,
                    k + 1,
                    prefix_node@,
                    (fuel - 1) as nat,
                ));
            }
            k = k + 1;
        }
        proof {
            assert(render_children(
                self.labels(),
                self.adj(),
                kids,
                kids_len as int,
                prefix_node@,
                (fuel - 1) as nat,
            ) =~= Seq::<char>::empty());
            assert(out@ =~= out@ + Seq::<char>::empty());
        }
    }

    /// Renders the whole graph: each cached source in order, as an
    /// unindented subtree.  Without a computed source list nothing is
    /// rendered.
    pub fn render(&self) -> (r: String)
        requires
            self.wf(),
        ensures
            r@ == render_graph_spec(*self),
    {
        let mut out = String::new();
        match &self.sources {
            None => {
                proof {
                    assert(out@ =~= render_graph_spec(*self));
                }
            },
            Some(srcs) => {
                let ghost fuel = self.nodes@.len() as nat;
                let mut k: usize = 0;
                proof {
                    assert(render_graph_spec(*self) == render_sources(
                        self.labels(),
                        self.adj(),
                        srcs@,
                        0,
                        fuel,
                    ));
                    assert(render_graph_spec(*self) =~= out@ + render_sources(
                        self.labels(),
                        self.adj(),
                        srcs@,
                        0,
                        fuel,
                    ));
                }
                while k < srcs.len()
                    invariant
                        k <= srcs@.len(),
                        self.wf(),
                        fuel == self.nodes@.len() as nat,
                        render_graph_spec(*self) == out@ + render_sources(
                            self.labels(),
                            self.adj(),
                            srcs@,
                            k as int,
                            fuel,
                        ),
                    decreases srcs@.len() - k,
                {
                    let id = srcs[k];
                    self.recursive_write(&mut out, id, "", "", self.nodes.len());
                    proof {
                        reveal_strlit("");
                        assert(""@ =~= Seq::<char>::empty());
                        let l = self.labels();
                        let a = self.adj();
                        let spiece = render_node(l, a, id, Seq::empty(), Seq::empty(), fuel);
                        assert(render_sources(l, a, srcs@, k as int, fuel) == spiece
                            + render_sources(l, a, srcs@, k + 1, fuel));
                        assert(render_graph_spec(*self) =~= out@ + render_sources(
                            l,
                            a,
                            srcs@,
                            k + 1,
                            fuel,
                        ));
                    }
                    k = k + 1;
                }
                proof {
                    assert(render_sources(self.labels(), self.adj(), srcs@, srcs@.len() as int, fuel)
                        =~= Seq::<char>::empty());
                    assert(out@ =~= out@ + Seq::<char>::empty());
                }
            },
        }
        out
    }

    /// The styled twin of `recursive_write`: the same walk, but the display
    /// prefix and the label of every line are painted before they are
    /// appended, as a terminal display wants them.
    pub fn recursive_write_styled(
        &self,
        out: &mut String,
        id: usize,
        prefix: &str,
        prefix_node: &str,
        fuel: usize,
    )
        requires
            self.wf(),
        ensures
            exists|piece: Seq<char>|
                final(out)@ == old(out)@ + piece && styled_node_rendered(
                    self.labels(),
                    self.adj(),
                    id,
                    prefix@,
                    prefix_node@,
                    fuel as nat,
                    piece,
                ),
        decreases fuel, 0int,
    {
        let ghost base = out@;
        if id >= self.nodes.len() {
            proof {
                let piece = Seq::<char>::empty();
                assert(out@ =~= base + piece);
                assert(styled_node_rendered(
                    self.labels(),
                    self.adj(),
                    id,
                    prefix@,
                    prefix_node@,
                    fuel as nat,
                    piece,
                ));
            }
            return;
        }
        let dp = paint_blue(prefix);
        let lp = paint_cyan(self.nodes[id].label.as_str());
        out.append(dp.as_str());
        out.append(lp.as_str());
        out.append("\n");
        proof {
            assert(self.labels()[id as int] == self.nodes@[id as int].label@);
        }
        if fuel == 0 {
            proof {
                let piece = dp@ + lp@ + nl_text();
                assert(out@ == base + piece);
                assert(styled_as(dp@, prefix@) && styled_as(lp@, self.labels()[id as int])
                    && piece == dp@ + lp@ + nl_text());
            }
            return;
        }
        let ghost s1 = out@;
        self.styled_children_write(out, id, 0, prefix_node, fuel - 1);
        proof {
            let l = self.labels();
            let a = self.adj();
            let rest = choose|p: Seq<char>|
                out@ == s1 + p && styled_children_rendered(
                    l,
                    a,
                    a[id as int],
                    0,
                    prefix_node@,
                    (fuel - 1) as nat,
                    p,
                );
            let piece = dp@ + lp@ + nl_text() + rest;
            assert(out@ =~= base + piece);
            assert(styled_as(dp@, prefix@) && styled_as(lp@, l[id as int])
                && styled_children_rendered(
                l,
                a,
                a[id as int],
                0,
                prefix_node@,
                (fuel - 1) as nat,
                rest,
            ) && piece == dp@ + lp@ + nl_text() + rest);
            assert(styled_node_rendered(l, a, id, prefix@, prefix_node@, fuel as nat, piece));
        }
    }

    fn styled_children_write(&self, out: &mut String, parent: usize, k: usize, prefix_node: &str, fuel: usize)
        requires
            self.wf(),
            parent < self.nodes@.len(),
        ensures
            exists|piece: Seq<char>|
                final(out)@ == old(out)@ + piece && styled_children_rendered(
                    self.labels(),
                    self.adj(),
                    self.adj()[parent as int],
                    k as int,
                    prefix_node@,
                    fuel as nat,
                    piece,
                ),
        decreases fuel, self.adj()[parent as int].len() + 1 - k,
    {
        let ghost l = self.labels();
        let ghost a = self.adj();
        let ghost kids = a[parent as int];
        let kids_len = self.next_nodes[parent].len();
        if k >= kids_len {
            proof {
                let piece = Seq::<char>::empty();
                assert(out@ =~= out@ + piece);
                assert(styled_children_rendered(l, a, kids, k as int, prefix_node@, fuel as nat, piece));
            }
            return;
        }
        let last = k == kids_len - 1;
        let mut rp = prefix_node.to_owned();
        rp.append(if last { "└── " } else { "├── " });
        let mut np = prefix_node.to_owned();
        np.append(if last { "    " } else { "│   " });
        let child = self.next_nodes[parent][k];
        proof {
            assert(child == kids[k as int]);
            assert(rp@ == prefix_node@ + (if last { elbow_text() } else { tee_text() }));
            assert(np@ == prefix_node@ + (if last { blank_text() } else { bar_text() }));
        }
        let ghost s0 = out@;
        self.recursive_write_styled(out, child, rp.as_str(), np.as_str(), fuel);
        let ghost s1 = out@;
        self.styled_children_write(out, parent, k + 1, prefix_node, fuel);
        proof {
            let head = choose|p: Seq<char>|
                s1 == s0 + p && styled_node_rendered(l, a, child, rp@, np@, fuel as nat, p);
            let tail = choose|p: Seq<char>|
                out@ == s1 + p && styled_children_rendered(
                    l,
                    a,
                    kids,
                    k + 1,
                    prefix_node@,
                    fuel as nat,
                    p,
                );
            let piece = head + tail;
            assert(out@ =~= s0 + piece);
            assert(styled_node_rendered(
                l,
                a,
                kids[k as int],
                prefix_node@ + (if last { elbow_text() } else { tee_text() }),
                prefix_node@ + (if last { blank_text() } else { bar_text() }),
                fuel as nat,
                head,
            ) && styled_children_rendered(l, a, kids, k + 1, prefix_node@, fuel as nat, tail)
                && piece == head + tail);
            assert(styled_children_rendered(l, a, kids, k as int, prefix_node@, fuel as nat, piece));
        }
    }

    fn styled_sources_write(&self, out: &mut String, srcs: &Vec<usize>, k: usize, fuel: usize)
        requires
            self.wf(),
        ensures
            exists|piece: Seq<char>|
                final(out)@ == old(out)@ + piece && styled_sources_rendered(
                    self.labels(),
                    self.adj(),
                    srcs@,
                    k as int,
                    fuel as nat,
                    piece,
                ),
        decreases srcs@.len() + 1 - k,
    {
        let ghost l = self.labels();
        let ghost a = self.adj();
        if k >= srcs.len() {
            proof {
                let piece = Seq::<char>::empty();
                assert(out@ =~= out@ + piece);
                assert(styled_sources_rendered(l, a, srcs@, k as int, fuel as nat, piece));
            }
            return;
        }
        let id = srcs[k];
        let ghost s0 = out@;
        self.recursive_write_styled(out, id, "", "", fuel);
        let ghost s1 = out@;
        self.styled_sources_write(out, srcs, k + 1, fuel);
        proof {
            reveal_strlit("");
            assert(""@ =~= Seq::<char>::empty());
            let head = choose|p: Seq<char>|
                s1 == s0 + p && styled_node_rendered(l, a, id, ""@, ""@, fuel as nat, p);
            let tail = choose|p: Seq<char>|
                out@ == s1 + p && styled_sources_rendered(l, a, srcs@, k + 1, fuel as nat, p);
            let piece = head + tail;
            assert(out@ =~= s0 + piece);
            assert(styled_node_rendered(l, a, srcs@[k as int], Seq::empty(), Seq::empty(), fuel as nat, head)
                && styled_sources_rendered(l, a, srcs@, k + 1, fuel as nat, tail) && piece == head
                + tail);
            assert(styled_sources_rendered(l, a, srcs@, k as int, fuel as nat, piece));
        }
    }

    /// Renders the whole graph for a terminal: the same lines as `render`,
    /// with each prefix and label painted.
    pub fn render_styled(&self) -> (r: String)
        requires
            self.wf(),
        ensures
            styled_graph_rendered(*self, r@),
    {
        let mut out = String::new();
        match &self.sources {
            None => {
                proof {
                    assert(out@ =~= Seq::<char>::empty());
                }
            },
            Some(srcs) => {
                let ghost s0 = out@;
                self.styled_sources_write(&mut out, srcs, 0, self.nodes.len());
                proof {
                    let l = self.labels();
                    let a = self.adj();
                    let piece = choose|p: Seq<char>|
                        out@ == s0 + p && styled_sources_rendered(
                            l,
                            a,
                            srcs@,
                            0,
                            self.nodes@.len() as nat,
                            p,
                        );
                    assert(out@ =~= piece);
                }
            },
        }
        out
    }
}

/// Connector printed before every child but the last.
pub open spec fn tee_text() -> Seq<char> {
    "├── "@
}

/// Connector printed before the last child.
pub open spec fn elbow_text() -> Seq<char> {
    "└── "@
}

/// Continuation column under a child that is not the last: the branch goes on.
pub open spec fn bar_text() -> Seq<char> {
    "│   "@
}

/// Continuation column under a last child: the branch has ended.
pub open spec fn blank_text() -> Seq<char> {
    "    "@
}

/// The line break that ends every rendered line.
pub open spec fn nl_text() -> Seq<char> {
    "\n"@
}

/// The text of the subtree rooted at `id`: the display prefix, the label and
/// a line break, then the children.  `fuel` bounds the recursion depth; an
/// id outside `labels` contributes nothing.
pub open spec fn render_node(
    labels: Seq<Seq<char>>,
    adj: Seq<Seq<usize>>,
    id: usize,
    disp: Seq<char>,
    cont: Seq<char>,
    fuel: nat,
) -> Seq<char>
    decreases fuel, 0int,
{
    if id >= labels.len() {
        Seq::empty()
    } else {
        let line = disp + labels[id as int] + nl_text();
        if fuel == 0 {
            line
        } else {
            let kids = if id < adj.len() {
                adj[id as int]
            } else {
                Seq::<usize>::empty()
            };
            line + render_children(labels, adj, kids, 0, cont, (fuel - 1) as nat)
        }
    }
}

/// The text of the children `kids[k..]`: each child rendered with its
/// connector appended to the continuation prefix — `├── ` and a `│`
/// continuation for every child but the last, `└── ` and a blank
/// continuation for the last.
pub open spec fn render_children(
    labels: Seq<Seq<char>>,
    adj: Seq<Seq<usize>>,
    kids: Seq<usize>,
    k: int,
    cont: Seq<char>,
    fuel: nat,
) -> Seq<char>
    decreases fuel, kids.len() - k + 1,
{
    if k < 0 || k >= kids.len() {
        Seq::empty()
    } else {
        let last = k == kids.len() - 1;
        let marker = if last {
            elbow_text()
        } else {
            tee_text()
        };
        let cpref = if last {
            blank_text()
        } else {
            bar_text()
        };
        render_node(labels, adj, kids[k], cont + marker, cont + cpref, fuel) + render_children(
            labels,
            adj,
            kids,
            k + 1,
            cont,
            fuel,
        )
    }
}

/// The text of the sources `srcs[k..]`, each rendered unindented.
pub open spec fn render_sources(
    labels: Seq<Seq<char>>,
    adj: Seq<Seq<usize>>,
    srcs: Seq<usize>,
    k: int,
    fuel: nat,
) -> Seq<char>
    decreases srcs.len() - k,
{
    if k < 0 || k >= srcs.len() {
        Seq::empty()
    } else {
        render_node(labels, adj, srcs[k], Seq::empty(), Seq::empty(), fuel) + render_sources(
            labels,
            adj,
            srcs,
            k + 1,
            fuel,
        )
    }
}

/// The whole rendered text of a graph: every cached source in order, with a
/// recursion depth bounded by the node count (never reached on an acyclic
/// graph).  Nothing is rendered before `find_sources` has run.
pub open spec fn render_graph_spec<T>(g: Graph<T>) -> Seq<char> {
    match g.sources {
        Some(v) => render_sources(g.labels(), g.adj(), v@, 0, g.nodes@.len() as nat),
        None => Seq::empty(),
    }
}

/// A node with no children renders as exactly one line: its label followed
/// by a line break, with no leading connector when both prefixes are empty.
pub proof fn lemma_render_isolated(
    labels: Seq<Seq<char>>,
    adj: Seq<Seq<usize>>,
    id: usize,
    fuel: nat,
)
    requires
        id < labels.len(),
        id < adj.len(),
        adj[id as int].len() == 0,
    ensures
        render_node(labels, adj, id, Seq::empty(), Seq::empty(), fuel) == labels[id as int]
            + nl_text(),
{
    let line = Seq::<char>::empty() + labels[id as int] + nl_text();
    assert(line =~= labels[id as int] + nl_text());
    if fuel > 0 {
        assert(render_children(labels, adj, adj[id as int], 0, Seq::empty(), (fuel - 1) as nat)
            =~= Seq::<char>::empty());
        assert(line + Seq::<char>::empty() =~= line);
    }
}

/// `out` is the styled text of the subtree rooted at `id`: per node a
/// painted display prefix, a painted label and a line break, then the
/// children, exactly as the plain rendering lays them out.  Each painted
/// piece strips back to the plain text.
pub open spec fn styled_node_rendered(
    labels: Seq<Seq<char>>,
    adj: Seq<Seq<usize>>,
    id: usize,
    disp: Seq<char>,
    cont: Seq<char>,
    fuel: nat,
    out: Seq<char>,
) -> bool
    decreases fuel, 0int,
{
    if id >= labels.len() {
        out == Seq::<char>::empty()
    } else {
        let kids = if id < adj.len() {
            adj[id as int]
        } else {
            Seq::<usize>::empty()
        };
        if fuel == 0 {
            exists|dp: Seq<char>, lp: Seq<char>|
                styled_as(dp, disp) && styled_as(lp, labels[id as int]) && out == dp + lp
                    + nl_text()
        } else {
            exists|dp: Seq<char>, lp: Seq<char>, rest: Seq<char>|
                styled_as(dp, disp) && styled_as(lp, labels[id as int])
                    && styled_children_rendered(labels, adj, kids, 0, cont, (fuel - 1) as nat, rest)
                    && out == dp + lp + nl_text() + rest
        }
    }
}

/// `out` is the styled text of the children `kids[k..]`, each with its
/// connector appended to the continuation prefix.
pub open spec fn styled_children_rendered(
    labels: Seq<Seq<char>>,
    adj: Seq<Seq<usize>>,
    kids: Seq<usize>,
    k: int,
    cont: Seq<char>,
    fuel: nat,
    out: Seq<char>,
) -> bool
    decreases fuel, kids.len() - k + 1,
{
    if k < 0 || k >= kids.len() {
        out == Seq::<char>::empty()
    } else {
        let last = k == kids.len() - 1;
        let marker = if last {
            elbow_text()
        } else {
            tee_text()
        };
        let cpref = if last {
            blank_text()
        } else {
            bar_text()
        };
        exists|head: Seq<char>, tail: Seq<char>|
            styled_node_rendered(labels, adj, kids[k], cont + marker, cont + cpref, fuel, head)
                && styled_children_rendered(labels, adj, kids, k + 1, cont, fuel, tail) && out
                == head + tail
    }
}

/// `out` is the styled text of the sources `srcs[k..]`, each unindented.
pub open spec fn styled_sources_rendered(
    labels: Seq<Seq<char>>,
    adj: Seq<Seq<usize>>,
    srcs: Seq<usize>,
    k: int,
    fuel: nat,
    out: Seq<char>,
) -> bool
    decreases srcs.len() - k,
{
    if k < 0 || k >= srcs.len() {
        out == Seq::<char>::empty()
    } else {
        exists|head: Seq<char>, tail: Seq<char>|
            styled_node_rendered(labels, adj, srcs[k], Seq::empty(), Seq::empty(), fuel, head)
                && styled_sources_rendered(labels, adj, srcs, k + 1, fuel, tail) && out == head
                + tail
    }
}

/// `out` is the whole styled rendering of a graph.
pub open spec fn styled_graph_rendered<T>(g: Graph<T>, out: Seq<char>) -> bool {
    match g.sources {
        Some(v) => styled_sources_rendered(
            g.labels(),
            g.adj(),
            v@,
            0,
            g.nodes@.len() as nat,
            out,
        ),
        None => out == Seq::<char>::empty(),
    }
}

/// Suffix of the error message when the edge's first endpoint is unknown.
pub open spec fn edge_err_suffix_from() -> Seq<char> {
    " not in graph. Cannot add edge."@
}

/// Suffix of the error message when the edge's second endpoint is unknown.
pub open spec fn edge_err_suffix_to() -> Seq<char> {
    " not in graph. Cannot add edge"@
}

/// Whether some adjacency list in `adj` mentions `id`, i.e. whether `id` has
/// an incoming edge.
pub open spec fn is_target_of(adj: Seq<Seq<usize>>, id: usize) -> bool {
    exists|j: int| 0 <= j < adj.len() && (#[trigger] adj[j]).contains(id)
}

/// The ids below `k` with no incoming edge, in increasing order.
pub open spec fn sources_upto(adj: Seq<Seq<usize>>, k: nat) -> Seq<usize>
    decreases k,
{
    if k == 0 {
        Seq::empty()
    } else {
        sources_upto(adj, (k - 1) as nat) + (if is_target_of(adj, (k - 1) as usize) {
            Seq::<usize>::empty()
        } else {
            seq![(k - 1) as usize]
        })
    }
}

/// The computed source list holds an id exactly when the id is in range and
/// no adjacency list mentions it.
pub proof fn lemma_sources_upto_contains(adj: Seq<Seq<usize>>, k: nat, id: usize)
    requires
        k <= usize::MAX,
    ensures
        sources_upto(adj, k).contains(id) <==> (id < k && !is_target_of(adj, id)),
    decreases k,
{
    if k == 0 {
    } else {
        let km1 = (k - 1) as nat;
        lemma_sources_upto_contains(adj, km1, id);
        let prev = sources_upto(adj, km1);
        let cur = sources_upto(adj, k);
        if is_target_of(adj, (k - 1) as usize) {
            assert(cur =~= prev);
        } else {
            assert(cur =~= prev.push((k - 1) as usize));
            if cur.contains(id) {
                let idx = choose|idx: int| 0 <= idx < cur.len() && cur[idx] == id;
                if idx < prev.len() {
                    assert(prev[idx] == id);
                    assert(prev.contains(id));
                }
            }
            if id < k && !is_target_of(adj, id) {
                if id < km1 {
                    let idx = choose|idx: int| 0 <= idx < prev.len() && prev[idx] == id;
                    assert(cur[idx] == id);
                } else {
                    assert(cur[prev.len() as int] == id);
                }
                assert(cur.contains(id));
            }
        }
    }
}

/// Every id in the computed source list is below the node count scanned.
pub proof fn lemma_sources_upto_bound(adj: Seq<Seq<usize>>, k: nat)
    ensures
        forall|t: int|
            0 <= t < sources_upto(adj, k).len() ==> (#[trigger] sources_upto(adj, k)[t]) < k,
    decreases k,
{
    if k > 0 {
        let km1 = (k - 1) as nat;
        lemma_sources_upto_bound(adj, km1);
        let prev = sources_upto(adj, km1);
        let cur = sources_upto(adj, k);
        assert forall|t: int| 0 <= t < cur.len() implies (#[trigger] cur[t]) < k by {
            if t < prev.len() {
                assert(cur[t] == prev[t]);
            }
        }
    }
}

/// `find_sources` is idempotent.  Let `g2` be any state that
/// `find_sources` can leave behind when run on `g1`: the nodes and the
/// adjacency are those of `g1`, and the cached list is the computed one.
/// Recomputing sources on `g2` then reproduces exactly the cached list, so
/// a second call with no structural change in between changes nothing and
/// yields an identical list both times.
pub proof fn lemma_find_sources_idempotent<T>(g1: Graph<T>, g2: Graph<T>)
    requires
        g2.nodes == g1.nodes,
        g2.next_nodes == g1.next_nodes,
        g2.srcs() == Some(sources_upto(g1.adj(), g1.nodes@.len() as nat)),
    ensures
        Some(sources_upto(g2.adj(), g2.nodes@.len() as nat)) == g2.srcs(),
{
}

fn vec_contains(v: &Vec<usize>, x: usize) -> (r: bool)
    ensures
        r == v@.contains(x),
{
    let mut k: usize = 0;
    while k < v.len()
        invariant
            k <= v@.len(),
            forall|t: int| 0 <= t < k ==> v@[t] != x,
        decreases v@.len() - k,
    {
        if v[k] == x {
            return true;
        }
        k = k + 1;
    }
    false
}

fn copy_ids(v: &Vec<usize>) -> (r: Vec<usize>)
    ensures
        r@ == v@,
{
    let mut r: Vec<usize> = Vec::new();
    let mut k: usize = 0;
    while k < v.len()
        invariant
            k <= v@.len(),
            r@ == v@.take(k as int),
        decreases v@.len() - k,
    {
        r.push(v[k]);
        proof {
            assert(r@ =~= v@.take(k + 1));
        }
        k = k + 1;
    }
    proof {
        assert(v@.take(v@.len() as int) =~= v@);
    }
    r
}

/// The index of the last element of `names` equal to `name`, if any.
pub open spec fn last_index_of(names: Seq<Seq<char>>, name: Seq<char>) -> Option<usize>
    decreases names.len(),
{
    if names.len() == 0 {
        None
    } else if names.last() == name {
        Some((names.len() - 1) as usize)
    } else {
        last_index_of(names.drop_last(), name)
    }
}


} // verus!
