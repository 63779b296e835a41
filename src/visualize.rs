//! The dependency graph of a package, held in a petgraph graph whose nodes
//! are package names, and its export in the Graphviz text format.
use vstd::prelude::*;
use vstd::string::StringExecFns;
use petgraph::dot::{Config, Dot};
use petgraph::graph::{Graph, NodeIndex};
use petgraph::Directed;
use crate::models::strings_view;
use crate::text::str_eq;

verus! {

#[verifier::external_type_specification]
#[verifier::external_body]
#[verifier::reject_recursive_types(N)]
#[verifier::reject_recursive_types(E)]
#[verifier::reject_recursive_types(Ty)]
#[verifier::reject_recursive_types(Ix)]
pub struct ExGraph<N, E, Ty, Ix>(Graph<N, E, Ty, Ix>);

#[verifier::external_type_specification]
#[verifier::external_body]
pub struct ExDirected(Directed);

/// A directed graph whose nodes are package names.
pub type DependencyGraph = Graph<String, (), Directed>;

/// The node weights of a graph, by node index.
pub uninterp spec fn graph_nodes(g: DependencyGraph) -> Seq<Seq<char>>;

/// The edges of a graph as (source, target) node indices, by edge index.
pub uninterp spec fn graph_edges(g: DependencyGraph) -> Seq<(usize, usize)>;

/// The Graphviz text that petgraph writes for a graph with these nodes and
/// edges, without edge labels.
pub uninterp spec fn dot_text(nodes: Seq<Seq<char>>, edges: Seq<(usize, usize)>) -> Seq<char>;

/// The number of nodes, and of edges, that a graph with 32-bit indices holds
/// at most.
pub const GRAPH_LIMIT: usize = 4294967295;

/// Relies on petgraph's `Graph::new`: a graph without nodes or edges.
#[verifier::external_body]
fn empty_graph() -> (g: DependencyGraph)
    ensures
        graph_nodes(g) == Seq::<Seq<char>>::empty(),
        graph_edges(g) == Seq::<(usize, usize)>::empty(),
{
    Graph::new()
}

/// Relies on petgraph's `Graph::add_node`: the node is appended and its
/// index is the former node count (it panics once the count reaches the
/// index limit).
#[verifier::external_body]
fn add_node(g: &mut DependencyGraph, weight: String) -> (r: usize)
    requires
        graph_nodes(*old(g)).len() < GRAPH_LIMIT,
    ensures
        r == graph_nodes(*old(g)).len(),
        graph_nodes(*final(g)) == graph_nodes(*old(g)).push(weight@),
        graph_edges(*final(g)) == graph_edges(*old(g)),
{
    g.add_node(weight).index()
}

/// Relies on petgraph's `Graph::add_edge`: the edge is appended (it panics
/// when an endpoint is not a node, or once the edge count reaches the
/// index limit).
#[verifier::external_body]
fn add_edge(g: &mut DependencyGraph, a: usize, b: usize)
    requires
        a < graph_nodes(*old(g)).len(),
        b < graph_nodes(*old(g)).len(),
        graph_edges(*old(g)).len() < GRAPH_LIMIT,
    ensures
        graph_nodes(*final(g)) == graph_nodes(*old(g)),
        graph_edges(*final(g)) == graph_edges(*old(g)).push((a, b)),
{
    g.add_edge(NodeIndex::new(a), NodeIndex::new(b), ());
}

/// Relies on petgraph's `Graph::edge_count`.
#[verifier::external_body]
fn edge_count(g: &DependencyGraph) -> (r: usize)
    ensures
        r == graph_edges(*g).len(),
{
    g.edge_count()
}

/// The dependency lists as plain values.
pub open spec fn deps_view(d: Seq<(String, Vec<String>)>) -> Seq<(Seq<char>, Seq<Seq<char>>)> {
    d.map_values(|e: (String, Vec<String>)| (e.0@, strings_view(e.1@)))
}

/// The first entry, from position `i` on, that lists the dependencies of `name`.
pub open spec fn first_key_from(d: Seq<(Seq<char>, Seq<Seq<char>>)>, name: Seq<char>, i: int) -> Option<int>
    decreases d.len() - i,
{
    if i < 0 || i >= d.len() {
        None
    } else if d[i].0 == name {
        Some(i)
    } else {
        first_key_from(d, name, i + 1)
    }
}

/// The dependencies listed for `name` (its first entry), if any.
pub open spec fn deps_of(d: Seq<(Seq<char>, Seq<Seq<char>>)>, name: Seq<char>) -> Option<Seq<Seq<char>>> {
    match first_key_from(d, name, 0) {
        Some(k) => Some(d[k].1),
        None => None,
    }
}

/// `child` is listed among the dependencies of `parent`.
pub open spec fn is_dependency(d: Seq<(Seq<char>, Seq<Seq<char>>)>, parent: Seq<char>, child: Seq<char>) -> bool {
    deps_of(d, parent) is Some && deps_of(d, parent)->0.contains(child)
}

/// Some edge leads from node `a` to a node named `child`.
pub open spec fn has_edge_to(nodes: Seq<Seq<char>>, edges: Seq<(usize, usize)>, a: usize, child: Seq<char>) -> bool {
    exists|k: int| 0 <= k < edges.len() && (#[trigger] edges[k]).0 == a && nodes[edges[k].1 as int] == child
}

/// The graph's nodes carry distinct names, and each edge leads from a
/// package to one of its listed dependencies.
pub open spec fn graph_sound(nodes: Seq<Seq<char>>, edges: Seq<(usize, usize)>, d: Seq<(Seq<char>, Seq<Seq<char>>)>) -> bool {
    &&& forall|i: int, j: int| 0 <= i < nodes.len() && 0 <= j < nodes.len() && i != j ==> nodes[i] != nodes[j]
    &&& forall|k: int|
        0 <= k < edges.len() ==> (#[trigger] edges[k]).0 < nodes.len() && edges[k].1 < nodes.len() && is_dependency(
            d,
            nodes[edges[k].0 as int],
            nodes[edges[k].1 as int],
        )
}

/// Node `b` has an edge to a node of each dependency listed for its name.
pub open spec fn expanded(nodes: Seq<Seq<char>>, edges: Seq<(usize, usize)>, d: Seq<(Seq<char>, Seq<Seq<char>>)>, b: int) -> bool {
    deps_of(d, nodes[b]) is Some ==> forall|c: Seq<char>|
        #[trigger] deps_of(d, nodes[b])->0.contains(c) ==> has_edge_to(nodes, edges, b as usize, c)
}

/// The entry of `name` is marked in `vis`.
pub open spec fn on_path(d: Seq<(Seq<char>, Seq<Seq<char>>)>, vis: Seq<bool>, name: Seq<char>) -> bool {
    first_key_from(d, name, 0) is Some && vis[first_key_from(d, name, 0)->0]
}

/// The graph has reached the index limit.
pub open spec fn over_limit(nodes: Seq<Seq<char>>, edges: Seq<(usize, usize)>) -> bool {
    edges.len() >= GRAPH_LIMIT || nodes.len() >= GRAPH_LIMIT
}

/// Every node but `skip` is expanded, or is being expanded (marked).
pub open spec fn expanded_but(
    nodes: Seq<Seq<char>>,
    edges: Seq<(usize, usize)>,
    d: Seq<(Seq<char>, Seq<Seq<char>>)>,
    vis: Seq<bool>,
    skip: int,
) -> bool {
    forall|b: int| 0 <= b < nodes.len() && b != skip ==> #[trigger] expanded(nodes, edges, d, b) || on_path(d, vis, nodes[b])
}

proof fn lemma_first_key_found(d: Seq<(Seq<char>, Seq<Seq<char>>)>, name: Seq<char>, i: int)
    requires
        0 <= i,
        first_key_from(d, name, i) is Some,
    ensures
        i <= first_key_from(d, name, i)->0 < d.len(),
        d[first_key_from(d, name, i)->0].0 == name,
    decreases d.len() - i,
{
    if i < d.len() && d[i].0 != name {
        lemma_first_key_found(d, name, i + 1);
    }
}

/// Growing the graph at its end keeps edges to named nodes.
proof fn lemma_edges_kept(
    n1: Seq<Seq<char>>,
    e1: Seq<(usize, usize)>,
    n2: Seq<Seq<char>>,
    e2: Seq<(usize, usize)>,
    d: Seq<(Seq<char>, Seq<Seq<char>>)>,
)
    requires
        n1.len() <= n2.len(),
        n2.subrange(0, n1.len() as int) == n1,
        e1.len() <= e2.len(),
        e2.subrange(0, e1.len() as int) == e1,
        forall|k: int| 0 <= k < e1.len() ==> (#[trigger] e1[k]).1 < n1.len(),
    ensures
        forall|a: usize, c: Seq<char>| #[trigger] has_edge_to(n1, e1, a, c) ==> has_edge_to(n2, e2, a, c),
        forall|b: int| 0 <= b < n1.len() ==> n2[b] == n1[b],
        forall|b: int| 0 <= b < n1.len() && #[trigger] expanded(n1, e1, d, b) ==> expanded(n2, e2, d, b),
{
    assert forall|b: int| 0 <= b < n1.len() implies n2[b] == n1[b] by {
        assert(n2.subrange(0, n1.len() as int)[b] == n1[b]);
    }
    assert forall|a: usize, c: Seq<char>| #[trigger] has_edge_to(n1, e1, a, c) implies has_edge_to(n2, e2, a, c) by {
        let k = choose|k: int| 0 <= k < e1.len() && (#[trigger] e1[k]).0 == a && n1[e1[k].1 as int] == c;
        assert(e2.subrange(0, e1.len() as int)[k] == e1[k]);
        assert(e2[k] == e1[k]);
    }
    assert forall|b: int| 0 <= b < n1.len() && #[trigger] expanded(n1, e1, d, b) implies expanded(n2, e2, d, b) by {
        assert(n2[b] == n1[b]);
        if deps_of(d, n2[b]) is Some {
            assert forall|c: Seq<char>| #[trigger] deps_of(d, n2[b])->0.contains(c) implies has_edge_to(n2, e2, b as usize, c) by {
                assert(has_edge_to(n1, e1, b as usize, c));
            }
        }
    }
}

/// Marking the entry of the node being expanded covers that node.
proof fn lemma_mark(
    nodes: Seq<Seq<char>>,
    edges: Seq<(usize, usize)>,
    d: Seq<(Seq<char>, Seq<Seq<char>>)>,
    vis: Seq<bool>,
    pk: int,
    p: int,
)
    requires
        expanded_but(nodes, edges, d, vis, p),
        0 <= p < nodes.len(),
        0 <= pk < vis.len(),
        vis.len() == d.len(),
        first_key_from(d, nodes[p], 0) == Some(pk),
    ensures
        expanded_but(nodes, edges, d, vis.update(pk, true), -1),
{
    let v2 = vis.update(pk, true);
    assert forall|b: int| 0 <= b < nodes.len() && b != -1 implies #[trigger] expanded(nodes, edges, d, b) || on_path(
        d,
        v2,
        nodes[b],
    ) by {
        if b != p && !expanded(nodes, edges, d, b) {
            lemma_first_key_found(d, nodes[b], 0);
        }
    }
}

/// Unmarking the entry of a node once it is expanded covers it still.
proof fn lemma_unmark(
    nodes: Seq<Seq<char>>,
    edges: Seq<(usize, usize)>,
    d: Seq<(Seq<char>, Seq<Seq<char>>)>,
    vis: Seq<bool>,
    pk: int,
    p: int,
)
    requires
        expanded_but(nodes, edges, d, vis.update(pk, true), -1),
        expanded(nodes, edges, d, p),
        graph_sound(nodes, edges, d),
        0 <= p < nodes.len(),
        0 <= pk < vis.len(),
        vis.len() == d.len(),
        first_key_from(d, nodes[p], 0) == Some(pk),
    ensures
        expanded_but(nodes, edges, d, vis, -1),
{
    let v2 = vis.update(pk, true);
    assert forall|b: int| 0 <= b < nodes.len() && b != -1 implies #[trigger] expanded(nodes, edges, d, b) || on_path(
        d,
        vis,
        nodes[b],
    ) by {
        if b != p && !expanded(nodes, edges, d, b) {
            assert(on_path(d, v2, nodes[b]));
            lemma_first_key_found(d, nodes[b], 0);
            lemma_first_key_found(d, nodes[p], 0);
            let k = first_key_from(d, nodes[b], 0)->0;
            if k == pk {
                assert(nodes[b] == nodes[p]);
            }
        }
    }
}

/// Growing the graph at its end keeps old nodes expanded or marked.
proof fn lemma_grow(
    n1: Seq<Seq<char>>,
    e1: Seq<(usize, usize)>,
    n2: Seq<Seq<char>>,
    e2: Seq<(usize, usize)>,
    d: Seq<(Seq<char>, Seq<Seq<char>>)>,
    vis: Seq<bool>,
    skip: int,
)
    requires
        expanded_but(n1, e1, d, vis, -1),
        n1.len() <= n2.len(),
        n2.subrange(0, n1.len() as int) == n1,
        e1.len() <= e2.len(),
        e2.subrange(0, e1.len() as int) == e1,
        forall|k: int| 0 <= k < e1.len() ==> (#[trigger] e1[k]).1 < n1.len(),
        skip == n1.len(),
        n2.len() <= n1.len() + 1,
    ensures
        expanded_but(n2, e2, d, vis, skip),
{
    lemma_edges_kept(n1, e1, n2, e2, d);
    assert forall|b: int| 0 <= b < n2.len() && b != skip implies #[trigger] expanded(n2, e2, d, b) || on_path(
        d,
        vis,
        n2[b],
    ) by {
        assert(b < n1.len());
        assert(expanded(n1, e1, d, b) || on_path(d, vis, n1[b]));
    }
}

/// The number of marked positions.
pub open spec fn marked_count(m: Seq<bool>) -> nat
    decreases m.len(),
{
    if m.len() == 0 {
        0
    } else {
        marked_count(m.drop_last()) + if m.last() { 1nat } else { 0nat }
    }
}

proof fn lemma_marked_count(m: Seq<bool>, k: int)
    requires
        0 <= k < m.len(),
        !m[k],
    ensures
        marked_count(m.update(k, true)) == marked_count(m) + 1,
        marked_count(m) < m.len(),
    decreases m.len(),
{
    let u = m.update(k, true);
    if k == m.len() - 1 {
        assert(u.drop_last() =~= m.drop_last());
        lemma_marked_bound(m.drop_last());
    } else {
        assert(u.drop_last() =~= m.drop_last().update(k, true));
        lemma_marked_count(m.drop_last(), k);
    }
}

proof fn lemma_marked_bound(m: Seq<bool>)
    ensures
        marked_count(m) <= m.len(),
    decreases m.len(),
{
    if m.len() > 0 {
        lemma_marked_bound(m.drop_last());
    }
}

/// The entry that lists the dependencies of `name`.
fn find_entry(all: &Vec<(String, Vec<String>)>, name: &str) -> (r: Option<usize>)
    ensures
        r matches Some(k) ==> k < all@.len(),
        match r {
            Some(k) => first_key_from(deps_view(all@), name@, 0) == Some(k as int),
            None => first_key_from(deps_view(all@), name@, 0) is None,
        },
{
    let ghost d = deps_view(all@);
    let mut i: usize = 0;
    while i < all.len()
        invariant
            0 <= i <= all@.len(),
            d == deps_view(all@),
            first_key_from(d, name@, 0) == first_key_from(d, name@, i as int),
        decreases all@.len() - i,
    {
        if str_eq(all[i].0.as_str(), name) {
            return Some(i);
        }
        i = i + 1;
    }
    None
}

/// The node named `name`.
fn find_node(names: &Vec<String>, name: &str) -> (r: Option<usize>)
    ensures
        match r {
            Some(i) => i < names@.len() && names@[i as int]@ == name@,
            None => forall|i: int| 0 <= i < names@.len() ==> (#[trigger] names@[i])@ != name@,
        },
{
    let mut i: usize = 0;
    while i < names.len()
        invariant
            0 <= i <= names@.len(),
            forall|j: int| 0 <= j < i ==> (#[trigger] names@[j])@ != name@,
        decreases names@.len() - i,
    {
        if str_eq(names[i].as_str(), name) {
            return Some(i);
        }
        i = i + 1;
    }
    None
}

/// Builders of dependency graphs.
pub struct DependencyVisualizer;

impl DependencyVisualizer {
    /// The graph of `package_name` and its dependencies as `dependencies`
    /// lists them (a package's first entry counts); with `transitive`, the
    /// dependencies of dependencies too, a cycle being followed once.
    /// Node 0 is the package; every edge leads from a package to one of its
    /// listed dependencies, and, within the index limit, the package has an
    /// edge to each of its own dependencies; with `transitive`, so has every
    /// node of the graph. Without `transitive` every edge starts at the
    /// package.
    pub fn create_dependency_graph(
        package_name: &str,
        dependencies: &Vec<(String, Vec<String>)>,
        transitive: bool,
    ) -> (g: DependencyGraph)
        ensures
            graph_nodes(g).len() >= 1,
            graph_nodes(g)[0] == package_name@,
            graph_sound(graph_nodes(g), graph_edges(g), deps_view(dependencies@)),
            !transitive ==> forall|k: int| 0 <= k < graph_edges(g).len() ==> (#[trigger] graph_edges(g)[k]).0 == 0,
            transitive && !over_limit(graph_nodes(g), graph_edges(g)) ==> forall|b: int|
                0 <= b < graph_nodes(g).len() ==> #[trigger] expanded(graph_nodes(g), graph_edges(g), deps_view(dependencies@), b),
            graph_edges(g).len() < GRAPH_LIMIT && graph_nodes(g).len() < GRAPH_LIMIT ==> (
            deps_of(deps_view(dependencies@), package_name@) matches Some(s) ==> forall|c: Seq<char>|
                #[trigger] s.contains(c) ==> has_edge_to(graph_nodes(g), graph_edges(g), 0, c)),
    {
        let mut graph = empty_graph();
        let mut names: Vec<String> = Vec::new();
        let root = add_node(&mut graph, String::from_str(package_name));
        names.push(String::from_str(package_name));
        proof {
            assert(strings_view(names@) =~= graph_nodes(graph));
        }
        match find_entry(dependencies, package_name) {
            Some(k) => {
                let mut visited: Vec<bool> = Vec::new();
                let mut i: usize = 0;
                while i < dependencies.len()
                    invariant
                        0 <= i <= dependencies@.len(),
                        visited@.len() == i,
                        forall|j: int| 0 <= j < i ==> !(#[trigger] visited@[j]),
                    decreases dependencies@.len() - i,
                {
                    visited.push(false);
                    i = i + 1;
                }
                let ghost n0 = names@;
                Self::add_dependencies_to_graph(
                    &mut graph,
                    &mut names,
                    package_name,
                    root,
                    k,
                    &dependencies[k].1,
                    dependencies,
                    transitive,
                    &mut visited,
                );
                proof {
                    assert(names@.subrange(0, n0.len() as int)[0] == n0[0]);
                    assert(graph_nodes(graph)[0] == names@[0]@);
                    let gn = graph_nodes(graph);
                    let ge = graph_edges(graph);
                    let dd = deps_view(dependencies@);
                    if transitive && !over_limit(gn, ge) {
                        assert forall|b: int| 0 <= b < gn.len() implies #[trigger] expanded(gn, ge, dd, b) by {
                            assert(expanded(gn, ge, dd, b) || on_path(dd, visited@, gn[b]));
                            if first_key_from(dd, gn[b], 0) is Some {
                                lemma_first_key_found(dd, gn[b], 0);
                            }
                        }
                    }
                }
            },
            None => {},
        }
        graph
    }

    fn add_dependencies_to_graph(
        graph: &mut DependencyGraph,
        names: &mut Vec<String>,
        parent: &str,
        parent_idx: usize,
        parent_key: usize,
        deps: &Vec<String>,
        all_dependencies: &Vec<(String, Vec<String>)>,
        transitive: bool,
        visited: &mut Vec<bool>,
    )
        requires
            graph_nodes(*old(graph)) == strings_view(old(names)@),
            graph_sound(graph_nodes(*old(graph)), graph_edges(*old(graph)), deps_view(all_dependencies@)),
            parent_idx < old(names)@.len(),
            old(names)@[parent_idx as int]@ == parent@,
            parent_key < all_dependencies@.len(),
            first_key_from(deps_view(all_dependencies@), parent@, 0) == Some(parent_key as int),
            deps@ == all_dependencies@[parent_key as int].1@,
            old(visited)@.len() == all_dependencies@.len(),
            transitive && !over_limit(graph_nodes(*old(graph)), graph_edges(*old(graph))) ==> expanded_but(
                graph_nodes(*old(graph)),
                graph_edges(*old(graph)),
                deps_view(all_dependencies@),
                old(visited)@,
                parent_idx as int,
            ),
        ensures
            transitive && !over_limit(graph_nodes(*final(graph)), graph_edges(*final(graph))) ==> expanded_but(
                graph_nodes(*final(graph)),
                graph_edges(*final(graph)),
                deps_view(all_dependencies@),
                old(visited)@,
                -1,
            ),
            graph_nodes(*final(graph)) == strings_view(final(names)@),
            graph_sound(graph_nodes(*final(graph)), graph_edges(*final(graph)), deps_view(all_dependencies@)),
            final(visited)@ == old(visited)@,
            final(names)@.len() >= old(names)@.len(),
            final(names)@.subrange(0, old(names)@.len() as int) == old(names)@,
            graph_edges(*final(graph)).len() >= graph_edges(*old(graph)).len(),
            graph_edges(*final(graph)).subrange(0, graph_edges(*old(graph)).len() as int) == graph_edges(*old(graph)),
            !transitive ==> forall|k: int|
                graph_edges(*old(graph)).len() <= k < graph_edges(*final(graph)).len() ==> (#[trigger] graph_edges(
                    *final(graph),
                )[k]).0 == parent_idx,
            !old(visited)@[parent_key as int] && graph_edges(*final(graph)).len() < GRAPH_LIMIT
                && graph_nodes(*final(graph)).len() < GRAPH_LIMIT ==> forall|c: Seq<char>|
                #[trigger] strings_view(deps@).contains(c) ==> has_edge_to(
                graph_nodes(*final(graph)),
                graph_edges(*final(graph)),
                parent_idx,
                c,
            ),
        decreases all_dependencies@.len() - marked_count(old(visited)@),
    {
        if visited[parent_key] {
            proof {
                let nn = graph_nodes(*graph);
                let dd = deps_view(all_dependencies@);
                if transitive && !over_limit(nn, graph_edges(*graph)) {
                    assert forall|b: int| 0 <= b < nn.len() && b != -1 implies #[trigger] expanded(
                        nn,
                        graph_edges(*graph),
                        dd,
                        b,
                    ) || on_path(dd, visited@, nn[b]) by {
                        if b == parent_idx {
                            assert(nn[b] == parent@);
                        }
                    }
                }
            }
            return;
        }
        let ghost d = deps_view(all_dependencies@);
        let ghost vis0 = visited@;
        let ghost names0 = names@;
        let ghost edges0 = graph_edges(*graph);
        proof {
            lemma_marked_count(visited@, parent_key as int);
        }
        visited.set(parent_key, true);
        proof {
            if transitive && !over_limit(graph_nodes(*graph), graph_edges(*graph)) {
                lemma_mark(graph_nodes(*graph), graph_edges(*graph), d, vis0, parent_key as int, parent_idx as int);
            }
        }
        let mut j: usize = 0;
        while j < deps.len()
            invariant
                d == deps_view(all_dependencies@),
                graph_nodes(*graph) == strings_view(names@),
                graph_sound(graph_nodes(*graph), graph_edges(*graph), d),
                parent_idx < names@.len(),
                names@[parent_idx as int]@ == parent@,
                parent_key < all_dependencies@.len(),
                first_key_from(d, parent@, 0) == Some(parent_key as int),
                deps@ == all_dependencies@[parent_key as int].1@,
                vis0 == old(visited)@,
                visited@ == vis0.update(parent_key as int, true),
                marked_count(visited@) == marked_count(vis0) + 1,
                marked_count(vis0) < vis0.len(),
                vis0.len() == all_dependencies@.len(),
                !vis0[parent_key as int],
                0 <= j <= deps@.len(),
                names@.len() >= names0.len(),
                names@.subrange(0, names0.len() as int) == names0,
                graph_edges(*graph).len() >= edges0.len(),
                graph_edges(*graph).subrange(0, edges0.len() as int) == edges0,
                !transitive ==> forall|k: int|
                    edges0.len() <= k < graph_edges(*graph).len() ==> (#[trigger] graph_edges(*graph)[k]).0
                        == parent_idx,
                forall|jj: int|
                    0 <= jj < j ==> has_edge_to(graph_nodes(*graph), graph_edges(*graph), parent_idx, #[trigger] deps@[jj]@)
                        || graph_edges(*graph).len() >= GRAPH_LIMIT || graph_nodes(*graph).len() >= GRAPH_LIMIT,
                transitive && !over_limit(graph_nodes(*graph), graph_edges(*graph)) ==> expanded_but(
                    graph_nodes(*graph),
                    graph_edges(*graph),
                    d,
                    visited@,
                    -1,
                ),
            decreases deps@.len() - j,
        {
            let dep = deps[j].as_str();
            let ghost before_nodes = graph_nodes(*graph);
            let ghost before_edges = graph_edges(*graph);
            let found = find_node(names, dep);
            let dep_idx: Option<usize> = match found {
                Some(idx) => Some(idx),
                None => {
                    if names.len() < GRAPH_LIMIT {
                        let idx = add_node(graph, String::from_str(dep));
                        names.push(String::from_str(dep));
                        proof {
                            assert(strings_view(names@) =~= graph_nodes(*graph));
                            assert(names@.subrange(0, names0.len() as int) =~= names0);
                            assert forall|a: int, b: int|
                                0 <= a < graph_nodes(*graph).len() && 0 <= b < graph_nodes(*graph).len() && a != b implies graph_nodes(
                                *graph,
                            )[a] != graph_nodes(*graph)[b] by {
                                if a < before_nodes.len() && b < before_nodes.len() {
                                } else if a < before_nodes.len() {
                                    assert(graph_nodes(*graph)[a] == before_nodes[a]);
                                    assert(before_nodes[a] == names@[a]@);
                                } else if b < before_nodes.len() {
                                    assert(graph_nodes(*graph)[b] == before_nodes[b]);
                                    assert(before_nodes[b] == names@[b]@);
                                }
                            }
                        }
                        Some(idx)
                    } else {
                        None
                    }
                },
            };
            proof {
                assert(dep_idx matches Some(di) ==> (di < before_nodes.len() && graph_nodes(*graph) == before_nodes
                    && before_nodes[di as int] == dep@) || (di == before_nodes.len() && graph_nodes(*graph)
                    == before_nodes.push(dep@)));
                assert(deps_of(d, parent@) == Some(d[parent_key as int].1));
                assert(d[parent_key as int].1 == strings_view(deps@));
                assert(strings_view(deps@)[j as int] == dep@);
                assert(strings_view(deps@).contains(dep@));
            }
            match dep_idx {
                Some(di) => {
                    if edge_count(graph) < GRAPH_LIMIT {
                        let ghost e1 = graph_edges(*graph);
                        add_edge(graph, parent_idx, di);
                        proof {
                            let e2 = graph_edges(*graph);
                            assert(e2[e1.len() as int] == (parent_idx, di));
                            assert(e2.subrange(0, edges0.len() as int) =~= edges0);
                            assert(has_edge_to(graph_nodes(*graph), e2, parent_idx, dep@));
                            assert forall|jj: int| 0 <= jj < j implies has_edge_to(
                                graph_nodes(*graph),
                                e2,
                                parent_idx,
                                #[trigger] deps@[jj]@,
                            ) || e2.len() >= GRAPH_LIMIT || graph_nodes(*graph).len() >= GRAPH_LIMIT by {
                                if has_edge_to(graph_nodes(*graph), e1, parent_idx, deps@[jj]@) {
                                    let k = choose|k: int| 0 <= k < e1.len() && (#[trigger] e1[k]).0 == parent_idx
                                        && graph_nodes(*graph)[e1[k].1 as int] == deps@[jj]@;
                                    assert(e2[k] == e1[k]);
                                }
                            }
                        }
                    }
                    proof {
                        assert(graph_edges(*graph).subrange(0, before_edges.len() as int) =~= before_edges);
                        assert(graph_nodes(*graph).subrange(0, before_nodes.len() as int) =~= before_nodes);
                    }
                    if transitive {
                        match find_entry(all_dependencies, dep) {
                            Some(sub_key) => {
                                let ghost n1 = names@;
                                let ghost g1 = graph_edges(*graph);
                                let ghost gn1 = graph_nodes(*graph);
                                proof {
                                    if !over_limit(gn1, g1) {
                                        lemma_grow(before_nodes, before_edges, gn1, g1, d, visited@, before_nodes.len() as int);
                                        assert forall|b: int| 0 <= b < gn1.len() && b != di as int implies #[trigger] expanded(
                                            gn1,
                                            g1,
                                            d,
                                            b,
                                        ) || on_path(d, visited@, gn1[b]) by {
                                            assert(b != before_nodes.len() as int);
                                        }
                                    }
                                }
                                Self::add_dependencies_to_graph(
                                    graph,
                                    names,
                                    dep,
                                    di,
                                    sub_key,
                                    &all_dependencies[sub_key].1,
                                    all_dependencies,
                                    transitive,
                                    visited,
                                );
                                proof {
                                    let g2 = graph_edges(*graph);
                                    let gn2 = graph_nodes(*graph);
                                    assert(names@.subrange(0, names0.len() as int) =~= names0) by {
                                        assert(names@.subrange(0, n1.len() as int) == n1);
                                        assert forall|x: int| 0 <= x < names0.len() implies names@[x] == names0[x] by {
                                            assert(names@.subrange(0, n1.len() as int)[x] == n1[x]);
                                            assert(n1.subrange(0, names0.len() as int)[x] == names0[x]);
                                        }
                                    }
                                    assert(g2.subrange(0, edges0.len() as int) =~= edges0) by {
                                        assert forall|x: int| 0 <= x < edges0.len() implies g2[x] == edges0[x] by {
                                            assert(g2.subrange(0, g1.len() as int)[x] == g1[x]);
                                            assert(g1.subrange(0, edges0.len() as int)[x] == edges0[x]);
                                        }
                                    }
                                    assert(names@[parent_idx as int] == n1[parent_idx as int]) by {
                                        assert(names@.subrange(0, n1.len() as int)[parent_idx as int] == n1[parent_idx as int]);
                                    }
                                    assert forall|jj: int| 0 <= jj < j + 1 implies has_edge_to(
                                        gn2,
                                        g2,
                                        parent_idx,
                                        #[trigger] deps@[jj]@,
                                    ) || g2.len() >= GRAPH_LIMIT || gn2.len() >= GRAPH_LIMIT by {
                                        if has_edge_to(gn1, g1, parent_idx, deps@[jj]@) {
                                            let k = choose|k: int| 0 <= k < g1.len() && (#[trigger] g1[k]).0 == parent_idx
                                                && gn1[g1[k].1 as int] == deps@[jj]@;
                                            assert(g2.subrange(0, g1.len() as int)[k] == g1[k]);
                                            assert(g2[k] == g1[k]);
                                            assert(g1[k].1 < gn1.len());
                                            assert(names@.subrange(0, n1.len() as int)[g1[k].1 as int] == n1[g1[k].1 as int]);
                                            assert(gn2[g2[k].1 as int] == gn1[g1[k].1 as int]);
                                        }
                                    }
                                }
                            },
                            None => {
                                proof {
                                    let gn = graph_nodes(*graph);
                                    let ge = graph_edges(*graph);
                                    if !over_limit(gn, ge) {
                                        lemma_grow(before_nodes, before_edges, gn, ge, d, visited@, before_nodes.len() as int);
                                        assert forall|b: int| 0 <= b < gn.len() && b != -1 implies #[trigger] expanded(
                                            gn,
                                            ge,
                                            d,
                                            b,
                                        ) || on_path(d, visited@, gn[b]) by {
                                            if b == before_nodes.len() as int {
                                                assert(gn[b] == dep@);
                                            }
                                        }
                                    }
                                }
                            },
                        }
                    }
                },
                None => {},
            }
            proof {
                assert(graph_edges(*graph).len() >= GRAPH_LIMIT || graph_nodes(*graph).len() >= GRAPH_LIMIT
                    || has_edge_to(graph_nodes(*graph), graph_edges(*graph), parent_idx, dep@));
            }
            j = j + 1;
        }
        visited.set(parent_key, false);
        proof {
            let ghost marked = vis0.update(parent_key as int, true);
            assert(visited@ =~= vis0);
            assert forall|c: Seq<char>| #[trigger] strings_view(deps@).contains(c) && graph_edges(*graph).len()
                < GRAPH_LIMIT && graph_nodes(*graph).len() < GRAPH_LIMIT implies has_edge_to(
                graph_nodes(*graph),
                graph_edges(*graph),
                parent_idx,
                c,
            ) by {
                let x = choose|x: int| 0 <= x < strings_view(deps@).len() && strings_view(deps@)[x] == c;
                assert(deps@[x]@ == c);
            }
            let gn = graph_nodes(*graph);
            let ge = graph_edges(*graph);
            if transitive && !over_limit(gn, ge) {
                assert(deps_of(d, parent@) == Some(strings_view(deps@)));
                assert(gn[parent_idx as int] == parent@);
                assert(expanded(gn, ge, d, parent_idx as int));
                lemma_unmark(gn, ge, d, vis0, parent_key as int, parent_idx as int);
            }
        }
    }

    /// Relies on petgraph's `Dot` with `Config::EdgeNoLabel`: the graph in
    /// the Graphviz text format, edges without labels.
    #[verifier::external_body]
    pub fn export_dot(graph: &DependencyGraph) -> (r: String)
        ensures
            r@ == dot_text(graph_nodes(*graph), graph_edges(*graph)),
    {
        format!("{:?}", Dot::with_config(graph, &[Config::EdgeNoLabel]))
    }
}

} // verus!
