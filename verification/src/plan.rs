//! The plan of which recipes to install: every requested package with all of its
//! run-time dependencies, as an acyclic graph.
use crate::graph::{
    acyclic, graph_add_edge, graph_add_node, graph_children, graph_edges, graph_nodes, is_path,
    new_graph, reaches, walk_step, DependencyGraph,
};
use crate::cache::quality_hash;
use crate::building::Build;
use crate::download::DownloadLock;
use crate::recipe::{first_match, lemma_first_match_bounds, Recipe, RecipeStore};
use crate::version::{RequirementView, VersionRequirement};
use std::collections::BTreeSet;
use vstd::prelude::*;
use vstd::set_lib::{lemma_int_range, set_int_range};

verus! {

/// Why a plan could not be made.
#[derive(Debug)]
pub enum PlanError {
    /// No recipe is for the package `name` in a version that meets `version`.
    NoRecipeFound { name: String, version: VersionRequirement },
    /// The recipe with index `parent` depends on the recipe with index `child`, which
    /// already depends, directly or not, on `parent`.
    CyclicDependency { parent: usize, child: usize },
}

/// A plan: a graph with a node for each recipe to install and an edge from each recipe
/// to each recipe that it depends on.
pub struct LockPlan {
    dependency_graph: DependencyGraph,
    /// The recipe (its index in the store) of each node.
    recipe_nodes: Vec<usize>,
}

/// The `k`-th dependency of the recipe with index `recipe`, as a name and requirement.
pub open spec fn dependency_match(store: Seq<Recipe>, recipe: int, k: int) -> Option<int> {
    let dependency = store[recipe].dependencies.versions@[k];
    first_match(store, dependency.0@, dependency.1@)
}

pub open spec fn dependency_count(store: Seq<Recipe>, recipe: int) -> int {
    store[recipe].dependencies.versions@.len() as int
}

/// Whether an edge leads from node `node` to a node of the recipe `recipe`.
pub open spec fn has_edge_to_recipe(
    nodes: Seq<usize>,
    edges: Seq<(int, int)>,
    node: int,
    recipe: int,
) -> bool {
    exists|e: int|
        0 <= e < edges.len() && (#[trigger] edges[e]).0 == node && nodes[edges[e].1] == recipe
}

/// Whether node `node` has edges for its recipe's first `count` dependencies.
pub open spec fn dependencies_planned(
    store: Seq<Recipe>,
    nodes: Seq<usize>,
    edges: Seq<(int, int)>,
    node: int,
    count: int,
) -> bool {
    forall|k: int|
        0 <= k < count ==> (#[trigger] dependency_match(store, nodes[node] as int, k) matches Some(
            recipe,
        ) && has_edge_to_recipe(nodes, edges, node, recipe))
}

/// Whether node `node` has edges for all of its recipe's dependencies.
pub open spec fn node_complete(
    store: Seq<Recipe>,
    nodes: Seq<usize>,
    edges: Seq<(int, int)>,
    node: int,
) -> bool {
    dependencies_planned(store, nodes, edges, node, dependency_count(store, nodes[node] as int))
}

/// Whether edge `e` leads from a recipe to one of its dependencies.
pub open spec fn edge_is_dependency(
    store: Seq<Recipe>,
    nodes: Seq<usize>,
    edges: Seq<(int, int)>,
    e: int,
) -> bool {
    exists|k: int|
        0 <= k < dependency_count(store, nodes[edges[e].0] as int) && #[trigger] dependency_match(
            store,
            nodes[edges[e].0] as int,
            k,
        ) == Some(nodes[edges[e].1] as int)
}

/// The structure of a plan for `store` that holds at all times: one node per recipe,
/// edges only between nodes and only from recipes to their dependencies, no cycle,
/// and every node complete unless it is in `pending`.
pub open spec fn plan_valid(
    store: Seq<Recipe>,
    nodes: Seq<usize>,
    edges: Seq<(int, int)>,
    pending: Set<int>,
) -> bool {
    &&& nodes.no_duplicates()
    &&& nodes.len() <= store.len()
    &&& forall|n: int| 0 <= n < nodes.len() ==> #[trigger] nodes[n] < store.len()
    &&& forall|e: int|
        0 <= e < edges.len() ==> 0 <= (#[trigger] edges[e]).0 < nodes.len() && 0 <= edges[e].1
            < nodes.len()
    &&& forall|e: int| 0 <= e < edges.len() ==> #[trigger] edge_is_dependency(store, nodes, edges, e)
    &&& acyclic(edges)
    &&& forall|n: int|
        0 <= n < nodes.len() && !pending.contains(n) ==> #[trigger] node_complete(
            store,
            nodes,
            edges,
            n,
        )
}

/// Whether `new` keeps everything of `old` and only adds to its end.
pub open spec fn extends<A>(old: Seq<A>, new: Seq<A>) -> bool {
    old.len() <= new.len() && new.take(old.len() as int) == old
}

proof fn lemma_distinct_bounded(nodes: Seq<usize>, bound: int, missing: usize)
    requires
        nodes.no_duplicates(),
        forall|n: int| 0 <= n < nodes.len() ==> #[trigger] nodes[n] < bound,
        missing < bound,
        !nodes.contains(missing),
    ensures
        nodes.len() < bound,
{
    let values = nodes.map_values(|v: usize| v as int);
    assert(values.no_duplicates()) by {
        assert forall|i: int, j: int|
            0 <= i < values.len() && 0 <= j < values.len() && i != j implies values[i]
            != values[j] by {
            assert(nodes[i] != nodes[j]);
        }
    }
    values.unique_seq_to_set();
    lemma_int_range(0, bound);
    let range = set_int_range(0, bound);
    assert(values.to_set().subset_of(range)) by {
        assert forall|v: int| values.to_set().contains(v) implies range.contains(v) by {
            let i = choose|i: int| 0 <= i < values.len() && values[i] == v;
            assert(nodes[i] < bound);
        }
    }
    assert(!values.to_set().contains(missing as int)) by {
        if values.to_set().contains(missing as int) {
            let i = choose|i: int| 0 <= i < values.len() && values[i] == missing as int;
            assert(nodes[i] == missing);
        }
    }
    values.to_set().lemma_subset_not_in_lt(range, missing as int);
}

/// Completeness and the other facts of a valid plan survive adding nodes and edges.
proof fn lemma_planned_extends(
    store: Seq<Recipe>,
    nodes: Seq<usize>,
    edges: Seq<(int, int)>,
    new_nodes: Seq<usize>,
    new_edges: Seq<(int, int)>,
    node: int,
    count: int,
)
    requires
        extends(nodes, new_nodes),
        extends(edges, new_edges),
        0 <= node < nodes.len(),
        forall|e: int|
            0 <= e < edges.len() ==> 0 <= (#[trigger] edges[e]).0 < nodes.len() && 0 <= edges[e].1
                < nodes.len(),
        dependencies_planned(store, nodes, edges, node, count),
    ensures
        dependencies_planned(store, new_nodes, new_edges, node, count),
{
    assert(new_nodes[node] == nodes[node]) by {
        assert(new_nodes.take(nodes.len() as int)[node] == new_nodes[node]);
    }
    assert forall|k: int| 0 <= k < count implies (#[trigger] dependency_match(
        store,
        new_nodes[node] as int,
        k,
    ) matches Some(recipe) && has_edge_to_recipe(new_nodes, new_edges, node, recipe)) by {
        let recipe = dependency_match(store, nodes[node] as int, k).unwrap();
        assert(has_edge_to_recipe(nodes, edges, node, recipe));
        let e = choose|e: int|
            0 <= e < edges.len() && (#[trigger] edges[e]).0 == node && nodes[edges[e].1] == recipe;
        assert(new_edges[e] == new_edges.take(edges.len() as int)[e]);
        assert(new_nodes[edges[e].1] == new_nodes.take(nodes.len() as int)[edges[e].1]);
        assert(new_edges[e] == edges[e]);
    }
}

/// Whether the first recipe for the package `name` in a version that meets `version`
/// already has a node among `nodes`.
pub open spec fn already_planned(
    store: Seq<Recipe>,
    nodes: Seq<usize>,
    name: Seq<char>,
    version: RequirementView,
) -> bool {
    first_match(store, name, version) matches Some(recipe) && nodes.contains(recipe as usize)
}

fn find_node(recipe_nodes: &Vec<usize>, recipe: usize) -> (r: Option<usize>)
    ensures
        match r {
            Some(node) => node < recipe_nodes@.len() && recipe_nodes@[node as int] == recipe,
            None => !recipe_nodes@.contains(recipe),
        },
{
    let mut i: usize = 0;
    while i < recipe_nodes.len()
        invariant
            i <= recipe_nodes@.len(),
            forall|j: int| 0 <= j < i ==> recipe_nodes@[j] != recipe,
        decreases recipe_nodes@.len() - i,
    {
        if recipe_nodes[i] == recipe {
            return Some(i);
        }
        i = i + 1;
    }
    None
}

impl LockPlan {
    /// The recipe (by index in the store) of each node.
    pub closed spec fn nodes(&self) -> Seq<usize> {
        self.recipe_nodes@
    }

    /// The edges of the plan, from recipes to their dependencies.
    pub closed spec fn edges(&self) -> Seq<(int, int)> {
        graph_edges(self.dependency_graph)
    }

    pub closed spec fn mirrors_graph(&self) -> bool {
        graph_nodes(self.dependency_graph) == self.recipe_nodes@
    }

    /// Whether this is a complete plan for the recipes of `store`.
    pub open spec fn valid(&self, store: Seq<Recipe>) -> bool {
        &&& self.mirrors_graph()
        &&& plan_valid(store, self.nodes(), self.edges(), Set::empty())
    }

    /// An empty plan.
    pub fn new() -> (r: LockPlan)
        ensures
            r.mirrors_graph(),
            r.nodes().len() == 0,
            r.edges().len() == 0,
            forall|store: Seq<Recipe>| r.valid(store),
    {
        let plan = LockPlan { dependency_graph: new_graph(), recipe_nodes: Vec::new() };
        proof {
            assert forall|store: Seq<Recipe>| plan.valid(store) by {
                assert forall|path: Seq<int>| #[trigger]
                    is_path(plan.edges(), path) && path.len() >= 2 implies path[0] != path.last() by {
                    assert(walk_step(plan.edges(), path, 0));
                }
            }
        }
        plan
    }

    /// Adds the first recipe of `recipes` for the package `name` in a version that meets
    /// `version`, with all of its run-time dependencies, to the plan; a plan that already
    /// holds that recipe is left as it is.
    pub fn add_recipe(&mut self, name: &str, version: &VersionRequirement, recipes: &RecipeStore) -> (r:
        Result<(), PlanError>)
        requires
            old(self).valid(recipes.recipes@),
        ensures
            extends(old(self).nodes(), final(self).nodes()),
            extends(old(self).edges(), final(self).edges()),
            match r {
                Ok(()) => {
                    &&& final(self).valid(recipes.recipes@)
                    &&& first_match(recipes.recipes@, name@, version@) matches Some(recipe)
                    &&& final(self).nodes().contains(recipe as usize)
                },
                Err(error) => error.explains(recipes.recipes@),
            },
            already_planned(recipes.recipes@, old(self).nodes(), name@, version@) ==> {
                &&& r is Ok
                &&& final(self).nodes() == old(self).nodes()
                &&& final(self).edges() == old(self).edges()
            },
    {
        match self.add_recipe_inner(name, version, recipes, Ghost(Set::empty())) {
            Ok((node, _)) => {
                proof {
                    assert(self.nodes()[node as int] == self.nodes()[node as int]);
                }
                Ok(())
            },
            Err(error) => Err(error),
        }
    }

    fn add_recipe_inner(
        &mut self,
        name: &str,
        version: &VersionRequirement,
        recipes: &RecipeStore,
        Ghost(pending): Ghost<Set<int>>,
    ) -> (r: Result<(usize, usize), PlanError>)
        requires
            plan_valid(recipes.recipes@, old(self).nodes(), old(self).edges(), pending),
            forall|n: int| #[trigger] pending.contains(n) ==> 0 <= n < old(self).nodes().len(),
            old(self).mirrors_graph(),
        ensures
            final(self).mirrors_graph(),
            extends(old(self).nodes(), final(self).nodes()),
            extends(old(self).edges(), final(self).edges()),
            match r {
                Ok((node, recipe)) => {
                    &&& plan_valid(recipes.recipes@, final(self).nodes(), final(self).edges(), pending)
                    &&& first_match(recipes.recipes@, name@, version@) == Some(recipe as int)
                    &&& node < final(self).nodes().len()
                    &&& final(self).nodes()[node as int] == recipe
                },
                Err(error) => error.explains(recipes.recipes@),
            },
            already_planned(recipes.recipes@, old(self).nodes(), name@, version@) ==> {
                &&& r is Ok
                &&& final(self).nodes() == old(self).nodes()
                &&& final(self).edges() == old(self).edges()
            },
        decreases recipes.recipes@.len() - old(self).nodes().len(),
    {
        let ghost store = recipes.recipes@;
        proof {
            assert(self.nodes().take(self.nodes().len() as int) =~= self.nodes());
            assert(self.edges().take(self.edges().len() as int) =~= self.edges());
        }
        let recipe = match recipes.find_index(name, version) {
            Ok(recipe) => recipe,
            Err(_) => {
                return Err(
                    PlanError::NoRecipeFound {
                        name: String::from_str(name),
                        version: version.duplicate(),
                    },
                );
            },
        };
        proof {
            lemma_first_match_bounds(store, name@, version@);
        }
        if let Some(node) = find_node(&self.recipe_nodes, recipe) {
            proof {
                assert(self.nodes().take(self.nodes().len() as int) =~= self.nodes());
                assert(self.edges().take(self.edges().len() as int) =~= self.edges());
            }
            return Ok((node, recipe));
        }
        proof {
            lemma_distinct_bounded(self.nodes(), store.len() as int, recipe);
            assert(!already_planned(store, self.nodes(), name@, version@));
        }
        let ghost old_nodes = self.nodes();
        let ghost old_edges = self.edges();
        let node = graph_add_node(&mut self.dependency_graph, recipe);
        self.recipe_nodes.push(recipe);
        let ghost pending_here = pending.insert(node as int);
        proof {
            let nodes = self.nodes();
            assert(nodes.take(old_nodes.len() as int) =~= old_nodes);
            assert(old_edges.take(old_edges.len() as int) =~= old_edges);
            assert(nodes.no_duplicates()) by {
                assert forall|i: int, j: int|
                    0 <= i < nodes.len() && 0 <= j < nodes.len() && i != j implies nodes[i]
                    != nodes[j] by {
                    if i < old_nodes.len() && j < old_nodes.len() {
                        assert(nodes[i] == old_nodes[i] && nodes[j] == old_nodes[j]);
                    } else if i < old_nodes.len() {
                        assert(nodes[i] == old_nodes[i]);
                        assert(old_nodes.contains(nodes[i]));
                    } else {
                        assert(nodes[j] == old_nodes[j]);
                        assert(old_nodes.contains(nodes[j]));
                    }
                }
            }
            assert forall|n: int| 0 <= n < nodes.len() implies #[trigger] nodes[n] < store.len() by {
                if n < old_nodes.len() {
                    assert(nodes[n] == old_nodes[n]);
                }
            }
            assert forall|e: int| 0 <= e < old_edges.len() implies #[trigger] edge_is_dependency(
                store,
                nodes,
                old_edges,
                e,
            ) by {
                assert(edge_is_dependency(store, old_nodes, old_edges, e));
                assert(nodes[old_edges[e].0] == old_nodes[old_edges[e].0]);
                assert(nodes[old_edges[e].1] == old_nodes[old_edges[e].1]);
            }
            assert forall|n: int|
                0 <= n < nodes.len() && !pending_here.contains(n) implies #[trigger] node_complete(
                store,
                nodes,
                old_edges,
                n,
            ) by {
                assert(node_complete(store, old_nodes, old_edges, n));
                lemma_planned_extends(
                    store,
                    old_nodes,
                    old_edges,
                    nodes,
                    old_edges,
                    n,
                    dependency_count(store, old_nodes[n] as int),
                );
                assert(nodes[n] == old_nodes[n]);
            }
            assert(plan_valid(store, nodes, old_edges, pending_here));
        }
        let dependencies = &recipes.recipes[recipe].dependencies.versions;
        let mut k: usize = 0;
        while k < dependencies.len()
            invariant
                store == recipes.recipes@,
                old_nodes == old(self).nodes(),
                old_edges == old(self).edges(),
                *dependencies == store[recipe as int].dependencies.versions,
                recipe < store.len(),
                k <= dependencies@.len(),
                node == old_nodes.len(),
                old_nodes.len() < store.len(),
                extends(old_nodes, self.nodes()),
                extends(old_edges, self.edges()),
                self.nodes().len() > node,
                self.nodes()[node as int] == recipe,
                plan_valid(store, self.nodes(), self.edges(), pending_here),
                pending_here == pending.insert(node as int),
                forall|n: int| #[trigger] pending.contains(n) ==> 0 <= n < old_nodes.len(),
                dependencies_planned(store, self.nodes(), self.edges(), node as int, k as int),
                self.mirrors_graph(),
                !already_planned(store, old_nodes, name@, version@),
            decreases dependencies@.len() - k,
        {
            let ghost before_nodes = self.nodes();
            let ghost before_edges = self.edges();
            let (child, child_recipe) = match self.add_recipe_inner(
                dependencies[k].0.as_str(),
                &dependencies[k].1,
                recipes,
                Ghost(pending_here),
            ) {
                Ok(found) => found,
                Err(error) => {
                    proof {
                        lemma_extends_transitive(old_nodes, before_nodes, self.nodes());
                        lemma_extends_transitive(old_edges, before_edges, self.edges());
                    }
                    return Err(error);
                },
            };
            let ghost middle_nodes = self.nodes();
            let ghost middle_edges = self.edges();
            let added = graph_add_edge(&mut self.dependency_graph, node, child);
            proof {
                lemma_extends_transitive(old_nodes, before_nodes, middle_nodes);
                lemma_extends_transitive(old_edges, before_edges, middle_edges);
                assert(middle_nodes[node as int] == recipe) by {
                    assert(middle_nodes.take(before_nodes.len() as int)[node as int]
                        == middle_nodes[node as int]);
                }
            }
            if !added {
                proof {
                    assert(self.edges() == middle_edges);
                    assert(dependency_match(store, recipe as int, k as int) == Some(
                        child_recipe as int,
                    ));
                    assert(reaches(middle_edges, child as int, node as int));
                    lemma_reaches_depends(
                        store,
                        middle_nodes,
                        middle_edges,
                        pending_here,
                        child as int,
                        node as int,
                    );
                }
                return Err(PlanError::CyclicDependency { parent: recipe, child: child_recipe });
            }
            proof {
                let nodes = self.nodes();
                let edges = self.edges();
                assert(nodes == middle_nodes);
                assert(edges == middle_edges.push((node as int, child as int)));
                assert(edges.take(middle_edges.len() as int) =~= middle_edges);
                assert(nodes.take(nodes.len() as int) =~= nodes);
                lemma_extends_transitive(old_edges, middle_edges, edges);
                let e_new = middle_edges.len() as int;
                assert(dependency_match(store, recipe as int, k as int) == Some(child_recipe as int));
                assert(edge_is_dependency(store, nodes, edges, e_new)) by {
                    assert(edges[e_new] == (node as int, child as int));
                }
                assert forall|e: int| 0 <= e < edges.len() implies #[trigger] edge_is_dependency(
                    store,
                    nodes,
                    edges,
                    e,
                ) by {
                    if e < middle_edges.len() {
                        assert(edges[e] == middle_edges[e]);
                        assert(edge_is_dependency(store, nodes, middle_edges, e));
                    }
                }
                assert forall|e: int| 0 <= e < edges.len() implies 0 <= (#[trigger] edges[e]).0
                    < nodes.len() && 0 <= edges[e].1 < nodes.len() by {
                    if e < middle_edges.len() {
                        assert(edges[e] == middle_edges[e]);
                    }
                }
                assert forall|n: int|
                    0 <= n < nodes.len() && !pending_here.contains(n) implies #[trigger] node_complete(
                    store,
                    nodes,
                    edges,
                    n,
                ) by {
                    assert(node_complete(store, middle_nodes, middle_edges, n));
                    lemma_planned_extends(
                        store,
                        middle_nodes,
                        middle_edges,
                        nodes,
                        edges,
                        n,
                        dependency_count(store, middle_nodes[n] as int),
                    );
                }
                lemma_planned_extends(
                    store,
                    before_nodes,
                    before_edges,
                    middle_nodes,
                    middle_edges,
                    node as int,
                    k as int,
                );
                lemma_planned_extends(
                    store,
                    middle_nodes,
                    middle_edges,
                    nodes,
                    edges,
                    node as int,
                    k as int,
                );
                assert(has_edge_to_recipe(nodes, edges, node as int, child_recipe as int)) by {
                    assert(edges[e_new].0 == node as int);
                    assert(nodes[edges[e_new].1] == child_recipe);
                }
                assert(dependencies_planned(store, nodes, edges, node as int, k + 1)) by {
                    assert forall|j: int| 0 <= j < k + 1 implies (#[trigger] dependency_match(
                        store,
                        nodes[node as int] as int,
                        j,
                    ) matches Some(dependency) && has_edge_to_recipe(nodes, edges, node as int, dependency)) by {
                        if j == k {
                        }
                    }
                }
                assert(plan_valid(store, nodes, edges, pending_here));
            }
            k = k + 1;
        }
        proof {
            let nodes = self.nodes();
            let edges = self.edges();
            assert(node_complete(store, nodes, edges, node as int));
            assert forall|n: int|
                0 <= n < nodes.len() && !pending.contains(n) implies #[trigger] node_complete(
                store,
                nodes,
                edges,
                n,
            ) by {
                if n != node {
                    assert(!pending_here.contains(n));
                }
            }
        }
        Ok((node, recipe))
    }

    /// The recipe (by index in the store) of each node, in node order.
    pub fn recipes(&self) -> (r: Vec<usize>)
        ensures
            r@ == self.nodes(),
    {
        self.recipe_nodes.clone()
    }

    /// The nodes that the edges from `node` lead to.
    pub fn children(&self, node: usize) -> (r: Vec<usize>)
        requires
            self.mirrors_graph(),
            node < self.nodes().len(),
        ensures
            forall|child: usize| #[trigger]
                r@.contains(child) <==> self.edges().contains((node as int, child as int)),
    {
        graph_children(&self.dependency_graph, node)
    }
}

proof fn lemma_extends_transitive<A>(a: Seq<A>, b: Seq<A>, c: Seq<A>)
    requires
        extends(a, b),
        extends(b, c),
    ensures
        extends(a, c),
{
    assert(c.take(a.len() as int) =~= c.take(b.len() as int).take(a.len() as int));
}

/// Whether the recipe with index `a` depends directly on the recipe with index `b`:
/// some dependency of `a` is matched first by `b`.
pub open spec fn depends_on(store: Seq<Recipe>, a: int, b: int) -> bool {
    &&& 0 <= a < store.len()
    &&& exists|k: int|
        0 <= k < dependency_count(store, a) && #[trigger] dependency_match(store, a, k) == Some(b)
}

/// Whether the recipe `from` depends, directly or through others, on the recipe `to`
/// (or is `to`).
pub open spec fn depends_transitively(store: Seq<Recipe>, from: int, to: int) -> bool {
    exists|path: Seq<int>|
        path.len() >= 1 && path[0] == from && path.last() == to && forall|i: int|
            0 <= i < path.len() - 1 ==> depends_on(store, #[trigger] path[i], path[i + 1])
}

/// A walk along the edges of a valid plan is a chain of dependencies.
proof fn lemma_reaches_depends(
    store: Seq<Recipe>,
    nodes: Seq<usize>,
    edges: Seq<(int, int)>,
    pending: Set<int>,
    from: int,
    to: int,
)
    requires
        plan_valid(store, nodes, edges, pending),
        reaches(edges, from, to),
        0 <= from < nodes.len(),
    ensures
        depends_transitively(store, nodes[from] as int, nodes[to] as int),
{
    let path = choose|path: Seq<int>| is_path(edges, path) && path[0] == from && path.last() == to;
    let recipes = path.map_values(|n: int| nodes[n] as int);
    assert forall|i: int| 0 <= i < recipes.len() - 1 implies depends_on(
        store,
        #[trigger] recipes[i],
        recipes[i + 1],
    ) by {
        assert(walk_step(edges, path, i));
        let e = choose|e: int| 0 <= e < edges.len() && edges[e] == (path[i], path[i + 1]);
        assert(edge_is_dependency(store, nodes, edges, e));
        assert(0 <= edges[e].0 < nodes.len());
        assert(nodes[edges[e].0] < store.len());
    }
    assert(recipes[0] == nodes[from] as int);
    assert(recipes.last() == nodes[to] as int);
}

impl PlanError {
    /// Whether the error is borne out by the recipes: no recipe matches the package,
    /// or the two recipes depend on each other, one directly and the other through a
    /// chain of dependencies.
    pub open spec fn explains(&self, store: Seq<Recipe>) -> bool {
        match *self {
            PlanError::NoRecipeFound { name, version } => first_match(store, name@, version@) is None,
            PlanError::CyclicDependency { parent, child } => {
                &&& depends_on(store, parent as int, child as int)
                &&& depends_transitively(store, child as int, parent as int)
            },
        }
    }
}

/// Whether every edge joins two of the first `count` nodes.
pub open spec fn edges_within(edges: Seq<(int, int)>, count: int) -> bool {
    forall|e: int|
        0 <= e < edges.len() ==> 0 <= (#[trigger] edges[e]).0 < count && 0 <= edges[e].1 < count
}

/// A plan whose recipes have their downloads locked, ready to be hashed.
pub struct HashPlan {
    plan: LockPlan,
    /// The download lock of each node's recipe.
    locks: Vec<DownloadLock>,
}

/// A recipe (by index in the store) with its download lock and its hash.
#[derive(Debug)]
pub struct HashedRecipe {
    pub recipe: usize,
    pub lock: DownloadLock,
    pub hash: u64,
}

impl LockPlan {
    /// Gives each node's recipe its download lock, in node order.
    pub fn lock(self, store: &RecipeStore, locks: Vec<DownloadLock>) -> (r: HashPlan)
        requires
            self.valid(store.recipes@),
            locks@.len() == self.nodes().len(),
        ensures
            r.nodes() == self.nodes(),
            r.edges() == self.edges(),
            r.locks() == locks@,
    {
        HashPlan { plan: self, locks }
    }
}

/// Distinct integers below `bound` are at most `bound` many.
proof fn lemma_distinct_below(values: Seq<int>, bound: int)
    requires
        values.no_duplicates(),
        bound >= 0,
        forall|i: int| 0 <= i < values.len() ==> 0 <= #[trigger] values[i] < bound,
    ensures
        values.len() <= bound,
{
    values.unique_seq_to_set();
    lemma_int_range(0, bound);
    let range = set_int_range(0, bound);
    assert(values.to_set().subset_of(range)) by {
        assert forall|v: int| values.to_set().contains(v) implies range.contains(v) by {
            let i = choose|i: int| 0 <= i < values.len() && values[i] == v;
            assert(0 <= values[i] < bound);
        }
    }
    vstd::set_lib::lemma_len_subset(values.to_set(), range);
}

/// A walk followed by an edge from its end is a walk.
proof fn lemma_walk_push(edges: Seq<(int, int)>, path: Seq<int>, child: int)
    requires
        is_path(edges, path),
        edges.contains((path.last(), child)),
    ensures
        is_path(edges, path.push(child)),
{
    let longer = path.push(child);
    assert forall|i: int| 0 <= i < longer.len() - 1 implies #[trigger] walk_step(edges, longer, i) by {
        if i < path.len() - 1 {
            assert(walk_step(edges, path, i));
            assert(longer[i] == path[i] && longer[i + 1] == path[i + 1]);
        } else {
            assert(longer[i] == path.last() && longer[i + 1] == child);
        }
    }
}

/// The part of a walk from position `i` on is a walk.
proof fn lemma_walk_suffix(edges: Seq<(int, int)>, path: Seq<int>, i: int)
    requires
        is_path(edges, path),
        0 <= i < path.len(),
    ensures
        is_path(edges, path.subrange(i, path.len() as int)),
{
    let rest = path.subrange(i, path.len() as int);
    assert forall|k: int| 0 <= k < rest.len() - 1 implies #[trigger] walk_step(edges, rest, k) by {
        assert(walk_step(edges, path, i + k));
        assert(rest[k] == path[i + k] && rest[k + 1] == path[i + k + 1]);
    }
}

/// A walk in an acyclic graph that ends where an edge to `child` starts does not pass
/// `child`, so it can be extended by that edge without repeating a node.
proof fn lemma_walk_extends(edges: Seq<(int, int)>, path: Seq<int>, child: int)
    requires
        acyclic(edges),
        is_path(edges, path),
        path.no_duplicates(),
        edges.contains((path.last(), child)),
    ensures
        is_path(edges, path.push(child)),
        path.push(child).no_duplicates(),
{
    let longer = path.push(child);
    lemma_walk_push(edges, path, child);
    assert(!path.contains(child)) by {
        if path.contains(child) {
            let i = choose|i: int| 0 <= i < path.len() && path[i] == child;
            lemma_walk_suffix(edges, longer, i);
            let cycle = longer.subrange(i, longer.len() as int);
            assert(cycle[0] == child);
            assert(cycle.last() == child);
            assert(cycle.len() >= 2);
        }
    }
    assert forall|i: int, j: int| 0 <= i < longer.len() && 0 <= j < longer.len() && i != j implies longer[i] != longer[j] by {
        if i < path.len() && j < path.len() {
            assert(longer[i] == path[i] && longer[j] == path[j]);
        } else if i < path.len() {
            assert(longer[i] == path[i] && longer[j] == child);
        } else {
            assert(longer[j] == path[j] && longer[i] == child);
        }
    }
}

/// An edge from `a` to `b` followed by a walk from `b` to `c` is a walk from `a` to `c`.
proof fn lemma_reaches_prepend(edges: Seq<(int, int)>, a: int, b: int, c: int)
    requires
        edges.contains((a, b)),
        reaches(edges, b, c),
    ensures
        reaches(edges, a, c),
{
    let path = choose|path: Seq<int>| is_path(edges, path) && path[0] == b && path.last() == c;
    let longer = seq![a] + path;
    assert forall|i: int| 0 <= i < longer.len() - 1 implies #[trigger] walk_step(edges, longer, i) by {
        if i == 0 {
            assert(longer[0] == a && longer[1] == b);
        } else {
            assert(walk_step(edges, path, i - 1));
            assert(longer[i] == path[i - 1] && longer[i + 1] == path[i]);
        }
    }
    assert(longer[0] == a);
    assert(longer.last() == c);
}

/// The input from which a recipe's hash is computed: its build, its download lock and
/// the set of the hashes of the recipes it depends on.
fn hash_input<'a>(build: &'a Build, lock: &'a DownloadLock, dependencies: BTreeSet<u64>) -> (r: (
    &'a Build,
    &'a DownloadLock,
    BTreeSet<u64>,
))
    ensures
        r.0 == build,
        r.1 == lock,
        r.2@ == dependencies@,
{
    (build, lock, dependencies)
}

/// Integers of type `u64` obey the laws of ordering that `BTreeSet` relies on.
proof fn lemma_u64_ordered()
    ensures
        vstd::laws_cmp::obeys_cmp::<u64>(),
{
    broadcast use vstd::laws_cmp::group_laws_cmp;
}

/// The hashes that `hashes` holds for the nodes that edges from `node` lead to.
pub open spec fn child_hashes(edges: Seq<(int, int)>, node: int, hashes: Seq<u64>) -> Set<u64> {
    Set::new(
        |h: u64|
            exists|c: int| edges.contains((node, c)) && 0 <= c < hashes.len() && #[trigger] hashes[c] == h,
    )
}

impl HashPlan {
    #[verifier::type_invariant]
    closed spec fn well_formed(self) -> bool {
        &&& self.plan.mirrors_graph()
        &&& acyclic(self.plan.edges())
        &&& edges_within(self.plan.edges(), self.plan.nodes().len() as int)
        &&& self.locks@.len() == self.plan.nodes().len()
    }

    /// The recipe (by index in the store) of each node.
    pub closed spec fn nodes(&self) -> Seq<usize> {
        self.plan.nodes()
    }

    /// The edges from recipes to their dependencies.
    pub closed spec fn edges(&self) -> Seq<(int, int)> {
        self.plan.edges()
    }

    /// The download lock of each node's recipe.
    pub closed spec fn locks(&self) -> Seq<DownloadLock> {
        self.locks@
    }

    /// The hash of a node: of the input that `hash_input` forms from its recipe's build,
    /// its lock and the set of the hashes of the nodes it depends on, each computed once
    /// and kept in `hashes` (where 0 stands for not yet computed). `path` is the walk
    /// that led here.
    fn hash_node(
        &self,
        store: &RecipeStore,
        node: usize,
        hashes: &mut Vec<u64>,
        Ghost(path): Ghost<Seq<int>>,
    ) -> (r: u64)
        requires
            node < self.nodes().len(),
            forall|n: int| 0 <= n < self.nodes().len() ==> #[trigger] self.nodes()[n] < store.recipes@.len(),
            old(hashes)@.len() == self.nodes().len(),
            is_path(self.edges(), path),
            path.no_duplicates(),
            path.last() == node,
            forall|i: int| 0 <= i < path.len() ==> 0 <= #[trigger] path[i] < self.nodes().len(),
        ensures
            final(hashes)@.len() == old(hashes)@.len(),
            r == final(hashes)@[node as int],
            old(hashes)@[node as int] != 0 ==> r == old(hashes)@[node as int] && final(hashes)@
                == old(hashes)@,
            forall|n: int|
                0 <= n < old(hashes)@.len() && old(hashes)@[n] != 0 ==> #[trigger] final(hashes)@[n]
                    == old(hashes)@[n],
            forall|n: int|
                0 <= n < old(hashes)@.len() && #[trigger] final(hashes)@[n] != old(hashes)@[n]
                    ==> reaches(self.edges(), node as int, n),
        decreases self.nodes().len() - path.len(), 1int,
    {
        proof {
            use_type_invariant(self);
            lemma_distinct_below(path, self.nodes().len() as int);
        }
        let cached = hashes[node];
        if cached != 0 {
            return cached;
        }
        let dependencies = self.dependency_hashes(store, node, hashes, Ghost(path));
        let recipe = &store.recipes[self.plan.recipe_nodes[node]];
        let input = hash_input(&recipe.build, &self.locks[node], dependencies);
        let hash = quality_hash(&input);
        hashes.set(node, hash);
        proof {
            let single: Seq<int> = seq![node as int];
            assert(is_path(self.edges(), single));
            assert(single[0] == node as int && single.last() == node as int);
            assert(reaches(self.edges(), node as int, node as int));
        }
        hash
    }

    /// The set of the hashes of the nodes that `node` depends on, computing each (through
    /// `hash_node`) where `hashes` does not hold it yet. A hash of 0 counts as not yet
    /// computed, so a dependency whose hash is 0 may be hashed again later; that is the
    /// one case in which the set may hold 0 in place of a dependency's final entry.
    fn dependency_hashes(
        &self,
        store: &RecipeStore,
        node: usize,
        hashes: &mut Vec<u64>,
        Ghost(path): Ghost<Seq<int>>,
    ) -> (r: BTreeSet<u64>)
        requires
            node < self.nodes().len(),
            forall|n: int| 0 <= n < self.nodes().len() ==> #[trigger] self.nodes()[n] < store.recipes@.len(),
            old(hashes)@.len() == self.nodes().len(),
            is_path(self.edges(), path),
            path.no_duplicates(),
            path.last() == node,
            forall|i: int| 0 <= i < path.len() ==> 0 <= #[trigger] path[i] < self.nodes().len(),
        ensures
            final(hashes)@.len() == old(hashes)@.len(),
            forall|n: int|
                0 <= n < old(hashes)@.len() && old(hashes)@[n] != 0 ==> #[trigger] final(hashes)@[n]
                    == old(hashes)@[n],
            forall|n: int|
                0 <= n < old(hashes)@.len() && #[trigger] final(hashes)@[n] != old(hashes)@[n]
                    ==> reaches(self.edges(), node as int, n),
            forall|h: u64|
                #[trigger] r@.contains(h) && h != 0 ==> child_hashes(
                    self.edges(),
                    node as int,
                    final(hashes)@,
                ).contains(h),
            forall|c: int|
                #[trigger] self.edges().contains((node as int, c)) ==> r@.contains(
                    final(hashes)@[c],
                ) || r@.contains(0),
        decreases self.nodes().len() - path.len(), 0int,
    {
        proof {
            use_type_invariant(self);
            lemma_distinct_below(path, self.nodes().len() as int);
        }
        proof {
            lemma_u64_ordered();
        }
        let ghost initial = hashes@;
        let children = self.plan.children(node);
        let mut dependencies: BTreeSet<u64> = BTreeSet::new();
        let mut k: usize = 0;
        while k < children.len()
            invariant
                self.plan.mirrors_graph(),
                acyclic(self.plan.edges()),
                edges_within(self.plan.edges(), self.plan.nodes().len() as int),
                node < self.nodes().len(),
                forall|n: int| 0 <= n < self.nodes().len() ==> #[trigger] self.nodes()[n] < store.recipes@.len(),
                hashes@.len() == self.nodes().len(),
                is_path(self.edges(), path),
                path.no_duplicates(),
                path.last() == node,
                path.len() <= self.nodes().len(),
                forall|i: int| 0 <= i < path.len() ==> 0 <= #[trigger] path[i] < self.nodes().len(),
                forall|child: usize| #[trigger]
                    children@.contains(child) <==> self.edges().contains((node as int, child as int)),
                k <= children@.len(),
                initial.len() == hashes@.len(),
                forall|n: int|
                    0 <= n < initial.len() && initial[n] != 0 ==> #[trigger] hashes@[n] == initial[n],
                forall|n: int|
                    0 <= n < initial.len() && #[trigger] hashes@[n] != initial[n] ==> reaches(
                        self.edges(),
                        node as int,
                        n,
                    ),
                forall|h: u64|
                    #[trigger] dependencies@.contains(h) && h != 0 ==> child_hashes(
                        self.edges(),
                        node as int,
                        hashes@,
                    ).contains(h),
                forall|j: int|
                    0 <= j < k ==> dependencies@.contains(hashes@[#[trigger] children@[j] as int])
                        || dependencies@.contains(0),
            decreases children@.len() - k,
        {
            let child = children[k];
            proof {
                assert(children@.contains(child));
                let e = choose|e: int|
                    0 <= e < self.edges().len() && self.edges()[e] == (node as int, child as int);
                assert(0 <= self.edges()[e].1 < self.nodes().len());
                lemma_walk_extends(self.edges(), path, child as int);
                lemma_distinct_below(path.push(child as int), self.nodes().len() as int);
            }
            let ghost longer = path.push(child as int);
            let ghost before = hashes@;
            let ghost before_set = dependencies@;
            let child_hash = self.hash_node(store, child, hashes, Ghost(longer));
            dependencies.insert(child_hash);
            proof {
                assert forall|n: int|
                    0 <= n < initial.len() && #[trigger] hashes@[n] != initial[n] implies reaches(
                    self.edges(),
                    node as int,
                    n,
                ) by {
                    if before[n] != initial[n] {
                    } else {
                        assert(hashes@[n] != before[n]);
                        lemma_reaches_prepend(self.edges(), node as int, child as int, n);
                    }
                }
                assert forall|h: u64|
                    #[trigger] dependencies@.contains(h) && h != 0 implies child_hashes(
                    self.edges(),
                    node as int,
                    hashes@,
                ).contains(h) by {
                    if h == child_hash {
                        assert(self.edges().contains((node as int, child as int)));
                        assert(hashes@[child as int] == h);
                    } else {
                        assert(before_set.contains(h));
                        assert(child_hashes(self.edges(), node as int, before).contains(h));
                        let c = choose|c: int|
                            self.edges().contains((node as int, c)) && 0 <= c < before.len()
                                && before[c] == h;
                        assert(hashes@[c] == h);
                    }
                }
                assert forall|j: int|
                    0 <= j < k + 1 implies dependencies@.contains(
                    hashes@[#[trigger] children@[j] as int],
                ) || dependencies@.contains(0) by {
                    if j < k {
                        let c = children@[j] as int;
                        assert(children@.contains(children@[j]));
                        if before_set.contains(before[c]) && before[c] != 0 {
                            assert(hashes@[c] == before[c]);
                        }
                    }
                }
            }
            k = k + 1;
        }
        let count = hashes.len();
        proof {
            assert forall|c: int|
                #[trigger] self.edges().contains((node as int, c)) implies dependencies@.contains(
                hashes@[c],
            ) || dependencies@.contains(0) by {
                let e = choose|e: int| 0 <= e < self.edges().len() && self.edges()[e] == (node as int, c);
                assert(0 <= self.edges()[e].1 < self.nodes().len());
                assert(0 <= c < count);
                let child = c as usize;
                assert(child as int == c);
                assert(self.edges().contains((node as int, child as int)));
                assert(children@.contains(child));
                let j = choose|j: int| 0 <= j < children@.len() && children@[j] == child;
                assert(dependencies@.contains(hashes@[children@[j] as int]) || dependencies@.contains(0));
            }
        }
        dependencies
    }

    /// Hashes every recipe of the plan, in node order, each from the input that
    /// `hash_input` forms of its build, its lock and the set that `dependency_hashes`
    /// forms of the hashes of the recipes it depends on. Each result keeps its node's
    /// recipe and lock; the hash values themselves are computed by `Hash` impls, differ
    /// between machines, and no contract states them.
    pub fn hash(self, store: &RecipeStore) -> (r: Vec<HashedRecipe>)
        requires
            forall|n: int| 0 <= n < self.nodes().len() ==> #[trigger] self.nodes()[n] < store.recipes@.len(),
        ensures
            r@.len() == self.nodes().len(),
            forall|n: int|
                0 <= n < r@.len() ==> (#[trigger] r@[n]).recipe == self.nodes()[n] && r@[n].lock
                    == self.locks()[n],
    {
        proof {
            use_type_invariant(&self);
        }
        let count = self.plan.recipe_nodes.len();
        let mut hashes: Vec<u64> = Vec::new();
        let mut k: usize = 0;
        while k < count
            invariant
                k <= count,
                hashes@.len() == k,
            decreases count - k,
        {
            hashes.push(0);
            k = k + 1;
        }
        let mut computed: Vec<u64> = Vec::new();
        let mut node: usize = 0;
        while node < count
            invariant
                count == self.nodes().len(),
                forall|n: int| 0 <= n < self.nodes().len() ==> #[trigger] self.nodes()[n] < store.recipes@.len(),
                hashes@.len() == count,
                computed@.len() == node,
                node <= count,
            decreases count - node,
        {
            let ghost start: Seq<int> = seq![node as int];
            proof {
                assert(is_path(self.edges(), start));
                assert(start.no_duplicates());
            }
            let hash = self.hash_node(store, node, &mut hashes, Ghost(start));
            computed.push(hash);
            node = node + 1;
        }
        let ghost nodes = self.nodes();
        let ghost all_locks = self.locks();
        let HashPlan { plan, locks } = self;
        let mut remaining = locks;
        let mut hashed: Vec<HashedRecipe> = Vec::new();
        let mut node: usize = 0;
        while node < count
            invariant
                count == nodes.len(),
                plan.recipe_nodes@ == nodes,
                computed@.len() == count,
                all_locks.len() == count,
                node <= count,
                remaining@ == all_locks.skip(node as int),
                hashed@.len() == node,
                forall|n: int|
                    0 <= n < node ==> (#[trigger] hashed@[n]).recipe == nodes[n] && hashed@[n].lock
                        == all_locks[n],
            decreases count - node,
        {
            let lock = remaining.remove(0);
            proof {
                assert(remaining@ =~= all_locks.skip(node + 1));
            }
            hashed.push(HashedRecipe { recipe: plan.recipe_nodes[node], lock, hash: computed[node] });
            node = node + 1;
        }
        hashed
    }
}

} // verus!
