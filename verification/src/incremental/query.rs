//! Running queries: each result is cached by key and input fingerprint, and the
//! query that asked for it is recorded as depending on it.

use vstd::prelude::*;
use vstd::string::StringSliceAdditionalSpecFns;
use crate::text::{chars_of, string_from_chars};
use super::cache::{Cache, CacheEntry};
use super::dep_graph::{DepGraph, DepNode, NodeView, contains_node, node_view, node_views};
use super::fingerprint::{Fingerprint, fingerprint_of_bytes};

verus! {

#[derive(Debug, Clone)]
pub struct QueryError {
    pub message: String,
}

impl QueryError {
    pub fn new(message: &str) -> (e: Self)
        ensures
            e.message@ == message@,
    {
        QueryError { message: string_from_chars(&chars_of(message)) }
    }
}

/// The message of the error for a query that asks for itself.
pub open spec fn cycle_message(query: Seq<char>) -> Seq<char> {
    "cycle detected while evaluating `"@ + query + "`"@
}

/// Runs queries, keeping the dependency graph and the stack of queries under way.
#[derive(Debug)]
pub struct QueryEngine {
    dep_graph: DepGraph,
    stack: Vec<DepNode>,
}

impl QueryEngine {
    /// The dependency graph's edges.
    pub closed spec fn graph(&self) -> Set<(NodeView, NodeView)> {
        self.dep_graph@
    }

    /// The queries under way, the innermost last.
    pub closed spec fn active(&self) -> Seq<NodeView> {
        node_views(self.stack@)
    }

    pub fn new() -> (e: Self)
        ensures
            e.graph() == Set::<(NodeView, NodeView)>::empty(),
            e.active() == Seq::<NodeView>::empty(),
    {
        let e = QueryEngine { dep_graph: DepGraph::default(), stack: Vec::new() };
        assert(e.active() =~= Seq::<NodeView>::empty());
        e
    }

    pub fn dep_graph(&self) -> (g: &DepGraph)
        ensures
            g@ == self.graph(),
    {
        &self.dep_graph
    }

    pub fn dep_graph_mut(&mut self) -> (g: &mut DepGraph)
        ensures
            g@ == old(self).graph(),
            final(self).graph() == final(g)@,
            final(self).active() == old(self).active(),
    {
        &mut self.dep_graph
    }

    /// Runs `compute` for `key`, or takes its result from `cache` when the cache holds one
    /// stored with `input_fingerprint`. The query under way, if any, is recorded as
    /// depending on this one; a query that asks for itself while under way fails.
    pub fn execute<V: Clone, F: FnOnce(&mut QueryEngine) -> Result<V, QueryError>>(
        &mut self,
        cache: &mut Cache<V>,
        query: &'static str,
        key: &str,
        input_fingerprint: Fingerprint,
        compute: F,
    ) -> (r: Result<V, QueryError>)
        requires
            forall|e: &mut QueryEngine| compute.requires((e,)),
        ensures
            final(self).active() == old(self).active(),
            ({
                let nv = query_node(query@, key.spec_bytes());
                let g = with_parent_edge(old(self).graph(), old(self).active(), nv);
                if old(self).active().contains(nv) {
                    &&& r == Err::<V, QueryError>(QueryError { message: r->Err_0.message })
                    &&& r->Err_0.message@ == cycle_message(query@)
                    &&& final(cache)@ == old(cache)@
                    &&& final(self).graph() == g
                } else if old(cache)@.contains_key(key@) && old(cache)@[key@].fingerprint == input_fingerprint {
                    &&& r is Ok
                    &&& cloned(old(cache)@[key@].value, r->Ok_0)
                    &&& final(cache)@ == old(cache)@
                    &&& final(self).graph() == g
                } else {
                    &&& exists|e: &mut QueryEngine| compute.ensures((e,), r)
                    &&& r matches Ok(v) ==> exists|c: V| cloned(v, c)
                        && final(cache)@ == old(cache)@.insert(key@, CacheEntry { fingerprint: input_fingerprint, value: c })
                    &&& r is Err ==> final(cache)@ == old(cache)@
                }
            }),
    {
        let node = DepNode::new(query, Fingerprint::of(key));
        let ghost nv = node_view(node);
        if self.stack.len() > 0 {
            let parent = self.stack[self.stack.len() - 1];
            self.dep_graph.add_dependency(parent, node);
        }
        if contains_node(&self.stack, &node) {
            let mut message = chars_of("cycle detected while evaluating `");
            let mut name = chars_of(query);
            message.append(&mut name);
            message.push('`');
            proof {
                reveal_strlit("cycle detected while evaluating `");
                reveal_strlit("`");
                assert(message@ =~= cycle_message(query@));
            }
            return Err(QueryError { message: string_from_chars(&message) });
        }
        match cache.get_if_fresh(key, input_fingerprint) {
            Some(value) => {
                return Ok(value.clone());
            },
            None => {},
        }
        self.dep_graph.clear_dependencies(node);
        let saved = self.stack.clone();
        self.stack.push(node);
        let result = compute(self);
        self.stack = saved;
        match result {
            Ok(value) => {
                let stored = value.clone();
                let ghost c0 = cache@;
                cache.insert(key, input_fingerprint, stored);
                assert(cloned(value, stored));
                assert(cache@ == c0.insert(key@, CacheEntry { fingerprint: input_fingerprint, value: stored }));
                assert(exists|c: V| cloned(value, c) && cache@ == c0.insert(key@, CacheEntry { fingerprint: input_fingerprint, value: c }));
                Ok(value)
            },
            Err(error) => Err(error),
        }
    }
}

/// The node of a query's result: the query's name and the fingerprint of its key.
pub open spec fn query_node(query: Seq<char>, key_bytes: Seq<u8>) -> NodeView {
    NodeView { query, key: fingerprint_of_bytes(key_bytes) }
}

/// The graph with the edge from the innermost query under way to `n`, if a query is under way.
pub open spec fn with_parent_edge(g: Set<(NodeView, NodeView)>, active: Seq<NodeView>, n: NodeView) -> Set<(NodeView, NodeView)> {
    if active.len() > 0 {
        g.insert((active.last(), n))
    } else {
        g
    }
}

} // verus!
