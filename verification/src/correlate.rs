//! The correlator: binds a raw metric record name to a graph entity under
//! the name-prefix policy.
//!
//! Raw names carry run-time-generated suffixes while the graph holds the
//! static names from the description, so matching is deliberately by prefix
//! of the normalized raw name, never by exact equality. Node-scoped records
//! bind to the first matching node in insertion order; latency records bind
//! to the first edge whose target node matches the record's `to` name — the
//! target endpoint is this library's fixed choice of matching rule.

use vstd::prelude::*;

use crate::graph::PipelineGraph;
use crate::text::prefix_match;
use crate::text::prefix_match_spec;

verus! {

/// The lowest-indexed node whose id matches the raw name under the prefix
/// policy, or nothing when no node matches.
pub fn correlate_node(g: &PipelineGraph, raw_name: &str) -> (r: Option<usize>)
    ensures
        match r {
            Some(i) => i < g.nodes().len() && prefix_match_spec(g.nodes()[i as int], raw_name@)
                && (forall|j: int|
                0 <= j < i ==> !prefix_match_spec(#[trigger] g.nodes()[j], raw_name@)),
            None => forall|j: int|
                0 <= j < g.nodes().len() ==> !prefix_match_spec(
                    #[trigger] g.nodes()[j],
                    raw_name@,
                ),
        },
{
    let n = g.node_count();
    let mut i: usize = 0;
    while i < n
        invariant
            0 <= i <= n,
            n == g.nodes().len(),
            forall|j: int| 0 <= j < i ==> !prefix_match_spec(#[trigger] g.nodes()[j], raw_name@),
        decreases n - i,
    {
        let id = g.node_id(i);
        if prefix_match(id.as_str(), raw_name) {
            return Some(i);
        }
        i += 1;
    }
    None
}

/// The lowest-indexed edge whose target node's id matches the record's `to`
/// name under the prefix policy, or nothing when no edge matches.
pub fn correlate_edge(g: &PipelineGraph, to_raw: &str) -> (r: Option<usize>)
    requires
        g.wf(),
    ensures
        match r {
            Some(e) => e < g.edges().len() && prefix_match_spec(
                g.nodes()[g.edges()[e as int].1],
                to_raw@,
            ) && (forall|j: int|
                0 <= j < e ==> !prefix_match_spec(
                    g.nodes()[(#[trigger] g.edges()[j]).1],
                    to_raw@,
                )),
            None => forall|j: int|
                0 <= j < g.edges().len() ==> !prefix_match_spec(
                    g.nodes()[(#[trigger] g.edges()[j]).1],
                    to_raw@,
                ),
        },
{
    let n = g.edge_count();
    let mut i: usize = 0;
    while i < n
        invariant
            0 <= i <= n,
            g.wf(),
            n == g.edges().len(),
            forall|j: int|
                0 <= j < i ==> !prefix_match_spec(g.nodes()[(#[trigger] g.edges()[j]).1], to_raw@),
        decreases n - i,
    {
        let (_, target) = g.edge_at(i);
        let id = g.node_id(target);
        if prefix_match(id.as_str(), to_raw) {
            return Some(i);
        }
        i += 1;
    }
    None
}

} // verus!
