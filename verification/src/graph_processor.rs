//! The three pipelines over the raw graph: threshold filtering with
//! connectivity-driven node pruning (`process_graph_data`), resolution of
//! string-keyed links to node positions (`resolve_links`), and the fused
//! form of the two (`process_and_resolve_graph`). Each promises exactly
//! the model functions of its inputs.

use crate::idents::{ident_map_view, ident_set_view, IdentIndexMap, IdentSet};
use crate::model::{
    center_ident, connected_idents, filtered_nodes, fused_links, index_map_of,
    lemma_connected_idents_push, lemma_filtered_nodes_push, lemma_fused_links_push,
    lemma_index_map_push, lemma_links_of_push, lemma_node_keys_push, lemma_resolved_links_push,
    lemma_surviving_edges_push, links_of, node_keys, resolved_links_of, surviving_edges,
};
use crate::normalize::normalize;
use crate::types::{
    graph_node_of, Artist, Edge, GraphLink, GraphNode, ProcessedGraph, ResolvedGraph, ResolvedLink,
};
use vstd::prelude::*;

verus! {

/// Whether an already-normalized center name stands for the given center
/// identity key.
spec fn holds_center_key(center_normalized: Option<String>, center_key: Option<Seq<char>>) -> bool {
    match center_normalized {
        Some(name) => center_key == Some(name@),
        None => center_key is None,
    }
}

/// Normalize the optional center name once, up front.
fn normalize_center(center_artist: &Option<String>) -> (center_normalized: Option<String>)
    ensures
        holds_center_key(center_normalized, center_ident(*center_artist)),
{
    match center_artist {
        Some(name) => Some(normalize(name.as_str())),
        None => None,
    }
}

/// Process a raw artist graph into its render-ready form: keep the edges
/// whose weight reaches the threshold, keep the nodes connected through a
/// surviving edge or matching the center name (tagging the center), and
/// re-materialize the surviving edges whose both endpoints survived as
/// string-keyed links. Order and weights pass through unchanged.
pub fn process_graph_data(
    nodes: Vec<Artist>,
    edges: Vec<Edge>,
    center_artist: Option<String>,
    threshold: u32,
) -> (result: ProcessedGraph)
    ensures
        result.nodes@ == filtered_nodes(
            nodes@,
            connected_idents(edges@, threshold),
            center_ident(center_artist),
        ),
        result.links@ == links_of(
            surviving_edges(edges@, threshold),
            node_keys(
                filtered_nodes(
                    nodes@,
                    connected_idents(edges@, threshold),
                    center_ident(center_artist),
                ),
            ),
        ),
{
    let ghost nodes_seq = nodes@;
    let ghost edges_seq = edges@;
    let ghost center_key = center_ident(center_artist);

    let center_normalized = normalize_center(&center_artist);

    // Single pass over the edges: filter by threshold and collect the
    // identity keys of every surviving endpoint.
    let mut connected = IdentSet::new();
    let mut filtered_edges: Vec<Edge> = Vec::new();

    for edge in edge_iter: edges.into_iter()
        invariant
            edge_iter.seq() == edges_seq,
            ident_set_view(connected) == connected_idents(
                edge_iter.seq().take(edge_iter.index()),
                threshold,
            ),
            filtered_edges@ == surviving_edges(edge_iter.seq().take(edge_iter.index()), threshold),
    {
        let ghost prefix = edge_iter.seq().take(edge_iter.index());
        proof {
            assert(edge_iter.seq().take(edge_iter.index() + 1) =~= prefix.push(edge));
            lemma_surviving_edges_push(prefix, edge, threshold);
            lemma_connected_idents_push(prefix, edge, threshold);
        }
        if edge.weight >= threshold {
            let source_key = normalize(edge.source.as_str());
            let target_key = normalize(edge.target.as_str());
            connected.insert(source_key);
            connected.insert(target_key);
            filtered_edges.push(edge);
        }
    }
    proof {
        assert(edges_seq.take(edges_seq.len() as int) =~= edges_seq);
    }

    // Single pass over the nodes: keep the connected ones and the center,
    // tag the center, and collect the surviving identity keys.
    let ghost connected_keys = connected_idents(edges_seq, threshold);
    let mut graph_nodes: Vec<GraphNode> = Vec::new();
    let mut survivor_keys = IdentSet::new();

    for artist in node_iter: nodes.into_iter()
        invariant
            node_iter.seq() == nodes_seq,
            ident_set_view(connected) == connected_keys,
            holds_center_key(center_normalized, center_key),
            graph_nodes@ == filtered_nodes(
                node_iter.seq().take(node_iter.index()),
                connected_keys,
                center_key,
            ),
            ident_set_view(survivor_keys) == node_keys(graph_nodes@),
    {
        let ghost prefix = node_iter.seq().take(node_iter.index());
        proof {
            assert(node_iter.seq().take(node_iter.index() + 1) =~= prefix.push(artist));
            lemma_filtered_nodes_push(prefix, artist, connected_keys, center_key);
        }
        let key = normalize(artist.name.as_str());
        let is_connected = connected.contains(key.as_str());
        let is_center = match &center_normalized {
            Some(center) => *center == key,
            None => false,
        };
        if is_connected || is_center {
            proof {
                lemma_node_keys_push(graph_nodes@, graph_node_of(artist, is_center));
            }
            survivor_keys.insert(key);
            let mut node = GraphNode::from(artist);
            node.is_center = is_center;
            graph_nodes.push(node);
        }
    }
    proof {
        assert(nodes_seq.take(nodes_seq.len() as int) =~= nodes_seq);
    }

    // Single pass over the surviving edges: emit a link exactly when both
    // endpoints survived node filtering, with the original casing.
    let ghost final_keys = node_keys(graph_nodes@);
    let ghost survivors = surviving_edges(edges_seq, threshold);
    let mut links: Vec<GraphLink> = Vec::new();

    for edge in link_iter: filtered_edges.into_iter()
        invariant
            link_iter.seq() == survivors,
            ident_set_view(survivor_keys) == final_keys,
            links@ == links_of(link_iter.seq().take(link_iter.index()), final_keys),
    {
        let ghost prefix = link_iter.seq().take(link_iter.index());
        proof {
            assert(link_iter.seq().take(link_iter.index() + 1) =~= prefix.push(edge));
            lemma_links_of_push(prefix, edge, final_keys);
        }
        let source_key = normalize(edge.source.as_str());
        let target_key = normalize(edge.target.as_str());
        if survivor_keys.contains(source_key.as_str()) && survivor_keys.contains(
            target_key.as_str(),
        ) {
            links.push(GraphLink { source: edge.source, target: edge.target, weight: edge.weight });
        }
    }
    proof {
        assert(survivors.take(survivors.len() as int) =~= survivors);
    }

    ProcessedGraph { nodes: graph_nodes, links }
}

/// Resolve string-keyed links to 0-based positions into the given node
/// list. Each identity key is bound to the position of the first node
/// carrying it; a link either of whose endpoints is absent is dropped.
/// Link order and weights pass through unchanged.
pub fn resolve_links(nodes: Vec<GraphNode>, links: Vec<GraphLink>) -> (resolved: Vec<ResolvedLink>)
    requires
        nodes@.len() <= u32::MAX,
    ensures
        resolved@ == resolved_links_of(links@, index_map_of(nodes@)),
{
    let ghost nodes_seq = nodes@;
    let ghost links_seq = links@;

    let mut indices = IdentIndexMap::new();
    let mut position: u32 = 0;

    for node in node_iter: nodes.into_iter()
        invariant
            node_iter.seq() == nodes_seq,
            nodes_seq.len() <= u32::MAX,
            position == node_iter.index(),
            ident_map_view(indices) == index_map_of(node_iter.seq().take(node_iter.index())),
    {
        let ghost prefix = node_iter.seq().take(node_iter.index());
        proof {
            assert(node_iter.seq().take(node_iter.index() + 1) =~= prefix.push(node));
            lemma_index_map_push(prefix, node);
        }
        let key = normalize(node.name.as_str());
        if indices.get(key.as_str()).is_none() {
            indices.insert(key, position);
        }
        position = position + 1;
    }
    proof {
        assert(nodes_seq.take(nodes_seq.len() as int) =~= nodes_seq);
    }

    let ghost the_map = index_map_of(nodes_seq);
    let mut resolved: Vec<ResolvedLink> = Vec::new();

    for link in link_iter: links.into_iter()
        invariant
            link_iter.seq() == links_seq,
            ident_map_view(indices) == the_map,
            resolved@ == resolved_links_of(link_iter.seq().take(link_iter.index()), the_map),
    {
        let ghost prefix = link_iter.seq().take(link_iter.index());
        proof {
            assert(link_iter.seq().take(link_iter.index() + 1) =~= prefix.push(link));
            lemma_resolved_links_push(prefix, link, the_map);
        }
        let source_key = normalize(link.source.as_str());
        let target_key = normalize(link.target.as_str());
        let source_index = indices.get(source_key.as_str());
        let target_index = indices.get(target_key.as_str());
        match (source_index, target_index) {
            (Some(source), Some(target)) => {
                resolved.push(ResolvedLink { source, target, weight: link.weight });
            },
            _ => {},
        }
    }
    proof {
        assert(links_seq.take(links_seq.len() as int) =~= links_seq);
    }

    resolved
}

/// The fused pipeline: filter edges and nodes as `process_graph_data`
/// does, and resolve each surviving edge directly to node positions in the
/// same traversal, without materializing the string-keyed link list.
pub fn process_and_resolve_graph(
    nodes: Vec<Artist>,
    edges: Vec<Edge>,
    center_artist: Option<String>,
    threshold: u32,
) -> (result: ResolvedGraph)
    requires
        nodes@.len() <= u32::MAX,
    ensures
        result.nodes@ == filtered_nodes(
            nodes@,
            connected_idents(edges@, threshold),
            center_ident(center_artist),
        ),
        result.links@ == fused_links(
            surviving_edges(edges@, threshold),
            index_map_of(
                filtered_nodes(
                    nodes@,
                    connected_idents(edges@, threshold),
                    center_ident(center_artist),
                ),
            ),
        ),
{
    let ghost nodes_seq = nodes@;
    let ghost edges_seq = edges@;
    let ghost center_key = center_ident(center_artist);

    let center_normalized = normalize_center(&center_artist);

    // Filter edges and collect connected identity keys.
    let mut connected = IdentSet::new();
    let mut filtered_edges: Vec<Edge> = Vec::new();

    for edge in edge_iter: edges.into_iter()
        invariant
            edge_iter.seq() == edges_seq,
            ident_set_view(connected) == connected_idents(
                edge_iter.seq().take(edge_iter.index()),
                threshold,
            ),
            filtered_edges@ == surviving_edges(edge_iter.seq().take(edge_iter.index()), threshold),
    {
        let ghost prefix = edge_iter.seq().take(edge_iter.index());
        proof {
            assert(edge_iter.seq().take(edge_iter.index() + 1) =~= prefix.push(edge));
            lemma_surviving_edges_push(prefix, edge, threshold);
            lemma_connected_idents_push(prefix, edge, threshold);
        }
        if edge.weight >= threshold {
            let source_key = normalize(edge.source.as_str());
            let target_key = normalize(edge.target.as_str());
            connected.insert(source_key);
            connected.insert(target_key);
            filtered_edges.push(edge);
        }
    }
    proof {
        assert(edges_seq.take(edges_seq.len() as int) =~= edges_seq);
    }

    // Filter nodes, tag the center, and assign each new identity key its
    // node position as it is encountered.
    let ghost connected_keys = connected_idents(edges_seq, threshold);
    let mut graph_nodes: Vec<GraphNode> = Vec::new();
    let mut node_indices = IdentIndexMap::new();

    for artist in node_iter: nodes.into_iter()
        invariant
            node_iter.seq() == nodes_seq,
            nodes_seq.len() <= u32::MAX,
            ident_set_view(connected) == connected_keys,
            holds_center_key(center_normalized, center_key),
            graph_nodes@ == filtered_nodes(
                node_iter.seq().take(node_iter.index()),
                connected_keys,
                center_key,
            ),
            graph_nodes@.len() <= node_iter.index(),
            ident_map_view(node_indices) == index_map_of(graph_nodes@),
    {
        let ghost prefix = node_iter.seq().take(node_iter.index());
        proof {
            assert(node_iter.seq().take(node_iter.index() + 1) =~= prefix.push(artist));
            lemma_filtered_nodes_push(prefix, artist, connected_keys, center_key);
        }
        let key = normalize(artist.name.as_str());
        let is_connected = connected.contains(key.as_str());
        let is_center = match &center_normalized {
            Some(center) => *center == key,
            None => false,
        };
        if is_connected || is_center {
            proof {
                lemma_index_map_push(graph_nodes@, graph_node_of(artist, is_center));
            }
            let index = graph_nodes.len() as u32;
            if node_indices.get(key.as_str()).is_none() {
                node_indices.insert(key, index);
            }
            let mut node = GraphNode::from(artist);
            node.is_center = is_center;
            graph_nodes.push(node);
        }
    }
    proof {
        assert(nodes_seq.take(nodes_seq.len() as int) =~= nodes_seq);
    }

    // Resolve each surviving edge directly to node positions.
    let ghost the_map = index_map_of(graph_nodes@);
    let ghost survivors = surviving_edges(edges_seq, threshold);
    let mut resolved_links: Vec<ResolvedLink> = Vec::new();

    for edge in link_iter: filtered_edges.into_iter()
        invariant
            link_iter.seq() == survivors,
            ident_map_view(node_indices) == the_map,
            resolved_links@ == fused_links(link_iter.seq().take(link_iter.index()), the_map),
    {
        let ghost prefix = link_iter.seq().take(link_iter.index());
        proof {
            assert(link_iter.seq().take(link_iter.index() + 1) =~= prefix.push(edge));
            lemma_fused_links_push(prefix, edge, the_map);
        }
        let source_key = normalize(edge.source.as_str());
        let target_key = normalize(edge.target.as_str());
        let source_index = node_indices.get(source_key.as_str());
        let target_index = node_indices.get(target_key.as_str());
        match (source_index, target_index) {
            (Some(source), Some(target)) => {
                resolved_links.push(ResolvedLink { source, target, weight: edge.weight });
            },
            _ => {},
        }
    }
    proof {
        assert(survivors.take(survivors.len() as int) =~= survivors);
    }

    ResolvedGraph { nodes: graph_nodes, links: resolved_links }
}

} // verus!
