//! The mathematical model of the pipeline: what each stage keeps, drops
//! and emits, stated over sequences, sets and maps of identity keys. The
//! executable pipelines in `graph_processor` promise exactly these
//! functions of their inputs, and the proof functions at the end of this
//! module state the laws that relate the stages to one another.

use crate::normalize::lower_of;
use crate::types::{graph_node_of, Artist, Edge, GraphLink, GraphNode, ResolvedLink};
use vstd::prelude::*;

verus! {

/// The identity key of an artist record: its lowercased name.
pub open spec fn artist_key(artist: Artist) -> Seq<char> {
    lower_of(artist.name@)
}

/// The identity key of an emitted graph node: its lowercased name.
pub open spec fn node_key(node: GraphNode) -> Seq<char> {
    lower_of(node.name@)
}

/// The identity key of the optional center name.
pub open spec fn center_ident(center: Option<String>) -> Option<Seq<char>> {
    match center {
        Some(name) => Some(lower_of(name@)),
        None => None,
    }
}

/// An edge survives filtering exactly when its weight reaches the
/// threshold; the boundary is inclusive.
pub open spec fn edge_survives(edge: Edge, threshold: u32) -> bool {
    edge.weight >= threshold
}

/// The surviving edges, in input order.
pub open spec fn surviving_edges(edges: Seq<Edge>, threshold: u32) -> Seq<Edge>
    decreases edges.len(),
{
    if edges.len() == 0 {
        Seq::empty()
    } else {
        let rest = surviving_edges(edges.drop_last(), threshold);
        if edge_survives(edges.last(), threshold) {
            rest.push(edges.last())
        } else {
            rest
        }
    }
}

/// The identity keys of every endpoint of a surviving edge.
pub open spec fn connected_idents(edges: Seq<Edge>, threshold: u32) -> Set<Seq<char>>
    decreases edges.len(),
{
    if edges.len() == 0 {
        Set::empty()
    } else {
        let rest = connected_idents(edges.drop_last(), threshold);
        if edge_survives(edges.last(), threshold) {
            rest.insert(lower_of(edges.last().source@)).insert(lower_of(edges.last().target@))
        } else {
            rest
        }
    }
}

/// Whether an artist is the center: its identity key equals the center's.
pub open spec fn artist_is_center(artist: Artist, center_key: Option<Seq<char>>) -> bool {
    center_key == Some(artist_key(artist))
}

/// Whether an artist survives node filtering: it is an endpoint of a
/// surviving edge, or it is the center.
pub open spec fn artist_included(
    artist: Artist,
    connected: Set<Seq<char>>,
    center_key: Option<Seq<char>>,
) -> bool {
    connected.contains(artist_key(artist)) || artist_is_center(artist, center_key)
}

/// The graph nodes emitted by node filtering, in input order, each tagged
/// as center exactly when its identity key equals the center's.
pub open spec fn filtered_nodes(
    nodes: Seq<Artist>,
    connected: Set<Seq<char>>,
    center_key: Option<Seq<char>>,
) -> Seq<GraphNode>
    decreases nodes.len(),
{
    if nodes.len() == 0 {
        Seq::empty()
    } else {
        let rest = filtered_nodes(nodes.drop_last(), connected, center_key);
        let artist = nodes.last();
        if artist_included(artist, connected, center_key) {
            rest.push(graph_node_of(artist, artist_is_center(artist, center_key)))
        } else {
            rest
        }
    }
}

/// The identity keys present in a node list.
pub open spec fn node_keys(nodes: Seq<GraphNode>) -> Set<Seq<char>>
    decreases nodes.len(),
{
    if nodes.len() == 0 {
        Set::empty()
    } else {
        node_keys(nodes.drop_last()).insert(node_key(nodes.last()))
    }
}

/// The link a surviving edge re-materializes as: original casing, weight
/// unchanged.
pub open spec fn link_of(edge: Edge) -> GraphLink {
    GraphLink { source: edge.source, target: edge.target, weight: edge.weight }
}

/// The links emitted for the surviving edges, in order: one per edge both
/// of whose endpoint keys survived node filtering.
pub open spec fn links_of(survivors: Seq<Edge>, keys: Set<Seq<char>>) -> Seq<GraphLink>
    decreases survivors.len(),
{
    if survivors.len() == 0 {
        Seq::empty()
    } else {
        let rest = links_of(survivors.drop_last(), keys);
        let edge = survivors.last();
        if keys.contains(lower_of(edge.source@)) && keys.contains(lower_of(edge.target@)) {
            rest.push(link_of(edge))
        } else {
            rest
        }
    }
}

/// The identity-to-position map of a node list: each key is bound to the
/// 0-based position of the first node carrying it.
pub open spec fn index_map_of(nodes: Seq<GraphNode>) -> Map<Seq<char>, u32>
    decreases nodes.len(),
{
    if nodes.len() == 0 {
        Map::empty()
    } else {
        let rest = index_map_of(nodes.drop_last());
        let key = node_key(nodes.last());
        if rest.dom().contains(key) {
            rest
        } else {
            rest.insert(key, (nodes.len() - 1) as u32)
        }
    }
}

/// Resolving one link through an identity-to-position map: both endpoints
/// present gives the indexed link, weight unchanged; otherwise the link is
/// dropped.
pub open spec fn resolve_link(link: GraphLink, indices: Map<Seq<char>, u32>) -> Option<
    ResolvedLink,
> {
    let source_key = lower_of(link.source@);
    let target_key = lower_of(link.target@);
    if indices.dom().contains(source_key) && indices.dom().contains(target_key) {
        Some(
            ResolvedLink {
                source: indices[source_key],
                target: indices[target_key],
                weight: link.weight,
            },
        )
    } else {
        None
    }
}

/// The resolved links of a link list, in order, dropping links with an
/// absent endpoint.
pub open spec fn resolved_links_of(
    links: Seq<GraphLink>,
    indices: Map<Seq<char>, u32>,
) -> Seq<ResolvedLink>
    decreases links.len(),
{
    if links.len() == 0 {
        Seq::empty()
    } else {
        let rest = resolved_links_of(links.drop_last(), indices);
        match resolve_link(links.last(), indices) {
            Some(resolved) => rest.push(resolved),
            None => rest,
        }
    }
}

/// The resolved links the fused pipeline emits: each surviving edge
/// resolved directly, without materializing the string-keyed link list.
pub open spec fn fused_links(survivors: Seq<Edge>, indices: Map<Seq<char>, u32>) -> Seq<
    ResolvedLink,
>
    decreases survivors.len(),
{
    if survivors.len() == 0 {
        Seq::empty()
    } else {
        let rest = fused_links(survivors.drop_last(), indices);
        match resolve_link(link_of(survivors.last()), indices) {
            Some(resolved) => rest.push(resolved),
            None => rest,
        }
    }
}

// ---------------------------------------------------------------------------
// Unfolding lemmas: how each stage grows when one more input element is
// appended. These drive the loop invariants of the executable pipelines.
// ---------------------------------------------------------------------------

pub proof fn lemma_surviving_edges_push(edges: Seq<Edge>, edge: Edge, threshold: u32)
    ensures
        surviving_edges(edges.push(edge), threshold) == (if edge_survives(edge, threshold) {
            surviving_edges(edges, threshold).push(edge)
        } else {
            surviving_edges(edges, threshold)
        }),
{
    assert(edges.push(edge).drop_last() =~= edges);
}

pub proof fn lemma_connected_idents_push(edges: Seq<Edge>, edge: Edge, threshold: u32)
    ensures
        connected_idents(edges.push(edge), threshold) == (if edge_survives(edge, threshold) {
            connected_idents(edges, threshold).insert(lower_of(edge.source@)).insert(
                lower_of(edge.target@),
            )
        } else {
            connected_idents(edges, threshold)
        }),
{
    assert(edges.push(edge).drop_last() =~= edges);
}

pub proof fn lemma_filtered_nodes_push(
    nodes: Seq<Artist>,
    artist: Artist,
    connected: Set<Seq<char>>,
    center_key: Option<Seq<char>>,
)
    ensures
        filtered_nodes(nodes.push(artist), connected, center_key) == (if artist_included(
            artist,
            connected,
            center_key,
        ) {
            filtered_nodes(nodes, connected, center_key).push(
                graph_node_of(artist, artist_is_center(artist, center_key)),
            )
        } else {
            filtered_nodes(nodes, connected, center_key)
        }),
{
    assert(nodes.push(artist).drop_last() =~= nodes);
}

pub proof fn lemma_node_keys_push(nodes: Seq<GraphNode>, node: GraphNode)
    ensures
        node_keys(nodes.push(node)) == node_keys(nodes).insert(node_key(node)),
{
    assert(nodes.push(node).drop_last() =~= nodes);
}

pub proof fn lemma_index_map_push(nodes: Seq<GraphNode>, node: GraphNode)
    ensures
        index_map_of(nodes.push(node)) == (if index_map_of(nodes).dom().contains(node_key(node)) {
            index_map_of(nodes)
        } else {
            index_map_of(nodes).insert(node_key(node), nodes.len() as u32)
        }),
{
    assert(nodes.push(node).drop_last() =~= nodes);
}

pub proof fn lemma_links_of_push(survivors: Seq<Edge>, edge: Edge, keys: Set<Seq<char>>)
    ensures
        links_of(survivors.push(edge), keys) == (if keys.contains(lower_of(edge.source@))
            && keys.contains(lower_of(edge.target@)) {
            links_of(survivors, keys).push(link_of(edge))
        } else {
            links_of(survivors, keys)
        }),
{
    assert(survivors.push(edge).drop_last() =~= survivors);
}

pub proof fn lemma_resolved_links_push(
    links: Seq<GraphLink>,
    link: GraphLink,
    indices: Map<Seq<char>, u32>,
)
    ensures
        resolved_links_of(links.push(link), indices) == (match resolve_link(link, indices) {
            Some(resolved) => resolved_links_of(links, indices).push(resolved),
            None => resolved_links_of(links, indices),
        }),
{
    assert(links.push(link).drop_last() =~= links);
}

pub proof fn lemma_fused_links_push(survivors: Seq<Edge>, edge: Edge, indices: Map<Seq<char>, u32>)
    ensures
        fused_links(survivors.push(edge), indices) == (match resolve_link(link_of(edge), indices) {
            Some(resolved) => fused_links(survivors, indices).push(resolved),
            None => fused_links(survivors, indices),
        }),
{
    assert(survivors.push(edge).drop_last() =~= survivors);
}

/// A non-empty sequence contains an element exactly when its front part
/// does or the element is its last.
proof fn lemma_seq_contains_split<A>(s: Seq<A>)
    requires
        s.len() > 0,
    ensures
        forall|x: A| s.contains(x) <==> (s.drop_last().contains(x) || x == s.last()),
{
    assert forall|x: A| s.contains(x) implies (s.drop_last().contains(x) || x == s.last()) by {
        let i = choose|i: int| 0 <= i < s.len() && s[i] == x;
        if i < s.len() - 1 {
            assert(s.drop_last()[i] == x);
            assert(s.drop_last().contains(x));
        }
    }
    assert forall|x: A| (s.drop_last().contains(x) || x == s.last()) implies s.contains(x) by {
        if s.drop_last().contains(x) {
            let i = choose|i: int| 0 <= i < s.drop_last().len() && s.drop_last()[i] == x;
            assert(s[i] == x);
        } else {
            assert(s[s.len() - 1] == x);
        }
    }
}

// ---------------------------------------------------------------------------
// Laws of the pipeline.
// ---------------------------------------------------------------------------

/// An edge appears among the surviving edges exactly when it appears in
/// the input and its weight reaches the threshold; an edge whose weight
/// equals the threshold is kept.
pub proof fn lemma_edge_survival(edges: Seq<Edge>, threshold: u32)
    ensures
        forall|edge: Edge| #[trigger] surviving_edges(edges, threshold).contains(edge) <==> (
        edges.contains(edge) && edge.weight >= threshold),
    decreases edges.len(),
{
    if edges.len() > 0 {
        let front = edges.drop_last();
        let last = edges.last();
        lemma_edge_survival(front, threshold);
        lemma_seq_contains_split(edges);
        let all = surviving_edges(edges, threshold);
        let rest = surviving_edges(front, threshold);
        if edge_survives(last, threshold) {
            lemma_seq_contains_split(all);
            assert(all.drop_last() =~= rest);
        }
        assert forall|edge: Edge| #[trigger] all.contains(edge) implies (edges.contains(edge)
            && edge.weight >= threshold) by {
            if !edge_survives(last, threshold) {
                assert(rest.contains(edge));
            }
        }
        assert forall|edge: Edge| (edges.contains(edge) && edge.weight
            >= threshold) implies all.contains(edge) by {
            if front.contains(edge) {
                assert(rest.contains(edge));
                if !edge_survives(last, threshold) {
                    assert(all.contains(edge));
                }
            } else {
                assert(edge == last);
            }
        }
    }
}

/// An identity key is connected exactly when it is an endpoint of some
/// surviving edge.
pub proof fn lemma_connected_characterization(edges: Seq<Edge>, threshold: u32)
    ensures
        forall|key: Seq<char>| #[trigger] connected_idents(edges, threshold).contains(key) <==> (
        exists|i: int|
            0 <= i < edges.len() && edge_survives(#[trigger] edges[i], threshold) && (key
                == lower_of(edges[i].source@) || key == lower_of(edges[i].target@))),
    decreases edges.len(),
{
    if edges.len() > 0 {
        let front = edges.drop_last();
        let last = edges.last();
        lemma_connected_characterization(front, threshold);
        assert forall|key: Seq<char>| #[trigger] connected_idents(edges, threshold).contains(key) implies (
        exists|i: int|
            0 <= i < edges.len() && edge_survives(#[trigger] edges[i], threshold) && (key
                == lower_of(edges[i].source@) || key == lower_of(edges[i].target@))) by {
            if connected_idents(front, threshold).contains(key) {
                let i = choose|i: int|
                    0 <= i < front.len() && edge_survives(#[trigger] front[i], threshold) && (key
                        == lower_of(front[i].source@) || key == lower_of(front[i].target@));
                assert(edges[i] == front[i]);
            } else {
                assert(edge_survives(last, threshold) && (key == lower_of(last.source@) || key
                    == lower_of(last.target@)));
                assert(edges[edges.len() - 1] == last);
            }
        }
        assert forall|key: Seq<char>|
            (exists|i: int|
                0 <= i < edges.len() && edge_survives(#[trigger] edges[i], threshold) && (key
                    == lower_of(edges[i].source@) || key == lower_of(
                    edges[i].target@,
                ))) implies connected_idents(edges, threshold).contains(key) by {
            let i = choose|i: int|
                0 <= i < edges.len() && edge_survives(#[trigger] edges[i], threshold) && (key
                    == lower_of(edges[i].source@) || key == lower_of(edges[i].target@));
            if i < edges.len() - 1 {
                assert(front[i] == edges[i]);
                assert(connected_idents(front, threshold).contains(key));
            }
        }
    }
}

/// A graph node is emitted exactly for the input records whose identity
/// key is connected or matches the center, and it is tagged as center
/// exactly when its key matches the center's. Together with
/// `lemma_connected_characterization` this says: the filtered node set is
/// the set of input nodes that are an endpoint of a surviving edge, plus
/// those whose normalized name equals the normalized center name.
pub proof fn lemma_node_filter_characterization(
    nodes: Seq<Artist>,
    connected: Set<Seq<char>>,
    center_key: Option<Seq<char>>,
)
    ensures
        forall|node: GraphNode| #[trigger] filtered_nodes(nodes, connected, center_key).contains(
            node,
        ) <==> (exists|i: int|
            0 <= i < nodes.len() && artist_included(#[trigger] nodes[i], connected, center_key)
                && node == graph_node_of(nodes[i], artist_is_center(nodes[i], center_key))),
    decreases nodes.len(),
{
    if nodes.len() > 0 {
        let front = nodes.drop_last();
        let last = nodes.last();
        lemma_node_filter_characterization(front, connected, center_key);
        let emitted = filtered_nodes(nodes, connected, center_key);
        if artist_included(last, connected, center_key) {
            assert(emitted.drop_last() =~= filtered_nodes(front, connected, center_key));
            lemma_seq_contains_split(emitted);
        }
        assert forall|node: GraphNode| #[trigger] emitted.contains(node) implies (exists|i: int|
            0 <= i < nodes.len() && artist_included(#[trigger] nodes[i], connected, center_key)
                && node == graph_node_of(nodes[i], artist_is_center(nodes[i], center_key))) by {
            if filtered_nodes(front, connected, center_key).contains(node) {
                let i = choose|i: int|
                    0 <= i < front.len() && artist_included(
                        #[trigger] front[i],
                        connected,
                        center_key,
                    ) && node == graph_node_of(front[i], artist_is_center(front[i], center_key));
                assert(nodes[i] == front[i]);
            } else {
                assert(nodes[nodes.len() - 1] == last);
            }
        }
        assert forall|node: GraphNode|
            (exists|i: int|
                0 <= i < nodes.len() && artist_included(#[trigger] nodes[i], connected, center_key)
                    && node == graph_node_of(
                    nodes[i],
                    artist_is_center(nodes[i], center_key),
                )) implies emitted.contains(node) by {
            let i = choose|i: int|
                0 <= i < nodes.len() && artist_included(#[trigger] nodes[i], connected, center_key)
                    && node == graph_node_of(nodes[i], artist_is_center(nodes[i], center_key));
            if i < nodes.len() - 1 {
                assert(front[i] == nodes[i]);
                assert(filtered_nodes(front, connected, center_key).contains(node));
            }
        }
    }
}

/// Referential integrity of the string-keyed links: both endpoints of
/// every emitted link carry an identity key present among the filtered
/// nodes' keys.
pub proof fn lemma_link_integrity(survivors: Seq<Edge>, keys: Set<Seq<char>>)
    ensures
        forall|i: int|
            0 <= i < links_of(survivors, keys).len() ==> keys.contains(
                lower_of(#[trigger] links_of(survivors, keys)[i].source@),
            ) && keys.contains(lower_of(links_of(survivors, keys)[i].target@)),
    decreases survivors.len(),
{
    if survivors.len() > 0 {
        let front = survivors.drop_last();
        lemma_link_integrity(front, keys);
        let all = links_of(survivors, keys);
        let rest = links_of(front, keys);
        assert forall|i: int| 0 <= i < all.len() implies keys.contains(
            lower_of(#[trigger] all[i].source@),
        ) && keys.contains(lower_of(all[i].target@)) by {
            if i < rest.len() {
                assert(all[i] == rest[i]);
            } else {
                assert(all[i] == link_of(survivors.last()));
            }
        }
    }
}

/// Every key the identity-to-position map binds is bound to the position
/// of the first node carrying it, every node's key is bound, and every
/// bound position is a valid position in the node list.
pub proof fn lemma_index_map_positions(nodes: Seq<GraphNode>)
    requires
        nodes.len() <= u32::MAX,
    ensures
        forall|key: Seq<char>| #[trigger] index_map_of(nodes).dom().contains(key)
            ==> index_map_of(nodes)[key] < nodes.len() && node_key(
            nodes[index_map_of(nodes)[key] as int],
        ) == key,
        forall|i: int|
            0 <= i < nodes.len() ==> index_map_of(nodes).dom().contains(
                node_key(#[trigger] nodes[i]),
            ),
        forall|i: int|
            0 <= i < nodes.len() ==> index_map_of(nodes)[node_key(#[trigger] nodes[i])] <= i,
    decreases nodes.len(),
{
    if nodes.len() > 0 {
        let front = nodes.drop_last();
        lemma_index_map_positions(front);
        let bound = index_map_of(nodes);
        let rest = index_map_of(front);
        let last_key = node_key(nodes.last());
        assert(nodes[nodes.len() - 1] == nodes.last());
        assert forall|key: Seq<char>| #[trigger] bound.dom().contains(key) implies bound[key]
            < nodes.len() && node_key(nodes[bound[key] as int]) == key by {
            if rest.dom().contains(key) {
                assert(bound[key] == rest[key]);
                assert(node_key(front[rest[key] as int]) == key);
                assert(front[rest[key] as int] == nodes[rest[key] as int]);
            } else {
                assert(key == last_key && bound[key] == nodes.len() - 1);
            }
        }
        assert forall|i: int| 0 <= i < nodes.len() implies bound.dom().contains(
            node_key(#[trigger] nodes[i]),
        ) && bound[node_key(nodes[i])] <= i by {
            if i < nodes.len() - 1 {
                assert(front[i] == nodes[i]);
                assert(rest.dom().contains(node_key(front[i])));
                assert(rest[node_key(front[i])] <= i);
                assert(bound[node_key(nodes[i])] == rest[node_key(front[i])]);
            } else {
                if rest.dom().contains(last_key) {
                    assert(bound[last_key] == rest[last_key]);
                    assert(rest[last_key] < front.len());
                } else {
                    assert(bound[last_key] == nodes.len() - 1);
                }
            }
        }
    }
}

/// `resolve_links` assigns position `i` to the node at position `i` of
/// the node list it is given, for every node that is the first carrier of
/// its identity key.
pub proof fn lemma_resolver_position_assignment(nodes: Seq<GraphNode>, i: int)
    requires
        nodes.len() <= u32::MAX,
        0 <= i < nodes.len(),
        forall|j: int| 0 <= j < i ==> node_key(#[trigger] nodes[j]) != node_key(nodes[i]),
    ensures
        index_map_of(nodes).dom().contains(node_key(nodes[i])),
        index_map_of(nodes)[node_key(nodes[i])] == i as u32,
{
    lemma_index_map_positions(nodes);
    let bound = index_map_of(nodes)[node_key(nodes[i])] as int;
    assert(node_key(nodes[bound]) == node_key(nodes[i]));
}

/// Referential integrity of the resolved links: both positions of every
/// resolved link are valid positions in the node list whose index map was
/// used.
pub proof fn lemma_resolved_link_bounds(links: Seq<GraphLink>, nodes: Seq<GraphNode>)
    requires
        nodes.len() <= u32::MAX,
    ensures
        forall|i: int|
            0 <= i < resolved_links_of(links, index_map_of(nodes)).len() ==> (
            #[trigger] resolved_links_of(links, index_map_of(nodes))[i]).source < nodes.len()
                && resolved_links_of(links, index_map_of(nodes))[i].target < nodes.len(),
    decreases links.len(),
{
    lemma_index_map_positions(nodes);
    if links.len() > 0 {
        let front = links.drop_last();
        lemma_resolved_link_bounds(front, nodes);
        let all = resolved_links_of(links, index_map_of(nodes));
        let rest = resolved_links_of(front, index_map_of(nodes));
        assert forall|i: int| 0 <= i < all.len() implies (#[trigger] all[i]).source < nodes.len()
            && all[i].target < nodes.len() by {
            if i < rest.len() {
                assert(all[i] == rest[i]);
            } else {
                assert(resolve_link(links.last(), index_map_of(nodes)) is Some);
                assert(all[i] == resolve_link(links.last(), index_map_of(nodes)).unwrap());
            }
        }
    }
}

/// The identity-to-position map binds exactly the keys of the node list.
pub proof fn lemma_index_map_dom(nodes: Seq<GraphNode>)
    ensures
        index_map_of(nodes).dom() == node_keys(nodes),
    decreases nodes.len(),
{
    if nodes.len() > 0 {
        lemma_index_map_dom(nodes.drop_last());
    }
    assert(index_map_of(nodes).dom() =~= node_keys(nodes));
}

/// Resolving the surviving edges directly through a node list's index map
/// emits the same links as first re-materializing the string-keyed links
/// and then resolving those.
pub proof fn lemma_fused_links_match(survivors: Seq<Edge>, nodes: Seq<GraphNode>)
    ensures
        fused_links(survivors, index_map_of(nodes)) == resolved_links_of(
            links_of(survivors, node_keys(nodes)),
            index_map_of(nodes),
        ),
    decreases survivors.len(),
{
    lemma_index_map_dom(nodes);
    if survivors.len() > 0 {
        let front = survivors.drop_last();
        let edge = survivors.last();
        lemma_fused_links_match(front, nodes);
        lemma_resolved_links_push(
            links_of(front, node_keys(nodes)),
            link_of(edge),
            index_map_of(nodes),
        );
    }
}

/// Referential integrity of the fused pipeline's links: both positions of
/// every link it emits are valid positions in the node list whose index
/// map was used.
pub proof fn lemma_fused_link_bounds(survivors: Seq<Edge>, nodes: Seq<GraphNode>)
    requires
        nodes.len() <= u32::MAX,
    ensures
        forall|i: int|
            0 <= i < fused_links(survivors, index_map_of(nodes)).len() ==> (
            #[trigger] fused_links(survivors, index_map_of(nodes))[i]).source < nodes.len()
                && fused_links(survivors, index_map_of(nodes))[i].target < nodes.len(),
{
    lemma_fused_links_match(survivors, nodes);
    lemma_resolved_link_bounds(links_of(survivors, node_keys(nodes)), nodes);
}

/// Fusion equivalence of the whole pipeline: for every input, the fused
/// pipeline's resolved links equal the links of the string-keyed pipeline
/// resolved against the same filtered node list (whose nodes the two
/// pipelines share by construction).
pub proof fn lemma_fusion_equivalence(
    nodes: Seq<Artist>,
    edges: Seq<Edge>,
    center_key: Option<Seq<char>>,
    threshold: u32,
)
    ensures
        ({
            let emitted = filtered_nodes(nodes, connected_idents(edges, threshold), center_key);
            fused_links(surviving_edges(edges, threshold), index_map_of(emitted))
                == resolved_links_of(
                links_of(surviving_edges(edges, threshold), node_keys(emitted)),
                index_map_of(emitted),
            )
        }),
{
    lemma_fused_links_match(
        surviving_edges(edges, threshold),
        filtered_nodes(nodes, connected_idents(edges, threshold), center_key),
    );
}

} // verus!
