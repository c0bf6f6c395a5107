//! End-to-end tests of the graph pipeline, run against the real backing
//! crates.

use graph_wasm::graph_processor::{process_and_resolve_graph, process_graph_data, resolve_links};
use graph_wasm::normalize::normalize;
use graph_wasm::types::{Artist, Edge, GraphLink, GraphNode, ResolvedLink};

/// Order-preserving encoding of an `f32` weight, as the host bridge hands
/// weights to the library: comparing keys mirrors comparing the weights.
fn wkey(weight: f32) -> u32 {
    let bits = weight.to_bits();
    if bits & 0x8000_0000 != 0 {
        !bits
    } else {
        bits | 0x8000_0000
    }
}

fn artist(id: &str, name: &str, listeners: Option<u32>) -> Artist {
    Artist {
        id: Some(id.to_string()),
        name: name.to_string(),
        mbid: None,
        url: None,
        image_url: None,
        listeners,
        playcount: None,
        tags: None,
        lastfm_url: None,
    }
}

fn edge(source: &str, target: &str, weight: f32) -> Edge {
    Edge { source: source.to_string(), target: target.to_string(), weight: wkey(weight) }
}

fn graph_node(id: &str, name: &str, listeners: Option<u32>, is_center: bool) -> GraphNode {
    GraphNode {
        id: Some(id.to_string()),
        name: name.to_string(),
        mbid: None,
        url: None,
        image_url: None,
        listeners,
        playcount: None,
        tags: None,
        lastfm_url: None,
        is_center,
    }
}

fn test_artists() -> Vec<Artist> {
    vec![
        artist("1", "The Beatles", Some(1000000)),
        artist("2", "Radiohead", Some(500000)),
        artist("3", "Pink Floyd", Some(800000)),
    ]
}

fn test_edges() -> Vec<Edge> {
    vec![
        edge("The Beatles", "Radiohead", 0.8),
        edge("The Beatles", "Pink Floyd", 0.3),
        edge("Radiohead", "Pink Floyd", 0.6),
    ]
}

#[test]
fn test_normalize() {
    assert_eq!(normalize("The Beatles"), "the beatles");
    assert_eq!(normalize("RADIOHEAD"), "radiohead");
    assert_eq!(normalize("Pink Floyd"), "pink floyd");
    assert_eq!(normalize("AC/DC"), "ac/dc");
}

#[test]
fn test_normalize_idempotent() {
    for name in ["The Beatles", "RADIOHEAD", "Björk", "AC/DC", ""] {
        assert_eq!(normalize(&normalize(name)), normalize(name));
    }
    assert_eq!(normalize("RADIOHEAD"), normalize("radiohead"));
}

#[test]
fn test_filtering_threshold() {
    // Threshold 0.5 should filter out Beatles-Pink Floyd (0.3).
    let result = process_graph_data(test_artists(), test_edges(), None, wkey(0.5));

    assert_eq!(result.links.len(), 2);
    assert_eq!(result.links[0].source, "The Beatles");
    assert_eq!(result.links[0].target, "Radiohead");
    assert_eq!(result.links[1].source, "Radiohead");
    assert_eq!(result.links[1].target, "Pink Floyd");
    // All three artists are endpoints of a surviving edge.
    let names: Vec<&str> = result.nodes.iter().map(|n| n.name.as_str()).collect();
    assert_eq!(names, vec!["The Beatles", "Radiohead", "Pink Floyd"]);
}

#[test]
fn test_threshold_boundary() {
    // An edge whose weight exactly equals the threshold is kept; one just
    // below is dropped.
    let edges = vec![edge("The Beatles", "Radiohead", 0.5), edge("The Beatles", "Pink Floyd", 0.49)];
    let result = process_graph_data(test_artists(), edges, None, wkey(0.5));
    assert_eq!(result.links.len(), 1);
    assert_eq!(result.links[0].weight, wkey(0.5));
    assert_eq!(result.links[0].target, "Radiohead");
}

#[test]
fn test_center_always_included() {
    // Beatles is center but not connected - should still be included.
    let edges = vec![edge("Radiohead", "Pink Floyd", 0.8)];
    let result = process_graph_data(
        test_artists(),
        edges,
        Some("The Beatles".to_string()),
        wkey(0.5),
    );

    assert_eq!(result.nodes.len(), 3);
    assert!(result.nodes[0].is_center);
    assert!(!result.nodes[1].is_center);
    assert!(!result.nodes[2].is_center);
}

#[test]
fn test_case_insensitive_matching() {
    // Even though the edge says "THE BEATLES" and the artist "The Beatles",
    // they match via normalization.
    let artists = vec![artist("1", "The Beatles", Some(1000000))];
    let edges = vec![edge("THE BEATLES", "Radiohead", 0.8)];

    let result = process_graph_data(artists, edges, None, wkey(0.5));
    assert_eq!(result.nodes.len(), 1);
    assert_eq!(result.nodes[0].name, "The Beatles");
}

#[test]
fn test_empty_inputs() {
    let result = process_graph_data(Vec::new(), Vec::new(), None, wkey(0.5));
    assert_eq!(result.nodes.len(), 0);
    assert_eq!(result.links.len(), 0);

    let resolved = process_and_resolve_graph(Vec::new(), Vec::new(), None, wkey(0.5));
    assert_eq!(resolved.nodes.len(), 0);
    assert_eq!(resolved.links.len(), 0);
}

#[test]
fn test_resolve_links_indices() {
    let nodes = vec![
        graph_node("1", "The Beatles", Some(1000000), true),
        graph_node("2", "Radiohead", Some(500000), false),
    ];
    let links = vec![GraphLink {
        source: "The Beatles".to_string(),
        target: "Radiohead".to_string(),
        weight: wkey(0.8),
    }];

    let resolved = resolve_links(nodes, links);

    assert_eq!(resolved.len(), 1);
    assert_eq!(resolved[0].source, 0); // Beatles is index 0
    assert_eq!(resolved[0].target, 1); // Radiohead is index 1
    assert_eq!(resolved[0].weight, wkey(0.8));
}

#[test]
fn test_resolve_drops_dangling_links() {
    // A link either of whose endpoints is absent from the node list is
    // dropped silently.
    let nodes = vec![graph_node("1", "The Beatles", None, false)];
    let links = vec![
        GraphLink {
            source: "The Beatles".to_string(),
            target: "Radiohead".to_string(),
            weight: wkey(0.8),
        },
        GraphLink {
            source: "THE BEATLES".to_string(),
            target: "the beatles".to_string(),
            weight: wkey(0.7),
        },
    ];
    let resolved = resolve_links(nodes, links);
    assert_eq!(resolved, vec![ResolvedLink { source: 0, target: 0, weight: wkey(0.7) }]);
}

#[test]
fn test_artist_to_graph_node() {
    let node_artist = Artist {
        id: Some("1".to_string()),
        name: "The Beatles".to_string(),
        mbid: Some("mbid123".to_string()),
        url: None,
        image_url: Some("http://example.com/image.jpg".to_string()),
        listeners: Some(1000000),
        playcount: None,
        tags: Some(vec!["rock".to_string(), "british".to_string()]),
        lastfm_url: Some("http://last.fm/beatles".to_string()),
    };

    let node: GraphNode = node_artist.into();

    assert_eq!(node.name, "The Beatles");
    assert_eq!(node.listeners, Some(1000000));
    assert!(!node.is_center);
    assert_eq!(node.tags, Some(vec!["rock".to_string(), "british".to_string()]));
    assert_eq!(node.lastfm_url, Some("http://last.fm/beatles".to_string()));
}

#[test]
fn test_resolved_link() {
    let link = ResolvedLink { source: 0, target: 1, weight: wkey(0.75) };

    assert_eq!(link.source, 0);
    assert_eq!(link.target, 1);
    assert_eq!(link.weight, wkey(0.75));
}

#[test]
fn test_scenario_full_pipeline() {
    // nodes=[A,B,C], edges=[(A,B,0.8),(A,C,0.3),(B,C,0.6)], threshold 0.5:
    // surviving edges (A,B,0.8),(B,C,0.6); all three nodes kept;
    // resolved=[(0,1,0.8),(1,2,0.6)].
    let resolved = process_and_resolve_graph(test_artists(), test_edges(), None, wkey(0.5));

    assert_eq!(resolved.nodes.len(), 3);
    assert_eq!(
        resolved.links,
        vec![
            ResolvedLink { source: 0, target: 1, weight: wkey(0.8) },
            ResolvedLink { source: 1, target: 2, weight: wkey(0.6) },
        ]
    );
}

#[test]
fn test_scenario_center_without_links() {
    // center="A" with only edge (B,C,0.8): A is kept and tagged, B and C
    // follow, the only link joins B and C, and A has no incident link.
    let edges = vec![edge("Radiohead", "Pink Floyd", 0.8)];
    let resolved = process_and_resolve_graph(
        test_artists(),
        edges,
        Some("The Beatles".to_string()),
        wkey(0.5),
    );

    assert_eq!(resolved.nodes.len(), 3);
    assert!(resolved.nodes[0].is_center);
    assert_eq!(resolved.nodes[0].name, "The Beatles");
    assert_eq!(resolved.links, vec![ResolvedLink { source: 1, target: 2, weight: wkey(0.8) }]);
    for link in &resolved.links {
        assert_ne!(link.source, 0);
        assert_ne!(link.target, 0);
    }
}

#[test]
fn test_fusion_equivalence() {
    // processAndResolve(...) == resolveIndices(process(...).nodes,
    // process(...).links), checked on a graph with a center, a dropped
    // edge, and mixed casing.
    let artists = test_artists();
    let mut edges = test_edges();
    edges.push(edge("PINK FLOYD", "the beatles", 0.9));
    let center = Some("Radiohead".to_string());
    let threshold = wkey(0.55);

    let fused = process_and_resolve_graph(
        artists.clone(),
        edges.clone(),
        center.clone(),
        threshold,
    );
    let staged = process_graph_data(artists, edges, center, threshold);
    let resolved = resolve_links(staged.nodes.clone(), staged.links);

    assert_eq!(fused.nodes.len(), staged.nodes.len());
    for (a, b) in fused.nodes.iter().zip(staged.nodes.iter()) {
        assert_eq!(a.name, b.name);
        assert_eq!(a.is_center, b.is_center);
    }
    assert_eq!(fused.links, resolved);
}

#[test]
fn test_duplicate_identities_keep_first_position() {
    // Two input nodes with the same identity are both kept, in order, and
    // the resolver binds their shared key to the first position.
    let nodes = vec![
        graph_node("1", "The Beatles", None, false),
        graph_node("2", "THE BEATLES", None, false),
        graph_node("3", "Radiohead", None, false),
    ];
    let links = vec![GraphLink {
        source: "the beatles".to_string(),
        target: "Radiohead".to_string(),
        weight: wkey(0.8),
    }];
    let resolved = resolve_links(nodes, links);
    assert_eq!(resolved, vec![ResolvedLink { source: 0, target: 2, weight: wkey(0.8) }]);
}

#[test]
fn test_resolved_indices_in_bounds() {
    let resolved = process_and_resolve_graph(test_artists(), test_edges(), None, wkey(0.1));
    let node_count = resolved.nodes.len() as u32;
    assert!(resolved.links.len() > 0);
    for link in &resolved.links {
        assert!(link.source < node_count);
        assert!(link.target < node_count);
    }
}
