//! Entities of the graph pipeline: raw input records, filtered output
//! nodes, and the string-keyed and integer-keyed link variants.

use vstd::prelude::*;

verus! {

/// Raw artist record handed in by the host bridge. Only `name` is
/// required; every other field is carried through untouched.
#[derive(Clone, Debug)]
pub struct Artist {
    pub id: Option<String>,
    pub name: String,
    pub mbid: Option<String>,
    pub url: Option<String>,
    pub image_url: Option<String>,
    pub listeners: Option<u32>,
    pub playcount: Option<u32>,
    pub tags: Option<Vec<String>>,
    pub lastfm_url: Option<String>,
}

/// Raw similarity edge between two artists, named by (arbitrarily cased)
/// artist name. The weight is an order-preserving encoding of the
/// similarity score (see the crate root documentation).
#[derive(Clone, Debug)]
pub struct Edge {
    pub source: String,
    pub target: String,
    pub weight: u32,
}

/// A node that survived filtering: all `Artist` fields plus the center
/// tag. Layout position fields are a concern of the host bridge, which
/// always emits them absent; they carry no information and so do not
/// appear here.
#[derive(Clone, Debug)]
pub struct GraphNode {
    pub id: Option<String>,
    pub name: String,
    pub mbid: Option<String>,
    pub url: Option<String>,
    pub image_url: Option<String>,
    pub listeners: Option<u32>,
    pub playcount: Option<u32>,
    pub tags: Option<Vec<String>>,
    pub lastfm_url: Option<String>,
    /// Whether this node is the center/searched artist.
    pub is_center: bool,
}

/// A surviving edge re-materialized as a link, still keyed by the original
/// (unnormalized) endpoint names.
#[derive(Clone, Debug)]
pub struct GraphLink {
    pub source: String,
    pub target: String,
    pub weight: u32,
}

/// A link resolved to 0-based positions into the accompanying node list.
#[derive(Clone, Copy, Debug, PartialEq, Eq, Structural)]
pub struct ResolvedLink {
    pub source: u32,
    pub target: u32,
    pub weight: u32,
}

/// Output of the string-keyed pipeline: filtered nodes plus links.
pub struct ProcessedGraph {
    pub nodes: Vec<GraphNode>,
    pub links: Vec<GraphLink>,
}

/// Output of the fused pipeline: filtered nodes plus index-resolved links.
pub struct ResolvedGraph {
    pub nodes: Vec<GraphNode>,
    pub links: Vec<ResolvedLink>,
}

/// The graph node an artist record turns into when it survives filtering
/// with center tag `is_center`: every field carried over unchanged.
pub open spec fn graph_node_of(artist: Artist, is_center: bool) -> GraphNode {
    GraphNode {
        id: artist.id,
        name: artist.name,
        mbid: artist.mbid,
        url: artist.url,
        image_url: artist.image_url,
        listeners: artist.listeners,
        playcount: artist.playcount,
        tags: artist.tags,
        lastfm_url: artist.lastfm_url,
        is_center,
    }
}

impl vstd::std_specs::convert::FromSpecImpl<Artist> for GraphNode {
    open spec fn obeys_from_spec() -> bool {
        true
    }

    open spec fn from_spec(artist: Artist) -> GraphNode {
        graph_node_of(artist, false)
    }
}

impl From<Artist> for GraphNode {
    fn from(artist: Artist) -> (node: GraphNode)
        ensures
            node == graph_node_of(artist, false),
    {
        GraphNode {
            id: artist.id,
            name: artist.name,
            mbid: artist.mbid,
            url: artist.url,
            image_url: artist.image_url,
            listeners: artist.listeners,
            playcount: artist.playcount,
            tags: artist.tags,
            lastfm_url: artist.lastfm_url,
            is_center: false,
        }
    }
}

} // verus!
