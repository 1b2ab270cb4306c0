//! A verified library for building weighted graphs from a textual
//! description and running two classic algorithms on them: Kruskal's
//! minimum-spanning-tree weight computation and Dijkstra's single-source
//! shortest path.
//!
//! The text format is: a first line with the node count and the declared
//! edge count, then one line per edge holding its two 1-based node indices
//! and its weight.  Parsing enforces the arity and index-range invariants
//! and reports every failure as a typed, line-addressable error; the
//! resulting [`Graph`] is guaranteed connected.

pub mod dfs;
pub mod dijkstra;
pub mod errors;
pub mod kruskal;
pub mod my_string;
pub mod positive_integer;
pub mod reader;
pub mod structures;
pub mod text;

pub use dfs::adjacency_list;
pub use dfs::dfs;
pub use dfs::is_connected;
pub use dijkstra::find_shortest_path_length;
pub use dijkstra::DijkstraAlgorithmError;
pub use dijkstra::NodeDistance;
pub use errors::AddingEdgeError;
pub use errors::AlgorithmError;
pub use errors::BuildGraphError;
pub use errors::DijkstrasError;
pub use errors::GraphParametersParsingError;
pub use errors::ParsingEdgeError;
pub use kruskal::calculate_min_total_weight;
pub use kruskal::UnionFind;
pub use my_string::MyString;
pub use positive_integer::PositiveInteger;
pub use positive_integer::PositiveIntegerError;
pub use reader::build_graph;
pub use reader::GraphDescriptionReader;
pub use structures::Edge;
pub use structures::EdgeDescription;
pub use structures::Graph;
pub use structures::GraphBuilder;
pub use structures::GraphParameters;
