//! Deterministic fixed-point deformation law, hashing and topology checks
//! for the hex face topology of the map.
pub mod fixed_point;
pub mod sorted_set;
pub mod blend_policy;
pub mod blend;
pub mod blend_diagnostics;
pub mod blend_laws;
pub mod hex_coord;
pub mod map_layout;
pub mod types;
pub mod corner_key;
pub mod profiles;
pub mod acceptance_issues;
pub mod fingerprint;
pub mod topology;
pub mod validation;
pub mod logical_adjacency;
pub mod edge_binding;
pub mod cliffs;
pub mod ocean_distance;
pub mod landscape;
pub mod base_cells;
pub mod random;
pub mod territory;
pub mod spawn_plans;
pub mod cache;
pub mod topology_laws;
pub mod reduction;
pub mod regeneration;
pub mod adjacency_laws;
pub mod binding_laws;
