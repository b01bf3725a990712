//! Verified core of a small ecosystem simulation: the navigation graph that
//! squirrels walk on, the uniform-grid neighbour index, the L-system rewriting
//! that shapes the trees, and the behaviour state machines of birds, hatchlings
//! and squirrels.
pub mod camera;
pub mod components;
pub mod config;
pub mod feeding;
pub mod hunt;
pub mod lsystem;
pub mod nav_graph;
pub mod nesting;
pub mod random;
pub mod search;
pub mod select;
pub mod spatial;
pub mod squirrel;
