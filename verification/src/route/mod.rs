//! Routed copper, the design-rule check, and connectivity.

pub mod connectivity;
pub mod contact;
pub mod drc;
pub mod features;
pub mod incidence;
pub mod layer;
pub mod presence;
pub mod report;
pub mod rules;
pub mod union_find;
pub mod world;

pub use connectivity::{NetPins, Netlist};
pub use drc::{check_document, check_drc};
pub use features::{net_features, pours, world_features, Pour};
pub use layer::{Layer, Trace, Via};
pub use rules::{DesignRules, Violation};
