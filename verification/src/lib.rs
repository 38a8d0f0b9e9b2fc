//! Beam planning library: assigns ground users to (satellite, color) beams.
//!
//! The solver works over discrete feasibility relations (which user can see
//! which satellite, and which user pairs interfere as seen from a satellite).
//! The geometry that derives those relations from positions is the caller's
//! concern; everything here is verified against the relations themselves.

pub mod assignment;
pub mod domain;
pub mod feasibility;
pub mod solver;
pub mod validator;

pub use assignment::Beam;
pub use domain::Color;
pub use domain::MAX_FANOUT;
pub use domain::Sat;
pub use domain::User;
pub use feasibility::BuildError;
pub use feasibility::Feasibility;
pub use solver::solve;
pub use validator::ValidationError;
pub use validator::meets_coverage;
pub use validator::validate;
