//! The configuration: strategies, accounts, their secrets and the plan that runs them.

pub mod crypto;
pub mod ids;
pub mod model;
pub mod persist;
pub mod plan_connection_laws;
pub mod plan_content_laws;
pub mod plan_laws;
pub mod plan_order_laws;
pub mod planner;
pub mod refusal_laws;
pub mod store_laws;
pub mod validate;
pub mod validate_laws;
