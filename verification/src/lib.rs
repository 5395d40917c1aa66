//! Core of a self-service cloud-deployment console backend.
//!
//! The library models and verifies the deployment orchestrator: template
//! transformation by placeholder substitution, working-prefix naming and
//! parsing, the local working tree, the provisioner phase sequence, the
//! metadata catalog, and the deploy / undeploy sagas that tie them together.

pub mod text;
pub mod replace;
pub mod naming;
pub mod request;
pub mod store;
pub mod users;
pub mod catalog;
pub mod fsmodel;
pub mod transform;
pub mod worktree;
pub mod provisioner;
pub mod saga;
pub mod response;
pub mod external;
