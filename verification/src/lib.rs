//! Health reporting for the deployments of a cluster: for every reported
//! deployment, the desired and ready replica counts, and, when the
//! deployment is degraded, the deduplicated diagnostic messages of the
//! pods backing it.

pub mod diag;
pub mod health;
pub mod model;
pub mod order;
pub mod selector;

pub use diag::pod_status_message;
pub use health::aggregate;
pub use health::degraded_status;
pub use health::evaluate;
pub use health::Evaluation;
pub use model::ContainerStatus;
pub use model::Deployment;
pub use model::DeploymentStatus;
pub use model::Label;
pub use model::Pod;
pub use model::PodStatus;
pub use model::WaitingState;
pub use selector::label_selector;
