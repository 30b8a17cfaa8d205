//! Health reporting for a running service instance: the build identity it was
//! deployed with, the live status of the external dependencies it relies on,
//! and the stable wire document that carries both to consumers.

pub mod codec;
pub mod health_check;
pub mod store;
mod text;
