//! Core logic of a location-routed peer-to-peer contract network: the ring
//! metric and neighbour table, contract identity and update algebra, the
//! join-ring handshake, the in-flight operation table, the routing estimator's
//! model selection and the binary wire codec.
pub mod bytes;
pub mod location;
pub mod interface;
pub mod contract;
pub mod ring;
pub mod join_ring;
pub mod operations;
pub mod dispatcher;
pub mod router;
pub mod codec;
pub mod register;
