//! A network-mount server for optical-disc images: the protocol session
//! engine, its wire format and the catalog of images that sessions consult.
pub mod catalog;
pub mod cli;
pub mod names;
pub mod probe;
pub mod session;
pub mod wire;
