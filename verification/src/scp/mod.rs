//! File copies over an ssh channel, by the protocol of `scp -t` and `scp -f`.
pub mod download;
pub mod transfer;
pub mod tree;
pub mod upload;
pub mod wire;
