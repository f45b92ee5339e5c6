pub mod wire;
pub mod hashing;
pub mod transaction;
pub mod block;
pub mod catch_up;
pub mod framing;
pub mod dedup;
pub mod peer;
pub mod buckets;
pub mod message;
pub mod fails;
pub mod connection;
pub mod routing;
pub mod consensus;
