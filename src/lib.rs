//! Coordination logic of an agent for a hierarchy of subnets: signed provider
//! records and their byte forms, a cache of which peers serve which subnets,
//! the membership gossip decisions around it, and the supervision of checkpoint
//! submission from child subnets to their parents.
pub mod ids;
pub mod provider_cache;
pub mod membership;
pub mod chain;
pub mod checkpoint;
pub mod lotus;
pub mod server;
pub mod framing;
pub mod record;
pub mod envelope;
