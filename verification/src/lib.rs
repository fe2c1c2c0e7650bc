//! The data plane of a caching reverse proxy: an arena-backed linked list, the
//! caches built on it, buffered message bodies and request fingerprints.

pub mod buffered_body;
pub mod caches;
pub mod clock;
pub mod collections;
pub mod config;
pub mod fingerprint;
pub mod proxy;
pub mod response;

pub use buffered_body::{BodyFrame, BufferedBody};
pub use caches::lru::{LruCache, LruCacheEntry};
pub use caches::probatory::ProbatoryCache;
pub use caches::sharded::ShardedCache;
pub use caches::{Cache, ExpirationType};
pub use config::RisuConfiguration;
pub use response::CachedResponse;
pub use collections::arena_linked_list::{
    ArenaError, ArenaLinkedList, ArenaLinkedListNode, Enumerator, NO_INDEX,
};
