//! The decisions of the proxy for one request: whether it is served from the
//! cache or forwarded, to which backend, and what becomes of the backend's
//! answer. Sending and receiving are the caller's part.

use crate::buffered_body::BufferedBody;
use crate::caches::sharded::ShardedCache;
use crate::fingerprint::{bytes_of, content, fingerprint, spec_fingerprint};
use rand::Rng;
use std::sync::Arc;
use vstd::prelude::*;

verus! {

/// Why a request could not be answered.
#[derive(Debug, Clone, Copy, PartialEq, Eq, Structural)]
pub enum ProxyError {
    /// There is no backend to forward to.
    NoBackend,
    /// The request has no usable path.
    MalformedRequest,
    /// The backend could not be reached or did not answer.
    BadGateway,
}

impl ProxyError {
    /// The status that answers a request that ended with this error: 400
    /// for a request that is at fault, 502 where the backends are.
    pub open spec fn spec_status(self) -> u16 {
        match self {
            ProxyError::MalformedRequest => 400,
            ProxyError::NoBackend => 502,
            ProxyError::BadGateway => 502,
        }
    }

    /// The status that answers a request that ended with this error.
    pub fn status(&self) -> (status: u16)
        ensures
            status == self.spec_status(),
    {
        match self {
            ProxyError::MalformedRequest => 400,
            ProxyError::NoBackend => 502,
            ProxyError::BadGateway => 502,
        }
    }
}

/// What to do with a request.
pub enum Action<V> {
    /// Answer with this cached value.
    Serve(Arc<V>),
    /// Count a miss and forward the request to the backend with this index.
    Forward { backend: usize },
}

/// `rand::thread_rng` and `Rng::gen_range` over the indices below `bound`:
/// one of them. The range must not be empty, or the call panics.
#[verifier::external_body]
fn random_below(bound: usize) -> (index: usize)
    requires
        bound > 0,
    ensures
        index < bound,
{
    rand::thread_rng().gen_range(0..bound)
}

/// The key under which a request is cached: its fingerprint. A request
/// without a path is malformed and has none.
pub fn request_key(
    path: &[u8],
    query: Option<&[u8]>,
    hash_header: Option<&[u8]>,
    body: &BufferedBody,
) -> (r: Result<u128, ProxyError>)
    ensures
        r == (if path@.len() == 0 {
            Err::<u128, ProxyError>(ProxyError::MalformedRequest)
        } else {
            Ok(
                spec_fingerprint(
                    path@,
                    bytes_of(query),
                    content(bytes_of(hash_header), body@.bytes),
                ),
            )
        }),
{
    if path.len() == 0 {
        return Err(ProxyError::MalformedRequest);
    }
    Ok(fingerprint(path, query, hash_header, body))
}

/// What is done with a request for which the cache gave `found`, when there
/// are `backends` backends and `draw` was drawn among them: what was found is
/// served; a miss is forwarded to the backend drawn, and is an error where
/// the draw names none.
pub open spec fn decided<V>(found: Option<Arc<V>>, backends: usize, draw: usize) -> Result<
    Action<V>,
    ProxyError,
> {
    match found {
        Some(value) => Ok(Action::Serve(value)),
        None => if draw < backends {
            Ok(Action::Forward { backend: draw })
        } else {
            Err(ProxyError::NoBackend)
        },
    }
}

/// With a backend drawn, a request is forwarded exactly when the cache gave
/// nothing for it, and is served with what the cache gave otherwise.
pub proof fn lemma_forwarded_exactly_on_a_miss<V>(
    found: Option<Arc<V>>,
    backends: usize,
    draw: usize,
)
    requires
        draw < backends,
    ensures
        found is None <==> decided(found, backends, draw) == Ok::<Action<V>, ProxyError>(
            Action::Forward { backend: draw },
        ),
        found matches Some(value) ==> decided(found, backends, draw) == Ok::<
            Action<V>,
            ProxyError,
        >(Action::Serve(value)),
{
}

/// What to do with a request for which the cache gave `found`, when there are
/// `backends` backends and `draw` was drawn among them.
pub fn decide<V>(found: Option<Arc<V>>, backends: usize, draw: usize) -> (r: Result<
    Action<V>,
    ProxyError,
>)
    ensures
        r == decided(found, backends, draw),
{
    match found {
        Some(value) => Ok(Action::Serve(value)),
        None => if draw < backends {
            Ok(Action::Forward { backend: draw })
        } else {
            Err(ProxyError::NoBackend)
        },
    }
}

/// Looks `key` up and says what to do with its request: serve what was
/// found, or forward to a backend drawn at random among `backends`. A miss
/// with no backend is an error. What the decision is follows `decided` from
/// what the key's shard gave and from the draw; with a backend there is
/// always one.
pub fn begin<V>(cache: &ShardedCache<V>, key: u128, backends: usize) -> (r: Result<
    Action<V>,
    ProxyError,
>)
    requires
        cache.wf(),
    ensures
        exists|found: Option<Arc<V>>, draw: usize|
            {
                &&& cache.lookup(key, found)
                &&& backends > 0 ==> draw < backends
                &&& r == #[trigger] decided(found, backends, draw)
            },
        backends > 0 ==> r is Ok,
        match r {
            Ok(Action::Serve(value)) => cache.lookup(key, Some(value)),
            Ok(Action::Forward { backend }) => backend < backends && cache.lookup(key, None),
            Err(e) => e == ProxyError::NoBackend && backends == 0 && cache.lookup(key, None),
        },
{
    let found = cache.try_get2(&key);
    let draw: usize = if backends > 0 {
        random_below(backends)
    } else {
        0
    };
    let r = decide(found, backends, draw);
    proof {
        assert(r == decided(found, backends, draw));
    }
    r
}

/// What a forwarded request ends with, given what the backend's part gave: a
/// value is shared, offered to the cache and returned; any failure is a bad
/// gateway, and nothing is offered to the cache.
pub fn finish<V, E>(cache: &ShardedCache<V>, key: u128, outcome: Result<V, E>) -> (r: Result<
    Arc<V>,
    ProxyError,
>)
    requires
        cache.wf(),
    ensures
        match outcome {
            Ok(value) => r matches Ok(shared) && *shared == value && (cache.admission(
                key,
                shared,
                true,
            ) || cache.admission(key, shared, false)),
            Err(_) => r == Err::<Arc<V>, ProxyError>(ProxyError::BadGateway),
        },
{
    match outcome {
        Ok(value) => match cache.complete_miss2::<E>(key, Ok(value)) {
            Ok(shared) => Ok(shared),
            Err(_) => Err(ProxyError::BadGateway),
        },
        Err(_) => Err(ProxyError::BadGateway),
    }
}

} // verus!
