//! The cache-control middleware's plain core: the layer carries the
//! max-age it will stamp on cacheable responses. The HTTP service wiring
//! around it lives with the surrounding application.

use vstd::prelude::*;

verus! {

/// A layer that stamps a `max-age` cache-control header on responses.
#[derive(Debug, Clone, Copy, PartialEq, Eq, Structural)]
pub struct CacheControlLayer {
    pub after: i64,
}

impl CacheControlLayer {
    /// A layer that marks responses cacheable for `after` seconds.
    pub fn new(after: i64) -> (r: Self)
        ensures
            r.after == after,
    {
        CacheControlLayer { after }
    }

    /// Wraps a service value, carrying the max-age along.
    pub fn layer<S>(&self, inner: S) -> (r: CacheControlMiddleware<S>)
        ensures
            r.after == self.after,
    {
        CacheControlMiddleware { after: self.after, inner }
    }
}

/// The middleware produced by [`CacheControlLayer`]: the wrapped service
/// and the max-age to stamp.
#[derive(Debug, Clone)]
pub struct CacheControlMiddleware<S> {
    pub inner: S,
    pub after: i64,
}

} // verus!
