//! Transport-agnostic description of a resource pull and its typed result.

use crate::codec::str_eq;
use crate::meta_item::{MetaDetail, MetaPreview};
use vstd::prelude::*;

verus! {

/// Closed set of resource kinds, shared by the request builder and the
/// response interpreter so the two dispatch stages cannot diverge.
#[derive(PartialEq, Eq, Structural, Clone, Copy, Debug)]
pub enum ResourceKind {
    Catalog,
    Meta,
    Streams,
    Unknown,
}

/// What to fetch: a resource kind, an id, and ordered extra parameters.
pub struct ResourceRef {
    pub resource: ResourceKind,
    pub id: String,
    pub extra: Vec<(String, String)>,
}

/// First value among `extra` whose key is `key`, if any.
pub open spec fn extra_first(extra: Seq<(String, String)>, key: Seq<char>) -> Option<Seq<char>>
    decreases extra.len(),
{
    if extra.len() == 0 {
        None
    } else if extra[0].0@ == key {
        Some(extra[0].1@)
    } else {
        extra_first(extra.skip(1), key)
    }
}

impl ResourceRef {
    /// The value of the first extra parameter carrying the given key.
    pub fn get_extra_first_val(&self, key: &str) -> (r: Option<&String>)
        ensures
            match r {
                Some(v) => extra_first(self.extra@, key@) == Some(v@),
                None => extra_first(self.extra@, key@) is None,
            },
    {
        let n = self.extra.len();
        proof {
            assert(self.extra@.skip(0) =~= self.extra@);
        }
        for i in 0..n
            invariant
                n == self.extra.len(),
                extra_first(self.extra@, key@) == extra_first(self.extra@.skip(i as int), key@),
        {
            proof {
                assert(self.extra@.skip(i as int).skip(1) =~= self.extra@.skip(i + 1));
            }
            if str_eq(self.extra[i].0.as_str(), key) {
                return Some(&self.extra[i].1);
            }
        }
        proof {
            assert(self.extra@.skip(n as int) =~= Seq::<(String, String)>::empty());
        }
        None
    }
}

/// A generic pull request against one addon transport.
pub struct ResourceRequest {
    pub transport_url: String,
    pub resource_ref: ResourceRef,
}

/// Typed result of a pull; the variant corresponds to the resource kind
/// that was requested, never to the shape the response body happened to have.
pub enum ResourceResponse {
    Metas { metas: Vec<MetaPreview> },
    Meta { meta: MetaDetail },
}

/// Failure of one transport `get`. Build-time failures are reported before
/// any network call; decode failures are distinct from network failures.
#[derive(PartialEq, Eq, Structural, Clone, Copy, Debug)]
pub enum TransportError {
    UnsupportedResource,
    RequestBuildFailure,
    NetworkFailure,
    DecodeFailure,
}

/// One HTTP GET with an empty body, ready to be performed.
pub struct FetchRequest {
    pub url: String,
}

} // verus!
