//! Legacy protocol adapter.
//!
//! A generic resource request is translated into one HTTP GET whose `b`
//! query parameter carries a base64-encoded JSON-RPC-shaped payload, and the
//! response is typed strictly by the resource kind that was requested.
//! The payload uses the standard (non URL-safe) base64 alphabet, and the
//! `Meta` and `Streams` payloads are literal empty JSON objects; both are
//! deliberate, pinned replications of the historical protocol.

use crate::codec::{
    b64_decode, b64_encode, lemma_b64_round_trip, push_char, str_eq, to_base64,
};
use crate::meta_item::{MetaDetail, MetaPreview};
use crate::resource::{
    extra_first, FetchRequest, ResourceKind, ResourceRef, ResourceRequest, ResourceResponse,
    TransportError,
};
use vstd::prelude::*;
use vstd::string::{StrSliceExecFns, StringExecFns};
use vstd::utf8::{decode_utf8, encode_utf8, encode_utf8_decode_utf8};

verus! {

/// Lower-case hexadecimal digit for a value below 16.
pub open spec fn hex_char(v: u8) -> char {
    if v < 10 {
        ((48 + v) as u8) as char
    } else {
        ((87 + v) as u8) as char
    }
}

/// How one character appears inside a JSON string literal.
pub open spec fn esc_char(c: char) -> Seq<char> {
    if c == '"' {
        seq!['\\', '"']
    } else if c == '\\' {
        seq!['\\', '\\']
    } else if c == '\u{8}' {
        seq!['\\', 'b']
    } else if c == '\t' {
        seq!['\\', 't']
    } else if c == '\n' {
        seq!['\\', 'n']
    } else if c == '\u{c}' {
        seq!['\\', 'f']
    } else if c == '\r' {
        seq!['\\', 'r']
    } else if (c as u32) < 32 {
        seq!['\\', 'u', '0', '0', hex_char(((c as u32) >> 4) as u8), hex_char(((c as u32) & 15) as u8)]
    } else {
        seq![c]
    }
}

/// The body of a JSON string literal holding `s`.
pub open spec fn json_escaped(s: Seq<char>) -> Seq<char>
    decreases s.len(),
{
    if s.len() == 0 {
        Seq::empty()
    } else {
        esc_char(s[0]) + json_escaped(s.skip(1))
    }
}

/// A complete JSON string literal holding `s`.
pub open spec fn quoted(s: Seq<char>) -> Seq<char> {
    "\""@ + json_escaped(s) + "\""@
}

/// A JSON string literal for a present value, JSON `null` for an absent one.
pub open spec fn opt_quoted(v: Option<Seq<char>>) -> Seq<char> {
    match v {
        None => "null"@,
        Some(s) => quoted(s),
    }
}

/// The `sort` field of a catalog payload: JSON `null` for the id `top`,
/// otherwise a descending sort keyed by the requested id itself (the id
/// doubles as a sort field name) and by popularity.
pub open spec fn sort_part(id: Seq<char>) -> Seq<char> {
    if id == "top"@ {
        "null"@
    } else {
        "{\""@ + json_escaped(id) + "\":-1,\"popularity\":-1}"@
    }
}

/// The JSON-RPC-shaped payload of a catalog request.
pub open spec fn spec_catalog_payload(
    id: Seq<char>,
    genre: Option<Seq<char>>,
    skip: Option<Seq<char>>,
) -> Seq<char> {
    "{\"jsonrpc\":\"2.0\",\"method\":\"stream.find\",\"params\":[null,{\"query\":{\"genre\":"@
        + opt_quoted(genre) + "},\"sort\":"@ + sort_part(id) + ",\"limit\":100,\"skip\":"@
        + opt_quoted(skip) + "}]}"@
}

/// The payload serialized for a resource reference. For `Meta` and
/// `Streams` it is a literal empty object.
pub open spec fn legacy_payload(r: ResourceRef) -> Seq<char>
    recommends
        r.resource != ResourceKind::Unknown,
{
    match r.resource {
        ResourceKind::Catalog => spec_catalog_payload(
            r.id@,
            extra_first(r.extra@, "genre"@),
            extra_first(r.extra@, "skip"@),
        ),
        _ => "{}"@,
    }
}

/// The full URL of the legacy GET call for a resource reference.
pub open spec fn legacy_url(req: ResourceRequest) -> Seq<char> {
    req.transport_url@ + "/q.json?b="@ + b64_encode(encode_utf8(legacy_payload(req.resource_ref)))
}

/// View of an optionally borrowed string.
pub open spec fn view_opt(v: Option<&String>) -> Option<Seq<char>> {
    match v {
        None => None,
        Some(s) => Some(s@),
    }
}

/// Escapes `s` as the body of a JSON string literal.
fn json_escape(s: &str) -> (r: String)
    ensures
        r@ == json_escaped(s@),
{
    let n = s.unicode_len();
    let mut out = String::new();
    proof {
        assert(s@.skip(0) =~= s@);
    }
    for i in 0..n
        invariant
            n == s@.len(),
            out@ + json_escaped(s@.skip(i as int)) == json_escaped(s@),
    {
        let ghost out0 = out@;
        let c = s.get_char(i);
        proof {
            assert(s@.skip(i as int).skip(1) =~= s@.skip(i + 1));
        }
        if c == '"' {
            push_char(&mut out, '\\');
            push_char(&mut out, '"');
        } else if c == '\\' {
            push_char(&mut out, '\\');
            push_char(&mut out, '\\');
        } else if c == '\u{8}' {
            push_char(&mut out, '\\');
            push_char(&mut out, 'b');
        } else if c == '\t' {
            push_char(&mut out, '\\');
            push_char(&mut out, 't');
        } else if c == '\n' {
            push_char(&mut out, '\\');
            push_char(&mut out, 'n');
        } else if c == '\u{c}' {
            push_char(&mut out, '\\');
            push_char(&mut out, 'f');
        } else if c == '\r' {
            push_char(&mut out, '\\');
            push_char(&mut out, 'r');
        } else if (c as u32) < 32 {
            let u = c as u32;
            proof {
                assert(u >> 4 < 16 && (u & 15) < 16) by (bit_vector)
                    requires
                        u < 32,
                ;
            }
            push_char(&mut out, '\\');
            push_char(&mut out, 'u');
            push_char(&mut out, '0');
            push_char(&mut out, '0');
            push_char(&mut out, hex_char_exec((u >> 4) as u8));
            push_char(&mut out, hex_char_exec((u & 15) as u8));
        } else {
            push_char(&mut out, c);
        }
        proof {
            assert(out@ =~= out0 + esc_char(c));
            assert(out0 + esc_char(c) + json_escaped(s@.skip(i + 1)) =~= out0 + (esc_char(c)
                + json_escaped(s@.skip(i + 1))));
        }
    }
    proof {
        assert(s@.skip(n as int) =~= Seq::<char>::empty());
        assert(out@ + Seq::<char>::empty() =~= out@);
    }
    out
}

/// Lower-case hexadecimal digit for a value below 16.
fn hex_char_exec(v: u8) -> (r: char)
    requires
        v < 16,
    ensures
        r == hex_char(v),
{
    if v < 10 {
        (48 + v) as char
    } else {
        (87 + v) as char
    }
}

/// Appends a JSON string literal for a present value, `null` for an absent
/// one.
fn append_opt_quoted(out: &mut String, v: Option<&String>)
    ensures
        final(out)@ == old(out)@ + opt_quoted(view_opt(v)),
{
    match v {
        None => {
            out.append("null");
        },
        Some(s) => {
            let ghost out0 = out@;
            out.append("\"");
            let e = json_escape(s.as_str());
            out.append(e.as_str());
            out.append("\"");
            proof {
                assert(out@ =~= out0 + quoted(s@));
            }
        },
    }
}

/// Builds the catalog payload for the given id and extra parameters.
fn catalog_payload(id: &str, genre: Option<&String>, skip: Option<&String>) -> (r: String)
    ensures
        r@ == spec_catalog_payload(id@, view_opt(genre), view_opt(skip)),
{
    let mut out = String::from_str(
        "{\"jsonrpc\":\"2.0\",\"method\":\"stream.find\",\"params\":[null,{\"query\":{\"genre\":",
    );
    append_opt_quoted(&mut out, genre);
    out.append("},\"sort\":");
    if str_eq(id, "top") {
        out.append("null");
    } else {
        let ghost out0 = out@;
        out.append("{\"");
        let e = json_escape(id);
        out.append(e.as_str());
        out.append("\":-1,\"popularity\":-1}");
        proof {
            assert(out@ =~= out0 + sort_part(id@));
        }
    }
    out.append(",\"limit\":100,\"skip\":");
    append_opt_quoted(&mut out, skip);
    out.append("}]}");
    proof {
        assert(out@ =~= spec_catalog_payload(id@, view_opt(genre), view_opt(skip)));
    }
    out
}

/// Builds the one GET call a resource request translates to. Every kind
/// outside the closed build set fails with `UnsupportedResource` before any
/// network activity.
pub fn build_legacy_req(req: &ResourceRequest) -> (r: Result<FetchRequest, TransportError>)
    ensures
        match r {
            Ok(f) => req.resource_ref.resource != ResourceKind::Unknown && f.url@ == legacy_url(
                *req,
            ),
            Err(e) => req.resource_ref.resource == ResourceKind::Unknown && e
                == TransportError::UnsupportedResource,
        },
{
    let payload: String = match req.resource_ref.resource {
        ResourceKind::Catalog => catalog_payload(
            req.resource_ref.id.as_str(),
            req.resource_ref.get_extra_first_val("genre"),
            req.resource_ref.get_extra_first_val("skip"),
        ),
        ResourceKind::Meta => String::from_str("{}"),
        ResourceKind::Streams => String::from_str("{}"),
        ResourceKind::Unknown => {
            return Err(TransportError::UnsupportedResource);
        },
    };
    let encoded = to_base64(payload.as_str().as_bytes());
    let mut url = String::new();
    url.append(req.transport_url.as_str());
    url.append("/q.json?b=");
    url.append(encoded.as_str());
    Ok(FetchRequest { url })
}

/// The encoding round trip of the `b` query parameter: decoding it with
/// the standard base64 alphabet always succeeds and gives back exactly the
/// serialized payload — its UTF-8 bytes, and through UTF-8 decoding the
/// payload text itself.
pub proof fn lemma_payload_round_trip(r: ResourceRef)
    ensures
        b64_decode(b64_encode(encode_utf8(legacy_payload(r)))) == Some(
            encode_utf8(legacy_payload(r)),
        ),
        decode_utf8(encode_utf8(legacy_payload(r))) == legacy_payload(r),
{
    lemma_b64_round_trip(encode_utf8(legacy_payload(r)));
    encode_utf8_decode_utf8(legacy_payload(r));
}

/// The HTTP capability the adapter is built over: performs one GET and
/// decodes the body in the shape the caller asks for. Implementations live
/// outside the library; a decode of an unexpected body shape must fail with
/// `DecodeFailure`, a failed transfer with `NetworkFailure`.
pub trait LegacyFetcher {
    /// Performs the GET and decodes the body as an ordered list of previews.
    fn fetch_metas(&mut self, req: &FetchRequest) -> Result<Vec<MetaPreview>, TransportError>;

    /// Performs the GET and decodes the body as one detailed item.
    fn fetch_meta(&mut self, req: &FetchRequest) -> Result<MetaDetail, TransportError>;
}

/// Addon transport speaking the legacy protocol over a fetch capability.
pub struct AddonLegacyTransport<E: LegacyFetcher> {
    pub env: E,
}

impl<E: LegacyFetcher> AddonLegacyTransport<E> {
    /// An adapter over the given fetch capability.
    pub fn new(env: E) -> (t: AddonLegacyTransport<E>)
        ensures
            t == (AddonLegacyTransport { env }),
    {
        AddonLegacyTransport { env }
    }

    /// Fetches one resource. The response is interpreted strictly by the
    /// requested resource kind: every kind outside {`Catalog`, `Meta`} fails
    /// with `UnsupportedResource` and performs no fetch, even `Streams`,
    /// for which a request can be built.
    pub fn get(&mut self, req: &ResourceRequest) -> (r: Result<ResourceResponse, TransportError>)
        ensures
            req.resource_ref.resource != ResourceKind::Catalog && req.resource_ref.resource
                != ResourceKind::Meta ==> r == Err::<ResourceResponse, TransportError>(
                TransportError::UnsupportedResource,
            ),
            r is Ok ==> (req.resource_ref.resource == ResourceKind::Catalog <==> r->Ok_0 is Metas),
            r is Ok ==> (req.resource_ref.resource == ResourceKind::Meta <==> r->Ok_0 is Meta),
    {
        let fetch_req = match build_legacy_req(req) {
            Ok(f) => f,
            Err(e) => {
                return Err(e);
            },
        };
        match req.resource_ref.resource {
            ResourceKind::Catalog => match self.env.fetch_metas(&fetch_req) {
                Ok(metas) => Ok(ResourceResponse::Metas { metas }),
                Err(e) => Err(e),
            },
            ResourceKind::Meta => match self.env.fetch_meta(&fetch_req) {
                Ok(meta) => Ok(ResourceResponse::Meta { meta }),
                Err(e) => Err(e),
            },
            _ => Err(TransportError::UnsupportedResource),
        }
    }
}

} // verus!
