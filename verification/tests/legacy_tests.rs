use addon_sync::legacy::{build_legacy_req, AddonLegacyTransport, LegacyFetcher};
use addon_sync::meta_item::{MetaDetail, MetaPreview, PosterShape};
use addon_sync::resource::{
    FetchRequest, ResourceKind, ResourceRef, ResourceRequest, ResourceResponse, TransportError,
};

fn request(kind: ResourceKind, id: &str, extra: Vec<(String, String)>) -> ResourceRequest {
    ResourceRequest {
        transport_url: String::from("https://legacy.example.com/addons/v1"),
        resource_ref: ResourceRef { resource: kind, id: String::from(id), extra },
    }
}

fn b_param(url: &str) -> String {
    let marker = "/q.json?b=";
    let at = url.find(marker).expect("URL carries the b parameter");
    url[at + marker.len()..].to_string()
}

fn decoded_payload(req: &ResourceRequest) -> String {
    let built = build_legacy_req(req).expect("request builds");
    let encoded = b_param(&built.url);
    let bytes = base64::decode(&encoded).expect("standard base64 decodes");
    String::from_utf8(bytes).expect("payload is UTF-8")
}

#[test]
fn build_unknown_kind_fails() {
    let req = request(ResourceKind::Unknown, "top", vec![]);
    match build_legacy_req(&req) {
        Err(TransportError::UnsupportedResource) => {},
        _ => panic!("an unknown resource kind must fail the build"),
    }
}

#[test]
fn build_url_shape() {
    let req = request(ResourceKind::Meta, "tt0000001", vec![]);
    let built = build_legacy_req(&req).unwrap();
    assert!(built.url.starts_with("https://legacy.example.com/addons/v1/q.json?b="));
}

#[test]
fn meta_and_streams_payload_is_empty_object() {
    let meta = request(ResourceKind::Meta, "tt0000001", vec![]);
    assert_eq!(decoded_payload(&meta), "{}");
    // pinned literal: standard base64 of `{}`, padded
    let built = build_legacy_req(&meta).unwrap();
    assert_eq!(b_param(&built.url), "e30=");
    let streams = request(ResourceKind::Streams, "tt0000001", vec![]);
    assert_eq!(decoded_payload(&streams), "{}");
}

#[test]
fn catalog_top_sort_is_null() {
    let req = request(ResourceKind::Catalog, "top", vec![]);
    assert_eq!(
        decoded_payload(&req),
        "{\"jsonrpc\":\"2.0\",\"method\":\"stream.find\",\"params\":[null,{\"query\":{\"genre\":null},\"sort\":null,\"limit\":100,\"skip\":null}]}"
    );
}

#[test]
fn catalog_year_sorts_by_requested_id() {
    let req = request(ResourceKind::Catalog, "year", vec![]);
    assert_eq!(
        decoded_payload(&req),
        "{\"jsonrpc\":\"2.0\",\"method\":\"stream.find\",\"params\":[null,{\"query\":{\"genre\":null},\"sort\":{\"year\":-1,\"popularity\":-1},\"limit\":100,\"skip\":null}]}"
    );
}

#[test]
fn catalog_genre_and_skip_are_carried() {
    let req = request(
        ResourceKind::Catalog,
        "top",
        vec![
            (String::from("genre"), String::from("Action")),
            (String::from("skip"), String::from("100")),
        ],
    );
    assert_eq!(
        decoded_payload(&req),
        "{\"jsonrpc\":\"2.0\",\"method\":\"stream.find\",\"params\":[null,{\"query\":{\"genre\":\"Action\"},\"sort\":null,\"limit\":100,\"skip\":\"100\"}]}"
    );
}

#[test]
fn catalog_first_genre_value_wins() {
    let req = request(
        ResourceKind::Catalog,
        "top",
        vec![
            (String::from("genre"), String::from("Drama")),
            (String::from("genre"), String::from("Action")),
        ],
    );
    let payload = decoded_payload(&req);
    assert!(payload.contains("\"genre\":\"Drama\""));
}

#[test]
fn payload_escapes_json_special_characters() {
    let req = request(
        ResourceKind::Catalog,
        "top",
        vec![(String::from("genre"), String::from("say \"hi\"\\\n"))],
    );
    let payload = decoded_payload(&req);
    assert!(payload.contains("\"genre\":\"say \\\"hi\\\"\\\\\\n\""));
    let value: serde_json::Value = serde_json::from_str(&payload).expect("payload is valid JSON");
    assert_eq!(
        value["params"][1]["query"]["genre"],
        serde_json::Value::String(String::from("say \"hi\"\\\n"))
    );
}

#[test]
fn b_param_roundtrips_with_standard_alphabet_only() {
    // Three U+00FF characters put a 0b111111 sextet at every alignment, so
    // the standard alphabet is forced to emit `/` somewhere.
    let req = request(
        ResourceKind::Catalog,
        "top",
        vec![(String::from("genre"), String::from("\u{ff}\u{ff}\u{ff}"))],
    );
    let built = build_legacy_req(&req).unwrap();
    let encoded = b_param(&built.url);
    assert!(encoded.contains('+') || encoded.contains('/'));
    let bytes = base64::decode(&encoded).expect("standard base64 decodes");
    let payload = String::from_utf8(bytes).expect("payload is UTF-8");
    assert!(payload.contains("\u{ff}\u{ff}\u{ff}"));
    assert!(base64::decode_config(&encoded, base64::URL_SAFE).is_err());
}

struct CountingFetcher {
    metas_calls: usize,
    meta_calls: usize,
    metas_result: Result<Vec<MetaPreview>, TransportError>,
    meta_result: Result<MetaDetail, TransportError>,
}

fn preview(id: &str) -> MetaPreview {
    MetaPreview {
        id: String::from(id),
        item_type: String::from("movie"),
        name: String::from("Example"),
        poster: None,
        logo: None,
        description: None,
        release_info: None,
        runtime: None,
        released: None,
        genres: vec![],
        directors: vec![],
        poster_shape: PosterShape::Poster,
    }
}

fn detail(id: &str) -> MetaDetail {
    MetaDetail {
        id: String::from(id),
        item_type: String::from("movie"),
        name: String::from("Example"),
        poster: None,
        background: None,
        logo: None,
        description: None,
        release_info: None,
        runtime: None,
        released: None,
        genres: vec![],
        directors: vec![],
        writers: vec![],
        cast: vec![],
        imdb_rating: None,
        imdb_id: None,
        poster_shape: PosterShape::Poster,
        videos: vec![],
        featured_vid: None,
        external_urls: vec![],
    }
}

impl LegacyFetcher for CountingFetcher {
    fn fetch_metas(&mut self, _req: &FetchRequest) -> Result<Vec<MetaPreview>, TransportError> {
        self.metas_calls += 1;
        self.metas_result.clone()
    }

    fn fetch_meta(&mut self, _req: &FetchRequest) -> Result<MetaDetail, TransportError> {
        self.meta_calls += 1;
        self.meta_result.clone()
    }
}

fn counting(metas: Result<Vec<MetaPreview>, TransportError>, meta: Result<MetaDetail, TransportError>)
    -> AddonLegacyTransport<CountingFetcher> {
    AddonLegacyTransport::new(CountingFetcher {
        metas_calls: 0,
        meta_calls: 0,
        metas_result: metas,
        meta_result: meta,
    })
}

#[test]
fn get_unknown_kind_no_network_call() {
    let mut transport = counting(Ok(vec![]), Ok(detail("x")));
    let req = request(ResourceKind::Unknown, "top", vec![]);
    match transport.get(&req) {
        Err(TransportError::UnsupportedResource) => {},
        _ => panic!("unknown kind must be unsupported"),
    }
    assert_eq!(transport.env.metas_calls, 0);
    assert_eq!(transport.env.meta_calls, 0);
}

#[test]
fn get_streams_kind_no_network_call() {
    let mut transport = counting(Ok(vec![]), Ok(detail("x")));
    let req = request(ResourceKind::Streams, "tt1", vec![]);
    match transport.get(&req) {
        Err(TransportError::UnsupportedResource) => {},
        _ => panic!("streams responses are unsupported"),
    }
    assert_eq!(transport.env.metas_calls, 0);
    assert_eq!(transport.env.meta_calls, 0);
}

#[test]
fn get_catalog_wraps_previews() {
    let mut transport = counting(Ok(vec![preview("a"), preview("b")]), Ok(detail("x")));
    let req = request(ResourceKind::Catalog, "top", vec![]);
    match transport.get(&req) {
        Ok(ResourceResponse::Metas { metas }) => {
            assert_eq!(metas.len(), 2);
            assert_eq!(metas[0].id, "a");
            assert_eq!(metas[1].id, "b");
        },
        _ => panic!("catalog must answer with previews"),
    }
    assert_eq!(transport.env.metas_calls, 1);
    assert_eq!(transport.env.meta_calls, 0);
}

#[test]
fn get_meta_wraps_detail() {
    let mut transport = counting(Ok(vec![]), Ok(detail("tt9")));
    let req = request(ResourceKind::Meta, "tt9", vec![]);
    match transport.get(&req) {
        Ok(ResourceResponse::Meta { meta }) => assert_eq!(meta.id, "tt9"),
        _ => panic!("meta must answer with one detail"),
    }
    assert_eq!(transport.env.metas_calls, 0);
    assert_eq!(transport.env.meta_calls, 1);
}

struct BodyFetcher {
    body: &'static str,
    metas_calls: usize,
    meta_calls: usize,
}

impl LegacyFetcher for BodyFetcher {
    fn fetch_metas(&mut self, _req: &FetchRequest) -> Result<Vec<MetaPreview>, TransportError> {
        self.metas_calls += 1;
        let value: serde_json::Value =
            serde_json::from_str(self.body).map_err(|_| TransportError::DecodeFailure)?;
        match value.as_array() {
            Some(entries) => Ok(entries
                .iter()
                .map(|entry| preview(entry["id"].as_str().unwrap_or("")))
                .collect()),
            None => Err(TransportError::DecodeFailure),
        }
    }

    fn fetch_meta(&mut self, _req: &FetchRequest) -> Result<MetaDetail, TransportError> {
        self.meta_calls += 1;
        let value: serde_json::Value =
            serde_json::from_str(self.body).map_err(|_| TransportError::DecodeFailure)?;
        match value.as_object() {
            Some(fields) => Ok(detail(fields.get("id").and_then(|v| v.as_str()).unwrap_or(""))),
            None => Err(TransportError::DecodeFailure),
        }
    }
}

#[test]
fn meta_request_with_array_body_is_decode_failure() {
    // The body would decode as a catalog, but dispatch goes by the request's
    // kind, never by the response's shape.
    let mut transport = AddonLegacyTransport::new(BodyFetcher {
        body: "[{\"id\":\"a\"}]",
        metas_calls: 0,
        meta_calls: 0,
    });
    let req = request(ResourceKind::Meta, "tt1", vec![]);
    match transport.get(&req) {
        Err(TransportError::DecodeFailure) => {},
        _ => panic!("an array body for a meta request must fail decoding"),
    }
    assert_eq!(transport.env.meta_calls, 1);
    assert_eq!(transport.env.metas_calls, 0);
}

#[test]
fn network_failure_passes_through() {
    let mut transport = counting(Err(TransportError::NetworkFailure), Ok(detail("x")));
    let req = request(ResourceKind::Catalog, "top", vec![]);
    match transport.get(&req) {
        Err(TransportError::NetworkFailure) => {},
        _ => panic!("network failures must pass through unchanged"),
    }
}

#[test]
fn poster_shape_accessors() {
    assert_eq!(PosterShape::default(), PosterShape::Unspecified);
    assert!(PosterShape::Unspecified.is_unspecified());
    assert!(!PosterShape::Square.is_unspecified());
    assert_eq!(PosterShape::Poster.to_str(), "poster");
    assert_eq!(PosterShape::Square.to_str(), "square");
    assert_eq!(PosterShape::Landscape.to_str(), "landscape");
    assert_eq!(PosterShape::Unspecified.to_str(), "poster");
}

#[test]
fn get_extra_first_val_finds_first_match() {
    let rref = ResourceRef {
        resource: ResourceKind::Catalog,
        id: String::from("top"),
        extra: vec![
            (String::from("skip"), String::from("20")),
            (String::from("genre"), String::from("Drama")),
            (String::from("genre"), String::from("Action")),
        ],
    };
    assert_eq!(rref.get_extra_first_val("genre"), Some(&String::from("Drama")));
    assert_eq!(rref.get_extra_first_val("skip"), Some(&String::from("20")));
    assert_eq!(rref.get_extra_first_val("search"), None);
}
