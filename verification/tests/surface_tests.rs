use index_media_server::api::get_content_type;
use index_media_server::fingerprint::{
    fast_hash_bytes, hash_gathered_bytes, segment_offsets, uses_whole_file, SEGMENT_SIZE,
    WHOLE_FILE_LIMIT,
};
use index_media_server::http::{
    extract_user_agent, matches_path, parse_http_request, HttpResponse, Router,
};
use index_media_server::image::detect_image_extension;

const MIB: u64 = 1024 * 1024;

#[test]
fn hash_format_is_32_lowercase_hex() {
    let h = fast_hash_bytes(&vec![1u8, 2, 3]);
    assert_eq!(h.len(), 32);
    assert!(h.chars().all(|c| c.is_ascii_hexdigit() && !c.is_ascii_uppercase()));
}

#[test]
fn hash_is_deterministic_and_content_sensitive() {
    let a = fast_hash_bytes(&vec![7u8; 1000]);
    let b = fast_hash_bytes(&vec![7u8; 1000]);
    assert_eq!(a, b);
    let c = fast_hash_bytes(&vec![8u8; 1000]);
    assert_ne!(a, c);
}

#[test]
fn whole_file_below_limit_sampled_at_limit() {
    assert!(uses_whole_file(40 * MIB - 1));
    assert!(!uses_whole_file(40 * MIB));
    assert!(segment_offsets(40 * MIB - 1).is_none());
    let offs = segment_offsets(40 * MIB).unwrap();
    let gap = (40 * MIB - SEGMENT_SIZE) / 4;
    assert_eq!(offs, vec![0, gap, 2 * gap, 3 * gap, 40 * MIB - SEGMENT_SIZE]);
    assert_eq!(WHOLE_FILE_LIMIT, 40 * MIB);
}

#[test]
fn sparse_sampling_sees_only_the_windows() {
    let size = (50 * MIB) as usize;
    let gap = ((size as u64 - SEGMENT_SIZE) / 4) as usize;
    let seg = SEGMENT_SIZE as usize;
    let mut a = vec![0u8; size];
    for (i, b) in a.iter_mut().enumerate() {
        *b = (i % 251) as u8;
    }
    let mut b = a.clone();
    // change one byte between the first two windows: both files hash alike
    let outside = seg + (gap - seg) / 2;
    assert!(outside > seg && outside < gap);
    b[outside] ^= 0xFF;
    assert_eq!(fast_hash_bytes(&a), fast_hash_bytes(&b));
    // change one byte inside the first window: the hashes part
    let mut c = a.clone();
    c[0] ^= 0xFF;
    assert_ne!(fast_hash_bytes(&a), fast_hash_bytes(&c));
}

#[test]
fn small_file_gathered_equals_direct() {
    let data = vec![42u8; 1000];
    assert_eq!(fast_hash_bytes(&data), hash_gathered_bytes(&data));
}

#[test]
fn request_head_parses() {
    let raw = "GET /api/ping HTTP/1.1\r\nHost: example\r\nUser-Agent: tester/1.0\r\n\r\nhello";
    let req = parse_http_request(raw).unwrap();
    assert_eq!(req.method, "GET");
    assert_eq!(req.path, "/api/ping");
    assert_eq!(req.headers.len(), 2);
    assert_eq!(req.body, Some("hello".to_string()));
    assert_eq!(extract_user_agent(&req.headers), "tester/1.0");
}

#[test]
fn request_without_path_is_rejected() {
    assert!(parse_http_request("GET").is_none());
    assert!(parse_http_request("").is_none());
}

#[test]
fn unknown_user_agent() {
    let headers = vec!["Host: example".to_string()];
    assert_eq!(extract_user_agent(&headers), "Unknown");
}

#[test]
fn route_patterns() {
    assert!(matches_path("/api/ping", "/api/ping"));
    assert!(matches_path("/static/*", "/static/css/app.css"));
    assert!(matches_path("/api/index/{index_id}/icon", "/api/index/42/icon"));
    assert!(!matches_path("/api/index/{index_id}/icon", "/api/index//icon"));
    assert!(!matches_path("/api/ping", "/api/pong"));

    let mut router = Router::new();
    router.add_route("GET", "/api/ping");
    router.add_route("GET", "/api/index/{index_id}/icon");
    assert_eq!(router.find_route("GET", "/api/index/7/icon"), Some(1));
    assert_eq!(router.find_route("POST", "/api/ping"), None);
}

#[test]
fn response_builder_collects_parts() {
    let r = HttpResponse::new(200)
        .with_cors()
        .with_json_body("{\"ok\":true}");
    let (status, headers, body, binary) = r.into_parts();
    assert_eq!(status, 200);
    assert_eq!(headers.len(), 4);
    assert_eq!(headers[3].0, "Content-Type");
    assert_eq!(body, Some("{\"ok\":true}".to_string()));
    assert!(binary.is_none());
}

#[test]
fn image_magic_bytes() {
    assert_eq!(detect_image_extension(&[0x89, 0x50, 0x4E, 0x47, 1, 2]), Ok("png"));
    assert_eq!(detect_image_extension(&[0xFF, 0xD8, 0xFF, 0xE0]), Ok("jpg"));
    assert_eq!(detect_image_extension(&[0x47, 0x49, 0x46, 0x38]), Ok("gif"));
    assert_eq!(detect_image_extension(&[0x42, 0x4D, 0, 0]), Ok("bmp"));
    assert_eq!(detect_image_extension(&[1, 2, 3, 4]), Ok("png"));
    assert_eq!(detect_image_extension(&[1]), Ok("png"));
}

#[test]
fn content_types_by_extension() {
    assert_eq!(get_content_type("index.html"), "text/html");
    assert_eq!(get_content_type("app.js"), "application/javascript");
    assert_eq!(get_content_type("a/b/logo.svg"), "image/svg+xml");
    assert_eq!(get_content_type("noext"), "application/octet-stream");
}

#[test]
fn child_folders_are_dropped() {
    let folders = vec![
        "/media/tv".to_string(),
        "/media/tv/shows".to_string(),
        "/media/movies".to_string(),
        "/other".to_string(),
    ];
    let kept = index_media_server::api::filter_child_folders(folders);
    assert_eq!(kept, vec!["/media/tv".to_string(), "/media/movies".to_string(), "/other".to_string()]);
}
