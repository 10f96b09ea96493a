use video_gateway::access::{sign_request, stream_response, FOUND, SIGNED_URL_TTL_SECS};
use video_gateway::error::GatewayError;

#[test]
fn encoded_path_is_signed_for_decoded_key() {
    let req = sign_request("folder%2Fmovie.mp4").unwrap();
    assert_eq!(req.key, "folder/movie.mp4");
    assert_eq!(req.expires_in_secs, 3600);
    assert_eq!(SIGNED_URL_TTL_SECS, 3600);
    let url = "https://bucket.example/folder/movie.mp4?X-Amz-Expires=3600".to_string();
    let redirect = stream_response(Some(url.clone())).unwrap();
    assert_eq!(redirect.status, 302);
    assert_eq!(FOUND, 302);
    assert_eq!(redirect.location, url);
}

#[test]
fn malformed_escape_is_client_error() {
    let err = sign_request("%zz").unwrap_err();
    assert_eq!(err, GatewayError::InvalidKeyEncoding);
    assert_eq!(err.status_code(), 400);
}

#[test]
fn signing_failure_is_server_error() {
    let err = stream_response(None).unwrap_err();
    assert_eq!(err, GatewayError::BackendUnavailable);
    assert_eq!(err.status_code(), 500);
}
