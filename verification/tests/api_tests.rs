use imagegen::api::{
    classify_error, edit_form, endpoint, generation_body, normalize_base_url, upload_meta,
    upload_meta_from, ApiError, BodyValue, ErrDetail, FormPart, ImageData, ImagePayload,
    ImageRequest, PayloadError, DEFAULT_BASE_URL,
};
use imagegen::size::{gpt_image_2_size_hint, size_hint_pixels_fit, validate_size, SizeError};

/// Reads the `error` object of an API error body the way the client does.
fn detail_of(body: &str) -> Option<ErrDetail> {
    let v: serde_json::Value = serde_json::from_str(body).ok()?;
    let e = v.get("error")?;
    if !e.is_object() {
        return None;
    }
    let field = |k: &str| e.get(k).and_then(|x| x.as_str()).map(String::from);
    Some(ErrDetail { message: field("message"), code: field("code"), kind: field("type") })
}

#[test]
fn validate_size_accepts_auto_and_dimensions() {
    assert!(validate_size("auto").is_ok());
    assert!(validate_size("1024x1024").is_ok());
    assert!(validate_size("3840x2160").is_ok());
}

#[test]
fn validate_size_rejects_garbage() {
    assert!(validate_size("big").is_err());
    assert!(validate_size("1024").is_err());
    assert!(validate_size("1024x").is_err());
    assert!(validate_size("x1024").is_err());
    assert!(validate_size("1024x1024x3").is_err());
    assert!(validate_size("0x100").is_err());
    assert!(validate_size("-10x100").is_err());
}

#[test]
fn validate_size_error_kinds_and_messages() {
    match validate_size("big") {
        Err(e @ SizeError::Malformed(_)) => assert_eq!(
            e.message(),
            "invalid size 'big': expected WIDTHxHEIGHT (e.g. 1024x1024) or 'auto'"
        ),
        other => panic!("expected malformed, got {other:?}"),
    }
    match validate_size("0x100") {
        Err(e @ SizeError::NotPositive(_)) => {
            assert_eq!(e.message(), "invalid size '0x100': dimensions must be positive")
        }
        other => panic!("expected not positive, got {other:?}"),
    }
    match validate_size("4294967296x10") {
        Err(e @ SizeError::TooLarge) => {
            assert_eq!(e.message(), "number too large to fit in target type")
        }
        other => panic!("expected too large, got {other:?}"),
    }
    assert!(validate_size("4294967295x0001").is_ok());
    assert!(validate_size("+10x10").is_err());
    assert!(validate_size("AUTO").is_err());
}

#[test]
fn size_hint_flags_gpt_image_2_constraints() {
    assert!(gpt_image_2_size_hint("auto").is_none());
    assert!(gpt_image_2_size_hint("1024x1024").is_none());
    assert!(gpt_image_2_size_hint("3840x2160").is_none());
    // not multiple of 16
    assert!(gpt_image_2_size_hint("1000x1000").is_some());
    // too large an edge
    assert!(gpt_image_2_size_hint("4096x2160").is_some());
    // ratio > 3:1
    assert!(gpt_image_2_size_hint("3840x1024").is_some());
    // too few pixels
    assert!(gpt_image_2_size_hint("640x640").is_some());
}

#[test]
fn size_hint_messages_exact() {
    assert_eq!(
        gpt_image_2_size_hint("640x640").unwrap(),
        "size 640x640 may be rejected by gpt-image-2: total pixels must be between 655,360 and 8,294,400 (got 409600)"
    );
    assert_eq!(
        gpt_image_2_size_hint("4001x16").unwrap(),
        "size 4001x16 may be rejected by gpt-image-2: both dimensions must be multiples of 16; \
         max edge is 3840px; aspect ratio must be at most 3:1; total pixels must be between \
         655,360 and 8,294,400 (got 64016)"
    );
    // only the first two fields are read, and a leading '+' is accepted
    assert!(gpt_image_2_size_hint("1024x1024x7").is_none());
    assert!(gpt_image_2_size_hint("+1024x1024").is_none());
    // unreadable sizes get no hint
    assert!(gpt_image_2_size_hint("big").is_none());
    assert!(gpt_image_2_size_hint("10x").is_none());
}

#[test]
fn size_hint_overflow_guard() {
    assert!(size_hint_pixels_fit("1024x1024"));
    assert!(size_hint_pixels_fit("big"));
    assert!(!size_hint_pixels_fit("18446744073709551615x2"));
}

#[test]
fn classify_moderation_error() {
    let body = r#"{"error":{"message":"Your request was blocked.","type":"image_generation_user_error","code":"moderation_blocked"}}"#;
    // 400 Bad Request
    match classify_error(400, body, detail_of(body)) {
        ApiError::ModerationBlocked(m) => assert!(m.contains("blocked")),
        other => panic!("expected moderation error, got {other:?}"),
    }
}

#[test]
fn classify_auth_error() {
    let body = r#"{"error":{"message":"Incorrect API key provided","type":"invalid_request_error","code":"invalid_api_key"}}"#;
    // 401 Unauthorized
    match classify_error(401, body, detail_of(body)) {
        ApiError::Auth(_) => {}
        other => panic!("expected auth error, got {other:?}"),
    }
}

#[test]
fn classify_other_error_with_unparseable_body() {
    // 500 Internal Server Error
    match classify_error(500, "<html>oops</html>", detail_of("<html>oops</html>")) {
        ApiError::Other(m) => assert!(m.contains("500")),
        other => panic!("expected other error, got {other:?}"),
    }
}

#[test]
fn classify_error_messages() {
    let body = r#"{"error":{"message":"Forbidden here","code":"moderation_blocked"}}"#;
    match classify_error(403, body, detail_of(body)) {
        ApiError::Auth(m) => assert_eq!(m, "Forbidden here"),
        other => panic!("expected auth error, got {other:?}"),
    }
    match classify_error(500, "<html>oops</html>", None) {
        ApiError::Other(m) => assert_eq!(m, "API error (500): <html>oops</html>"),
        other => panic!("expected other error, got {other:?}"),
    }
    let e = classify_error(401, "x", None);
    assert_eq!(e.message(), "authentication failed: x");
    let e = classify_error(400, "{}", detail_of(r#"{"error":{"type":"image_generation_user_error"}}"#));
    assert_eq!(e.message(), "blocked by moderation: {}");
    // a long body is cut to 300 bytes on a character boundary
    let long = "é".repeat(200);
    match classify_error(502, &long, None) {
        ApiError::Other(m) => {
            let expected = format!("API error (502): {}\u{2026}", "é".repeat(150));
            assert_eq!(m, expected);
        }
        other => panic!("expected other error, got {other:?}"),
    }
}

#[test]
fn decode_base64_payload() {
    let img = ImageData { b64_json: Some("aGVsbG8=".to_string()), url: None, revised_prompt: None };
    match img.decode() {
        Ok(ImagePayload::Bytes(b)) => assert_eq!(b, b"hello".to_vec()),
        other => panic!("expected bytes, got {other:?}"),
    }
    let bad = ImageData { b64_json: Some("!!!".to_string()), url: None, revised_prompt: None };
    match bad.decode() {
        Err(e @ PayloadError::InvalidBase64(_)) => {
            assert!(e.message().starts_with("failed to decode base64 image data: "))
        }
        other => panic!("expected invalid base64, got {other:?}"),
    }
    let url = ImageData { b64_json: None, url: Some("https://x/y.png".to_string()), revised_prompt: None };
    match url.decode() {
        Ok(ImagePayload::Download(u)) => assert_eq!(u, "https://x/y.png"),
        other => panic!("expected download, got {other:?}"),
    }
    let none = ImageData { b64_json: None, url: None, revised_prompt: None };
    match none.decode() {
        Err(e @ PayloadError::Missing) => {
            assert_eq!(e.message(), "API response contained neither b64_json nor url")
        }
        other => panic!("expected missing, got {other:?}"),
    }
}

fn sample_request() -> ImageRequest {
    ImageRequest {
        prompt: "a cat".to_string(),
        model: "gpt-image-2".to_string(),
        n: 2,
        size: Some("1024x1024".to_string()),
        output_compression: Some(80),
        moderation: Some("low".to_string()),
        images: vec!["a.png".to_string(), "b.jpg".to_string()],
        mask: Some("m.png".to_string()),
        input_fidelity: Some("high".to_string()),
        ..Default::default()
    }
}

#[test]
fn generation_body_members() {
    let body = generation_body(&sample_request());
    let got: Vec<(String, String)> = body
        .iter()
        .map(|f| {
            let v = match &f.value {
                BodyValue::Text(t) => format!("\"{t}\""),
                BodyValue::Number(n) => n.to_string(),
            };
            (f.name.clone(), v)
        })
        .collect();
    let want: Vec<(String, String)> = vec![
        ("model", "\"gpt-image-2\""),
        ("prompt", "\"a cat\""),
        ("n", "2"),
        ("size", "\"1024x1024\""),
        ("output_compression", "80"),
        ("moderation", "\"low\""),
    ]
    .into_iter()
    .map(|(a, b)| (a.to_string(), b.to_string()))
    .collect();
    assert_eq!(got, want);
}

#[test]
fn edit_form_parts() {
    let form = edit_form(&sample_request());
    let got: Vec<String> = form
        .iter()
        .map(|p| match p {
            FormPart::Text { name, value } => format!("{name}={value}"),
            FormPart::File { name, path } => format!("{name}<{path}"),
        })
        .collect();
    assert_eq!(
        got,
        vec![
            "model=gpt-image-2",
            "prompt=a cat",
            "n=2",
            "image[]<a.png",
            "image[]<b.jpg",
            "mask<m.png",
            "size=1024x1024",
            "output_compression=80",
            "input_fidelity=high",
        ]
    );
    let single = ImageRequest { images: vec!["only.png".to_string()], ..Default::default() };
    let form = edit_form(&single);
    assert!(matches!(&form[3], FormPart::File { name, .. } if name == "image"));
}

#[test]
fn upload_names_and_types() {
    assert_eq!(upload_meta("dir/photo.JPG"), ("photo.JPG".to_string(), "image/jpeg".to_string()));
    assert_eq!(upload_meta("a.webp"), ("a.webp".to_string(), "image/webp".to_string()));
    assert_eq!(upload_meta("mask"), ("mask".to_string(), "image/png".to_string()));
    assert_eq!(
        upload_meta_from(None, Some("JPEG".to_string())),
        ("image.png".to_string(), "image/jpeg".to_string())
    );
}

#[test]
fn base_url_and_endpoints() {
    assert_eq!(normalize_base_url(None), DEFAULT_BASE_URL);
    assert_eq!(normalize_base_url(Some("http://localhost:8080/v1//".to_string())), "http://localhost:8080/v1");
    assert_eq!(endpoint("https://api.openai.com/v1", "images/edits"), "https://api.openai.com/v1/images/edits");
}

#[test]
fn accepted_sizes_can_be_hinted() {
    for s in ["auto", "4294967295x4294967295", "1x1", "0001x16"] {
        assert!(validate_size(s).is_ok());
        assert!(size_hint_pixels_fit(s));
        let _ = gpt_image_2_size_hint(s);
    }
}
