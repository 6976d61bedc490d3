use imagegen::api::{ApiError, ImageData, ImagesResponse};
use imagegen::auth::{codex_login_key, resolve_api_key, KeySource};
use imagegen::cli::{
    build_request, check_arguments, check_images, check_inputs, enum_str, exit_code_for,
    image_warnings, no_key_err, output_extension, start_message, usage_err, Background,
    CliError, EditOptions, Fidelity, Format, ImageOptions, ModerationLevel, Quality,
};
use imagegen::models::select_image_models;
use imagegen::text::{dec_string, trim, truncate};

#[test]
fn flag_takes_precedence() {
    let (key, source) = resolve_api_key(Some("sk-flag"), Some("sk-env"), Some("sk-codex")).unwrap();
    assert_eq!(key, "sk-flag");
    assert_eq!(source, KeySource::Flag);
}

#[test]
fn blank_flag_is_ignored() {
    // Falls through to env (or None); must not return an empty key.
    if let Some((key, _)) = resolve_api_key(Some("  "), None, None) {
        assert!(!key.trim().is_empty());
    }
    let (key, source) = resolve_api_key(Some("  "), Some("  sk-env\n"), Some("sk-codex")).unwrap();
    assert_eq!(key, "sk-env");
    assert_eq!(source, KeySource::Env);
    assert!(resolve_api_key(None, Some(" \t "), None).is_none());
    assert_eq!(source.describe(), "OPENAI_API_KEY environment variable");
    assert_eq!(KeySource::Flag.describe(), "--api-key flag");
}

#[test]
fn codex_login_key_comes_last() {
    let (key, source) = resolve_api_key(None, Some("  "), Some(" sk-codex ")).unwrap();
    assert_eq!(key, "sk-codex");
    assert_eq!(source, KeySource::CodexAuth);
    assert_eq!(source.describe(), "~/.codex/auth.json");
    let (key, source) = resolve_api_key(None, Some("sk-env"), Some("sk-codex")).unwrap();
    assert_eq!(key, "sk-env");
    assert_eq!(source, KeySource::Env);
    assert!(resolve_api_key(Some(""), None, Some("\n")).is_none());
}

#[test]
fn codex_file_offers_api_key_logins_only() {
    assert_eq!(codex_login_key(None, Some("sk-a".into())), Some("sk-a".to_string()));
    assert_eq!(codex_login_key(Some("apikey".into()), Some("sk-b".into())), Some("sk-b".to_string()));
    assert_eq!(codex_login_key(Some("chatgpt".into()), Some("sk-c".into())), None);
    assert_eq!(codex_login_key(Some("apikey".into()), None), None);
}

#[test]
fn enum_str_matches_api_values() {
    assert_eq!(enum_str(Quality::High), "high");
    assert_eq!(enum_str(Format::Jpeg), "jpeg");
    assert_eq!(enum_str(Background::Transparent), "transparent");
    assert_eq!(enum_str(ModerationLevel::Low), "low");
    assert_eq!(enum_str(Fidelity::High), "high");
    assert_eq!(Format::Webp.ext(), "webp");
}

#[test]
fn exit_codes() {
    assert_eq!(exit_code_for(&CliError::Api(ApiError::Auth("x".into()))), 2);
    assert_eq!(exit_code_for(&CliError::Api(ApiError::ModerationBlocked("x".into()))), 3);
    assert_eq!(exit_code_for(&CliError::Api(ApiError::Other("x".into()))), 1);
    assert_eq!(exit_code_for(&usage_err("bad".into())), 4);
    assert_eq!(exit_code_for(&CliError::Failure("io".into())), 1);
    let e = no_key_err();
    assert_eq!(exit_code_for(&e), 2);
    assert_eq!(
        e.message(),
        "authentication failed: no API key found. Pass --api-key, set OPENAI_API_KEY, or log in to Codex CLI with an API key"
    );
}

#[test]
fn argument_checks() {
    assert!(check_arguments("a cat", "auto").is_ok());
    match check_arguments("a cat", "12x") {
        Err(CliError::Usage(m)) => assert_eq!(
            m,
            "invalid size '12x': expected WIDTHxHEIGHT (e.g. 1024x1024) or 'auto'"
        ),
        other => panic!("expected usage error, got {other:?}"),
    }
    match check_arguments("  \n ", "1024x1024") {
        Err(CliError::Usage(m)) => assert_eq!(m, "prompt must not be empty"),
        other => panic!("expected usage error, got {other:?}"),
    }
    let inputs = |present: [bool; 3]| -> Vec<(String, bool)> {
        ["a.png", "b.png", "c.png"].iter().zip(present).map(|(p, e)| (p.to_string(), e)).collect()
    };
    assert!(check_inputs(&inputs([true, true, true])).is_ok());
    match check_inputs(&inputs([true, false, false])) {
        Err(CliError::Usage(m)) => assert_eq!(m, "input file not found: b.png"),
        other => panic!("expected usage error, got {other:?}"),
    }
}

#[test]
fn warnings_in_order() {
    let w = image_warnings("gpt-image-2", "640x640", Some(Background::Transparent), Some(50), Format::Png);
    assert_eq!(w.len(), 3);
    assert!(w[0].starts_with("warning: size 640x640 may be rejected by gpt-image-2: "));
    assert_eq!(
        w[1],
        "warning: gpt-image-2 does not support transparent backgrounds; use gpt-image-1.5 or gpt-image-1"
    );
    assert_eq!(w[2], "warning: --compression only applies to jpeg/webp output");
    assert!(image_warnings("gpt-image-1", "640x640", Some(Background::Transparent), None, Format::Jpeg).is_empty());
}

fn opts() -> ImageOptions {
    ImageOptions {
        model: "gpt-image-2".into(),
        size: "auto".into(),
        quality: Quality::Auto,
        format: Format::Png,
        compression: None,
        background: Some(Background::Opaque),
        moderation: Some(ModerationLevel::Low),
        n: 3,
        out: None,
        json: false,
        quiet: false,
    }
}

#[test]
fn requests_leave_out_defaults() {
    let r = build_request("p".into(), &opts(), None);
    assert_eq!(r.size, None);
    assert_eq!(r.quality, None);
    assert_eq!(r.output_format, None);
    assert_eq!(r.background.as_deref(), Some("opaque"));
    assert_eq!(r.moderation.as_deref(), Some("low"));
    assert_eq!(r.n, 3);
    assert!(r.images.is_empty());

    let mut o = opts();
    o.size = "1536x1024".into();
    o.quality = Quality::High;
    o.format = Format::Webp;
    let edit = EditOptions { inputs: vec!["in.png".into()], mask: Some("m.png".into()), fidelity: Some(Fidelity::Low) };
    let r = build_request("p".into(), &o, Some(edit));
    assert_eq!(r.size.as_deref(), Some("1536x1024"));
    assert_eq!(r.quality.as_deref(), Some("high"));
    assert_eq!(r.output_format.as_deref(), Some("webp"));
    assert_eq!(r.moderation, None);
    assert_eq!(r.images, vec!["in.png".to_string()]);
    assert_eq!(r.mask.as_deref(), Some("m.png"));
    assert_eq!(r.input_fidelity.as_deref(), Some("low"));
}

#[test]
fn progress_and_response_checks() {
    assert_eq!(
        start_message(false, 2, "gpt-image-2", Quality::Low, "auto", KeySource::Env),
        "generating 2 image(s) with gpt-image-2 (quality: low, size: auto, auth: OPENAI_API_KEY environment variable)..."
    );
    assert!(start_message(true, 1, "m", Quality::Auto, "s", KeySource::Flag).starts_with("editing 1 image(s)"));
    let empty = ImagesResponse { data: vec![], usage: None, size: None, quality: None, output_format: None, background: None };
    match check_images(&empty) {
        Err(CliError::Failure(m)) => assert_eq!(m, "API returned no images"),
        other => panic!("expected failure, got {other:?}"),
    }
    let one = ImagesResponse {
        data: vec![ImageData { b64_json: None, url: None, revised_prompt: None }],
        usage: None,
        size: None,
        quality: None,
        output_format: Some("jpeg".into()),
        background: None,
    };
    assert!(check_images(&one).is_ok());
    assert_eq!(output_extension(&one.output_format, Format::Png), "jpeg");
    assert_eq!(output_extension(&None, Format::Webp), "webp");
}

#[test]
fn image_models_filtered_and_sorted() {
    let ids = vec![
        "gpt-4o".to_string(),
        "gpt-image-1".to_string(),
        "dall-e-3".to_string(),
        "chatgpt-image-latest".to_string(),
        "dall-e-2".to_string(),
        "whisper-1".to_string(),
        "my-dall-e".to_string(),
    ];
    assert_eq!(
        select_image_models(ids),
        vec!["chatgpt-image-latest", "dall-e-2", "dall-e-3", "gpt-image-1"]
    );
    assert!(select_image_models(vec![]).is_empty());
}

#[test]
fn text_helpers() {
    assert_eq!(dec_string(0), "0");
    assert_eq!(dec_string(18446744073709551615), "18446744073709551615");
    assert_eq!(trim("\u{3000} a b \u{2029}"), "a b");
    assert_eq!(truncate("short", 300), "short");
    assert_eq!(truncate("héllo", 2), "h\u{2026}");
    assert_eq!(truncate("héllo", 3), "hé\u{2026}");
    assert_eq!(truncate("abc", 0), "\u{2026}");
}
