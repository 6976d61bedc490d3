//! The image API's data: requests, responses, errors, and the fields that a
//! request sends.
use vstd::prelude::*;
use crate::output::{
    end_not, path_extension, path_extension_of, path_file_name, path_file_name_of,
};
use crate::text::{ascii_lower, chars_of, dec, dec_string, opt_view, str_eq, truncate, truncated};

verus! {

/// Where requests go unless another base URL is given.
pub const DEFAULT_BASE_URL: &'static str = "https://api.openai.com/v1";

// ---------------------------------------------------------------------------
// Errors
// ---------------------------------------------------------------------------

/// A failure reported by the API, typed so that callers can map it to stable
/// exit codes.
#[derive(Debug)]
pub enum ApiError {
    /// 401/403: bad or missing credentials.
    Auth(String),
    /// The prompt or an input image was blocked by moderation.
    ModerationBlocked(String),
    /// Anything else the API rejected or that failed in transit.
    Other(String),
}

/// The text shown for an API error.
pub open spec fn api_error_message(e: ApiError) -> Seq<char> {
    match e {
        ApiError::Auth(m) => "authentication failed: "@ + m@,
        ApiError::ModerationBlocked(m) => "blocked by moderation: "@ + m@,
        ApiError::Other(m) => m@,
    }
}

impl ApiError {
    /// The text shown for this error.
    pub fn message(&self) -> (m: String)
        ensures
            m@ == api_error_message(*self),
    {
        match self {
            ApiError::Auth(m) => {
                let mut s = "authentication failed: ".to_owned();
                s.append(m.as_str());
                s
            },
            ApiError::ModerationBlocked(m) => {
                let mut s = "blocked by moderation: ".to_owned();
                s.append(m.as_str());
                s
            },
            ApiError::Other(m) => m.clone(),
        }
    }
}

/// The `error` object of an API error body, as far as it could be read.
#[derive(Debug)]
pub struct ErrDetail {
    pub message: Option<String>,
    pub code: Option<String>,
    /// The `type` field.
    pub kind: Option<String>,
}

/// The message of an error: the body's own, else the body cut to 300 bytes.
pub open spec fn error_message(body: Seq<char>, detail: Option<ErrDetail>) -> Seq<char> {
    match detail {
        Some(d) => match d.message {
            Some(m) => m@,
            None => truncated(body, 300),
        },
        None => truncated(body, 300),
    }
}

/// A field of the detail, or the empty string.
pub open spec fn field_or_empty(f: Option<String>) -> Seq<char> {
    match f {
        Some(s) => s@,
        None => Seq::empty(),
    }
}

/// The error code of a detail, or the empty string.
pub open spec fn error_code(detail: Option<ErrDetail>) -> Seq<char> {
    match detail {
        Some(d) => field_or_empty(d.code),
        None => Seq::empty(),
    }
}

/// The error type of a detail, or the empty string.
pub open spec fn error_kind(detail: Option<ErrDetail>) -> Seq<char> {
    match detail {
        Some(d) => field_or_empty(d.kind),
        None => Seq::empty(),
    }
}

/// Whether an error response reports a moderation block.
pub open spec fn is_moderation(detail: Option<ErrDetail>) -> bool {
    error_code(detail) == "moderation_blocked"@ || error_kind(detail)
        == "image_generation_user_error"@
}

fn field_is(f: &Option<String>, expected: &str) -> (r: bool)
    ensures
        r == (field_or_empty(*f) == expected@),
{
    match f {
        Some(s) => {
            assert(field_or_empty(*f) == s@);
            str_eq(s.as_str(), expected)
        },
        None => {
            let v = crate::text::chars_of(expected);
            proof {
                if v@.len() == 0 {
                    assert(expected@ =~= Seq::<char>::empty());
                }
            }
            v.len() == 0
        },
    }
}

/// Maps an API error response onto a typed error with a readable message:
/// 401 and 403 are authentication failures, a `moderation_blocked` code or an
/// `image_generation_user_error` type is a moderation block, and anything
/// else is reported with its status code. `detail` is the `error` object
/// read from `body`, when the body could be read as one.
pub fn classify_error(status: u16, body: &str, detail: Option<ErrDetail>) -> (e: ApiError)
    ensures
        (status == 401 || status == 403) ==> e == ApiError::Auth(e->Auth_0) && e->Auth_0@
            == error_message(body@, detail),
        !(status == 401 || status == 403) && is_moderation(detail) ==> e
            == ApiError::ModerationBlocked(e->ModerationBlocked_0) && e->ModerationBlocked_0@
            == error_message(body@, detail),
        !(status == 401 || status == 403) && !is_moderation(detail) ==> e == ApiError::Other(
            e->Other_0,
        ) && e->Other_0@ == "API error ("@ + dec(status as nat) + "): "@ + error_message(
            body@,
            detail,
        ),
{
    let ghost d = detail;
    let (message, moderated) = match detail {
        Some(dt) => {
            let m = match dt.message {
                Some(m) => m,
                None => truncate(body, 300),
            };
            let moderated = field_is(&dt.code, "moderation_blocked") || field_is(
                &dt.kind,
                "image_generation_user_error",
            );
            (m, moderated)
        },
        None => {
            proof {
                reveal_strlit("moderation_blocked");
                reveal_strlit("image_generation_user_error");
                assert(error_code(d).len() == 0);
                assert(!is_moderation(d));
            }
            (truncate(body, 300), false)
        },
    };
    if status == 401 || status == 403 {
        return ApiError::Auth(message);
    }
    if moderated {
        return ApiError::ModerationBlocked(message);
    }
    let mut m = "API error (".to_owned();
    let code = dec_string(status as u64);
    m.append(code.as_str());
    m.append("): ");
    m.append(message.as_str());
    ApiError::Other(m)
}

// ---------------------------------------------------------------------------
// Responses
// ---------------------------------------------------------------------------

#[verifier::external_type_specification]
#[verifier::external_body]
pub struct ExDecodeError(base64::DecodeError);

#[verifier::external_type_specification]
#[verifier::external_body]
pub struct ExJsonValue(serde_json::Value);

/// The bytes that standard base64 (with padding) decodes `input` to, or `None`
/// when `input` is not valid standard base64.
pub uninterp spec fn base64_standard_decode(input: Seq<char>) -> Option<Seq<u8>>;

/// `base64::engine::general_purpose::STANDARD.decode`: decoding is a function
/// of the input alone, named [`base64_standard_decode`]; the call succeeds
/// exactly when that gives bytes, and returns those bytes.
#[verifier::external_body]
fn decode_base64(input: &str) -> (r: Result<Vec<u8>, base64::DecodeError>)
    ensures
        r is Ok <==> base64_standard_decode(input@) is Some,
        r matches Ok(v) ==> base64_standard_decode(input@) == Some(v@),
{
    base64::Engine::decode(&base64::engine::general_purpose::STANDARD, input)
}

/// One generated image as the API returns it.
#[derive(Debug)]
pub struct ImageData {
    pub b64_json: Option<String>,
    pub url: Option<String>,
    pub revised_prompt: Option<String>,
}

/// The images and metadata of a successful response.
#[derive(Debug)]
pub struct ImagesResponse {
    pub data: Vec<ImageData>,
    pub usage: Option<serde_json::Value>,
    pub size: Option<String>,
    pub quality: Option<String>,
    pub output_format: Option<String>,
    pub background: Option<String>,
}

/// Where an image's bytes come from.
#[derive(Debug)]
pub enum ImagePayload {
    /// The image itself, decoded from the response.
    Bytes(Vec<u8>),
    /// The image is to be downloaded from this URL.
    Download(String),
}

/// Why an image could not be taken from a response.
#[derive(Debug)]
pub enum PayloadError {
    /// `b64_json` was not valid base64 (holds the decoder's description).
    InvalidBase64(String),
    /// Neither `b64_json` nor `url` was present.
    Missing,
}

/// The text shown for a decode failure.
pub open spec fn payload_error_message(e: PayloadError) -> Seq<char> {
    match e {
        PayloadError::InvalidBase64(d) => "failed to decode base64 image data: "@ + d@,
        PayloadError::Missing => "API response contained neither b64_json nor url"@,
    }
}

impl PayloadError {
    /// The text shown for this error.
    pub fn message(&self) -> (m: String)
        ensures
            m@ == payload_error_message(*self),
    {
        match self {
            PayloadError::InvalidBase64(d) => {
                let mut m = "failed to decode base64 image data: ".to_owned();
                m.append(d.as_str());
                m
            },
            PayloadError::Missing => "API response contained neither b64_json nor url".to_owned(),
        }
    }
}

/// The payload for the outcome of decoding `b64_json`: the bytes, or the
/// decoder's complaint.
pub fn payload_from_base64(decoded: Result<Vec<u8>, String>) -> (r: Result<
    ImagePayload,
    PayloadError,
>)
    ensures
        decoded matches Ok(v) ==> r == Ok::<ImagePayload, PayloadError>(ImagePayload::Bytes(v)),
        decoded matches Err(d) ==> r == Err::<ImagePayload, PayloadError>(
            PayloadError::InvalidBase64(d),
        ),
{
    match decoded {
        Ok(v) => Ok(ImagePayload::Bytes(v)),
        Err(d) => Err(PayloadError::InvalidBase64(d)),
    }
}

impl ImageData {
    /// Where this image's bytes come from: `b64_json` decoded when present,
    /// else the `url` to download, else an error.
    pub fn decode(&self) -> (r: Result<ImagePayload, PayloadError>)
        ensures
            self.b64_json matches Some(b) ==> {
                &&& (r is Ok <==> base64_standard_decode(b@) is Some)
                &&& (r matches Ok(p) ==> p matches ImagePayload::Bytes(v)
                    && base64_standard_decode(b@) == Some(v@))
                &&& (r matches Err(e) ==> e is InvalidBase64)
            },
            self.b64_json is None && self.url is Some ==> r == Ok::<ImagePayload, PayloadError>(
                ImagePayload::Download(self.url->0),
            ),
            self.b64_json is None && self.url is None ==> r == Err::<ImagePayload, PayloadError>(
                PayloadError::Missing,
            ),
    {
        match &self.b64_json {
            Some(b) => {
                let decoded = match decode_base64(b.as_str()) {
                    Ok(v) => Ok(v),
                    Err(e) => Err(e.to_string()),
                };
                payload_from_base64(decoded)
            },
            None => match &self.url {
                Some(u) => Ok(ImagePayload::Download(u.clone())),
                None => Err(PayloadError::Missing),
            },
        }
    }
}

// ---------------------------------------------------------------------------
// Requests
// ---------------------------------------------------------------------------

/// Options shared by generate and edit requests.
#[derive(Debug, Default)]
pub struct ImageRequest {
    pub prompt: String,
    pub model: String,
    pub n: u8,
    pub size: Option<String>,
    pub quality: Option<String>,
    pub output_format: Option<String>,
    pub output_compression: Option<u8>,
    pub background: Option<String>,
    pub moderation: Option<String>,
    /// Input images (edit only).
    pub images: Vec<String>,
    /// Mask image (edit only).
    pub mask: Option<String>,
    /// How closely to keep input details (edit only).
    pub input_fidelity: Option<String>,
}

/// A value in the JSON body of a generation request.
#[derive(Debug)]
pub enum BodyValue {
    Text(String),
    Number(u64),
}

/// The mathematical value of a [`BodyValue`].
pub enum BodyValueView {
    Text(Seq<char>),
    Number(nat),
}

impl View for BodyValue {
    type V = BodyValueView;

    open spec fn view(&self) -> BodyValueView {
        match self {
            BodyValue::Text(s) => BodyValueView::Text(s@),
            BodyValue::Number(n) => BodyValueView::Number(*n as nat),
        }
    }
}

/// One member of the JSON body of a generation request.
#[derive(Debug)]
pub struct BodyField {
    pub name: String,
    pub value: BodyValue,
}

/// The views of body members.
pub open spec fn body_views(v: Seq<BodyField>) -> Seq<(Seq<char>, BodyValueView)> {
    v.map_values(|f: BodyField| (f.name@, f.value@))
}

/// A text member when the option is set, else nothing.
pub open spec fn opt_text_member(name: Seq<char>, v: Option<String>) -> Seq<
    (Seq<char>, BodyValueView),
> {
    match v {
        Some(s) => seq![(name, BodyValueView::Text(s@))],
        None => seq![],
    }
}

/// The members of a generation request body, in order: `model`, `prompt`,
/// `n`, then each optional setting that is set.
pub open spec fn generation_body_spec(req: ImageRequest) -> Seq<(Seq<char>, BodyValueView)> {
    seq![
        ("model"@, BodyValueView::Text(req.model@)),
        ("prompt"@, BodyValueView::Text(req.prompt@)),
        ("n"@, BodyValueView::Number(req.n as nat)),
    ] + opt_text_member("size"@, req.size) + opt_text_member("quality"@, req.quality)
        + opt_text_member("output_format"@, req.output_format) + match req.output_compression {
        Some(c) => seq![("output_compression"@, BodyValueView::Number(c as nat))],
        None => seq![],
    } + opt_text_member("background"@, req.background) + opt_text_member(
        "moderation"@,
        req.moderation,
    )
}

fn push_text_member(body: &mut Vec<BodyField>, name: &str, v: &Option<String>)
    ensures
        body_views(final(body)@) == body_views(old(body)@) + opt_text_member(name@, *v),
{
    match v {
        Some(s) => {
            body.push(BodyField { name: name.to_owned(), value: BodyValue::Text(s.clone()) });
        },
        None => {},
    }
    assert(body_views(body@) =~= body_views(old(body)@) + opt_text_member(name@, *v));
}

/// The JSON body of a generation request.
pub fn generation_body(req: &ImageRequest) -> (body: Vec<BodyField>)
    ensures
        body_views(body@) == generation_body_spec(*req),
{
    let mut body: Vec<BodyField> = Vec::new();
    body.push(BodyField { name: "model".to_owned(), value: BodyValue::Text(req.model.clone()) });
    body.push(BodyField { name: "prompt".to_owned(), value: BodyValue::Text(req.prompt.clone()) });
    body.push(BodyField { name: "n".to_owned(), value: BodyValue::Number(req.n as u64) });
    assert(body_views(body@) =~= seq![
        ("model"@, BodyValueView::Text(req.model@)),
        ("prompt"@, BodyValueView::Text(req.prompt@)),
        ("n"@, BodyValueView::Number(req.n as nat)),
    ]);
    push_text_member(&mut body, "size", &req.size);
    push_text_member(&mut body, "quality", &req.quality);
    push_text_member(&mut body, "output_format", &req.output_format);
    let ghost before = body_views(body@);
    match req.output_compression {
        Some(c) => {
            body.push(
                BodyField { name: "output_compression".to_owned(), value: BodyValue::Number(c as u64) },
            );
        },
        None => {},
    }
    assert(body_views(body@) =~= before + match req.output_compression {
        Some(c) => seq![("output_compression"@, BodyValueView::Number(c as nat))],
        None => seq![],
    });
    push_text_member(&mut body, "background", &req.background);
    push_text_member(&mut body, "moderation", &req.moderation);
    body
}

/// One part of the multipart form of an edit request.
#[derive(Debug)]
pub enum FormPart {
    /// A text field.
    Text { name: String, value: String },
    /// A file uploaded from `path`.
    File { name: String, path: String },
}

/// The mathematical value of a [`FormPart`].
pub enum FormPartView {
    Text(Seq<char>, Seq<char>),
    File(Seq<char>, Seq<char>),
}

impl View for FormPart {
    type V = FormPartView;

    open spec fn view(&self) -> FormPartView {
        match self {
            FormPart::Text { name, value } => FormPartView::Text(name@, value@),
            FormPart::File { name, path } => FormPartView::File(name@, path@),
        }
    }
}

/// The views of form parts.
pub open spec fn form_views(v: Seq<FormPart>) -> Seq<FormPartView> {
    v.map_values(|p: FormPart| p@)
}

/// A text part when the option is set, else nothing.
pub open spec fn opt_text_part(name: Seq<char>, v: Option<String>) -> Seq<FormPartView> {
    match v {
        Some(s) => seq![FormPartView::Text(name, s@)],
        None => seq![],
    }
}

/// The field name for input images: `image[]` when there are several, else
/// `image`.
pub open spec fn image_field(count: nat) -> Seq<char> {
    if count > 1 {
        "image[]"@
    } else {
        "image"@
    }
}

/// The parts of an edit request, in order: `model`, `prompt`, `n`, one file
/// part per input image, the mask, then each optional setting that is set.
pub open spec fn edit_form_spec(req: ImageRequest) -> Seq<FormPartView> {
    seq![
        FormPartView::Text("model"@, req.model@),
        FormPartView::Text("prompt"@, req.prompt@),
        FormPartView::Text("n"@, dec(req.n as nat)),
    ] + Seq::new(
        req.images@.len(),
        |i: int| FormPartView::File(image_field(req.images@.len()), req.images@[i]@),
    ) + match req.mask {
        Some(m) => seq![FormPartView::File("mask"@, m@)],
        None => seq![],
    } + opt_text_part("size"@, req.size) + opt_text_part("quality"@, req.quality)
        + opt_text_part("output_format"@, req.output_format) + match req.output_compression {
        Some(c) => seq![FormPartView::Text("output_compression"@, dec(c as nat))],
        None => seq![],
    } + opt_text_part("background"@, req.background) + opt_text_part(
        "input_fidelity"@,
        req.input_fidelity,
    )
}

fn push_text_part(form: &mut Vec<FormPart>, name: &str, v: &Option<String>)
    ensures
        form_views(final(form)@) == form_views(old(form)@) + opt_text_part(name@, *v),
{
    match v {
        Some(s) => {
            form.push(FormPart::Text { name: name.to_owned(), value: s.clone() });
        },
        None => {},
    }
    assert(form_views(form@) =~= form_views(old(form)@) + opt_text_part(name@, *v));
}

/// The multipart form of an edit request.
pub fn edit_form(req: &ImageRequest) -> (form: Vec<FormPart>)
    ensures
        form_views(form@) == edit_form_spec(*req),
{
    let mut form: Vec<FormPart> = Vec::new();
    form.push(FormPart::Text { name: "model".to_owned(), value: req.model.clone() });
    form.push(FormPart::Text { name: "prompt".to_owned(), value: req.prompt.clone() });
    form.push(FormPart::Text { name: "n".to_owned(), value: dec_string(req.n as u64) });
    let ghost head = form_views(form@);
    let field = if req.images.len() > 1 {
        "image[]"
    } else {
        "image"
    };
    let mut i: usize = 0;
    while i < req.images.len()
        invariant
            i <= req.images@.len(),
            field@ == image_field(req.images@.len()),
            form_views(form@) == head + Seq::new(
                i as nat,
                |k: int| FormPartView::File(image_field(req.images@.len()), req.images@[k]@),
            ),
        decreases req.images.len() - i,
    {
        let ghost prev = form_views(form@);
        let path = req.images[i].clone();
        assert(path@ == req.images@[i as int]@);
        form.push(FormPart::File { name: field.to_owned(), path });
        assert(form_views(form@) =~= prev.push(
            FormPartView::File(image_field(req.images@.len()), req.images@[i as int]@),
        ));
        i = i + 1;
        assert(form_views(form@) =~= head + Seq::new(
            i as nat,
            |k: int| FormPartView::File(image_field(req.images@.len()), req.images@[k]@),
        ));
    }
    let ghost before = form_views(form@);
    match &req.mask {
        Some(m) => {
            form.push(FormPart::File { name: "mask".to_owned(), path: m.clone() });
        },
        None => {},
    }
    assert(form_views(form@) =~= before + match req.mask {
        Some(m) => seq![FormPartView::File("mask"@, m@)],
        None => seq![],
    });
    push_text_part(&mut form, "size", &req.size);
    push_text_part(&mut form, "quality", &req.quality);
    push_text_part(&mut form, "output_format", &req.output_format);
    let ghost before2 = form_views(form@);
    match req.output_compression {
        Some(c) => {
            form.push(
                FormPart::Text {
                    name: "output_compression".to_owned(),
                    value: dec_string(c as u64),
                },
            );
        },
        None => {},
    }
    assert(form_views(form@) =~= before2 + match req.output_compression {
        Some(c) => seq![FormPartView::Text("output_compression"@, dec(c as nat))],
        None => seq![],
    });
    push_text_part(&mut form, "background", &req.background);
    push_text_part(&mut form, "input_fidelity", &req.input_fidelity);
    proof {
        assert(head == seq![
            FormPartView::Text("model"@, req.model@),
            FormPartView::Text("prompt"@, req.prompt@),
            FormPartView::Text("n"@, dec(req.n as nat)),
        ]);
    }
    form
}

/// `s` with ASCII upper-case letters lower-cased (`str::to_ascii_lowercase`).
pub open spec fn ascii_lowercase(s: Seq<char>) -> Seq<char> {
    s.map_values(|c: char| ascii_lower(c))
}

/// The media type for an upload with the given extension: JPEG for `jpg` and
/// `jpeg`, WebP for `webp`, PNG otherwise (case-insensitively).
pub open spec fn mime_for(extension: Option<Seq<char>>) -> Seq<char> {
    match extension {
        Some(e) => {
            let l = ascii_lowercase(e);
            if l == "jpg"@ || l == "jpeg"@ {
                "image/jpeg"@
            } else if l == "webp"@ {
                "image/webp"@
            } else {
                "image/png"@
            }
        },
        None => "image/png"@,
    }
}

/// The file name to upload under: the path's own, else `image.png`.
pub open spec fn upload_name(file_name: Option<Seq<char>>) -> Seq<char> {
    match file_name {
        Some(n) => n,
        None => "image.png"@,
    }
}

fn lowercase(s: &str) -> (r: String)
    ensures
        r@ == ascii_lowercase(s@),
{
    let v = chars_of(s);
    let mut r = String::new();
    let mut i: usize = 0;
    while i < v.len()
        invariant
            v@ == s@,
            i <= v@.len(),
            r@ == ascii_lowercase(v@.take(i as int)),
        decreases v.len() - i,
    {
        let c = v[i];
        if 'A' <= c && c <= 'Z' {
            r.push(((c as u32) + 32) as u8 as char);
        } else {
            r.push(c);
        }
        i = i + 1;
        assert(ascii_lowercase(v@.take(i as int)) =~= ascii_lowercase(v@.take(i - 1 as int)).push(
            ascii_lower(c),
        ));
    }
    assert(v@.take(v@.len() as int) =~= v@);
    r
}

/// File name and media type of an upload, given the path's file name and
/// extension as far as it has them.
pub fn upload_meta_from(file_name: Option<String>, extension: Option<String>) -> (r: (
    String,
    String,
))
    ensures
        r.0@ == upload_name(opt_view(file_name)),
        r.1@ == mime_for(opt_view(extension)),
{
    let name = match file_name {
        Some(n) => n,
        None => "image.png".to_owned(),
    };
    let mime = match &extension {
        Some(e) => {
            let l = lowercase(e.as_str());
            if str_eq(l.as_str(), "jpg") || str_eq(l.as_str(), "jpeg") {
                "image/jpeg".to_owned()
            } else if str_eq(l.as_str(), "webp") {
                "image/webp".to_owned()
            } else {
                "image/png".to_owned()
            }
        },
        None => "image/png".to_owned(),
    };
    (name, mime)
}

/// File name and media type under which the file at `path` is uploaded: its
/// file name and extension as `Path` splits them.
pub fn upload_meta(path: &str) -> (r: (String, String))
    ensures
        r.0@ == upload_name(path_file_name_of(path@)),
        r.1@ == mime_for(path_extension_of(path@)),
{
    let name = path_file_name(path);
    let ext = path_extension(path);
    upload_meta_from(name, ext)
}

/// `s` without trailing slashes.
pub open spec fn without_trailing_slashes(s: Seq<char>) -> Seq<char> {
    s.take(end_not(s, '/', s.len() as int))
}

/// The base URL to send requests to: the given one, else the default, in
/// either case without trailing slashes.
pub fn normalize_base_url(base_url: Option<String>) -> (r: String)
    ensures
        r@ == without_trailing_slashes(
            match base_url {
                Some(b) => b@,
                None => DEFAULT_BASE_URL@,
            },
        ),
{
    let b = match base_url {
        Some(b) => b,
        None => DEFAULT_BASE_URL.to_owned(),
    };
    let v = chars_of(b.as_str());
    let mut end = v.len();
    while end > 0 && v[end - 1] == '/'
        invariant
            end <= v@.len(),
            end_not(v@, '/', v@.len() as int) == end_not(v@, '/', end as int),
        decreases end,
    {
        end = end - 1;
    }
    let mut r = String::new();
    crate::text::push_chars(&mut r, &v, 0, end);
    assert(Seq::<char>::empty() + v@.subrange(0, end as int) =~= v@.take(end as int));
    r
}

/// The URL of an API endpoint under `base_url`: `{base_url}/{path}`.
pub fn endpoint(base_url: &str, path: &str) -> (r: String)
    ensures
        r@ == base_url@.push('/') + path@,
{
    let mut r = base_url.to_owned();
    r.push('/');
    r.append(path);
    r
}

} // verus!
verus! {

/// An error response reports a moderation block exactly when its `error`
/// object carries the code `moderation_blocked` or the type
/// `image_generation_user_error`, each on its own, whatever the other field
/// says; a response without a readable `error` object never does.
pub proof fn lemma_moderation_fields(detail: Option<ErrDetail>)
    ensures
        is_moderation(detail) <==> (detail matches Some(d) && ((d.code matches Some(c) && c@
            == "moderation_blocked"@) || (d.kind matches Some(k) && k@
            == "image_generation_user_error"@))),
{
    reveal_strlit("moderation_blocked");
    reveal_strlit("image_generation_user_error");
    assert("moderation_blocked"@.len() > 0);
    assert("image_generation_user_error"@.len() > 0);
}

/// A failed response other than 401 or 403 whose error code is
/// `moderation_blocked` is classified as a moderation block (exit code 3),
/// whatever its type and message say.
pub proof fn lemma_moderation_code_blocks(detail: Option<ErrDetail>)
    requires
        detail matches Some(d) && d.code matches Some(c) && c@ == "moderation_blocked"@,
    ensures
        is_moderation(detail),
{
    lemma_moderation_fields(detail);
}

/// The member of a generation body that an optional text setting gives.
pub open spec fn text_member(name: Seq<char>, v: String) -> (Seq<char>, BodyValueView) {
    (name, BodyValueView::Text(v@))
}

/// Whether some member of `body` is named `name`.
pub open spec fn has_member(body: Seq<(Seq<char>, BodyValueView)>, name: Seq<char>) -> bool {
    exists|i: int| 0 <= i < body.len() && (#[trigger] body[i]).0 == name
}

/// Every setting of a request reaches the generation body: `model`, `prompt`
/// and `n` always, each optional setting under its API name with its value
/// when it is set, and no member of that name when it is not.
pub proof fn lemma_generation_body_members(req: ImageRequest)
    ensures
        generation_body_spec(req).contains(text_member("model"@, req.model)),
        generation_body_spec(req).contains(text_member("prompt"@, req.prompt)),
        generation_body_spec(req).contains(("n"@, BodyValueView::Number(req.n as nat))),
        req.size matches Some(v) ==> generation_body_spec(req).contains(text_member("size"@, v)),
        req.quality matches Some(v) ==> generation_body_spec(req).contains(
            text_member("quality"@, v),
        ),
        req.output_format matches Some(v) ==> generation_body_spec(req).contains(
            text_member("output_format"@, v),
        ),
        req.output_compression matches Some(c) ==> generation_body_spec(req).contains(
            ("output_compression"@, BodyValueView::Number(c as nat)),
        ),
        req.background matches Some(v) ==> generation_body_spec(req).contains(
            text_member("background"@, v),
        ),
        req.moderation matches Some(v) ==> generation_body_spec(req).contains(
            text_member("moderation"@, v),
        ),
        req.size is None ==> !has_member(generation_body_spec(req), "size"@),
        req.quality is None ==> !has_member(generation_body_spec(req), "quality"@),
        req.output_format is None ==> !has_member(generation_body_spec(req), "output_format"@),
        req.output_compression is None ==> !has_member(
            generation_body_spec(req),
            "output_compression"@,
        ),
        req.background is None ==> !has_member(generation_body_spec(req), "background"@),
        req.moderation is None ==> !has_member(generation_body_spec(req), "moderation"@),
{
    reveal_strlit("model");
    reveal_strlit("prompt");
    reveal_strlit("n");
    reveal_strlit("size");
    reveal_strlit("quality");
    reveal_strlit("output_format");
    reveal_strlit("output_compression");
    reveal_strlit("background");
    reveal_strlit("moderation");
    let head = seq![
        ("model"@, BodyValueView::Text(req.model@)),
        ("prompt"@, BodyValueView::Text(req.prompt@)),
        ("n"@, BodyValueView::Number(req.n as nat)),
    ];
    let a = opt_text_member("size"@, req.size);
    let b = opt_text_member("quality"@, req.quality);
    let c = opt_text_member("output_format"@, req.output_format);
    let d: Seq<(Seq<char>, BodyValueView)> = match req.output_compression {
        Some(x) => seq![("output_compression"@, BodyValueView::Number(x as nat))],
        None => seq![],
    };
    let e = opt_text_member("background"@, req.background);
    let f = opt_text_member("moderation"@, req.moderation);
    let body = generation_body_spec(req);
    assert(body == head + a + b + c + d + e + f);
    assert("background"@ != "moderation"@) by {
        assert("background"@[0] != "moderation"@[0]);
    }
    assert("model"@.len() == 5 && "prompt"@.len() == 6 && "n"@.len() == 1 && "size"@.len() == 4
        && "quality"@.len() == 7 && "output_format"@.len() == 13 && "output_compression"@.len()
        == 18 && "background"@.len() == 10 && "moderation"@.len() == 10);
    // Each member of the body lies in one of the parts, at a known offset.
    let o1 = head.len();
    let o2 = o1 + a.len();
    let o3 = o2 + b.len();
    let o4 = o3 + c.len();
    let o5 = o4 + d.len();
    let o6 = o5 + e.len();
    assert(body.len() == o6 + f.len());
    assert(body[0] == head[0] && body[1] == head[1] && body[2] == head[2]);
    if req.size is Some {
        assert(body[o1 as int] == a[0]);
    }
    if req.quality is Some {
        assert(body[o2 as int] == b[0]);
    }
    if req.output_format is Some {
        assert(body[o3 as int] == c[0]);
    }
    if req.output_compression is Some {
        assert(body[o4 as int] == d[0]);
    }
    if req.background is Some {
        assert(body[o5 as int] == e[0]);
    }
    if req.moderation is Some {
        assert(body[o6 as int] == f[0]);
    }
    assert forall|i: int| 0 <= i < body.len() implies {
        let nm = (#[trigger] body[i]).0;
        &&& (nm == "size"@ ==> req.size is Some)
        &&& (nm == "quality"@ ==> req.quality is Some)
        &&& (nm == "output_format"@ ==> req.output_format is Some)
        &&& (nm == "output_compression"@ ==> req.output_compression is Some)
        &&& (nm == "background"@ ==> req.background is Some)
        &&& (nm == "moderation"@ ==> req.moderation is Some)
    } by {
        if i < o1 {
            assert(body[i] == head[i]);
            assert(nm_of(body[i]) == "model"@ || nm_of(body[i]) == "prompt"@ || nm_of(body[i])
                == "n"@);
        } else if i < o2 {
            assert(body[i] == a[i - o1]);
            assert(nm_of(body[i]) == "size"@ && req.size is Some);
        } else if i < o3 {
            assert(body[i] == b[i - o2]);
            assert(nm_of(body[i]) == "quality"@ && req.quality is Some);
        } else if i < o4 {
            assert(body[i] == c[i - o3]);
            assert(nm_of(body[i]) == "output_format"@ && req.output_format is Some);
        } else if i < o5 {
            assert(body[i] == d[i - o4]);
            assert(nm_of(body[i]) == "output_compression"@ && req.output_compression is Some);
        } else if i < o6 {
            assert(body[i] == e[i - o5]);
            assert(nm_of(body[i]) == "background"@ && req.background is Some);
        } else {
            assert(body[i] == f[i - o6]);
            assert(nm_of(body[i]) == "moderation"@ && req.moderation is Some);
        }
    }
}

spec fn nm_of(m: (Seq<char>, BodyValueView)) -> Seq<char> {
    m.0
}

/// The field name of a form part.
pub open spec fn part_name(p: FormPartView) -> Seq<char> {
    match p {
        FormPartView::Text(n, _) => n,
        FormPartView::File(n, _) => n,
    }
}

/// Every setting of an edit request reaches its form: `model`, `prompt` and
/// `n` always; each input image as a file part, under `image[]` when there
/// are several and `image` otherwise; the mask as the `mask` file; each
/// optional setting under its API name with its value when it is set; and
/// never a `moderation` part, which edits do not take
/// ([`lemma_edit_form_no_moderation`]).
#[verifier::spinoff_prover]
#[verifier::rlimit(40)]
pub proof fn lemma_edit_form_parts(req: ImageRequest)
    ensures
        edit_form_spec(req).contains(FormPartView::Text("model"@, req.model@)),
        edit_form_spec(req).contains(FormPartView::Text("prompt"@, req.prompt@)),
        edit_form_spec(req).contains(FormPartView::Text("n"@, dec(req.n as nat))),
        forall|i: int|
            0 <= i < req.images@.len() ==> edit_form_spec(req).contains(
                FormPartView::File(
                    if req.images@.len() > 1 {
                        "image[]"@
                    } else {
                        "image"@
                    },
                    (#[trigger] req.images@[i])@,
                ),
            ),
        req.mask matches Some(m) ==> edit_form_spec(req).contains(FormPartView::File("mask"@, m@)),
        req.size matches Some(v) ==> edit_form_spec(req).contains(
            FormPartView::Text("size"@, v@),
        ),
        req.quality matches Some(v) ==> edit_form_spec(req).contains(
            FormPartView::Text("quality"@, v@),
        ),
        req.output_format matches Some(v) ==> edit_form_spec(req).contains(
            FormPartView::Text("output_format"@, v@),
        ),
        req.output_compression matches Some(c) ==> edit_form_spec(req).contains(
            FormPartView::Text("output_compression"@, dec(c as nat)),
        ),
        req.background matches Some(v) ==> edit_form_spec(req).contains(
            FormPartView::Text("background"@, v@),
        ),
        req.input_fidelity matches Some(v) ==> edit_form_spec(req).contains(
            FormPartView::Text("input_fidelity"@, v@),
        ),
{
    reveal_strlit("model");
    reveal_strlit("prompt");
    reveal_strlit("n");
    reveal_strlit("image[]");
    reveal_strlit("image");
    reveal_strlit("mask");
    reveal_strlit("size");
    reveal_strlit("quality");
    reveal_strlit("output_format");
    reveal_strlit("output_compression");
    reveal_strlit("background");
    reveal_strlit("input_fidelity");
    reveal_strlit("moderation");
    let cnt = req.images@.len();
    let head = seq![
        FormPartView::Text("model"@, req.model@),
        FormPartView::Text("prompt"@, req.prompt@),
        FormPartView::Text("n"@, dec(req.n as nat)),
    ];
    let imgs = Seq::new(cnt, |i: int| FormPartView::File(image_field(cnt), req.images@[i]@));
    let mk: Seq<FormPartView> = match req.mask {
        Some(m) => seq![FormPartView::File("mask"@, m@)],
        None => seq![],
    };
    let a = opt_text_part("size"@, req.size);
    let b = opt_text_part("quality"@, req.quality);
    let c = opt_text_part("output_format"@, req.output_format);
    let d: Seq<FormPartView> = match req.output_compression {
        Some(x) => seq![FormPartView::Text("output_compression"@, dec(x as nat))],
        None => seq![],
    };
    let e = opt_text_part("background"@, req.background);
    let f = opt_text_part("input_fidelity"@, req.input_fidelity);
    let form = edit_form_spec(req);
    assert(form == head + imgs + mk + a + b + c + d + e + f);
    let o1 = head.len() as int;
    let o2 = o1 + imgs.len();
    let o3 = o2 + mk.len();
    let o4 = o3 + a.len();
    let o5 = o4 + b.len();
    let o6 = o5 + c.len();
    let o7 = o6 + d.len();
    let o8 = o7 + e.len();
    assert(form.len() == o8 + f.len());
    assert(form[0] == head[0] && form[1] == head[1] && form[2] == head[2]);
    assert forall|i: int| 0 <= i < cnt implies form.contains(
        FormPartView::File(
            if cnt > 1 {
                "image[]"@
            } else {
                "image"@
            },
            (#[trigger] req.images@[i])@,
        ),
    ) by {
        assert(form[o1 + i] == imgs[i]);
    }
    if req.mask is Some {
        assert(form[o2] == mk[0]);
    }
    if req.size is Some {
        assert(form[o3] == a[0]);
    }
    if req.quality is Some {
        assert(form[o4] == b[0]);
    }
    if req.output_format is Some {
        assert(form[o5] == c[0]);
    }
    if req.output_compression is Some {
        assert(form[o6] == d[0]);
    }
    if req.background is Some {
        assert(form[o7] == e[0]);
    }
    if req.input_fidelity is Some {
        assert(form[o8] == f[0]);
    }
}

/// An edit form never carries a `moderation` part: edits do not take one.
#[verifier::spinoff_prover]
#[verifier::rlimit(40)]
pub proof fn lemma_edit_form_no_moderation(req: ImageRequest)
    ensures
        forall|j: int|
            0 <= j < edit_form_spec(req).len() ==> part_name(#[trigger] edit_form_spec(req)[j])
                != "moderation"@,
{
    reveal_strlit("model");
    reveal_strlit("prompt");
    reveal_strlit("n");
    reveal_strlit("image[]");
    reveal_strlit("image");
    reveal_strlit("mask");
    reveal_strlit("size");
    reveal_strlit("quality");
    reveal_strlit("output_format");
    reveal_strlit("output_compression");
    reveal_strlit("background");
    reveal_strlit("input_fidelity");
    reveal_strlit("moderation");
    let cnt = req.images@.len();
    let head = seq![
        FormPartView::Text("model"@, req.model@),
        FormPartView::Text("prompt"@, req.prompt@),
        FormPartView::Text("n"@, dec(req.n as nat)),
    ];
    let imgs = Seq::new(cnt, |i: int| FormPartView::File(image_field(cnt), req.images@[i]@));
    let mk: Seq<FormPartView> = match req.mask {
        Some(m) => seq![FormPartView::File("mask"@, m@)],
        None => seq![],
    };
    let a = opt_text_part("size"@, req.size);
    let b = opt_text_part("quality"@, req.quality);
    let c = opt_text_part("output_format"@, req.output_format);
    let d: Seq<FormPartView> = match req.output_compression {
        Some(x) => seq![FormPartView::Text("output_compression"@, dec(x as nat))],
        None => seq![],
    };
    let e = opt_text_part("background"@, req.background);
    let f = opt_text_part("input_fidelity"@, req.input_fidelity);
    let form = edit_form_spec(req);
    assert(form == head + imgs + mk + a + b + c + d + e + f);
    let o1 = head.len() as int;
    let o2 = o1 + imgs.len();
    let o3 = o2 + mk.len();
    let o4 = o3 + a.len();
    let o5 = o4 + b.len();
    let o6 = o5 + c.len();
    let o7 = o6 + d.len();
    let o8 = o7 + e.len();
    assert(form.len() == o8 + f.len());
    let md = "moderation"@;
    assert(md.len() == 10);
    assert(md != "background"@) by {
        assert(md[0] != "background"@[0]);
    }
    assert forall|j: int| 0 <= j < form.len() implies part_name(#[trigger] form[j]) != md by {
        if j < o1 {
            assert(form[j] == head[j]);
        } else if j < o2 {
            assert(form[j] == imgs[j - o1]);
        } else if j < o3 {
            assert(form[j] == mk[j - o2]);
        } else if j < o4 {
            assert(form[j] == a[j - o3]);
        } else if j < o5 {
            assert(form[j] == b[j - o4]);
        } else if j < o6 {
            assert(form[j] == c[j - o5]);
        } else if j < o7 {
            assert(form[j] == d[j - o6]);
        } else if j < o8 {
            assert(form[j] == e[j - o7]);
            assert(part_name(form[j]) == "background"@);
        } else {
            assert(form[j] == f[j - o8]);
        }
    }
}

/// The base URL that requests go to never ends in `/`, and it is the given
/// one (or the default) with only trailing slashes taken off.
pub proof fn lemma_base_url_trimmed(base: Seq<char>)
    ensures
        without_trailing_slashes(base).len() > 0 ==> without_trailing_slashes(base).last() != '/',
        base.len() >= without_trailing_slashes(base).len(),
        base.take(without_trailing_slashes(base).len() as int) == without_trailing_slashes(base),
        forall|i: int|
            without_trailing_slashes(base).len() <= i < base.len() ==> #[trigger] base[i] == '/',
{
    crate::output::lemma_end_not(base, '/', base.len() as int);
    let t = without_trailing_slashes(base);
    assert(base.take(t.len() as int) =~= t);
    if t.len() > 0 {
        assert(t.last() == base[t.len() - 1]);
    }
}

/// The message of a refused request is the API's own when the error object
/// gives one; otherwise the body itself when it is at most 300 bytes of
/// UTF-8, and else the longest prefix of the body within 300 bytes followed
/// by `…`.
pub proof fn lemma_error_message_text(body: Seq<char>, detail: Option<ErrDetail>)
    ensures
        detail matches Some(d) ==> (d.message matches Some(m) ==> error_message(body, detail)
            == m@),
        (detail is None || detail->0.message is None) && crate::text::utf8_len(body) <= 300
            ==> error_message(body, detail) == body,
        (detail is None || detail->0.message is None) && crate::text::utf8_len(body) > 300
            ==> exists|k: int|
            0 <= k < body.len() && #[trigger] error_message(body, detail) == body.take(k).push(
                '\u{2026}',
            ) && crate::text::utf8_len(body.take(k)) <= 300 && crate::text::utf8_len(
                body.take(k + 1),
            ) > 300,
{
    if (detail is None || detail->0.message is None) && crate::text::utf8_len(body) > 300 {
        let k = crate::text::fit_count(body, 300);
        crate::text::lemma_fit_count(body, 300);
        assert(body.take(body.len() as int) =~= body);
        assert(k < body.len());
        assert(error_message(body, detail) == body.take(k as int).push('\u{2026}'));
    }
}

/// Uploads are typed by their extension, in any letter case: `jpg` and
/// `jpeg` as JPEG, `webp` as WebP, and everything else (no extension too) as
/// PNG; a path without a file name is uploaded as `image.png`.
pub proof fn lemma_upload_types(extension: Option<Seq<char>>)
    ensures
        mime_for(extension) == "image/jpeg"@ <==> (extension matches Some(e) && (
        ascii_lowercase(e) == "jpg"@ || ascii_lowercase(e) == "jpeg"@)),
        mime_for(extension) == "image/webp"@ <==> (extension matches Some(e) && ascii_lowercase(e)
            == "webp"@),
        mime_for(extension) == "image/png"@ <==> !(extension matches Some(e) && (ascii_lowercase(e)
            == "jpg"@ || ascii_lowercase(e) == "jpeg"@ || ascii_lowercase(e) == "webp"@)),
        upload_name(None) == "image.png"@,
{
    reveal_strlit("image/jpeg");
    reveal_strlit("image/webp");
    reveal_strlit("image/png");
    reveal_strlit("jpg");
    reveal_strlit("jpeg");
    reveal_strlit("webp");
    assert("webp"@ != "jpeg"@) by {
        assert("webp"@[0] != "jpeg"@[0]);
    }
    assert("webp"@.len() != "jpg"@.len());
    assert("image/jpeg"@ != "image/webp"@) by {
        assert("image/jpeg"@[6] != "image/webp"@[6]);
    }
    assert("image/jpeg"@.len() != "image/png"@.len());
    assert("image/webp"@.len() != "image/png"@.len());
}

} // verus!
