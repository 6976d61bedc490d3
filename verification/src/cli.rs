//! The decisions of the command-line tool: option values, checks on the
//! arguments, the request built from them, messages and exit codes.
use vstd::prelude::*;
use crate::api::{
    ApiError, BodyValueView, ImageRequest, ImagesResponse, api_error_message,
    generation_body_spec, has_member, lemma_generation_body_members,
};
use crate::auth::{KeySource, key_source_text};
use crate::size::{
    gpt_image_2_size_hint, hint_pixels_fit, size_hint, size_refusal,
    validate_size,
};
use crate::text::{dec, dec_string, str_eq, trim, trimmed};

verus! {

/// A setting whose value is sent to the API as a lower-case word.
pub trait ApiValue: Sized {
    /// The word sent for this value.
    spec fn api_word(&self) -> Seq<char>;

    /// The word sent for this value.
    fn api_value(&self) -> (s: String)
        ensures
            s@ == self.api_word(),
    ;
}

/// The word the API takes for `v`.
pub fn enum_str<T: ApiValue>(v: T) -> (s: String)
    ensures
        s@ == v.api_word(),
{
    v.api_value()
}

/// Rendering quality.
#[derive(Debug, Clone, Copy, PartialEq, Eq, Structural)]
pub enum Quality {
    Auto,
    Low,
    Medium,
    High,
}

impl ApiValue for Quality {
    open spec fn api_word(&self) -> Seq<char> {
        match self {
            Quality::Auto => "auto"@,
            Quality::Low => "low"@,
            Quality::Medium => "medium"@,
            Quality::High => "high"@,
        }
    }

    fn api_value(&self) -> (s: String) {
        match self {
            Quality::Auto => "auto".to_owned(),
            Quality::Low => "low".to_owned(),
            Quality::Medium => "medium".to_owned(),
            Quality::High => "high".to_owned(),
        }
    }
}

/// Output image format.
#[derive(Debug, Clone, Copy, PartialEq, Eq, Structural)]
pub enum Format {
    Png,
    Jpeg,
    Webp,
}

impl ApiValue for Format {
    open spec fn api_word(&self) -> Seq<char> {
        match self {
            Format::Png => "png"@,
            Format::Jpeg => "jpeg"@,
            Format::Webp => "webp"@,
        }
    }

    fn api_value(&self) -> (s: String) {
        match self {
            Format::Png => "png".to_owned(),
            Format::Jpeg => "jpeg".to_owned(),
            Format::Webp => "webp".to_owned(),
        }
    }
}

impl Format {
    /// The file extension for this format.
    pub fn ext(self) -> (s: String)
        ensures
            s@ == self.api_word(),
    {
        self.api_value()
    }
}

/// Background style.
#[derive(Debug, Clone, Copy, PartialEq, Eq, Structural)]
pub enum Background {
    Auto,
    Opaque,
    Transparent,
}

impl ApiValue for Background {
    open spec fn api_word(&self) -> Seq<char> {
        match self {
            Background::Auto => "auto"@,
            Background::Opaque => "opaque"@,
            Background::Transparent => "transparent"@,
        }
    }

    fn api_value(&self) -> (s: String) {
        match self {
            Background::Auto => "auto".to_owned(),
            Background::Opaque => "opaque".to_owned(),
            Background::Transparent => "transparent".to_owned(),
        }
    }
}

/// Moderation strictness.
#[derive(Debug, Clone, Copy, PartialEq, Eq, Structural)]
pub enum ModerationLevel {
    Auto,
    Low,
}

impl ApiValue for ModerationLevel {
    open spec fn api_word(&self) -> Seq<char> {
        match self {
            ModerationLevel::Auto => "auto"@,
            ModerationLevel::Low => "low"@,
        }
    }

    fn api_value(&self) -> (s: String) {
        match self {
            ModerationLevel::Auto => "auto".to_owned(),
            ModerationLevel::Low => "low".to_owned(),
        }
    }
}

/// How closely an edit keeps the input image's details.
#[derive(Debug, Clone, Copy, PartialEq, Eq, Structural)]
pub enum Fidelity {
    Low,
    High,
}

impl ApiValue for Fidelity {
    open spec fn api_word(&self) -> Seq<char> {
        match self {
            Fidelity::Low => "low"@,
            Fidelity::High => "high"@,
        }
    }

    fn api_value(&self) -> (s: String) {
        match self {
            Fidelity::Low => "low".to_owned(),
            Fidelity::High => "high".to_owned(),
        }
    }
}

/// The view of an optional setting sent as its API word.
pub open spec fn opt_word<T: ApiValue>(v: Option<T>) -> Option<Seq<char>> {
    match v {
        Some(x) => Some(x.api_word()),
        None => None,
    }
}

fn opt_value<T: ApiValue>(v: Option<T>) -> (r: Option<String>)
    ensures
        crate::text::opt_view(r) == opt_word(v),
{
    match v {
        Some(x) => Some(x.api_value()),
        None => None,
    }
}

// ---------------------------------------------------------------------------
// Errors and exit codes
// ---------------------------------------------------------------------------

/// Why a command failed.
#[derive(Debug)]
pub enum CliError {
    /// The API refused the request or could not be reached.
    Api(ApiError),
    /// The arguments or input files are unusable.
    Usage(String),
    /// Any other failure, with its message.
    Failure(String),
}

/// The exit code for a failure: 2 for credentials, 3 for moderation, 4 for
/// bad arguments or input files, 1 otherwise.
pub open spec fn exit_code_spec(e: CliError) -> u8 {
    match e {
        CliError::Api(ApiError::Auth(_)) => 2,
        CliError::Api(ApiError::ModerationBlocked(_)) => 3,
        CliError::Api(ApiError::Other(_)) => 1,
        CliError::Usage(_) => 4,
        CliError::Failure(_) => 1,
    }
}

/// The exit code that a script sees for `err`.
pub fn exit_code_for(err: &CliError) -> (code: u8)
    ensures
        code == exit_code_spec(*err),
{
    match err {
        CliError::Api(ApiError::Auth(_)) => 2,
        CliError::Api(ApiError::ModerationBlocked(_)) => 3,
        CliError::Api(ApiError::Other(_)) => 1,
        CliError::Usage(_) => 4,
        CliError::Failure(_) => 1,
    }
}

/// The text shown for a failure.
pub open spec fn cli_error_message(e: CliError) -> Seq<char> {
    match e {
        CliError::Api(a) => api_error_message(a),
        CliError::Usage(m) => m@,
        CliError::Failure(m) => m@,
    }
}

impl CliError {
    /// The text shown for this failure.
    pub fn message(&self) -> (m: String)
        ensures
            m@ == cli_error_message(*self),
    {
        match self {
            CliError::Api(a) => a.message(),
            CliError::Usage(m) => m.clone(),
            CliError::Failure(m) => m.clone(),
        }
    }
}

/// A failure caused by the user's input (exit code 4).
pub fn usage_err(msg: String) -> (e: CliError)
    ensures
        e == CliError::Usage(msg),
{
    CliError::Usage(msg)
}

/// The message given when no API key is found.
pub open spec fn no_key_message() -> Seq<char> {
    "no API key found. Pass --api-key, set OPENAI_API_KEY, or log in to Codex CLI with an API key"@
}

/// The failure reported when no API key is found: a credentials error.
pub fn no_key_err() -> (e: CliError)
    ensures
        e is Api && e->Api_0 is Auth && e->Api_0->Auth_0@ == no_key_message(),
{
    CliError::Api(
        ApiError::Auth(
            "no API key found. Pass --api-key, set OPENAI_API_KEY, or log in to Codex CLI with an API key".to_owned(),
        ),
    )
}

// ---------------------------------------------------------------------------
// Image commands
// ---------------------------------------------------------------------------

/// The options shared by the generate and edit commands.
#[derive(Debug)]
pub struct ImageOptions {
    pub model: String,
    pub size: String,
    pub quality: Quality,
    pub format: Format,
    pub compression: Option<u8>,
    pub background: Option<Background>,
    pub moderation: Option<ModerationLevel>,
    pub n: u8,
    pub out: Option<String>,
    pub json: bool,
    pub quiet: bool,
}

/// The inputs of an edit command.
#[derive(Debug)]
pub struct EditOptions {
    pub inputs: Vec<String>,
    pub mask: Option<String>,
    pub fidelity: Option<Fidelity>,
}

/// Checks the size and the prompt, in that order: a refused size is reported
/// with its own message, a blank prompt as `prompt must not be empty`, both
/// as usage errors.
pub fn check_arguments(prompt: &str, size: &str) -> (r: Result<(), CliError>)
    ensures
        !crate::size::valid_size(size@) ==> r is Err && r->Err_0 == CliError::Usage(
            r->Err_0->Usage_0,
        ) && r->Err_0->Usage_0@ == size_refusal(size@),
        crate::size::valid_size(size@) && trimmed(prompt@).len() == 0 ==> r is Err
            && r->Err_0 == CliError::Usage(r->Err_0->Usage_0) && r->Err_0->Usage_0@
            == "prompt must not be empty"@,
        crate::size::valid_size(size@) && trimmed(prompt@).len() > 0 ==> r is Ok,
{
    match validate_size(size) {
        Ok(()) => {},
        Err(e) => {
            let m = e.message();
            return Err(usage_err(m));
        },
    }
    let t = trim(prompt);
    if t.as_str().is_empty() {
        return Err(usage_err("prompt must not be empty".to_owned()));
    }
    Ok(())
}

/// The first input file that is missing, as a usage error naming it: each
/// entry holds a path and whether it names an existing file.
pub fn check_inputs(inputs: &Vec<(String, bool)>) -> (r: Result<(), CliError>)
    ensures
        r is Ok <==> forall|i: int| 0 <= i < inputs@.len() ==> (#[trigger] inputs@[i]).1,
        r is Err ==> exists|i: int|
            0 <= i < inputs@.len() && !inputs@[i].1 && (forall|j: int|
                0 <= j < i ==> (#[trigger] inputs@[j]).1) && r->Err_0 == CliError::Usage(
                r->Err_0->Usage_0,
            ) && r->Err_0->Usage_0@ == "input file not found: "@ + (#[trigger] inputs@[i]).0@,
{
    let mut i: usize = 0;
    while i < inputs.len()
        invariant
            i <= inputs@.len(),
            forall|j: int| 0 <= j < i ==> (#[trigger] inputs@[j]).1,
        decreases inputs.len() - i,
    {
        if !inputs[i].1 {
            let mut m = "input file not found: ".to_owned();
            m.append(inputs[i].0.as_str());
            let e = usage_err(m);
            assert(!inputs@[i as int].1);
            return Err(e);
        }
        i = i + 1;
    }
    Ok(())
}

/// The warnings printed before an image command, in order: for gpt-image-2,
/// the size hint and a note that transparent backgrounds are unsupported;
/// for any model, a note when compression is given for PNG output.
pub open spec fn warnings_spec(
    model: Seq<char>,
    size: Seq<char>,
    background: Option<Background>,
    compression: Option<u8>,
    format: Format,
) -> Seq<Seq<char>> {
    let g2 = model == "gpt-image-2"@;
    let w1: Seq<Seq<char>> = if g2 && size_hint(size) is Some {
        seq!["warning: "@ + size_hint(size)->0]
    } else {
        seq![]
    };
    let w2: Seq<Seq<char>> = if g2 && background == Some(Background::Transparent) {
        seq![
            "warning: gpt-image-2 does not support transparent backgrounds; use gpt-image-1.5 or gpt-image-1"@,
        ]
    } else {
        seq![]
    };
    let w3: Seq<Seq<char>> = if compression is Some && format == Format::Png {
        seq!["warning: --compression only applies to jpeg/webp output"@]
    } else {
        seq![]
    };
    w1 + w2 + w3
}

/// The warnings to print before an image command (see [`warnings_spec`]).
pub fn image_warnings(
    model: &str,
    size: &str,
    background: Option<Background>,
    compression: Option<u8>,
    format: Format,
) -> (w: Vec<String>)
    requires
        model@ == "gpt-image-2"@ ==> hint_pixels_fit(size@),
    ensures
        crate::output::views(w@) == warnings_spec(model@, size@, background, compression, format),
{
    let mut w: Vec<String> = Vec::new();
    let g2 = str_eq(model, "gpt-image-2");
    if g2 {
        match gpt_image_2_size_hint(size) {
            Some(h) => {
                let mut m = "warning: ".to_owned();
                m.append(h.as_str());
                w.push(m);
            },
            None => {},
        }
        if background == Some(Background::Transparent) {
            w.push(
                "warning: gpt-image-2 does not support transparent backgrounds; use gpt-image-1.5 or gpt-image-1".to_owned(),
            );
        }
    }
    let ghost before = crate::output::views(w@);
    if compression.is_some() && format == Format::Png {
        w.push("warning: --compression only applies to jpeg/webp output".to_owned());
    }
    assert(crate::output::views(w@) =~= warnings_spec(
        model@,
        size@,
        background,
        compression,
        format,
    ));
    w
}

/// The request that an image command sends.
pub open spec fn request_matches(
    r: ImageRequest,
    prompt: Seq<char>,
    opts: ImageOptions,
    edit: Option<EditOptions>,
) -> bool {
    &&& r.prompt@ == prompt
    &&& r.model@ == opts.model@
    &&& r.n == opts.n
    &&& crate::text::opt_view(r.size) == (if opts.size@ != "auto"@ {
        Some(opts.size@)
    } else {
        None
    })
    &&& crate::text::opt_view(r.quality) == (if opts.quality != Quality::Auto {
        Some(opts.quality.api_word())
    } else {
        None
    })
    &&& crate::text::opt_view(r.output_format) == (if opts.format != Format::Png {
        Some(opts.format.api_word())
    } else {
        None
    })
    &&& r.output_compression == opts.compression
    &&& crate::text::opt_view(r.background) == opt_word(opts.background)
    &&& crate::text::opt_view(r.moderation) == (if edit is Some {
        None
    } else {
        opt_word(opts.moderation)
    })
    &&& match edit {
        Some(e) => {
            &&& crate::output::views(r.images@) == crate::output::views(e.inputs@)
            &&& crate::text::opt_view(r.mask) == crate::text::opt_view(e.mask)
            &&& crate::text::opt_view(r.input_fidelity) == opt_word(e.fidelity)
        },
        None => {
            &&& r.images@.len() == 0
            &&& r.mask is None
            &&& r.input_fidelity is None
        },
    }
}

/// The request for an image command: the prompt and the options, leaving out
/// settings that are at the API's own default (`auto` size and quality, PNG
/// output), and moderation for edits.
pub fn build_request(prompt: String, opts: &ImageOptions, edit: Option<EditOptions>) -> (r:
    ImageRequest)
    ensures
        request_matches(r, prompt@, *opts, edit),
{
    let is_edit = edit.is_some();
    let size = if !str_eq(opts.size.as_str(), "auto") {
        Some(opts.size.clone())
    } else {
        None
    };
    let quality = if opts.quality != Quality::Auto {
        Some(enum_str(opts.quality))
    } else {
        None
    };
    let output_format = if opts.format != Format::Png {
        Some(enum_str(opts.format))
    } else {
        None
    };
    let moderation = if is_edit {
        None
    } else {
        opt_value(opts.moderation)
    };
    let (images, mask, input_fidelity) = match edit {
        Some(e) => (e.inputs, e.mask, opt_value(e.fidelity)),
        None => (Vec::new(), None, None),
    };
    ImageRequest {
        prompt,
        model: opts.model.clone(),
        n: opts.n,
        size,
        quality,
        output_format,
        output_compression: opts.compression,
        background: opt_value(opts.background),
        moderation,
        images,
        mask,
        input_fidelity,
    }
}

/// The progress line printed before the request is sent.
pub open spec fn start_message_spec(
    is_edit: bool,
    n: u8,
    model: Seq<char>,
    quality: Quality,
    size: Seq<char>,
    source: KeySource,
) -> Seq<char> {
    (if is_edit {
        "editing"@
    } else {
        "generating"@
    }) + " "@ + dec(n as nat) + " image(s) with "@ + model + " (quality: "@ + quality.api_word()
        + ", size: "@ + size + ", auth: "@ + key_source_text(source) + ")..."@
}

/// The progress line printed before the request is sent.
pub fn start_message(
    is_edit: bool,
    n: u8,
    model: &str,
    quality: Quality,
    size: &str,
    source: KeySource,
) -> (m: String)
    ensures
        m@ == start_message_spec(is_edit, n, model@, quality, size@, source),
{
    let mut m = if is_edit {
        "editing".to_owned()
    } else {
        "generating".to_owned()
    };
    m.append(" ");
    let d = dec_string(n as u64);
    m.append(d.as_str());
    m.append(" image(s) with ");
    m.append(model);
    m.append(" (quality: ");
    let q = enum_str(quality);
    m.append(q.as_str());
    m.append(", size: ");
    m.append(size);
    m.append(", auth: ");
    let s = source.describe();
    m.append(s.as_str());
    m.append(")...");
    m
}

/// A response must hold at least one image.
pub fn check_images(response: &ImagesResponse) -> (r: Result<(), CliError>)
    ensures
        r is Ok <==> response.data@.len() > 0,
        r matches Err(e) ==> e == CliError::Failure(e->Failure_0) && e->Failure_0@
            == "API returned no images"@,
{
    if response.data.len() == 0 {
        return Err(CliError::Failure("API returned no images".to_owned()));
    }
    Ok(())
}

/// The extension for saved files: the format that the API reports it used,
/// else the one asked for.
pub fn output_extension(reported: &Option<String>, format: Format) -> (ext: String)
    ensures
        ext@ == match reported {
            Some(r) => r@,
            None => format.api_word(),
        },
{
    match reported {
        Some(r) => r.clone(),
        None => format.ext(),
    }
}

} // verus!
verus! {

/// What the command line asks for reaches the request as the API spells it:
/// the prompt, model and count as given, the compression level exactly as
/// given, the size unless `auto`, the quality unless `auto`, the format
/// unless PNG, the background when given, moderation only for a generation,
/// and the input images, mask and fidelity only for an edit.
pub proof fn lemma_request_carries_options(
    r: ImageRequest,
    prompt: Seq<char>,
    opts: ImageOptions,
    edit: Option<EditOptions>,
)
    requires
        request_matches(r, prompt, opts, edit),
    ensures
        r.prompt@ == prompt,
        r.model@ == opts.model@,
        r.n == opts.n,
        r.output_compression == opts.compression,
        opts.size@ != "auto"@ ==> crate::text::opt_view(r.size) == Some(opts.size@),
        opts.size@ == "auto"@ ==> r.size is None,
        opts.quality != Quality::Auto ==> crate::text::opt_view(r.quality) == Some(
            opts.quality.api_word(),
        ),
        opts.quality == Quality::Auto ==> r.quality is None,
        opts.format != Format::Png ==> crate::text::opt_view(r.output_format) == Some(
            opts.format.api_word(),
        ),
        opts.format == Format::Png ==> r.output_format is None,
        opts.background matches Some(b) ==> crate::text::opt_view(r.background) == Some(
            b.api_word(),
        ),
        opts.background is None ==> r.background is None,
        edit is Some ==> r.moderation is None,
        edit is None ==> (opts.moderation matches Some(m) ==> crate::text::opt_view(r.moderation)
            == Some(m.api_word())),
        edit is None ==> (opts.moderation is None ==> r.moderation is None),
        edit is None ==> r.images@.len() == 0 && r.mask is None && r.input_fidelity is None,
        edit matches Some(e) ==> r.images@.len() == e.inputs@.len() && (forall|i: int|
            0 <= i < e.inputs@.len() ==> (#[trigger] r.images@[i])@ == e.inputs@[i]@),
{
    if let Some(e) = edit {
        let vi = crate::output::views(r.images@);
        let ve = crate::output::views(e.inputs@);
        assert(vi == ve);
        assert(vi.len() == r.images@.len() && ve.len() == e.inputs@.len());
        assert forall|i: int| 0 <= i < e.inputs@.len() implies (#[trigger] r.images@[i])@
            == e.inputs@[i]@ by {
            assert(vi[i] == r.images@[i]@);
            assert(ve[i] == e.inputs@[i]@);
        }
    }
}

/// The options of a generate command reach the JSON body it sends: a
/// compression level given on the command line appears as the
/// `output_compression` member with that number, a format other than PNG as
/// the `output_format` member with its name, and neither appears otherwise.
pub proof fn lemma_options_reach_generation_body(
    r: ImageRequest,
    prompt: Seq<char>,
    opts: ImageOptions,
)
    requires
        request_matches(r, prompt, opts, None),
    ensures
        opts.compression matches Some(c) ==> generation_body_spec(r).contains(
            ("output_compression"@, BodyValueView::Number(c as nat)),
        ),
        opts.compression is None ==> !has_member(generation_body_spec(r), "output_compression"@),
        opts.format != Format::Png ==> generation_body_spec(r).contains(
            ("output_format"@, BodyValueView::Text(opts.format.api_word())),
        ),
        opts.format == Format::Png ==> !has_member(generation_body_spec(r), "output_format"@),
{
    lemma_request_carries_options(r, prompt, opts, None);
    lemma_generation_body_members(r);
}

/// The exit codes are stable and tell failures apart: 2 for missing or
/// refused credentials, 3 for a moderation block, 4 for bad arguments or
/// input files, and 1 for any other API or outside failure; 0 is left to
/// success.
pub proof fn lemma_exit_codes(e: CliError)
    ensures
        exit_code_spec(e) != 0,
        exit_code_spec(e) == 2 <==> (e is Api && e->Api_0 is Auth),
        exit_code_spec(e) == 3 <==> (e is Api && e->Api_0 is ModerationBlocked),
        exit_code_spec(e) == 4 <==> e is Usage,
        exit_code_spec(e) == 1 <==> (e is Failure || (e is Api && e->Api_0 is Other)),
{
}

/// A missing API key fails with the credentials exit code.
pub proof fn lemma_missing_key_exit_code(e: CliError)
    requires
        e is Api && e->Api_0 is Auth && e->Api_0->Auth_0@ == no_key_message(),
    ensures
        exit_code_spec(e) == 2,
{
}

/// Whether `w` is among the warnings.
pub open spec fn warns(ws: Seq<Seq<char>>, w: Seq<char>) -> bool {
    ws.contains(w)
}

/// The transparent-background note is given exactly for gpt-image-2 with a
/// transparent background, and the compression note exactly when a
/// compression level is given for PNG output, whatever the model; a
/// gpt-image-2 size within its limits adds no size warning, so a request
/// with none of these gets no warning at all.
pub proof fn lemma_warnings(
    model: Seq<char>,
    size: Seq<char>,
    background: Option<Background>,
    compression: Option<u8>,
    format: Format,
)
    ensures
        warns(
            warnings_spec(model, size, background, compression, format),
            "warning: gpt-image-2 does not support transparent backgrounds; use gpt-image-1.5 or gpt-image-1"@,
        ) <==> (model == "gpt-image-2"@ && background == Some(Background::Transparent)),
        warns(
            warnings_spec(model, size, background, compression, format),
            "warning: --compression only applies to jpeg/webp output"@,
        ) <==> (compression is Some && format == Format::Png),
        (model != "gpt-image-2"@ || size_hint(size) is None) && background != Some(
            Background::Transparent,
        ) && !(compression is Some && format == Format::Png) ==> warnings_spec(
            model,
            size,
            background,
            compression,
            format,
        ).len() == 0,
{
    let tnote =
        "warning: gpt-image-2 does not support transparent backgrounds; use gpt-image-1.5 or gpt-image-1"@;
    let cnote = "warning: --compression only applies to jpeg/webp output"@;
    reveal_strlit(
        "warning: gpt-image-2 does not support transparent backgrounds; use gpt-image-1.5 or gpt-image-1",
    );
    reveal_strlit("warning: --compression only applies to jpeg/webp output");
    reveal_strlit("warning: ");
    let g2 = model == "gpt-image-2"@;
    let w1: Seq<Seq<char>> = if g2 && size_hint(size) is Some {
        seq!["warning: "@ + size_hint(size)->0]
    } else {
        seq![]
    };
    let w2: Seq<Seq<char>> = if g2 && background == Some(Background::Transparent) {
        seq![tnote]
    } else {
        seq![]
    };
    let w3: Seq<Seq<char>> = if compression is Some && format == Format::Png {
        seq![cnote]
    } else {
        seq![]
    };
    let ws = warnings_spec(model, size, background, compression, format);
    assert(ws == w1 + w2 + w3);
    // The size warning names the size ("warning: size ..."), so it differs
    // from both notes at the tenth character.
    if w1.len() > 0 {
        crate::size::lemma_size_hint_prefix(size);
        reveal_strlit("size ");
        let m = size_hint(size)->0;
        let sw = w1[0];
        assert(m.take(5)[0] == m[0]);
        assert("warning: "@.len() == 9);
        assert(sw[9] == m[0]);
        assert(sw[9] == 's');
        assert(sw != tnote) by {
            assert(tnote[9] == 'g');
        }
        assert(sw != cnote) by {
            assert(cnote[9] == '-');
        }
    }
    assert(tnote != cnote) by {
        assert(tnote[9] != cnote[9]);
    }
    lemma_contains_in_three(w1, w2, w3, tnote);
    lemma_contains_in_three(w1, w2, w3, cnote);
    if w2.len() > 0 {
        assert(w2[0] == tnote);
    }
    if w3.len() > 0 {
        assert(w3[0] == cnote);
    }
}

proof fn lemma_contains_in_three(
    p1: Seq<Seq<char>>,
    p2: Seq<Seq<char>>,
    p3: Seq<Seq<char>>,
    x: Seq<char>,
)
    requires
        p1.len() <= 1,
        p2.len() <= 1,
        p3.len() <= 1,
    ensures
        (p1 + p2 + p3).contains(x) <==> ((p1.len() == 1 && p1[0] == x) || (p2.len() == 1 && p2[0]
            == x) || (p3.len() == 1 && p3[0] == x)),
{
    let ps = p1 + p2 + p3;
    if ps.contains(x) {
        let i = choose|i: int| 0 <= i < ps.len() && ps[i] == x;
        if i < p1.len() {
            assert(p1[i] == x);
        } else if i < p1.len() + p2.len() {
            assert(p2[i - p1.len()] == x);
        } else {
            assert(p3[i - p1.len() - p2.len()] == x);
        }
    }
    if p1.len() == 1 && p1[0] == x {
        assert(ps[0] == x);
    }
    if p2.len() == 1 && p2[0] == x {
        assert(ps[p1.len() as int] == x);
    }
    if p3.len() == 1 && p3[0] == x {
        assert(ps[(p1.len() + p2.len()) as int] == x);
    }
}

} // verus!
