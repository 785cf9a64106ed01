//! What a request is answered with: the next count of its key, drawn in
//! the theme and the format that it asks for.

use crate::banner::{
    drawn_size, drawn_svg, BannerError, Drawn, SvgModel, Theme, ThemeManager,
};
use crate::cache::next_count;
use crate::cli::Config;
use crate::db_adpater::{BackendError, DBManager, KVDBClient};
use crate::table::{cached, counted};
use crate::utils::same_text;
use vstd::prelude::*;
use vstd::string::StringSliceAdditionalSpecFns;

verus! {

/// The number that the demonstration page shows.
pub const DEMO_NUMBER: u64 = 123456789;

/// The digits that the demonstration page shows it with.
pub const DEMO_DIGITS: u32 = 10;

/// What a request may say about the picture it wants.
#[derive(Debug)]
pub struct CountGetParams {
    pub theme: Option<String>,
    pub format: Option<String>,
    pub length: Option<u32>,
}

/// The picture that is to be drawn.
#[derive(Debug)]
pub struct RenderRequest {
    pub theme: String,
    pub format: String,
    pub digit_count: u32,
}

/// What a request is answered with.
#[derive(Debug)]
pub enum Reply {
    /// A picture, with its MIME type.
    Picture { content_type: String, body: Vec<u8> },
    /// Nothing but a message: the service could not draw.
    Failure { message: String },
}

/// `chosen` where there is one, else `fallback`.
pub open spec fn text_or(chosen: Option<String>, fallback: Seq<char>) -> Seq<char> {
    match chosen {
        Some(text) => text@,
        None => fallback,
    }
}

/// The larger of the configured number of digits and the one asked for.
pub open spec fn wanted_digits(configured: u32, asked: Option<u32>) -> u32 {
    match asked {
        Some(length) => if length > configured {
            length
        } else {
            configured
        },
        None => configured,
    }
}

/// The name of the theme that a request is drawn in: the one it asks for,
/// else the configured one, else `moebooru`, whichever exists first.
pub open spec fn theme_for(
    themes: Map<Seq<char>, Theme>,
    requested: Seq<char>,
    configured: Seq<char>,
) -> Option<Seq<char>> {
    if themes.contains_key(requested) {
        Some(requested)
    } else if themes.contains_key(configured) {
        Some(configured)
    } else if themes.contains_key("moebooru"@) {
        Some("moebooru"@)
    } else {
        None
    }
}

/// Whether `reply` is a failure that says `message`.
pub open spec fn fails_with(reply: Reply, message: Seq<char>) -> bool {
    reply matches Reply::Failure { message: said } && said@ == message
}

/// Whether `reply` answers the request to draw `number` in `theme`.
/// SVG is the format of every request that does not ask for `webp`. A
/// number one of whose digits has no picture in the theme is not drawn.
pub open spec fn answers(
    theme: Theme,
    request: RenderRequest,
    pixelated: bool,
    number: u64,
    reply: Reply,
) -> bool {
    if request.format@ == "webp"@ {
        if !theme.can_draw(number, request.digit_count) {
            fails_with(reply, "failed to gen webp image"@)
        } else {
            match drawn_size(theme.sizes(), number as nat, request.digit_count as nat) {
                Drawn::Fits { width, height } => (reply matches Reply::Picture {
                    content_type,
                    body,
                } && content_type@ == "image/webp"@) || fails_with(
                    reply,
                    "failed to get webp image data"@,
                ),
                _ => fails_with(reply, "failed to gen webp image"@),
            }
        }
    } else {
        if !theme.can_draw(number, request.digit_count) {
            fails_with(reply, "failed to gen svg image"@)
        } else {
            match drawn_svg(theme.svgs(), number as nat, request.digit_count as nat, pixelated) {
                Some(model) => reply matches Reply::Picture { content_type, body } && content_type@
                    == "image/svg+xml"@ && body@ == vstd::utf8::encode_utf8(model.data),
                None => fails_with(reply, "failed to gen svg image"@),
            }
        }
    }
}

impl Reply {
    /// The HTTP status of the reply: 200 with a picture, 500 without.
    pub fn status(&self) -> (code: u16)
        ensures
            code == if *self is Picture {
                200u16
            } else {
                500u16
            },
    {
        match self {
            Reply::Picture { .. } => 200,
            Reply::Failure { .. } => 500,
        }
    }
}

/// `chosen` where there is one, else a copy of `fallback`.
fn chosen_or(chosen: Option<String>, fallback: &String) -> (text: String)
    ensures
        text@ == text_or(chosen, fallback@),
{
    match chosen {
        Some(text) => text,
        None => fallback.clone(),
    }
}

/// The picture that a request for a count asks for, under `config`.
pub fn count_request(params: CountGetParams, config: &Config) -> (request: RenderRequest)
    ensures
        request.theme@ == text_or(params.theme, config.default_theme@),
        request.format@ == text_or(params.format, config.default_format@),
        request.digit_count == wanted_digits(config.digit_count, params.length),
{
    let asked: u32 = match params.length {
        Some(length) => length,
        None => 0,
    };
    let digit_count: u32 = if asked > config.digit_count {
        asked
    } else {
        config.digit_count
    };
    RenderRequest {
        theme: chosen_or(params.theme, &config.default_theme),
        format: chosen_or(params.format, &config.default_format),
        digit_count,
    }
}

/// The picture that a request for the demonstration asks for: always with
/// `DEMO_DIGITS` digits, whatever length it names.
pub fn demo_request(params: CountGetParams, config: &Config) -> (request: RenderRequest)
    ensures
        request.theme@ == text_or(params.theme, config.default_theme@),
        request.format@ == text_or(params.format, config.default_format@),
        request.digit_count == DEMO_DIGITS,
{
    RenderRequest {
        theme: chosen_or(params.theme, &config.default_theme),
        format: chosen_or(params.format, &config.default_format),
        digit_count: DEMO_DIGITS,
    }
}

/// The theme that a request is drawn in.
pub fn pick_theme<'a>(manager: &'a ThemeManager, requested: &str, configured: &str) -> (outcome:
    Result<&'a Theme, BannerError>)
    requires
        manager.wf(),
    ensures
        match theme_for(manager.themes(), requested@, configured@) {
            Some(name) => outcome matches Ok(theme) && *theme == manager.themes()[name] && theme.wf(),
            None => outcome matches Err(error) && error is ThemeNotFound,
        },
{
    match manager.get(requested) {
        Ok(theme) => Ok(theme),
        Err(_) => match manager.get(configured) {
            Ok(theme) => Ok(theme),
            Err(_) => manager.get("moebooru"),
        },
    }
}

/// A failure that says `message`.
fn failure(message: &str) -> (reply: Reply)
    ensures
        fails_with(reply, message@),
{
    Reply::Failure { message: message.to_owned() }
}

/// Draws `number` in `theme` as `request` asks.
pub fn render(theme: &Theme, request: &RenderRequest, pixelated: bool, number: u64) -> (reply: Reply)
    requires
        theme.wf(),
    ensures
        answers(*theme, *request, pixelated, number, reply),
{
    if same_text(request.format.as_str(), "webp") {
        if !theme.has_pictures(number, request.digit_count) {
            return failure("failed to gen webp image");
        }
        match theme.gen_webp(number, request.digit_count) {
            Ok(image) => match image.encode() {
                Ok(body) => Reply::Picture {
                    content_type: image.format().to_mime_type().to_owned(),
                    body,
                },
                Err(_) => failure("failed to get webp image data"),
            },
            Err(_) => failure("failed to gen webp image"),
        }
    } else {
        if !theme.has_pictures(number, request.digit_count) {
            return failure("failed to gen svg image");
        }
        match theme.gen_svg(number, request.digit_count, pixelated) {
            Ok(image) => Reply::Picture {
                content_type: "image/svg+xml".to_owned(),
                body: image.data().as_bytes_vec(),
            },
            Err(_) => failure("failed to gen svg image"),
        }
    }
}

/// What came of a request: the picture that it asked for, the number
/// that was drawn where one was, the failure of the table where it was
/// read and could not be, and the reply.
#[derive(Debug)]
pub struct Answer {
    pub request: RenderRequest,
    pub number: Option<u64>,
    pub failure: Option<BackendError>,
    pub reply: Reply,
}

/// Answers a request for the count of `key`: counts it, once, and draws
/// the new count. A read of the table that fails counts as no row and is
/// handed back. Where no theme can be found the key is not counted.
pub fn count<B: KVDBClient>(
    store: &mut DBManager<B>,
    manager: &ThemeManager,
    config: &Config,
    key: &str,
    params: CountGetParams,
) -> (answer: Answer)
    requires
        old(store).wf(),
        manager.wf(),
    ensures
        final(store).wf(),
        final(store).backend() == old(store).backend(),
        answer.request.theme@ == text_or(params.theme, config.default_theme@),
        answer.request.format@ == text_or(params.format, config.default_format@),
        answer.request.digit_count == wanted_digits(config.digit_count, params.length),
        match theme_for(manager.themes(), answer.request.theme@, config.default_theme@) {
            Some(name) => {
                &&& answer.number matches Some(number)
                &&& final(store).counts() == old(store).counts().insert(key@, number)
                &&& number >= 1
                &&& old(store).counts().contains_key(key@) ==> number == next_count(
                    old(store).counts()[key@],
                )
                &&& old(store).backend().model() matches Some(table) ==> number == counted(
                    cached(old(store).counts(), key@),
                    table.lookup(key@),
                )
                &&& answer.failure is Some ==> !old(store).counts().contains_key(key@) && number
                    == 1
                &&& old(store).backend().model() matches Some(table) ==> (answer.failure is Some
                    <==> (!old(store).counts().contains_key(key@) && !table.reachable))
                &&& answers(
                    manager.themes()[name],
                    answer.request,
                    config.pixelated,
                    number,
                    answer.reply,
                )
            },
            None => {
                &&& *final(store) == *old(store)
                &&& answer.number is None
                &&& answer.failure is None
                &&& fails_with(answer.reply, "failed to find a theme"@)
            },
        },
{
    let request = count_request(params, config);
    match pick_theme(manager, request.theme.as_str(), config.default_theme.as_str()) {
        Ok(theme) => {
            let counted = store.count_report(key);
            let reply = render(theme, &request, config.pixelated, counted.count);
            Answer { request, number: Some(counted.count), failure: counted.failure, reply }
        },
        Err(_) => Answer {
            request,
            number: None,
            failure: None,
            reply: failure("failed to find a theme"),
        },
    }
}

/// Answers a request for the demonstration: draws `DEMO_NUMBER`.
pub fn demo(manager: &ThemeManager, config: &Config, params: CountGetParams) -> (answer: Answer)
    requires
        manager.wf(),
    ensures
        answer.request.theme@ == text_or(params.theme, config.default_theme@),
        answer.request.format@ == text_or(params.format, config.default_format@),
        answer.request.digit_count == DEMO_DIGITS,
        answer.failure is None,
        match theme_for(manager.themes(), answer.request.theme@, config.default_theme@) {
            Some(name) => answer.number == Some(DEMO_NUMBER) && answers(
                manager.themes()[name],
                answer.request,
                config.pixelated,
                DEMO_NUMBER,
                answer.reply,
            ),
            None => answer.number is None && fails_with(answer.reply, "failed to find a theme"@),
        },
{
    let request = demo_request(params, config);
    match pick_theme(manager, request.theme.as_str(), config.default_theme.as_str()) {
        Ok(theme) => {
            let reply = render(theme, &request, config.pixelated, DEMO_NUMBER);
            Answer { request, number: Some(DEMO_NUMBER), failure: None, reply }
        },
        Err(_) => Answer {
            request,
            number: None,
            failure: None,
            reply: failure("failed to find a theme"),
        },
    }
}

/// What the status page says.
pub fn status() -> (text: String)
    ensures
        text@ == "everything is ok"@,
{
    "everything is ok".to_owned()
}

} // verus!
