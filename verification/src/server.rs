//! What the HTTP print server accepts, and how it answers.

use crate::images::ResolvedImage;
use crate::protocol::notifications::Status;
use crate::raster::bitmap::Bitmap;
use crate::raster::dither::Dither;
use crate::raster::faces::Faces;
use crate::raster::markdown::render::render_markdown_with;
use crate::raster::picture::bitmap_from_image_bytes;
use crate::raster::qr::render_qr;
use crate::raster::rich::BODY_SIZE;
use crate::raster::text::render_text;
use crate::service::{Failure, PrintOptions, PrintOutcome};
use crate::strings::{chars_of, decimal, is_blank, parse_number, same_text};
use crate::transport::log::Setback;
use vstd::prelude::*;
#[allow(unused_imports)]
use crate::cli::arg_text;
#[allow(unused_imports)]
use crate::content::is_markdown_print;
#[allow(unused_imports)]
use crate::raster::dither::prepared_height;
#[allow(unused_imports)]
use crate::raster::picture::{decoded, is_picture_print, picture_size};
#[allow(unused_imports)]
use crate::raster::qr::{is_captioned, qr_modules};
#[allow(unused_imports)]
use crate::raster::rich::rows_of;
#[allow(unused_imports)]
use crate::raster::text::text_lines;
#[allow(unused_imports)]
use crate::raster::typeset::shows;
#[allow(unused_imports)]
use crate::strings::{decimal_digits, is_blank_text, number_in};

verus! {

/// Largest accepted request body (image uploads), in bytes.
pub const BODY_LIMIT: usize = 20_971_520;

/// Largest accepted font size: 128 px in 64ths.
pub const MAX_TEXT_SIZE: u32 = 8_192;

/// How long a status request waits for an unsolicited status frame, in
/// milliseconds.
pub const STATUS_TIMEOUT_MS: u64 = 5_000;

/// An API error: HTTP status plus a message.
#[derive(Debug)]
pub struct ApiError {
    pub status: u16,
    pub message: String,
}

impl ApiError {
    /// The request cannot be answered as it stands.
    pub fn bad_request(message: String) -> (e: Self)
        ensures
            e.status == 400,
            e.message == message,
    {
        ApiError { status: 400, message }
    }

    /// There is no printer to print on.
    pub fn unavailable(message: String) -> (e: Self)
        ensures
            e.status == 503,
            e.message == message,
    {
        ApiError { status: 503, message }
    }

    /// A status request that failed: whatever stopped it, there was no printer
    /// to ask.
    pub fn of_failure(f: &Failure) -> (e: Self)
        ensures
            e.status == 503,
            e.message@ == f.wording(),
    {
        ApiError::unavailable(f.message())
    }

    /// A print that failed: 503 without a printer, 409 without paper, 400 for a
    /// job that no printer takes, 500 for anything else.
    pub fn of_print(f: &Failure) -> (e: Self)
        ensures
            e.status == f.http(),
            e.message@ == f.wording(),
    {
        let status: u16 = match f {
            Failure::NoPrinter(_) | Failure::NotResponding(_) => 503,
            Failure::NoPaper(_) => 409,
            Failure::Print(_, Setback::NoPaper(_)) => 409,
            Failure::TooLarge(_) => 400,
            Failure::Print(..) | Failure::Other(_) => 500,
        };
        ApiError { status, message: f.message() }
    }

    /// A page that could not be rendered.
    pub fn bad_gateway(message: String) -> (e: Self)
        ensures
            e.status == 502,
            e.message == message,
    {
        ApiError { status: 502, message }
    }
}

/// The most feed that a request may ask for.
pub const MAX_FEED: u64 = 65_535;

/// What is wrong with the print options of a request, if anything is.
pub open spec fn option_fault(
    density: Option<u64>,
    feed: Option<u64>,
    copies: Option<u64>,
) -> Option<Seq<char>> {
    if density matches Some(d) && !(1 <= d <= 7) {
        Some("density must be 1-7, got "@ + decimal_digits(density->0 as nat))
    } else if feed matches Some(f) && f > MAX_FEED {
        Some("feed must be at most 65535, got "@ + decimal_digits(feed->0 as nat))
    } else if copies matches Some(c) && !(1 <= c <= 20) {
        Some("copies must be 1-20, got "@ + decimal_digits(copies->0 as nat))
    } else {
        None
    }
}

fn refuse_number(what: &str, got: u64) -> (e: ApiError)
    ensures
        e.status == 400,
        e.message@ == what@ + decimal_digits(got as nat),
{
    let mut why: String = what.to_owned();
    why.append(decimal(got as u128).as_str());
    ApiError::bad_request(why)
}

/// The print options of a request: density 1-7 (3 unless told otherwise), feed
/// (40) and copies 1-20 (1).
pub fn validate_options(density: Option<u64>, feed: Option<u64>, copies: Option<u64>) -> (r: Result<
    PrintOptions,
    ApiError,
>)
    ensures
        match option_fault(density, feed, copies) {
            Some(why) => r matches Err(e) && e.status == 400 && e.message@ == why,
            None => r matches Ok(opts) && opts.density == match density {
                Some(d) => d,
                None => 3u64,
            } && opts.feed == match feed {
                Some(f) => f,
                None => 40u64,
            } && opts.copies == match copies {
                Some(c) => c,
                None => 1u64,
            },
        },
{
    let d: u64 = match density {
        Some(d) => d,
        None => 3,
    };
    if d < 1 || d > 7 {
        return Err(refuse_number("density must be 1-7, got ", d));
    }
    let f: u64 = match feed {
        Some(f) => f,
        None => 40,
    };
    if f > MAX_FEED {
        return Err(refuse_number("feed must be at most 65535, got ", f));
    }
    let c: u64 = match copies {
        Some(c) => c,
        None => 1,
    };
    if c < 1 || c > 20 {
        return Err(refuse_number("copies must be 1-20, got ", c));
    }
    Ok(PrintOptions { density: d as u8, feed: f as usize, copies: c as u16 })
}

/// The number in a field of a form: nothing where the field is missing.
pub open spec fn field_number(text: Option<Seq<char>>) -> Option<u64> {
    match text {
        Some(t) => Some(number_in(t)->0 as u64),
        None => None,
    }
}

/// Whether a field of a form is there and no number.
pub open spec fn is_bad_field(text: Option<Seq<char>>) -> bool {
    text matches Some(t) && number_in(t) is None
}

fn read_field(name: &str, text: Option<&str>) -> (r: Result<Option<u64>, ApiError>)
    ensures
        match r {
            Ok(n) => !is_bad_field(arg_text(text)) && n == field_number(arg_text(text)),
            Err(e) => is_bad_field(arg_text(text)) && e.status == 400 && e.message@ == name@
                + " must be a number"@,
        },
{
    match text {
        None => Ok(None),
        Some(t) => {
            let chars: Vec<char> = chars_of(t);
            match parse_number(chars.as_slice()) {
                Some(n) => Ok(Some(n as u64)),
                None => {
                    let mut why: String = name.to_owned();
                    why.append(" must be a number");
                    Err(ApiError::bad_request(why))
                },
            }
        },
    }
}

/// What is wrong with the print options of a form, if anything is.
pub open spec fn form_fault(
    density: Option<Seq<char>>,
    feed: Option<Seq<char>>,
    copies: Option<Seq<char>>,
) -> Option<Seq<char>> {
    if is_bad_field(density) {
        Some("density"@ + " must be a number"@)
    } else if is_bad_field(feed) {
        Some("feed"@ + " must be a number"@)
    } else if is_bad_field(copies) {
        Some("copies"@ + " must be a number"@)
    } else {
        option_fault(field_number(density), field_number(feed), field_number(copies))
    }
}

/// The print options of a form, which come as text.
pub fn form_options(density: Option<&str>, feed: Option<&str>, copies: Option<&str>) -> (r: Result<
    PrintOptions,
    ApiError,
>)
    ensures
        match form_fault(arg_text(density), arg_text(feed), arg_text(copies)) {
            Some(why) => r matches Err(e) && e.status == 400 && e.message@ == why,
            None => r matches Ok(opts) && opts.density == match field_number(arg_text(density)) {
                Some(d) => d,
                None => 3u64,
            } && opts.feed == match field_number(arg_text(feed)) {
                Some(f) => f,
                None => 40u64,
            } && opts.copies == match field_number(arg_text(copies)) {
                Some(c) => c,
                None => 1u64,
            },
        },
{
    let d: Option<u64> = match read_field("density", density) {
        Ok(n) => n,
        Err(e) => {
            return Err(e);
        },
    };
    let f: Option<u64> = match read_field("feed", feed) {
        Ok(n) => n,
        Err(e) => {
            return Err(e);
        },
    };
    let c: Option<u64> = match read_field("copies", copies) {
        Ok(n) => n,
        Err(e) => {
            return Err(e);
        },
    };
    validate_options(d, f, c)
}

/// The entries of the answer to a print request: what was printed, and the
/// counters that explain a slow print.
pub open spec fn print_entries(outcome: PrintOutcome, copies: u16) -> Seq<(Seq<char>, u64)> {
    seq![
        ("printed_lines"@, outcome.lines as u64),
        ("copies"@, copies as u64),
        ("packets_sent"@, outcome.stats.packets_sent as u64),
        ("retransmits"@, outcome.stats.retransmits as u64),
        ("holds"@, outcome.stats.holds as u64),
        ("cooldowns"@, outcome.stats.cooldowns as u64),
        ("elapsed_ms"@, (outcome.elapsed / 1_000_000) as u64),
    ]
}

/// The text side of a list of numbers with names.
pub open spec fn number_texts(entries: Seq<(String, u64)>) -> Seq<(Seq<char>, u64)> {
    Seq::new(entries.len(), |i: int| (entries[i].0@, entries[i].1))
}

/// The answer to a print request.
pub fn print_body(outcome: &PrintOutcome, copies: u16) -> (entries: Vec<(String, u64)>)
    ensures
        number_texts(entries@) == print_entries(*outcome, copies),
{
    let mut entries: Vec<(String, u64)> = Vec::new();
    entries.push(("printed_lines".to_owned(), outcome.lines as u64));
    entries.push(("copies".to_owned(), copies as u64));
    entries.push(("packets_sent".to_owned(), outcome.stats.packets_sent as u64));
    entries.push(("retransmits".to_owned(), outcome.stats.retransmits as u64));
    entries.push(("holds".to_owned(), outcome.stats.holds as u64));
    entries.push(("cooldowns".to_owned(), outcome.stats.cooldowns as u64));
    entries.push(("elapsed_ms".to_owned(), outcome.elapsed / 1_000_000));
    assert(number_texts(entries@) =~= print_entries(*outcome, copies));
    entries
}

/// The line that a print job starts with in the log.
pub open spec fn starting_text(kind: Seq<char>, lines: nat, opts: PrintOptions) -> Seq<char> {
    "print job starting: "@ + kind + ", "@ + decimal_digits(lines) + " lines, density "@
        + decimal_digits(opts.density as nat) + ", feed "@ + decimal_digits(opts.feed as nat)
        + ", "@ + decimal_digits(opts.copies as nat) + " copies"@
}

/// The line that a print job starts with in the log.
pub fn starting_line(kind: &str, lines: usize, opts: &PrintOptions) -> (text: String)
    ensures
        text@ == starting_text(kind@, lines as nat, *opts),
{
    let mut text: String = "print job starting: ".to_owned();
    text.append(kind);
    text.append(", ");
    text.append(decimal(lines as u128).as_str());
    text.append(" lines, density ");
    text.append(decimal(opts.density as u128).as_str());
    text.append(", feed ");
    text.append(decimal(opts.feed as u128).as_str());
    text.append(", ");
    text.append(decimal(opts.copies as u128).as_str());
    text.append(" copies");
    text
}

/// The line that a print job ends with in the log.
pub open spec fn done_text(kind: Seq<char>, o: PrintOutcome) -> Seq<char> {
    "print job done: "@ + kind + ", "@ + decimal_digits(o.lines as nat) + " lines in "@
        + decimal_digits((o.elapsed / 1_000_000) as nat) + "ms ("@ + decimal_digits(
        o.stats.packets_sent as nat,
    ) + " packets, "@ + decimal_digits(o.stats.holds as nat) + " holds, "@ + decimal_digits(
        o.stats.cooldowns as nat,
    ) + " cooldowns, "@ + decimal_digits(o.stats.retransmits as nat) + " resends)"@
}

/// The line that a print job ends with in the log.
pub fn done_line(kind: &str, o: &PrintOutcome) -> (text: String)
    ensures
        text@ == done_text(kind@, *o),
{
    let mut text: String = "print job done: ".to_owned();
    text.append(kind);
    text.append(", ");
    text.append(decimal(o.lines as u128).as_str());
    text.append(" lines in ");
    text.append(decimal((o.elapsed / 1_000_000) as u128).as_str());
    text.append("ms (");
    text.append(decimal(o.stats.packets_sent as u128).as_str());
    text.append(" packets, ");
    text.append(decimal(o.stats.holds as u128).as_str());
    text.append(" holds, ");
    text.append(decimal(o.stats.cooldowns as u128).as_str());
    text.append(" cooldowns, ");
    text.append(decimal(o.stats.retransmits as u128).as_str());
    text.append(" resends)");
    text
}

/// The line that a request leaves in the log.
pub open spec fn request_text(
    method: Seq<char>,
    path: Seq<char>,
    status: nat,
    ms: nat,
) -> Seq<char> {
    method + " "@ + path + " -> "@ + decimal_digits(status) + " in "@ + decimal_digits(ms) + "ms"@
}

/// The line that a request leaves in the log.
pub fn request_line(method: &str, path: &str, status: u16, ms: u64) -> (text: String)
    ensures
        text@ == request_text(method@, path@, status as nat, ms as nat),
{
    let mut text: String = method.to_owned();
    text.append(" ");
    text.append(path);
    text.append(" -> ");
    text.append(decimal(status as u128).as_str());
    text.append(" in ");
    text.append(decimal(ms as u128).as_str());
    text.append("ms");
    text
}

/// The algorithm that a dither name stands for.
pub open spec fn dither_named(name: Seq<char>) -> Option<Dither> {
    if name == "floyd"@ {
        Some(Dither::FloydSteinberg)
    } else if name == "atkinson"@ {
        Some(Dither::Atkinson)
    } else if name == "threshold"@ || name == "none"@ {
        Some(Dither::Threshold)
    } else {
        None
    }
}

/// Parse a dither name; same aliases as the CLI (`none` = plain threshold).
pub fn dither_from_str(s: &str) -> (dither: Option<Dither>)
    ensures
        dither == dither_named(s@),
{
    if same_text(s, "floyd") {
        Some(Dither::FloydSteinberg)
    } else if same_text(s, "atkinson") {
        Some(Dither::Atkinson)
    } else if same_text(s, "threshold") || same_text(s, "none") {
        Some(Dither::Threshold)
    } else {
        None
    }
}

/// Refuse content with nothing in it.
pub fn validate_content(content: &str) -> (r: Result<(), ApiError>)
    ensures
        r is Err <==> is_blank_text(content@),
        r matches Err(e) ==> e.status == 400 && e.message@ == "content must not be empty"@,
{
    if is_blank(content) {
        return Err(ApiError::bad_request("content must not be empty".to_owned()));
    }
    Ok(())
}

/// Validate text content and resolve the font size, which is in 64ths of a pixel;
/// body size unless told otherwise.
pub fn validate_text(content: &str, size: Option<u32>) -> (r: Result<u32, ApiError>)
    ensures
        match r {
            Ok(s) => !is_blank_text(content@) && 0 < s <= MAX_TEXT_SIZE && s == match size {
                Some(given) => given,
                None => BODY_SIZE,
            },
            Err(e) => e.status == 400 && if is_blank_text(content@) {
                e.message@ == "content must not be empty"@
            } else {
                (size matches Some(given) && (given == 0 || given > MAX_TEXT_SIZE)) && e.message@
                    == "size must be greater than 0 and at most 128"@
            },
        },
{
    if is_blank(content) {
        return Err(ApiError::bad_request("content must not be empty".to_owned()));
    }
    let s: u32 = match size {
        Some(given) => given,
        None => BODY_SIZE,
    };
    if s == 0 || s > MAX_TEXT_SIZE {
        return Err(
            ApiError::bad_request("size must be greater than 0 and at most 128".to_owned()),
        );
    }
    Ok(s)
}

/// The bitmap of a text request.
pub fn preview_text(content: &str, size: Option<u32>, faces: &Faces) -> (r: Result<
    Bitmap,
    ApiError,
>)
    ensures
        match r {
            Ok(b) => {
                &&& !is_blank_text(content@)
                &&& match size {
                    Some(s) => 0 < s <= MAX_TEXT_SIZE && shows(
                        &b,
                        faces,
                        rows_of(faces, text_lines(content@, s)),
                    ),
                    None => shows(&b, faces, rows_of(faces, text_lines(content@, BODY_SIZE))),
                }
            },
            Err(e) => e.status == 400 && if is_blank_text(content@) {
                e.message@ == "content must not be empty"@
            } else {
                (size matches Some(s) && (s == 0 || s > MAX_TEXT_SIZE)) && e.message@
                    == "size must be greater than 0 and at most 128"@
            },
        },
{
    match validate_text(content, size) {
        Ok(s) => Ok(render_text(content, s, faces)),
        Err(e) => Err(e),
    }
}

/// The bitmap of a markdown request, with the images that were resolved for it.
pub fn preview_markdown(content: &str, images: &Vec<ResolvedImage>, faces: &Faces) -> (r: Result<
    Bitmap,
    ApiError,
>)
    ensures
        match r {
            Ok(b) => !is_blank_text(content@) && is_markdown_print(&b, content@, images@, faces),
            Err(e) => is_blank_text(content@) && e.status == 400 && e.message@
                == "content must not be empty"@,
        },
{
    match validate_content(content) {
        Ok(_) => Ok(render_markdown_with(content, images, faces)),
        Err(e) => Err(e),
    }
}

/// The bitmap of a QR request.
pub fn preview_qr(data: &str, caption: Option<&str>, faces: &Faces) -> (r: Result<Bitmap, ApiError>)
    ensures
        match r {
            Ok(b) => qr_modules(data@) matches Some(code) && is_captioned(
                b@,
                code.0 as int,
                code.1,
                arg_text(caption),
                faces,
            ),
            Err(e) => qr_modules(data@) is None && e.status == 400 && e.message@
                == "data too long to fit in a QR code"@,
        },
{
    match render_qr(data, caption, faces) {
        Ok(b) => Ok(b),
        Err(e) => Err(ApiError::bad_request(e.message())),
    }
}

/// One field of an image upload.
#[derive(Debug)]
pub enum UploadField {
    /// The image.
    File(Vec<u8>),
    /// The name of the dithering.
    Dither(String),
    /// Anything else, which is ignored.
    Other,
}

/// What the fields of an upload come to: the last image, and how to dither it.
pub open spec fn upload_of(fields: Seq<UploadField>) -> Result<
    (Option<Seq<u8>>, Dither),
    Seq<char>,
>
    decreases fields.len(),
{
    if fields.len() == 0 {
        Ok((None, Dither::FloydSteinberg))
    } else {
        match upload_of(fields.drop_last()) {
            Err(e) => Err(e),
            Ok((file, dither)) => match fields.last() {
                UploadField::File(bytes) => Ok((Some(bytes@), dither)),
                UploadField::Dither(name) => match dither_named(name@) {
                    Some(d) => Ok((file, d)),
                    None => Err(
                        "unknown dither `"@ + name@
                            + "` (expected floyd, atkinson, threshold or none)"@,
                    ),
                },
                UploadField::Other => Ok((file, dither)),
            },
        }
    }
}

/// Whether an answer is the one for an upload.
pub open spec fn is_upload_answer(
    upload: Result<(Option<Seq<u8>>, Dither), Seq<char>>,
    r: Result<Bitmap, ApiError>,
) -> bool {
    match upload {
        Err(why) => r matches Err(e) && e.status == 400 && e.message@ == why,
        Ok((file, dither)) => match file {
            None => r matches Err(e) && e.status == 400 && e.message@ == "missing `file` field"@,
            Some(bytes) => match decoded(bytes) {
                Err(why) => r matches Err(e) && e.status == 400 && e.message@
                    == "failed to decode image: "@ + why,
                Ok(picture) => if picture_size(picture).0 == 0 {
                    r matches Err(e) && e.status == 400 && e.message@ == "image has zero width"@
                } else {
                    r matches Ok(b) && is_picture_print(picture, dither, b@) && b@.len()
                        == prepared_height(picture_size(picture).0, picture_size(picture).1)
                },
            },
        },
    }
}

/// Turn an upload into a bitmap: a required `file` field and an optional
/// `dither` field, of which the last one counts.
pub fn image_upload(fields: Vec<UploadField>) -> (r: Result<Bitmap, ApiError>)
    ensures
        is_upload_answer(upload_of(fields@), r),
{
    let mut file: Option<usize> = None;
    let mut dither: Dither = Dither::FloydSteinberg;
    let mut i: usize = 0;
    let ghost all = fields@;
    assert(all.take(0) =~= Seq::empty());
    while i < fields.len()
        invariant
            all == fields@,
            i <= all.len(),
            upload_of(all.take(i as int)) matches Ok((f, d)) && d == dither && match file {
                Some(at) => at < i && all[at as int] is File && f == Some(
                    all[at as int]->File_0@,
                ),
                None => f is None,
            },
        decreases all.len() - i,
    {
        proof {
            assert(all.take(i + 1).drop_last() =~= all.take(i as int));
            assert(all.take(i + 1).last() == all[i as int]);
        }
        match &fields[i] {
            UploadField::File(_) => {
                file = Some(i);
            },
            UploadField::Dither(name) => match dither_from_str(name.as_str()) {
                Some(d) => {
                    dither = d;
                },
                None => {
                    let mut why: String = "unknown dither `".to_owned();
                    why.append(name.as_str());
                    why.append("` (expected floyd, atkinson, threshold or none)");
                    proof {
                        lemma_fault_stays(all, i as int + 1);
                    }
                    return Err(ApiError::bad_request(why));
                },
            },
            UploadField::Other => {},
        }
        i = i + 1;
    }
    assert(all.take(i as int) =~= all);
    let at: usize = match file {
        Some(at) => at,
        None => {
            return Err(ApiError::bad_request("missing `file` field".to_owned()));
        },
    };
    if let UploadField::File(bytes) = &fields[at] {
        return match bitmap_from_image_bytes(bytes.as_slice(), dither) {
            Ok(b) => Ok(b),
            Err(e) => Err(ApiError::bad_request(e.message())),
        };
    }
    Err(ApiError::bad_request("missing `file` field".to_owned()))
}

proof fn lemma_fault_stays(fields: Seq<UploadField>, n: int)
    requires
        0 <= n <= fields.len(),
        upload_of(fields.take(n)) is Err,
    ensures
        upload_of(fields) == upload_of(fields.take(n)),
    decreases fields.len() - n,
{
    if n < fields.len() {
        assert(fields.take(n + 1).drop_last() =~= fields.take(n));
        lemma_fault_stays(fields, n + 1);
    } else {
        assert(fields.take(n) =~= fields);
    }
}

/// One entry of a JSON object.
#[derive(Debug, Clone, Copy, PartialEq, Eq, Structural)]
pub enum StatusValue {
    Number(u16),
    Flag(bool),
}

/// The entries of the answer to a status request.
pub open spec fn status_entries(s: Status) -> Seq<(Seq<char>, StatusValue)> {
    seq![
        ("battery_pct"@, StatusValue::Number(s.battery_pct as u16)),
        ("no_paper"@, StatusValue::Flag(s.no_paper)),
        ("charging"@, StatusValue::Flag(s.charging)),
        ("charged"@, StatusValue::Flag(s.charged)),
        ("overheat"@, StatusValue::Flag(s.overheat)),
        ("low_battery"@, StatusValue::Flag(s.low_battery)),
    ] + match s.density {
        Some(d) => seq![("density"@, StatusValue::Number(d as u16))],
        None => Seq::empty(),
    } + match s.voltage_mv {
        Some(mv) => seq![("voltage_mv"@, StatusValue::Number(mv))],
        None => Seq::empty(),
    }
}

/// The text side of a list of entries.
pub open spec fn entry_texts(entries: Seq<(String, StatusValue)>) -> Seq<
    (Seq<char>, StatusValue),
> {
    Seq::new(entries.len(), |i: int| (entries[i].0@, entries[i].1))
}

/// The answer to a status request; density and voltage are left out where the
/// printer does not report them.
pub fn status_body(s: &Status) -> (entries: Vec<(String, StatusValue)>)
    ensures
        entry_texts(entries@) == status_entries(*s),
{
    let mut entries: Vec<(String, StatusValue)> = Vec::new();
    entries.push(("battery_pct".to_owned(), StatusValue::Number(s.battery_pct as u16)));
    entries.push(("no_paper".to_owned(), StatusValue::Flag(s.no_paper)));
    entries.push(("charging".to_owned(), StatusValue::Flag(s.charging)));
    entries.push(("charged".to_owned(), StatusValue::Flag(s.charged)));
    entries.push(("overheat".to_owned(), StatusValue::Flag(s.overheat)));
    entries.push(("low_battery".to_owned(), StatusValue::Flag(s.low_battery)));
    if let Some(d) = s.density {
        entries.push(("density".to_owned(), StatusValue::Number(d as u16)));
    }
    if let Some(mv) = s.voltage_mv {
        entries.push(("voltage_mv".to_owned(), StatusValue::Number(mv)));
    }
    assert(entry_texts(entries@) =~= status_entries(*s));
    entries
}

/// What the server says when it has started, given the address of its machine
/// on the LAN.
pub fn lan_line(ip: &str, port: u16) -> (text: String)
    ensures
        text@ == "On your LAN: http://"@ + ip@ + ":"@ + decimal_digits(port as nat),
{
    let mut text: String = "On your LAN: http://".to_owned();
    text.append(ip);
    text.append(":");
    text.append(decimal(port as u128).as_str());
    text
}

/// Options in their ranges are taken, all others are refused, with what was asked
/// for: a density from 1 to 7, a feed up to 65535 and 1 to 20 copies.
pub proof fn options_have_their_ranges(density: u64, feed: u64, copies: u64)
    ensures
        option_fault(Some(density), Some(feed), Some(copies)) is None <==> 1 <= density <= 7 && feed
            <= 65_535 && 1 <= copies <= 20,
        option_fault(None, None, None) is None,
        !(1 <= density <= 7) ==> option_fault(Some(density), Some(feed), Some(copies)) == Some(
            "density must be 1-7, got "@ + decimal_digits(density as nat),
        ),
{
}

/// The answer to a print says each number under its own name.
pub proof fn answers_name_their_numbers(outcome: PrintOutcome, copies: u16)
    requires
        outcome.lines <= u64::MAX,
    ensures
        ({
            let e = print_entries(outcome, copies);
            &&& e.len() == 7
            &&& e.contains(("printed_lines"@, outcome.lines as u64))
            &&& e.contains(("copies"@, copies as u64))
            &&& e.contains(("packets_sent"@, outcome.stats.packets_sent as u64))
            &&& e.contains(("retransmits"@, outcome.stats.retransmits as u64))
            &&& e.contains(("holds"@, outcome.stats.holds as u64))
            &&& e.contains(("cooldowns"@, outcome.stats.cooldowns as u64))
            &&& e.contains(("elapsed_ms"@, (outcome.elapsed / 1_000_000) as u64))
        }),
{
    let e = print_entries(outcome, copies);
    assert(e[0] == ("printed_lines"@, outcome.lines as u64));
    assert(e[1] == ("copies"@, copies as u64));
    assert(e[2] == ("packets_sent"@, outcome.stats.packets_sent as u64));
    assert(e[3] == ("retransmits"@, outcome.stats.retransmits as u64));
    assert(e[4] == ("holds"@, outcome.stats.holds as u64));
    assert(e[5] == ("cooldowns"@, outcome.stats.cooldowns as u64));
    assert(e[6] == ("elapsed_ms"@, (outcome.elapsed / 1_000_000) as u64));
}

/// Of the fields of an upload the last of its kind counts, in whatever order they
/// come; without one for the algorithm it is Floyd–Steinberg.
pub proof fn the_last_field_of_its_kind_counts(fields: Seq<UploadField>, next: UploadField)
    requires
        upload_of(fields) is Ok,
    ensures
        ({
            let before = upload_of(fields)->Ok_0;
            let after = upload_of(fields.push(next));
            match next {
                UploadField::File(bytes) => after == Ok::<(Option<Seq<u8>>, Dither), Seq<char>>(
                    (Some(bytes@), before.1),
                ),
                UploadField::Dither(name) => {
                    &&& name@ == "floyd"@ ==> after == Ok::<
                        (Option<Seq<u8>>, Dither),
                        Seq<char>,
                    >((before.0, Dither::FloydSteinberg))
                    &&& name@ == "atkinson"@ ==> after == Ok::<
                        (Option<Seq<u8>>, Dither),
                        Seq<char>,
                    >((before.0, Dither::Atkinson))
                    &&& name@ == "threshold"@ || name@ == "none"@ ==> after == Ok::<
                        (Option<Seq<u8>>, Dither),
                        Seq<char>,
                    >((before.0, Dither::Threshold))
                    &&& name@ != "floyd"@ && name@ != "atkinson"@ && name@ != "threshold"@ && name@
                        != "none"@ ==> after is Err
                },
                UploadField::Other => after == upload_of(fields),
            }
        }),
        upload_of(Seq::<UploadField>::empty()) == Ok::<(Option<Seq<u8>>, Dither), Seq<char>>(
            (None, Dither::FloydSteinberg),
        ),
{
    assert(fields.push(next).drop_last() =~= fields);
    reveal_strlit("floyd");
    reveal_strlit("atkinson");
    reveal_strlit("threshold");
    reveal_strlit("none");
    assert("floyd"@[0] == 'f' && "atkinson"@[0] == 'a' && "threshold"@[0] == 't' && "none"@[0]
        == 'n');
}

/// The answer about a printer says each part of its report under its own name.
pub proof fn reports_name_their_parts(s: Status)
    ensures
        ({
            let e = status_entries(s);
            &&& e.contains(("battery_pct"@, StatusValue::Number(s.battery_pct as u16)))
            &&& e.contains(("no_paper"@, StatusValue::Flag(s.no_paper)))
            &&& e.contains(("charging"@, StatusValue::Flag(s.charging)))
            &&& e.contains(("charged"@, StatusValue::Flag(s.charged)))
            &&& e.contains(("overheat"@, StatusValue::Flag(s.overheat)))
            &&& e.contains(("low_battery"@, StatusValue::Flag(s.low_battery)))
            &&& s.density matches Some(d) ==> e.contains(("density"@, StatusValue::Number(d as u16)))
            &&& s.voltage_mv matches Some(mv) ==> e.contains(("voltage_mv"@, StatusValue::Number(mv)))
            &&& e.len() == 6 + (if s.density is Some {
                1int
            } else {
                0
            }) + (if s.voltage_mv is Some {
                1int
            } else {
                0
            })
        }),
{
    let e = status_entries(s);
    assert(e[0] == ("battery_pct"@, StatusValue::Number(s.battery_pct as u16)));
    assert(e[1] == ("no_paper"@, StatusValue::Flag(s.no_paper)));
    assert(e[2] == ("charging"@, StatusValue::Flag(s.charging)));
    assert(e[3] == ("charged"@, StatusValue::Flag(s.charged)));
    assert(e[4] == ("overheat"@, StatusValue::Flag(s.overheat)));
    assert(e[5] == ("low_battery"@, StatusValue::Flag(s.low_battery)));
    if let Some(d) = s.density {
        assert(e[6] == ("density"@, StatusValue::Number(d as u16)));
    }
    if let Some(mv) = s.voltage_mv {
        assert(e[e.len() - 1] == ("voltage_mv"@, StatusValue::Number(mv)));
    }
}

} // verus!
