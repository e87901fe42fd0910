//! The print job bridge of the web page: a page asks for the next action,
//! performs it (GATT write, sleep, or wait), and feeds raw notification bytes
//! back in.

use crate::protocol::job::{Action, PrintJob};
use crate::protocol::notifications;
use crate::protocol_x6::job::X6PrintJob;
use crate::protocol_x6::notifications as x6_notifications;
use crate::raster::bitmap::Bitmap;
use crate::raster::dither::Dither;
use crate::raster::faces::Faces;
use crate::raster::markdown::render;
use crate::raster::picture::bitmap_from_image_bytes;
use crate::raster::preview::bitmap_to_png;
use crate::raster::qr;
use crate::raster::text;
use crate::server::MAX_TEXT_SIZE;
use crate::strings::{decimal, same_text};
use vstd::prelude::*;
#[allow(unused_imports)]
use crate::cli::arg_text;
#[allow(unused_imports)]
use crate::content::is_markdown_print;
#[allow(unused_imports)]
use crate::protocol::job::{fresh_job, JobError, JobModel, Step};
#[allow(unused_imports)]
use crate::protocol::notifications::{is_known_frame, says, Notification};
#[allow(unused_imports)]
use crate::protocol_x6::job::{fresh_x6_job, X6Model};
#[allow(unused_imports)]
use crate::protocol_x6::notifications::event_of;
#[allow(unused_imports)]
use crate::protocol_x6::packets::setup_frames;
#[allow(unused_imports)]
use crate::raster::bitmap::{blank_rows, payloads_of};
#[allow(unused_imports)]
use crate::raster::dither::prepared_height;
#[allow(unused_imports)]
use crate::raster::picture::{decoded, is_picture_print, picture_size};
#[allow(unused_imports)]
use crate::raster::preview::{png_bytes, preview_height, preview_shades};
#[allow(unused_imports)]
use crate::raster::markdown::render::dests;
#[allow(unused_imports)]
use crate::raster::qr::{is_captioned, qr_modules};
#[allow(unused_imports)]
use crate::raster::rich::rows_of;
#[allow(unused_imports)]
use crate::raster::text::text_lines;
#[allow(unused_imports)]
use crate::raster::typeset::shows;
#[allow(unused_imports)]
use crate::strings::decimal_digits;

verus! {

/// Pause between raster packet sends; the value used by the CLI for real
/// hardware.
pub const INTER_PACKET_DELAY_MS: u64 = 15;

/// A rendered 1-bit bitmap, 384 px wide.
#[derive(Debug)]
pub struct WasmBitmap {
    pub inner: Bitmap,
}

impl WasmBitmap {
    pub fn new(inner: Bitmap) -> (b: Self)
        ensures
            b.inner == inner,
    {
        WasmBitmap { inner }
    }

    /// Height in rows (pixels).
    pub fn height(&self) -> (h: usize)
        ensures
            h == self.inner@.len(),
    {
        self.inner.height()
    }

    /// Encode as a PNG for preview.
    pub fn to_png(&self) -> (png: Vec<u8>)
        requires
            self.inner@.len() <= u32::MAX,
        ensures
            png@ == png_bytes(
                384,
                preview_height(&self.inner) as u32,
                preview_shades(&self.inner),
            ),
    {
        bitmap_to_png(&self.inner)
    }

    /// Append `rows` blank rows (paper feed).
    pub fn extend_blank(&mut self, rows: usize)
        requires
            old(self).inner@.len() + rows <= usize::MAX,
        ensures
            final(self).inner@ == old(self).inner@ + blank_rows(rows as nat),
    {
        self.inner.extend_blank(rows);
        assert(self.inner@ =~= old(self).inner@ + blank_rows(rows as nat));
    }
}

/// Render plain text at a size in 64ths of a pixel, up to 128 px.
pub fn render_text(text: &str, size: u32, faces: &Faces) -> (r: Result<WasmBitmap, String>)
    ensures
        match r {
            Ok(b) => 0 < size <= MAX_TEXT_SIZE && shows(
                &b.inner,
                faces,
                rows_of(faces, text_lines(text@, size)),
            ),
            Err(e) => (size == 0 || size > MAX_TEXT_SIZE) && e@
                == "size must be greater than 0 and at most 128"@,
        },
{
    if size == 0 || size > MAX_TEXT_SIZE {
        return Err("size must be greater than 0 and at most 128".to_owned());
    }
    Ok(WasmBitmap::new(text::render_text(text, size, faces)))
}

/// Render Markdown.
pub fn render_markdown(md: &str, faces: &Faces) -> (b: WasmBitmap)
    ensures
        is_markdown_print(&b.inner, md@, Seq::empty(), faces),
{
    let inner: Bitmap = render::render_markdown(md, faces);
    assert(dests(Seq::empty()) =~= Seq::empty());
    WasmBitmap::new(inner)
}

/// Render `data` as a QR code, optionally with a text caption below.
/// Errors if the payload does not fit in any QR version.
pub fn render_qr(data: &str, caption: Option<&str>, faces: &Faces) -> (r: Result<
    WasmBitmap,
    String,
>)
    ensures
        match r {
            Ok(b) => qr_modules(data@) matches Some(code) && is_captioned(
                b.inner@,
                code.0 as int,
                code.1,
                arg_text(caption),
                faces,
            ),
            Err(e) => qr_modules(data@) is None && e@ == "data too long to fit in a QR code"@,
        },
{
    match qr::render_qr(data, caption, faces) {
        Ok(b) => Ok(WasmBitmap::new(b)),
        Err(e) => Err(e.message()),
    }
}

/// The algorithm that a name stands for on the page.
pub open spec fn page_dither(name: Seq<char>) -> Option<Dither> {
    if name == "floyd"@ {
        Some(Dither::FloydSteinberg)
    } else if name == "atkinson"@ {
        Some(Dither::Atkinson)
    } else if name == "threshold"@ {
        Some(Dither::Threshold)
    } else {
        None
    }
}

/// Whether an answer is the one for an image.
pub open spec fn is_image_answer(
    bytes: Seq<u8>,
    name: Seq<char>,
    r: Result<WasmBitmap, String>,
) -> bool {
    match page_dither(name) {
        None => r matches Err(e) && e@ == "unknown dither `"@ + name
            + "` (expected floyd, atkinson or threshold)"@,
        Some(dither) => match decoded(bytes) {
            Err(why) => r matches Err(e) && e@ == "failed to decode image: "@ + why,
            Ok(picture) => if picture_size(picture).0 == 0 {
                r matches Err(e) && e@ == "image has zero width"@
            } else {
                r matches Ok(b) && is_picture_print(picture, dither, b.inner@)
                    && b.inner@.len() == prepared_height(picture_size(picture).0, picture_size(picture).1)
            },
        },
    }
}

/// Decode `bytes` (PNG/JPEG), scale to the 384 px print width and dither.
/// `dither` is one of `"floyd"`, `"atkinson"`, `"threshold"`.
pub fn render_image(bytes: &[u8], dither: &str) -> (r: Result<WasmBitmap, String>)
    ensures
        is_image_answer(bytes@, dither@, r),
{
    let how: Dither = if same_text(dither, "floyd") {
        Dither::FloydSteinberg
    } else if same_text(dither, "atkinson") {
        Dither::Atkinson
    } else if same_text(dither, "threshold") {
        Dither::Threshold
    } else {
        let mut e: String = "unknown dither `".to_owned();
        e.append(dither);
        e.append("` (expected floyd, atkinson or threshold)");
        return Err(e);
    };
    match bitmap_from_image_bytes(bytes, how) {
        Ok(b) => Ok(WasmBitmap::new(b)),
        Err(e) => Err(e.message()),
    }
}

/// One step of the print job for the page.
#[derive(Debug, PartialEq)]
pub enum ActionMsg {
    Send { bytes: Vec<u8> },
    WaitMs { ms: u64 },
    WaitNotification,
    Done,
}

impl View for ActionMsg {
    type V = Step;

    open spec fn view(&self) -> Step {
        match *self {
            ActionMsg::Send { bytes } => Step::Send(bytes@),
            ActionMsg::WaitMs { ms } => Step::WaitMs(ms),
            ActionMsg::WaitNotification => Step::WaitNotification,
            ActionMsg::Done => Step::Done,
        }
    }
}

impl From<Action> for ActionMsg {
    fn from(action: Action) -> (msg: Self) {
        match action {
            Action::Send(bytes) => ActionMsg::Send { bytes },
            Action::WaitMs(ms) => ActionMsg::WaitMs { ms },
            Action::WaitNotification => ActionMsg::WaitNotification,
            Action::Done => ActionMsg::Done,
        }
    }
}

impl vstd::std_specs::convert::FromSpecImpl<Action> for ActionMsg {
    open spec fn obeys_from_spec() -> bool {
        true
    }

    open spec fn from_spec(action: Action) -> ActionMsg {
        match action {
            Action::Send(bytes) => ActionMsg::Send { bytes },
            Action::WaitMs(ms) => ActionMsg::WaitMs { ms },
            Action::WaitNotification => ActionMsg::WaitNotification,
            Action::Done => ActionMsg::Done,
        }
    }
}

fn density_fault(density: u8) -> (e: String)
    ensures
        e@ == "density must be 1-7, got "@ + decimal_digits(density as nat),
{
    let mut e: String = "density must be 1-7, got ".to_owned();
    e.append(decimal(density as u128).as_str());
    e
}

/// Why a job for an LX-D02 cannot be started, if it cannot.
pub open spec fn job_fault(rows: nat, density: u8, challenge: nat) -> Option<Seq<char>> {
    if !(1 <= density <= 7) {
        Some("density must be 1-7, got "@ + decimal_digits(density as nat))
    } else if challenge != 10 {
        Some("challenge must be exactly 10 bytes, got "@ + decimal_digits(challenge))
    } else if rows == 0 {
        Some("nothing to print: bitmap is empty"@)
    } else if rows > 131_070 {
        Some((JobError::TooLarge { packets: ((rows + 1) / 2) as usize }).wording())
    } else {
        None
    }
}

/// One print job driven from a page. Create per copy, with a fresh random
/// challenge each time.
#[derive(Debug)]
pub struct WasmJob {
    pub inner: PrintJob,
}

impl WasmJob {
    /// Start a job for `bitmap` at `density` (1-7).
    ///
    /// `challenge` must be exactly 10 bytes of caller-supplied randomness, used
    /// for the 5A 0A auth exchange. An empty bitmap would run the whole
    /// hello/auth/start/finish dance just to feed no paper; it is rejected up
    /// front instead.
    pub fn new(bitmap: &WasmBitmap, density: u8, challenge: &[u8]) -> (r: Result<WasmJob, String>)
        ensures
            match job_fault(bitmap.inner@.len(), density, challenge@.len()) {
                Some(why) => r matches Err(e) && e@ == why,
                None => r matches Ok(job) && job.inner@ == fresh_job(
                    payloads_of(bitmap.inner@),
                    density,
                    challenge@,
                    INTER_PACKET_DELAY_MS,
                ),
            },
    {
        if !(density >= 1 && density <= 7) {
            return Err(density_fault(density));
        }
        if challenge.len() != 10 {
            let mut e: String = "challenge must be exactly 10 bytes, got ".to_owned();
            e.append(decimal(challenge.len() as u128).as_str());
            return Err(e);
        }
        if bitmap.height() == 0 {
            return Err("nothing to print: bitmap is empty".to_owned());
        }
        let bytes: [u8; 10] = [
            challenge[0],
            challenge[1],
            challenge[2],
            challenge[3],
            challenge[4],
            challenge[5],
            challenge[6],
            challenge[7],
            challenge[8],
            challenge[9],
        ];
        assert(bytes@ =~= challenge@);
        match PrintJob::new(&bitmap.inner, density, bytes, INTER_PACKET_DELAY_MS) {
            Ok(inner) => Ok(WasmJob { inner }),
            Err(e) => Err(e.message()),
        }
    }

    /// Next step for the page.
    pub fn next_action_inner(&mut self) -> (msg: ActionMsg)
        ensures
            msg@ == old(self).inner@.action(),
            final(self).inner@ == old(self).inner@.after_action(),
    {
        let action: Action = self.inner.next_action();
        ActionMsg::from(action)
    }

    /// Feed raw notification bytes from characteristic 0xFFE2.
    /// Unparseable frames are ignored, mirroring the CLI's BLE layer.
    pub fn on_notification(&mut self, data: &[u8])
        ensures
            is_known_frame(data@) ==> exists|n: Notification| #[trigger]
                says(data@, n) && final(self).inner@ == old(self).inner@.after_notification(n),
            !is_known_frame(data@) ==> final(self).inner@ == old(self).inner@,
    {
        if let Some(n) = notifications::parse(data) {
            assert(says(data@, n));
            self.inner.on_notification(n);
        }
    }

    /// The fatal error message, if the job failed. Check after `Done`.
    pub fn error(&self) -> (e: Option<String>)
        ensures
            match self.inner@.error {
                Some(why) => e matches Some(text) && text@ == why.wording(),
                None => e is None,
            },
    {
        match self.inner.error() {
            Some(e) => Some(e.message()),
            None => None,
        }
    }
}

/// Why a job for an X6 cannot be started, if it cannot.
pub open spec fn x6_job_fault(rows: nat, density: u8) -> Option<Seq<char>> {
    if !(1 <= density <= 7) {
        Some("density must be 1-7, got "@ + decimal_digits(density as nat))
    } else if rows == 0 {
        Some("nothing to print: bitmap is empty"@)
    } else {
        None
    }
}

/// One X6 print job driven from a page. Create per copy.
#[derive(Debug)]
pub struct WasmX6Job {
    pub inner: X6PrintJob,
}

impl WasmX6Job {
    /// Start a job that sets the feed speed and printhead energy from
    /// `density` (1-7, same knob as the LX-D02's), prints `bitmap`, then
    /// feeds `feed_px` rows of blank paper via the 0xA1 feed command
    /// (0 skips the feed).
    pub fn new(bitmap: &WasmBitmap, density: u8, feed_px: u16) -> (r: Result<WasmX6Job, String>)
        ensures
            match x6_job_fault(bitmap.inner@.len(), density) {
                Some(why) => r matches Err(e) && e@ == why,
                None => r matches Ok(job) && job.inner@ == fresh_x6_job(
                    setup_frames(density),
                    bitmap.inner@,
                    feed_px,
                    INTER_PACKET_DELAY_MS,
                ),
            },
    {
        if !(density >= 1 && density <= 7) {
            return Err(density_fault(density));
        }
        if bitmap.height() == 0 {
            return Err("nothing to print: bitmap is empty".to_owned());
        }
        Ok(
            WasmX6Job {
                inner: X6PrintJob::with_density(
                    &bitmap.inner,
                    density,
                    feed_px,
                    INTER_PACKET_DELAY_MS,
                ),
            },
        )
    }

    /// Next step for the page.
    pub fn next_action_inner(&mut self) -> (msg: ActionMsg)
        ensures
            msg@ == old(self).inner@.action(),
            final(self).inner@ == old(self).inner@.after_action(),
    {
        let action: Action = self.inner.next_action();
        ActionMsg::from(action)
    }

    /// Feed raw notification bytes from characteristic 0xAE02.
    /// Unparseable frames are ignored, mirroring the CLI's BLE layer.
    pub fn on_notification(&mut self, data: &[u8])
        ensures
            final(self).inner@ == match event_of(data@) {
                Some(n) => old(self).inner@.after_notification(n),
                None => old(self).inner@,
            },
    {
        if let Some(n) = x6_notifications::parse(data) {
            self.inner.on_notification(n);
        }
    }

    /// Always `None`: the X6 job has no fatal-error path (no auth to fail).
    /// Present so the page's shared job teardown can call it on either
    /// wrapper.
    pub fn error(&self) -> (e: Option<String>)
        ensures
            e is None,
    {
        None
    }
}

/// A job for an LX-D02 starts exactly if the density is from 1 to 7, the challenge
/// has ten bytes, and there are rows to print, but no more than 131070.
pub proof fn jobs_start_when_they_can(rows: nat, density: u8, challenge: nat)
    ensures
        job_fault(rows, density, challenge) is None <==> 1 <= density <= 7 && challenge == 10 && 0
            < rows <= 131_070,
        x6_job_fault(rows, density) is None <==> 1 <= density <= 7 && 0 < rows,
{
}

/// Each name for an algorithm stands for it, and no other name for any.
pub proof fn page_names_stand_for_their_algorithms(name: Seq<char>)
    ensures
        page_dither("floyd"@) == Some(Dither::FloydSteinberg),
        page_dither("atkinson"@) == Some(Dither::Atkinson),
        page_dither("threshold"@) == Some(Dither::Threshold),
        name != "floyd"@ && name != "atkinson"@ && name != "threshold"@ ==> page_dither(name)
            is None,
{
    reveal_strlit("floyd");
    reveal_strlit("atkinson");
    reveal_strlit("threshold");
    assert("floyd"@[0] == 'f' && "atkinson"@[0] == 'a' && "threshold"@[0] == 't');
}

} // verus!
