//! The AirPrint hook: what is made of a spooled job, and what the print queue
//! is told.
//!
//! The queue reads stderr as a control channel: lines prefixed `INFO:`,
//! `ERROR:`, `STATE:` and `ATTR:` are parsed and surfaced in the client's print
//! queue.

use crate::fixed_point::short_secs;
use crate::raster::bitmap::Bitmap;
use crate::raster::dither::Dither;
use crate::raster::urf::{decode_urf, pages_to_bitmap, UrfPage};
use crate::service::{Failure, PrintOutcome};
use crate::strings::{decimal, same_text};
use crate::transport::log::Setback;
use std::io::Read as _;
use vstd::prelude::*;
#[allow(unused_imports)]
use crate::cli::{arg_text, texts};
#[allow(unused_imports)]
use crate::fixed_point::short_secs_text;
#[allow(unused_imports)]
use crate::raster::urf::{
    fitted_pages, is_print_of, page_models, print_height, urf_document, PageModel,
};
#[allow(unused_imports)]
use crate::strings::decimal_digits;

verus! {

/// Cap on the job we will buffer. The decoder bounds each page, but the raw
/// stream is attacker-influenced (any LAN host can queue a job), so bound it
/// before it reaches memory rather than after.
pub const MAX_JOB_BYTES: u64 = 0x400_0000;

/// Whether a job may be decoded: it is neither empty nor over the cap.
pub open spec fn job_fault(len: nat) -> Option<Seq<char>> {
    if len > MAX_JOB_BYTES {
        Some("job larger than 64 MiB"@)
    } else if len == 0 {
        Some("empty job (no document on stdin)"@)
    } else {
        None
    }
}

/// Refuse a job that is empty or over the cap. The caller reads at most one
/// byte past the cap.
pub fn check_job(bytes: Vec<u8>) -> (r: Result<Vec<u8>, String>)
    ensures
        match job_fault(bytes@.len()) {
            None => r == Ok::<Vec<u8>, String>(bytes),
            Some(why) => r matches Err(e) && e@ == why,
        },
{
    if bytes.len() as u64 > MAX_JOB_BYTES {
        return Err("job larger than 64 MiB".to_owned());
    }
    if bytes.len() == 0 {
        return Err("empty job (no document on stdin)".to_owned());
    }
    Ok(bytes)
}

/// Whether bytes begin like a gzip member (RFC 1952).
pub open spec fn is_gzip(bytes: Seq<u8>) -> bool {
    bytes.len() >= 2 && bytes[0] == 0x1f && bytes[1] == 0x8b
}

/// Whether bytes begin like a gzip member.
pub fn begins_gzip(bytes: &[u8]) -> (gzip: bool)
    ensures
        gzip == is_gzip(bytes@),
{
    bytes.len() >= 2 && bytes[0] == 0x1f && bytes[1] == 0x8b
}

/// What a gzip member holds, up to `limit` bytes of it, or why it cannot be
/// inflated.
pub uninterp spec fn gunzipped(bytes: Seq<u8>, limit: u64) -> Result<Seq<u8>, Seq<char>>;

/// `flate2::read::GzDecoder`, read to its end or to `limit` bytes, whichever
/// comes first. What comes out depends on the bytes and the limit alone, and is
/// never longer than the limit.
#[verifier::external_body]
fn gunzip(bytes: &[u8], limit: u64) -> (r: Result<Vec<u8>, String>)
    ensures
        match r {
            Ok(out) => gunzipped(bytes@, limit) == Ok::<Seq<u8>, Seq<char>>(out@) && out@.len()
                <= limit,
            Err(e) => gunzipped(bytes@, limit) == Err::<Seq<u8>, Seq<char>>(e@),
        },
{
    let mut out: Vec<u8> = Vec::new();
    match flate2::read::GzDecoder::new(bytes).take(limit).read_to_end(&mut out) {
        Ok(_) => Ok(out),
        Err(e) => Err(e.to_string()),
    }
}

/// What is made of an inflated job, or of the failure to inflate it.
pub open spec fn inflated_job(inflated: Result<Seq<u8>, Seq<char>>) -> Result<Seq<u8>, Seq<char>> {
    match inflated {
        Err(e) => Err("cannot inflate the compressed job: "@ + e),
        Ok(out) => if out.len() > MAX_JOB_BYTES {
            Err("job inflates to more than 64 MiB"@)
        } else {
            Ok(out)
        },
    }
}

/// The text side of a result.
pub open spec fn plain(r: Result<Vec<u8>, String>) -> Result<Seq<u8>, Seq<char>> {
    match r {
        Ok(bytes) => Ok(bytes@),
        Err(e) => Err(e@),
    }
}

/// Accept an inflated job if it is within the cap: gzip expands, so the
/// inflated size is capped too rather than trusting the ratio.
pub fn accept_inflated(inflated: Result<Vec<u8>, String>) -> (r: Result<Vec<u8>, String>)
    ensures
        plain(r) == inflated_job(plain(inflated)),
{
    match inflated {
        Err(e) => {
            let mut why: String = "cannot inflate the compressed job: ".to_owned();
            why.append(e.as_str());
            Err(why)
        },
        Ok(out) => {
            if out.len() as u64 > MAX_JOB_BYTES {
                Err("job inflates to more than 64 MiB".to_owned())
            } else {
                Ok(out)
            }
        },
    }
}

/// The document in a job, compressed or not.
pub open spec fn document_of(bytes: Seq<u8>) -> Result<Seq<u8>, Seq<char>> {
    if is_gzip(bytes) {
        inflated_job(gunzipped(bytes, (MAX_JOB_BYTES + 1) as u64))
    } else {
        Ok(bytes)
    }
}

/// Inflate a job the client chose to compress.
///
/// IPP lets a client compress the document, and iOS does: it sends Apple Raster
/// as gzip. Detected by magic rather than by what the client declares, so a
/// client that compresses without saying so still prints, and one that says so
/// without compressing does not get mangled.
pub fn maybe_inflate(bytes: Vec<u8>) -> (r: Result<Vec<u8>, String>)
    ensures
        plain(r) == document_of(bytes@),
        !is_gzip(bytes@) ==> r == Ok::<Vec<u8>, String>(bytes),
{
    if !begins_gzip(bytes.as_slice()) {
        return Ok(bytes);
    }
    accept_inflated(gunzip(bytes.as_slice(), MAX_JOB_BYTES + 1))
}

/// What is said of a declared document type, if anything is.
pub open spec fn type_remark(declared: Option<Seq<char>>) -> Option<Seq<char>> {
    match declared {
        Some(t) => if t == "image/urf"@ || t == "application/octet-stream"@ {
            None
        } else {
            Some(
                "INFO: document declared "@ + t
                    + "; trying to decode it as Apple Raster anyway"@,
            )
        },
        None => None,
    }
}

/// The declared document type is advisory: only the decoder's magic check is
/// the real gate, so a mislabelled-but-valid job still prints.
pub fn check_content_type(declared: Option<&str>) -> (remark: Option<String>)
    ensures
        crate::config::word_text(remark) == type_remark(arg_text(declared)),
{
    match declared {
        Some(t) => {
            if same_text(t, "image/urf") || same_text(t, "application/octet-stream") {
                return None;
            }
            let mut text: String = "INFO: document declared ".to_owned();
            text.append(t);
            text.append("; trying to decode it as Apple Raster anyway");
            Some(text)
        },
        None => None,
    }
}

/// What comes of a job.
#[derive(Debug)]
pub enum JobPlan {
    /// The job cannot be printed.
    Refuse(String),
    /// There is nothing on the pages.
    Nothing,
    /// This is to be printed; it stands for so many pages.
    Print { bitmap: Bitmap, pages: usize },
}

/// The first lines for a job that inflates.
pub open spec fn inflated_lines(raw: Seq<u8>, document: Seq<u8>) -> Seq<Seq<char>> {
    if is_gzip(raw) {
        seq![
            "INFO: inflated a gzipped job to "@ + decimal_digits(document.len()) + " bytes"@,
        ]
    } else {
        Seq::empty()
    }
}

/// The lines for a job with pages on it.
pub open spec fn page_lines(pages: Seq<PageModel>) -> Seq<Seq<char>> {
    seq![
        "ATTR: job-impressions="@ + decimal_digits(pages.len()),
        "INFO: decoded "@ + decimal_digits(pages.len()) + " page(s), "@ + decimal_digits(
            pages[0].width as nat,
        ) + "x"@ + decimal_digits(pages[0].height as nat) + " at "@ + decimal_digits(
            pages[0].dpi as nat,
        ) + " dpi"@,
    ]
}

/// Whether `bitmap` is a print of the pages.
pub open spec fn is_job_print(
    document: Seq<PageModel>,
    dither: Dither,
    bitmap: Seq<Seq<u8>>,
) -> bool {
    &&& is_print_of(fitted_pages(document), dither, bitmap)
    &&& bitmap.len() == print_height(fitted_pages(document))
}

/// Whether lines and a plan are those for a job of the given bytes.
pub open spec fn is_job_plan(
    raw: Seq<u8>,
    dither: Dither,
    lines: Seq<Seq<char>>,
    plan: JobPlan,
) -> bool {
    match document_of(raw) {
        Err(why) => lines.len() == 0 && (plan matches JobPlan::Refuse(e) && e@ == why),
        Ok(document) => match urf_document(document) {
            Err(fault) => lines == inflated_lines(raw, document) && (plan matches JobPlan::Refuse(
                e,
            ) && e@ == "cannot decode the job as Apple Raster (URF): "@ + fault.wording()),
            Ok(pages) => if pages.len() == 0 {
                lines == inflated_lines(raw, document).push(
                    "INFO: job contained no pages; nothing to print"@,
                ) && plan is Nothing
            } else {
                let head = inflated_lines(raw, document) + page_lines(pages);
                match plan {
                    JobPlan::Refuse(_) => false,
                    JobPlan::Nothing => is_job_print(pages, dither, Seq::empty()) && lines
                        == head.push("INFO: every page was blank; nothing to print"@),
                    JobPlan::Print { bitmap, pages: n } => is_job_print(pages, dither, bitmap@)
                        && bitmap@.len() > 0 && n == pages.len() && lines == head,
                }
            },
        },
    }
}

/// Turn a job into what is to be printed, with the lines for the print queue.
pub fn plan_job(raw: Vec<u8>, dither: Dither) -> (r: (Vec<String>, JobPlan))
    ensures
        is_job_plan(raw@, dither, texts(r.0@), r.1),
{
    let mut lines: Vec<String> = Vec::new();
    let compressed: bool = begins_gzip(raw.as_slice());
    let ghost input = raw@;
    let document: Vec<u8> = match maybe_inflate(raw) {
        Ok(d) => d,
        Err(why) => {
            return (lines, JobPlan::Refuse(why));
        },
    };
    if compressed {
        let mut said: String = "INFO: inflated a gzipped job to ".to_owned();
        said.append(decimal(document.len() as u128).as_str());
        said.append(" bytes");
        lines.push(said);
    }
    assert(texts(lines@) =~= inflated_lines(input, document@));
    let pages: Vec<UrfPage> = match decode_urf(document.as_slice()) {
        Ok(p) => p,
        Err(fault) => {
            let mut why: String = "cannot decode the job as Apple Raster (URF): ".to_owned();
            why.append(fault.message().as_str());
            return (lines, JobPlan::Refuse(why));
        },
    };
    let ghost models = urf_document(document@)->Ok_0;
    assert(page_models(pages@) =~= models);
    if pages.len() == 0 {
        lines.push("INFO: job contained no pages; nothing to print".to_owned());
        assert(texts(lines@) =~= inflated_lines(input, document@).push(
            "INFO: job contained no pages; nothing to print"@,
        ));
        return (lines, JobPlan::Nothing);
    }
    let mut impressions: String = "ATTR: job-impressions=".to_owned();
    impressions.append(decimal(pages.len() as u128).as_str());
    lines.push(impressions);
    assert(pages@[0]@ == models[0]);
    let mut said: String = "INFO: decoded ".to_owned();
    said.append(decimal(pages.len() as u128).as_str());
    said.append(" page(s), ");
    said.append(decimal(pages[0].width as u128).as_str());
    said.append("x");
    said.append(decimal(pages[0].height as u128).as_str());
    said.append(" at ");
    said.append(decimal(pages[0].dpi as u128).as_str());
    said.append(" dpi");
    lines.push(said);
    let ghost head = inflated_lines(input, document@) + page_lines(models);
    assert(texts(lines@) =~= head);
    let bitmap: Bitmap = pages_to_bitmap(pages.as_slice(), dither);
    assert(is_job_print(models, dither, bitmap@));
    if bitmap.height() == 0 {
        lines.push("INFO: every page was blank; nothing to print".to_owned());
        assert(bitmap@ =~= Seq::empty());
        assert(texts(lines@) =~= head.push("INFO: every page was blank; nothing to print"@));
        return (lines, JobPlan::Nothing);
    }
    let n: usize = pages.len();
    (lines, JobPlan::Print { bitmap, pages: n })
}

/// What is said before a job is printed.
pub fn printing_line(lines: usize) -> (text: String)
    ensures
        text@ == "INFO: printing "@ + decimal_digits(lines as nat) + " lines"@,
{
    let mut text: String = "INFO: printing ".to_owned();
    text.append(decimal(lines as u128).as_str());
    text.append(" lines");
    text
}

/// What is said of a job that went to a preview file instead.
pub fn preview_line(path: &str, lines: usize) -> (text: String)
    ensures
        text@ == "INFO: preview written to "@ + path@ + " ("@ + decimal_digits(lines as nat)
            + " lines)"@,
{
    let mut text: String = "INFO: preview written to ".to_owned();
    text.append(path);
    text.append(" (");
    text.append(decimal(lines as u128).as_str());
    text.append(" lines)");
    text
}

/// What is said of a job that was printed.
pub open spec fn printed_text(pages: nat, outcome: PrintOutcome) -> Seq<Seq<char>> {
    seq![
        "STATE: -media-empty,offline-report"@,
        "ATTR: job-impressions-completed="@ + decimal_digits(pages),
        "INFO: printed "@ + decimal_digits(outcome.lines as nat) + " lines in "@
            + short_secs_text(outcome.elapsed as nat) + " ("@ + decimal_digits(
            outcome.stats.holds as nat,
        ) + " holds, "@ + decimal_digits(outcome.stats.cooldowns as nat) + " cooldowns, "@
            + decimal_digits(outcome.stats.retransmits as nat) + " resends)"@,
    ]
}

/// What is said of a job that was printed. Any state that an earlier job left
/// is cleared, so a queue does not stay stuck showing "out of paper" after a
/// good print; the counters explain a slow job.
pub fn success_lines(pages: usize, outcome: &PrintOutcome) -> (lines: Vec<String>)
    ensures
        texts(lines@) == printed_text(pages as nat, *outcome),
{
    let mut lines: Vec<String> = Vec::new();
    lines.push("STATE: -media-empty,offline-report".to_owned());
    let mut done: String = "ATTR: job-impressions-completed=".to_owned();
    done.append(decimal(pages as u128).as_str());
    lines.push(done);
    let mut said: String = "INFO: printed ".to_owned();
    said.append(decimal(outcome.lines as u128).as_str());
    said.append(" lines in ");
    said.append(short_secs(outcome.elapsed).as_str());
    said.append(" (");
    said.append(decimal(outcome.stats.holds as u128).as_str());
    said.append(" holds, ");
    said.append(decimal(outcome.stats.cooldowns as u128).as_str());
    said.append(" cooldowns, ");
    said.append(decimal(outcome.stats.retransmits as u128).as_str());
    said.append(" resends)");
    lines.push(said);
    assert(texts(lines@) =~= printed_text(pages as nat, *outcome));
    lines
}

/// What is said of a job that was not printed: the state keyword that the queue
/// knows how to display, where there is one, and the error.
pub open spec fn failed_text(e: Failure) -> Seq<Seq<char>> {
    if e.is_paper() {
        seq!["STATE: media-empty"@]
    } else {
        match e {
            Failure::NoPrinter(_) | Failure::NotResponding(_) => seq!["STATE: offline-report"@],
            _ => Seq::empty(),
        }
    }.push("ERROR: "@ + e.wording())
}

/// What is said of a job that was not printed.
pub fn failure_lines(e: &Failure) -> (lines: Vec<String>)
    ensures
        texts(lines@) == failed_text(*e),
{
    let mut lines: Vec<String> = Vec::new();
    match e {
        Failure::NoPaper(_) | Failure::Print(_, Setback::NoPaper(_)) => {
            lines.push("STATE: media-empty".to_owned());
        },
        Failure::NoPrinter(_) | Failure::NotResponding(_) => {
            lines.push("STATE: offline-report".to_owned());
        },
        _ => {},
    }
    let mut error: String = "ERROR: ".to_owned();
    error.append(e.message().as_str());
    lines.push(error);
    assert(texts(lines@) =~= failed_text(*e));
    lines
}

/// A job that is not compressed comes through untouched.
pub proof fn plain_jobs_pass_through(bytes: Seq<u8>)
    requires
        !is_gzip(bytes),
    ensures
        document_of(bytes) == Ok::<Seq<u8>, Seq<char>>(bytes),
{
}

/// A compressed job is taken for the document inside it, wherever that fits.
pub proof fn compressed_jobs_print_like_plain_ones(bytes: Seq<u8>, document: Seq<u8>)
    requires
        is_gzip(bytes),
        gunzipped(bytes, (MAX_JOB_BYTES + 1) as u64) == Ok::<Seq<u8>, Seq<char>>(document),
        document.len() <= MAX_JOB_BYTES,
        !is_gzip(document),
    ensures
        document_of(bytes) == document_of(document),
{
}

/// A job may have up to 64 MiB, compressed or not, and must not be empty.
pub proof fn jobs_have_their_bounds(len: nat, document: Seq<u8>)
    ensures
        (job_fault(len) is None) == (1 <= len <= 67_108_864),
        (inflated_job(Ok(document)) is Ok) == (document.len() <= 67_108_864),
        inflated_job(Ok(document)) is Ok ==> inflated_job(Ok(document))->Ok_0 == document,
{
}

/// The queue is told last what went wrong, in the words of the failure, and before
/// that only that the paper is out or that the printer cannot be reached.
pub proof fn the_queue_is_told_what_went_wrong(e: Failure)
    ensures
        ({
            let lines = failed_text(e);
            let paper = e is NoPaper || (e matches Failure::Print(_, cause) && cause@ is NoPaper);
            let away = e is NoPrinter || e is NotResponding;
            &&& lines.last() == "ERROR: "@ + e.wording()
            &&& paper ==> lines.len() == 2 && lines[0] == "STATE: media-empty"@
            &&& away ==> lines.len() == 2 && lines[0] == "STATE: offline-report"@
            &&& !paper && !away ==> lines.len() == 1
        }),
{
}

/// The queue is told of a compressed job's size before anything else, then of its
/// pages; a refused job has no bitmap, and a printed one stands for all its pages.
pub proof fn plans_follow_the_document(
    raw: Seq<u8>,
    dither: Dither,
    lines: Seq<Seq<char>>,
    plan: JobPlan,
)
    requires
        is_job_plan(raw, dither, lines, plan),
    ensures
        (plan is Refuse) == (document_of(raw) is Err || urf_document(document_of(raw)->Ok_0)
            is Err),
        plan is Print ==> urf_document(document_of(raw)->Ok_0)->Ok_0.len()
            == plan->Print_pages && plan->Print_bitmap@.len() > 0,
        document_of(raw) is Ok && raw.len() >= 2 && raw[0] == 0x1f && raw[1] == 0x8b
            ==> lines.len() >= 1 && lines[0] == "INFO: inflated a gzipped job to "@
            + decimal_digits(document_of(raw)->Ok_0.len()) + " bytes"@,
        !(raw.len() >= 2 && raw[0] == 0x1f && raw[1] == 0x8b) ==> document_of(raw) == Ok::<
            Seq<u8>,
            Seq<char>,
        >(raw),
{
}

} // verus!
