//! The image references of a markdown document: what is fetched for each, and
//! what becomes of it.
//!
//! Anything that is not resolved renders as a placeholder, so a broken image
//! never fails a print.

use crate::raster::bitmap::Bitmap;
use crate::raster::dither::Dither;
use crate::raster::picture::bitmap_from_image_bytes;
use crate::strings::{chars_of, decimal};
use crate::url::is_http;
use vstd::prelude::*;
#[allow(unused_imports)]
use crate::cli::{arg_text, texts};
#[allow(unused_imports)]
use crate::raster::picture::{decoded, is_picture_print, picture_size, PictureError};
#[allow(unused_imports)]
use crate::strings::decimal_digits;
#[allow(unused_imports)]
use crate::url::is_web;

verus! {

/// Refuse oversized downloads: a receipt is 384px wide, nothing legitimate
/// comes close to this.
pub const MAX_IMAGE_BYTES: u64 = 5_242_880;

/// References past this many are left unresolved.
pub const MAX_IMAGES: usize = 32;

/// Where a reference without a scheme points: relative to the document's
/// directory, unless it is absolute or there is no such directory.
pub open spec fn path_of(dest: Seq<char>, base: Option<Seq<char>>) -> Seq<char> {
    match base {
        None => dest,
        Some(dir) => if dest.len() > 0 && dest[0] == '/' {
            dest
        } else if dir.len() == 0 || dir.last() == '/' {
            dir + dest
        } else {
            dir + "/"@ + dest
        },
    }
}

/// Relative references resolve against the document's directory; absolute ones
/// are used as-is.
pub fn local_path(dest: &str, base_dir: Option<&str>) -> (path: String)
    ensures
        path@ == path_of(dest@, arg_text(base_dir)),
{
    match base_dir {
        None => dest.to_owned(),
        Some(dir) => {
            let d: Vec<char> = chars_of(dest);
            if d.len() > 0 && d[0] == '/' {
                return dest.to_owned();
            }
            let b: Vec<char> = chars_of(dir);
            let mut path: String = dir.to_owned();
            if b.len() > 0 && b[b.len() - 1] != '/' {
                path.append("/");
            }
            path.append(dest);
            path
        },
    }
}

/// What is done for one reference.
#[derive(Debug)]
pub enum Fetch {
    /// Get it over the network.
    Remote,
    /// Read this file.
    Local(String),
    /// Leave it unresolved, with a warning.
    Skip(String),
}

/// A [`Fetch`] with its text as a sequence.
pub enum FetchText {
    Remote,
    Local(Seq<char>),
    Skip(Seq<char>),
}

impl View for Fetch {
    type V = FetchText;

    open spec fn view(&self) -> FetchText {
        match *self {
            Fetch::Remote => FetchText::Remote,
            Fetch::Local(path) => FetchText::Local(path@),
            Fetch::Skip(why) => FetchText::Skip(why@),
        }
    }
}

/// What is done for the reference that stands at `place` in the document. With
/// `local` off no file is touched, and with `remote` off nothing goes over the
/// network.
pub open spec fn fetch_for(
    dest: Seq<char>,
    place: int,
    base: Option<Seq<char>>,
    local: bool,
    remote: bool,
) -> FetchText {
    if place >= MAX_IMAGES {
        FetchText::Skip("warning: skipping image "@ + dest + ": more than 32 images"@)
    } else if is_web(dest) {
        if remote {
            FetchText::Remote
        } else {
            FetchText::Skip(
                "warning: skipping image "@ + dest + ": remote images are switched off"@,
            )
        }
    } else if local {
        FetchText::Local(path_of(dest, base))
    } else {
        FetchText::Skip(
            "warning: skipping local image "@ + dest + ": only http(s) images are allowed here"@,
        )
    }
}

fn warning(before: &str, dest: &str, after: &str) -> (text: String)
    ensures
        text@ == before@ + dest@ + after@,
{
    let mut text: String = before.to_owned();
    text.append(dest);
    text.append(after);
    text
}

/// Decide what is done for one reference.
///
/// `local` MUST be false for network-facing callers (the server): it is a
/// boundary that keeps LAN clients from reading the server's files.
pub fn fetch_plan(
    dest: &str,
    place: usize,
    base_dir: Option<&str>,
    local: bool,
    remote: bool,
) -> (fetch: Fetch)
    ensures
        fetch@ == fetch_for(dest@, place as int, arg_text(base_dir), local, remote),
{
    if place >= MAX_IMAGES {
        return Fetch::Skip(
            warning("warning: skipping image ", dest, ": more than 32 images"),
        );
    }
    if is_http(dest) {
        if remote {
            Fetch::Remote
        } else {
            Fetch::Skip(
                warning("warning: skipping image ", dest, ": remote images are switched off"),
            )
        }
    } else if local {
        Fetch::Local(local_path(dest, base_dir))
    } else {
        Fetch::Skip(
            warning(
                "warning: skipping local image ",
                dest,
                ": only http(s) images are allowed here",
            ),
        )
    }
}

/// Check a declared download size against [`MAX_IMAGE_BYTES`].
pub fn check_length(len: Option<u64>) -> (r: Result<(), String>)
    ensures
        r is Err <==> (len matches Some(n) && n > MAX_IMAGE_BYTES),
        r matches Err(e) ==> e@ == "image is "@ + decimal_digits(len->0 as nat)
            + " bytes, over the 5242880 byte limit"@,
{
    if let Some(n) = len {
        if n > MAX_IMAGE_BYTES {
            let mut e: String = "image is ".to_owned();
            e.append(decimal(n as u128).as_str());
            e.append(" bytes, over the 5242880 byte limit");
            return Err(e);
        }
    }
    Ok(())
}

/// Take in another piece of a download, unless it would go over the limit: a
/// missing or lying header still cannot make us buffer more than that.
pub fn take_chunk(body: &mut Vec<u8>, chunk: &[u8]) -> (r: Result<(), String>)
    requires
        old(body)@.len() <= MAX_IMAGE_BYTES,
    ensures
        r is Err <==> old(body)@.len() + chunk@.len() > MAX_IMAGE_BYTES,
        r is Ok ==> final(body)@ == old(body)@ + chunk@,
        r matches Err(e) ==> final(body)@ == old(body)@ && e@
            == "image is over the 5242880 byte limit"@,
        final(body)@.len() <= MAX_IMAGE_BYTES,
{
    let have: u64 = body.len() as u64;
    if chunk.len() as u64 > MAX_IMAGE_BYTES - have {
        return Err("image is over the 5242880 byte limit".to_owned());
    }
    body.extend_from_slice(chunk);
    Ok(())
}

/// What came back for one reference.
#[derive(Debug)]
pub enum Fetched {
    /// The bytes of the image.
    Bytes(Vec<u8>),
    /// It could not be fetched.
    Failed(String),
    /// It was passed over.
    Skipped,
}

/// What all images of a document together may take, in nanoseconds: 30 s.
pub const BUDGET_NS: u64 = 30_000_000_000;

/// What is left of the time for the images of a document, in nanoseconds.
pub fn time_left(elapsed_ns: u64) -> (left: u64)
    ensures
        left == if elapsed_ns >= 30_000_000_000 {
            0
        } else {
            30_000_000_000 - elapsed_ns
        },
{
    BUDGET_NS.saturating_sub(elapsed_ns)
}

/// A resolved reference.
#[derive(Debug)]
pub struct ResolvedImage {
    pub dest: String,
    pub bitmap: Bitmap,
}

/// Whether an image can be used: it decodes, and has columns.
pub open spec fn is_usable(bytes: Seq<u8>) -> bool {
    decoded(bytes) matches Ok(picture) && picture_size(picture).0 != 0
}

/// The wording for an image that cannot be used.
pub open spec fn unusable_text(bytes: Seq<u8>) -> Seq<char> {
    match decoded(bytes) {
        Err(why) => "failed to decode image: "@ + why,
        Ok(_) => "image has zero width"@,
    }
}

/// The places of the references that resolve, in order.
pub open spec fn resolved_places(fetched: Seq<Fetched>) -> Seq<int>
    decreases fetched.len(),
{
    if fetched.len() == 0 {
        Seq::empty()
    } else {
        let before = resolved_places(fetched.drop_last());
        if fetched.last() matches Fetched::Bytes(bytes) && is_usable(bytes@) {
            before.push(fetched.len() - 1)
        } else {
            before
        }
    }
}

/// What is said of the references that do not resolve.
pub open spec fn fault_texts(refs: Seq<Seq<char>>, fetched: Seq<Fetched>) -> Seq<Seq<char>>
    decreases fetched.len(),
{
    if fetched.len() == 0 {
        Seq::empty()
    } else {
        let n = fetched.len() - 1;
        let before = fault_texts(refs, fetched.drop_last());
        match fetched.last() {
            Fetched::Bytes(bytes) => if is_usable(bytes@) {
                before
            } else {
                before.push("warning: skipping image "@ + refs[n] + (": "@ + unusable_text(bytes@)))
            },
            Fetched::Failed(why) => before.push(
                "warning: skipping image "@ + refs[n] + (": "@ + why@),
            ),
            Fetched::Skipped => before,
        }
    }
}

/// Whether an image is the print of what was fetched for its reference.
pub open spec fn is_resolved(dest: Seq<char>, fetched: Fetched, image: ResolvedImage) -> bool {
    &&& image.dest@ == dest
    &&& fetched matches Fetched::Bytes(bytes) && is_usable(bytes@) && is_picture_print(
        decoded(bytes@)->Ok_0,
        Dither::FloydSteinberg,
        image.bitmap@,
    )
}

/// Resolve the image references of a document from what was fetched for each.
///
/// Never fails: unreachable, oversized, or undecodable images come with a
/// warning and are left out.
pub fn resolve(refs: &Vec<String>, fetched: &Vec<Fetched>) -> (r: (
    Vec<ResolvedImage>,
    Vec<String>,
))
    requires
        refs@.len() == fetched@.len(),
    ensures
        r.0@.len() == resolved_places(fetched@).len(),
        forall|k: int|
            0 <= k < r.0@.len() ==> is_resolved(
                refs@[resolved_places(fetched@)[k]]@,
                fetched@[resolved_places(fetched@)[k]],
                #[trigger] r.0@[k],
            ),
        texts(r.1@) == fault_texts(texts(refs@), fetched@),
{
    let mut images: Vec<ResolvedImage> = Vec::new();
    let mut warnings: Vec<String> = Vec::new();
    let mut i: usize = 0;
    assert(fetched@.take(0) =~= Seq::empty());
    assert(texts(warnings@) =~= fault_texts(texts(refs@), fetched@.take(0)));
    while i < refs.len()
        invariant
            i <= refs@.len(),
            refs@.len() == fetched@.len(),
            images@.len() == resolved_places(fetched@.take(i as int)).len(),
            forall|k: int|
                0 <= k < images@.len() ==> is_resolved(
                    refs@[resolved_places(fetched@.take(i as int))[k]]@,
                    fetched@[resolved_places(fetched@.take(i as int))[k]],
                    #[trigger] images@[k],
                ),
            texts(warnings@) == fault_texts(texts(refs@), fetched@.take(i as int)),
        decreases refs@.len() - i,
    {
        let ghost before = texts(warnings@);
        proof {
            let next = fetched@.take(i + 1);
            assert(next.drop_last() =~= fetched@.take(i as int));
            assert(next.last() == fetched@[i as int]);
            assert(texts(refs@)[i as int] == refs@[i as int]@);
        }
        match &fetched[i] {
            Fetched::Bytes(bytes) => {
                match bitmap_from_image_bytes(bytes.as_slice(), Dither::FloydSteinberg) {
                    Ok(bitmap) => {
                        images.push(
                            ResolvedImage { dest: refs[i].as_str().to_owned(), bitmap },
                        );
                    },
                    Err(e) => {
                        let mut tail: String = ": ".to_owned();
                        tail.append(e.message().as_str());
                        warnings.push(
                            warning(
                                "warning: skipping image ",
                                refs[i].as_str(),
                                tail.as_str(),
                            ),
                        );
                    },
                }
            },
            Fetched::Failed(why) => {
                let mut tail: String = ": ".to_owned();
                tail.append(why.as_str());
                warnings.push(
                    warning("warning: skipping image ", refs[i].as_str(), tail.as_str()),
                );
            },
            Fetched::Skipped => {},
        }
        assert(texts(warnings@) =~= fault_texts(texts(refs@), fetched@.take(i + 1)));
        i = i + 1;
    }
    assert(fetched@.take(i as int) =~= fetched@);
    (images, warnings)
}

/// With local access off, no file is ever read, whatever the reference.
pub proof fn no_file_is_read_when_not_allowed(
    dest: Seq<char>,
    place: int,
    base: Option<Seq<char>>,
    remote: bool,
)
    ensures
        !(fetch_for(dest, place, base, false, remote) is Local),
{
}

/// With remote access off, nothing goes over the network, whatever the
/// reference.
pub proof fn nothing_is_fetched_when_switched_off(
    dest: Seq<char>,
    place: int,
    base: Option<Seq<char>>,
    local: bool,
)
    ensures
        !(fetch_for(dest, place, base, local, false) is Remote),
{
}

/// The images that can be used keep their order and are all there: the places of
/// the references that resolve go up, and a place is among them exactly if what
/// was fetched for it can be used.
pub proof fn all_usable_images_are_kept_in_order(fetched: Seq<Fetched>)
    ensures
        forall|k: int|
            0 <= k < resolved_places(fetched).len() ==> 0 <= #[trigger] resolved_places(
                fetched,
            )[k] < fetched.len(),
        forall|j: int, k: int|
            0 <= j < k < resolved_places(fetched).len() ==> #[trigger] resolved_places(fetched)[j]
                < #[trigger] resolved_places(fetched)[k],
        forall|i: int|
            0 <= i < fetched.len() ==> (#[trigger] resolved_places(fetched).contains(i) <==> (
            fetched[i] matches Fetched::Bytes(bytes) && is_usable(bytes@))),
    decreases fetched.len(),
{
    let all = resolved_places(fetched);
    if fetched.len() > 0 {
        let less = fetched.drop_last();
        let before = resolved_places(less);
        let n = fetched.len() - 1;
        all_usable_images_are_kept_in_order(less);
        assert forall|i: int| 0 <= i < fetched.len() implies (#[trigger] all.contains(i) <==> (
        fetched[i] matches Fetched::Bytes(bytes) && is_usable(bytes@))) by {
            if i < n {
                assert(less[i] == fetched[i]);
                if before.contains(i) {
                    let k = choose|k: int| 0 <= k < before.len() && before[k] == i;
                    assert(all[k] == i);
                }
                if all.contains(i) {
                    let k = choose|k: int| 0 <= k < all.len() && all[k] == i;
                    if k < before.len() {
                        assert(before[k] == i);
                        assert(before.contains(i));
                    }
                }
            } else {
                if fetched[n] matches Fetched::Bytes(bytes) && is_usable(bytes@) {
                    assert(all[before.len() as int] == n);
                } else if all.contains(i) {
                    let k = choose|k: int| 0 <= k < all.len() && all[k] == i;
                    assert(before[k] < less.len());
                }
            }
        }
    }
}

/// What is fetched for a reference: one of the web goes over the network, any
/// other is a file next to the document, and from the 33rd on nothing is.
pub proof fn references_go_where_they_point(
    dest: Seq<char>,
    place: int,
    dir: Seq<char>,
    web: bool,
)
    requires
        0 <= place,
        web == is_web(dest),
        dest.len() > 0,
    ensures
        place < 32 && web ==> fetch_for(dest, place, Some(dir), true, true) == FetchText::Remote,
        place < 32 && !web ==> (fetch_for(dest, place, Some(dir), true, true) matches FetchText::Local(
            path,
        ) && path.len() >= dest.len() && path.skip(path.len() - dest.len()) == dest && (dest[0]
            == '/' ==> path == dest) && (dest[0] != '/' ==> path.len() >= dir.len() && path.take(
            dir.len() as int,
        ) == dir && path.len() <= dir.len() + 1 + dest.len() && (dir.len() > 0 ==> path[path.len()
            - dest.len() - 1] == '/'))),
        place >= 32 ==> fetch_for(dest, place, Some(dir), true, true) is Skip,
        place < 32 && !web ==> fetch_for(dest, place, None, true, true) == FetchText::Local(dest),
{
    reveal_strlit("/");
    let path = path_of(dest, Some(dir));
    assert(path.skip(path.len() - dest.len()) =~= dest);
    if dest[0] != '/' {
        assert(path.take(dir.len() as int) =~= dir);
        if dir.len() > 0 {
            if dir.last() == '/' {
                assert(path[dir.len() - 1] == dir[dir.len() - 1]);
            } else {
                assert(path[dir.len() as int] == '/');
            }
        }
    }
}

} // verus!
