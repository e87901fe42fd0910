//! The rules of the command line: what an argument means, what is printed from
//! where, and what the commands say.

use crate::fixed_point::volts;
use crate::model::PrinterModel;
use crate::protocol::notifications::Status;
use crate::raster::dither::Dither;
use crate::strings::{chars_of, decimal, same_text, text_of, to_small_letters};
use vstd::prelude::*;
#[allow(unused_imports)]
use crate::fixed_point::volts_text;
#[allow(unused_imports)]
use crate::strings::{decimal_digits, small_letters};

verus! {

/// The log filter that a `-v` count stands for.
pub open spec fn filter_for(verbose: u8) -> Seq<char> {
    if verbose == 0 {
        "printable=warn"@
    } else if verbose == 1 {
        "printable=info"@
    } else if verbose == 2 {
        "printable=debug"@
    } else {
        "debug,printable=trace"@
    }
}

/// The log filter that a `-v` count stands for.
///
/// Every rung but the last names this crate and nothing else, so a dependency
/// cannot log on our behalf. `-vvv` is the exception, and is meant to be: it is
/// the rung a user reaches for when the problem might be in the radio or the
/// browser rather than here, so it turns dependencies back on.
pub fn log_filter(verbose: u8) -> (filter: String)
    ensures
        filter@ == filter_for(verbose),
{
    match verbose {
        0 => "printable=warn".to_owned(),
        1 => "printable=info".to_owned(),
        2 => "printable=debug".to_owned(),
        _ => "debug,printable=trace".to_owned(),
    }
}

/// Which printer to use.
#[derive(Debug)]
pub struct DeviceArgs {
    /// Device name or identifier substring.
    pub device: Option<String>,
    /// The only model to connect to.
    pub model: Option<PrinterModel>,
}

/// What the `qr` command prints, and where.
#[derive(Debug)]
pub struct QrArgs {
    /// Data to encode (URL or text).
    pub data: String,
    /// Caption text printed below the code.
    pub caption: Option<String>,
    pub device: DeviceArgs,
    /// Density 1-7.
    pub density: u8,
    /// Blank feed lines after printing.
    pub feed: usize,
    /// Render to PNG instead of printing.
    pub preview: Option<String>,
    /// Number of copies to print (1-20).
    pub copies: u16,
}

#[derive(Debug, Clone, Copy, PartialEq, Eq, Structural)]
pub enum DitherArg {
    /// Floyd–Steinberg error diffusion.
    Floyd,
    /// Atkinson error diffusion (higher contrast).
    Atkinson,
    /// Plain threshold at 128, no dithering.
    Threshold,
}

/// The algorithm that a `--dither` word stands for.
pub open spec fn dither_of(d: DitherArg) -> Dither {
    match d {
        DitherArg::Floyd => Dither::FloydSteinberg,
        DitherArg::Atkinson => Dither::Atkinson,
        DitherArg::Threshold => Dither::Threshold,
    }
}

impl From<DitherArg> for Dither {
    fn from(d: DitherArg) -> (dither: Self) {
        match d {
            DitherArg::Floyd => Dither::FloydSteinberg,
            DitherArg::Atkinson => Dither::Atkinson,
            DitherArg::Threshold => Dither::Threshold,
        }
    }
}

impl vstd::std_specs::convert::FromSpecImpl<DitherArg> for Dither {
    open spec fn obeys_from_spec() -> bool {
        true
    }

    open spec fn from_spec(d: DitherArg) -> Dither {
        dither_of(d)
    }
}

/// Does this `--file` value mean stdin? Only a bare `-`; `./-` is a real file.
pub fn is_stdin_path(path: &str) -> (stdin: bool)
    ensures
        stdin == (path@ == "-"@),
{
    same_text(path, "-")
}

/// The last place of a character, or -1.
pub open spec fn last_place(text: Seq<char>, c: char) -> int
    decreases text.len(),
{
    if text.len() == 0 {
        -1
    } else if text.last() == c {
        text.len() - 1
    } else {
        last_place(text.drop_last(), c)
    }
}

fn find_last(text: &[char], c: char) -> (place: Option<usize>)
    ensures
        match place {
            Some(i) => last_place(text@, c) == i && i < text@.len(),
            None => last_place(text@, c) == -1,
        },
{
    let mut n: usize = text.len();
    assert(text@.take(n as int) =~= text@);
    while n > 0
        invariant
            n <= text@.len(),
            last_place(text@, c) == last_place(text@.take(n as int), c),
        decreases n,
    {
        let ghost part = text@.take(n as int);
        assert(part.last() == text@[n - 1]);
        assert(part.drop_last() =~= text@.take(n - 1));
        if text[n - 1] == c {
            return Some(n - 1);
        }
        n = n - 1;
    }
    None
}

/// The last component of a path, if it names a file: trailing slashes and `.`
/// components do not count, and `..` names none.
pub open spec fn file_name(path: Seq<char>) -> Option<Seq<char>>
    decreases path.len(),
    when last_place(path, '/') < path.len()
{
    let cut = last_place(path, '/');
    let piece = path.skip(cut + 1);
    if piece.len() == 0 || piece == "."@ {
        if cut < 0 {
            None
        } else {
            file_name(path.take(cut))
        }
    } else if piece == ".."@ {
        None
    } else {
        Some(piece)
    }
}

proof fn lemma_last_place(text: Seq<char>, c: char)
    ensures
        -1 <= last_place(text, c) < text.len(),
    decreases text.len(),
{
    if text.len() > 0 {
        lemma_last_place(text.drop_last(), c);
    }
}

/// What stands behind the last dot of a file name; a name that only begins with
/// a dot has no such part.
pub open spec fn suffix_of(name: Seq<char>) -> Seq<char> {
    let dot = last_place(name, '.');
    if dot <= 0 {
        Seq::empty()
    } else {
        name.skip(dot + 1)
    }
}

/// The extension of a path in small letters, empty if it has none.
pub open spec fn extension_of(path: Seq<char>) -> Seq<char> {
    match file_name(path) {
        Some(name) => small_letters(suffix_of(name)),
        None => Seq::empty(),
    }
}

fn split_name(path: &[char]) -> (name: Option<Vec<char>>)
    ensures
        match name {
            Some(n) => file_name(path@) == Some(n@),
            None => file_name(path@) is None,
        },
    decreases path@.len(),
{
    proof {
        lemma_last_place(path@, '/');
        reveal_strlit(".");
        reveal_strlit("..");
    }
    assert(path@.len() == path.len());
    let cut: Option<usize> = find_last(path, '/');
    let from: usize = match cut {
        Some(i) => i + 1,
        None => 0,
    };
    let piece: &[char] = vstd::slice::slice_subrange(path, from, path.len());
    assert(piece@ =~= path@.skip(from as int));
    if piece.len() == 0 || (piece.len() == 1 && piece[0] == '.') {
        assert(piece@.len() == 1 && piece@[0] == '.' ==> piece@ =~= "."@);
        return match cut {
            Some(i) => {
                let rest: &[char] = vstd::slice::slice_subrange(path, 0, i);
                assert(rest@ =~= path@.take(i as int));
                proof {
                    lemma_last_place(rest@, '/');
                }
                split_name(rest)
            },
            None => None,
        };
    }
    assert(piece@ != "."@) by {
        if piece@ == "."@ {
            assert(piece@.len() == 1 && piece@[0] == '.');
        }
    }
    if piece.len() == 2 && piece[0] == '.' && piece[1] == '.' {
        assert(piece@ =~= ".."@);
        return None;
    }
    assert(piece@ != ".."@) by {
        if piece@ == ".."@ {
            assert(piece@.len() == 2 && piece@[0] == '.' && piece@[1] == '.');
        }
    }
    Some(vstd::slice::slice_to_vec(piece))
}

/// The extension of a path in small letters, empty if it has none.
pub fn extension(path: &str) -> (ext: String)
    ensures
        ext@ == extension_of(path@),
{
    let p: Vec<char> = chars_of(path);
    match split_name(p.as_slice()) {
        None => String::new(),
        Some(name) => {
            proof {
                lemma_last_place(name@, '.');
            }
            assert(name@.len() == name.len());
            match find_last(name.as_slice(), '.') {
                Some(i) => {
                    if i == 0 {
                        let ext: String = String::new();
                        assert(ext@ =~= small_letters(Seq::<char>::empty()));
                        return ext;
                    }
                    let tail: &[char] = vstd::slice::slice_subrange(
                        name.as_slice(),
                        i + 1,
                        name.len(),
                    );
                    assert(tail@ =~= name@.skip(i + 1));
                    to_small_letters(text_of(tail).as_str())
                },
                None => {
                    let ext: String = String::new();
                    assert(ext@ =~= small_letters(Seq::<char>::empty()));
                    ext
                },
            }
        },
    }
}

/// Where a print comes from.
#[derive(Debug)]
pub enum Source {
    /// A web page.
    Url(String),
    /// Whatever arrives on stdin.
    Stdin { markdown: bool },
    /// A picture file.
    Image(String),
    /// A text file; relative image references in markdown resolve against its
    /// directory.
    Document { path: String, markdown: bool },
    /// The text argument itself.
    Inline { text: String, markdown: bool },
}

/// A [`Source`] with its texts as sequences.
#[verifier::ext_equal]
pub enum SourceText {
    Url(Seq<char>),
    Stdin { markdown: bool },
    Image(Seq<char>),
    Document { path: Seq<char>, markdown: bool },
    Inline { text: Seq<char>, markdown: bool },
}

impl View for Source {
    type V = SourceText;

    open spec fn view(&self) -> SourceText {
        match *self {
            Source::Url(url) => SourceText::Url(url@),
            Source::Stdin { markdown } => SourceText::Stdin { markdown },
            Source::Image(path) => SourceText::Image(path@),
            Source::Document { path, markdown } => SourceText::Document { path: path@, markdown },
            Source::Inline { text, markdown } => SourceText::Inline { text: text@, markdown },
        }
    }
}

/// The text of an optional argument.
pub open spec fn arg_text(arg: Option<&str>) -> Option<Seq<char>> {
    match arg {
        Some(a) => Some(a@),
        None => None,
    }
}

/// Whether an extension is that of a picture.
pub open spec fn is_picture_extension(ext: Seq<char>) -> bool {
    ext == "png"@ || ext == "jpg"@ || ext == "jpeg"@
}

/// Whether an extension is that of a markdown document.
pub open spec fn is_markdown_extension(ext: Seq<char>) -> bool {
    ext == "md"@ || ext == "markdown"@
}

/// Where a print comes from, or why the arguments do not say.
pub open spec fn source_of(
    text: Option<Seq<char>>,
    file: Option<Seq<char>>,
    url: Option<Seq<char>>,
    markdown: bool,
) -> Result<SourceText, Seq<char>> {
    if let Some(u) = url {
        Ok(SourceText::Url(u))
    } else if let Some(path) = file {
        if text is Some {
            Err("cannot combine a text argument with --file"@)
        } else if path == "-"@ {
            Ok(SourceText::Stdin { markdown })
        } else if is_picture_extension(extension_of(path)) {
            if markdown {
                Err("--markdown does not apply to an image file ("@ + path + ")"@)
            } else {
                Ok(SourceText::Image(path))
            }
        } else if extension_of(path) == "txt"@ {
            Ok(SourceText::Document { path, markdown })
        } else if is_markdown_extension(extension_of(path)) {
            Ok(SourceText::Document { path, markdown: true })
        } else {
            Err(
                "unsupported file type: "@ + path
                    + " (expected .png, .jpg, .jpeg, .txt, .md or .markdown)"@,
            )
        }
    } else if let Some(t) = text {
        Ok(SourceText::Inline { text: t, markdown })
    } else {
        Ok(SourceText::Stdin { markdown })
    }
}

/// Whether an outcome is the one that is called for.
pub open spec fn is_source(r: Result<Source, String>, s: Result<SourceText, Seq<char>>) -> bool {
    match r {
        Ok(source) => s == Ok::<SourceText, Seq<char>>(source@),
        Err(e) => s == Err::<SourceText, Seq<char>>(e@),
    }
}

/// Find out what to print: the text argument, a file, a URL, or stdin.
///
/// `-f -` is the Unix spelling of "read stdin"; there is no extension to go by,
/// so it takes the same route as a bare pipe. `--markdown` is redundant for a
/// markdown file, and accepted without comment.
pub fn build_bitmap_from(
    text: Option<&str>,
    file: Option<&str>,
    url: Option<&str>,
    markdown: bool,
) -> (r: Result<Source, String>)
    ensures
        is_source(r, source_of(arg_text(text), arg_text(file), arg_text(url), markdown)),
{
    if let Some(u) = url {
        return Ok(Source::Url(u.to_owned()));
    }
    if let Some(path) = file {
        if text.is_some() {
            return Err("cannot combine a text argument with --file".to_owned());
        }
        if is_stdin_path(path) {
            return Ok(Source::Stdin { markdown });
        }
        let ext: String = extension(path);
        let e: &str = ext.as_str();
        if same_text(e, "png") || same_text(e, "jpg") || same_text(e, "jpeg") {
            if markdown {
                let mut why: String = "--markdown does not apply to an image file (".to_owned();
                why.append(path);
                why.append(")");
                return Err(why);
            }
            return Ok(Source::Image(path.to_owned()));
        }
        if same_text(e, "txt") {
            return Ok(Source::Document { path: path.to_owned(), markdown });
        }
        if same_text(e, "md") || same_text(e, "markdown") {
            return Ok(Source::Document { path: path.to_owned(), markdown: true });
        }
        let mut why: String = "unsupported file type: ".to_owned();
        why.append(path);
        why.append(" (expected .png, .jpg, .jpeg, .txt, .md or .markdown)");
        return Err(why);
    }
    match text {
        Some(t) => Ok(Source::Inline { text: t.to_owned(), markdown }),
        None => Ok(Source::Stdin { markdown }),
    }
}

/// The texts of a list of lines.
pub open spec fn texts(lines: Seq<String>) -> Seq<Seq<char>> {
    Seq::new(lines.len(), |i: int| lines[i]@)
}

/// What the `status` command says of a printer.
pub open spec fn status_text(s: Status) -> Seq<Seq<char>> {
    seq![
        "Battery:  "@ + decimal_digits(s.battery_pct as nat) + "%"@ + if s.charging {
            " (charging)"@
        } else if s.charged {
            " (charged)"@
        } else {
            ""@
        },
        "Paper:    "@ + if s.no_paper {
            "OUT"@
        } else {
            "OK"@
        },
    ] + match s.density {
        Some(d) => seq!["Density:  "@ + decimal_digits(d as nat)],
        None => Seq::empty(),
    } + match s.voltage_mv {
        Some(mv) => seq!["Voltage:  "@ + volts_text(mv as nat) + " V"@],
        None => Seq::empty(),
    } + if s.overheat {
        seq!["Warning:  print head is overheating"@]
    } else {
        Seq::empty()
    } + if s.low_battery {
        seq!["Warning:  battery is low"@]
    } else {
        Seq::empty()
    }
}

/// What the `status` command says of a printer, line by line.
pub fn status_lines(s: &Status) -> (lines: Vec<String>)
    ensures
        texts(lines@) == status_text(*s),
{
    let mut lines: Vec<String> = Vec::new();
    let mut battery: String = "Battery:  ".to_owned();
    battery.append(decimal(s.battery_pct as u128).as_str());
    battery.append("%");
    battery.append(
        if s.charging {
            " (charging)"
        } else if s.charged {
            " (charged)"
        } else {
            ""
        },
    );
    lines.push(battery);
    let mut paper: String = "Paper:    ".to_owned();
    paper.append(
        if s.no_paper {
            "OUT"
        } else {
            "OK"
        },
    );
    lines.push(paper);
    if let Some(d) = s.density {
        let mut density: String = "Density:  ".to_owned();
        density.append(decimal(d as u128).as_str());
        lines.push(density);
    }
    if let Some(mv) = s.voltage_mv {
        let mut voltage: String = "Voltage:  ".to_owned();
        voltage.append(volts(mv).as_str());
        voltage.append(" V");
        lines.push(voltage);
    }
    if s.overheat {
        lines.push("Warning:  print head is overheating".to_owned());
    }
    if s.low_battery {
        lines.push("Warning:  battery is low".to_owned());
    }
    assert(texts(lines@) =~= status_text(*s));
    lines
}

/// Text filled up with blanks to a width.
pub open spec fn filled(text: Seq<char>, width: nat) -> Seq<char> {
    if text.len() >= width {
        text
    } else {
        text + Seq::new((width - text.len()) as nat, |i: int| ' ')
    }
}

fn fill(text: &str, width: usize) -> (r: String)
    ensures
        r@ == filled(text@, width as nat),
{
    let have: usize = chars_of(text).len();
    let mut r: String = text.to_owned();
    let mut n: usize = have;
    while n < width
        invariant
            have <= n,
            n <= width || n == have,
            have == text@.len(),
            r@ == text@ + Seq::new((n - have) as nat, |i: int| ' '),
        decreases width - n,
    {
        r.push(' ');
        n = n + 1;
        assert(r@ =~= text@ + Seq::new((n - have) as nat, |i: int| ' '));
    }
    assert(r@ =~= filled(text@, width as nat));
    r
}

/// A row of the `scan` table: name, model and identifier.
pub open spec fn scan_text(name: Seq<char>, model: Seq<char>, id: Seq<char>) -> Seq<char> {
    filled(name, 20) + " "@ + filled(model, 8) + " "@ + id
}

/// A row of the `scan` table.
pub fn scan_row(name: &str, model: PrinterModel, id: &str) -> (row: String)
    ensures
        row@ == scan_text(name@, model.word(), id@),
{
    let mut row: String = fill(name, 20);
    row.append(" ");
    row.append(fill(model.name().as_str(), 8).as_str());
    row.append(" ");
    row.append(id);
    row
}

/// The head of the `scan` table.
pub fn scan_head() -> (row: String)
    ensures
        row@ == scan_text("NAME"@, "MODEL"@, "ID"@),
{
    let mut row: String = fill("NAME", 20);
    row.append(" ");
    row.append(fill("MODEL", 8).as_str());
    row.append(" ");
    row.append("ID");
    row
}

/// Words with a blank between neighbours.
pub open spec fn joined(words: Seq<Seq<char>>) -> Seq<char>
    decreases words.len(),
{
    if words.len() == 0 {
        Seq::empty()
    } else if words.len() == 1 {
        words[0]
    } else {
        joined(words.drop_last()) + " "@ + words.last()
    }
}

/// A row of the `scan --all` table: a device without a name, a model or
/// services shows that it has none.
pub open spec fn advertiser_text(
    name: Option<Seq<char>>,
    model: Option<PrinterModel>,
    id: Seq<char>,
    services: Seq<Seq<char>>,
) -> Seq<char> {
    filled(
        match name {
            Some(n) => n,
            None => "(no name)"@,
        },
        24,
    ) + " "@ + filled(
        match model {
            Some(m) => m.word(),
            None => "-"@,
        },
        8,
    ) + " "@ + filled(id, 38) + " "@ + if services.len() == 0 {
        "-"@
    } else {
        joined(services)
    }
}

/// A row of the `scan --all` table.
pub fn advertiser_row(
    name: Option<&str>,
    model: Option<PrinterModel>,
    id: &str,
    services: &Vec<String>,
) -> (row: String)
    ensures
        row@ == advertiser_text(arg_text(name), model, id@, texts(services@)),
{
    let mut row: String = match name {
        Some(n) => fill(n, 24),
        None => fill("(no name)", 24),
    };
    row.append(" ");
    let word: String = match model {
        Some(m) => m.name(),
        None => "-".to_owned(),
    };
    row.append(fill(word.as_str(), 8).as_str());
    row.append(" ");
    row.append(fill(id, 38).as_str());
    row.append(" ");
    if services.len() == 0 {
        row.append("-");
        return row;
    }
    let ghost all = texts(services@);
    let mut list: String = services[0].as_str().to_owned();
    let mut i: usize = 1;
    assert(all.take(1) =~= seq![all[0]]);
    while i < services.len()
        invariant
            1 <= i <= services@.len(),
            all == texts(services@),
            list@ == joined(all.take(i as int)),
        decreases services@.len() - i,
    {
        list.append(" ");
        list.append(services[i].as_str());
        assert(all.take(i + 1).drop_last() =~= all.take(i as int));
        i = i + 1;
    }
    assert(all.take(i as int) =~= all);
    row.append(list.as_str());
    row
}

/// A `.md` file is markdown with the flag and without it.
pub proof fn markdown_flag_is_redundant_for_markdown_files(path: Seq<char>)
    requires
        is_markdown_extension(extension_of(path)),
        path != "-"@,
    ensures
        source_of(None, Some(path), None, true) == source_of(None, Some(path), None, false),
{
    reveal_strlit("md");
    reveal_strlit("markdown");
    reveal_strlit("png");
    reveal_strlit("jpg");
    reveal_strlit("jpeg");
    reveal_strlit("txt");
    let ext = extension_of(path);
    assert(ext[0] == 'm');
}

/// A dash as the file is the same as no file at all.
pub proof fn a_dash_is_a_bare_pipe(markdown: bool)
    ensures
        source_of(None, Some("-"@), None, markdown) == source_of(None, None, None, markdown),
{
}

proof fn lemma_no_place(text: Seq<char>, c: char)
    requires
        !text.contains(c),
    ensures
        last_place(text, c) == -1,
    decreases text.len(),
{
    if text.len() > 0 {
        assert(text.last() == text[text.len() - 1]);
        assert(text.contains(text.last()));
        let less = text.drop_last();
        if less.contains(c) {
            let k = choose|k: int| 0 <= k < less.len() && less[k] == c;
            assert(text[k] == c);
        }
        lemma_no_place(less, c);
    }
}

proof fn lemma_place_before(head: Seq<char>, c: char, tail: Seq<char>)
    requires
        !tail.contains(c),
    ensures
        last_place(head.push(c) + tail, c) == head.len(),
    decreases tail.len(),
{
    let text = head.push(c) + tail;
    if tail.len() == 0 {
        assert(text =~= head.push(c));
    } else {
        let less = tail.drop_last();
        assert(tail.last() == tail[tail.len() - 1]);
        assert(tail.contains(tail.last()));
        if less.contains(c) {
            let k = choose|k: int| 0 <= k < less.len() && less[k] == c;
            assert(tail[k] == c);
        }
        lemma_place_before(head, c, less);
        assert(text.drop_last() =~= head.push(c) + less);
        assert(text.last() == tail.last());
    }
}

/// A file is told by the last part of its path: what stands before the last slash
/// does not matter, and its extension is what stands behind the last dot.
pub proof fn the_extension_stands_behind_the_last_dot(
    dir: Option<Seq<char>>,
    stem: Seq<char>,
    ext: Seq<char>,
)
    requires
        stem.len() > 0,
        stem != "."@,
        !stem.contains('/'),
        !ext.contains('/'),
        !ext.contains('.'),
    ensures
        ({
            let name = stem.push('.') + ext;
            let path = match dir {
                Some(d) => d.push('/') + name,
                None => name,
            };
            &&& file_name(path) == Some(name)
            &&& extension_of(path) == small_letters(ext)
        }),
{
    reveal_strlit(".");
    reveal_strlit("..");
    let name = stem.push('.') + ext;
    if name.contains('/') {
        let k = choose|k: int| 0 <= k < name.len() && name[k] == '/';
        if k < stem.len() {
            assert(stem[k] == '/');
        } else if k > stem.len() {
            assert(ext[k - stem.len() - 1] == '/');
        }
    }
    if name == ".."@ {
        assert(stem =~= "."@) by {
            assert(name[0] == '.' && name.len() == 2);
            assert(stem[0] == name[0]);
        }
    }
    if name == "."@ {
        assert(name.len() >= 2);
    }
    lemma_no_place(name, '/');
    match dir {
        Some(d) => {
            let path = d.push('/') + name;
            lemma_place_before(d, '/', name);
            assert(path.skip(d.len() as int + 1) =~= name);
            lemma_last_place(path, '/');
        },
        None => {
            assert(name.skip(0) =~= name);
            lemma_last_place(name, '/');
        },
    }
    lemma_place_before(stem, '.', ext);
    assert(name.skip(stem.len() as int + 1) =~= ext);
}

/// What is printed goes by the arguments: an address before a file before a text,
/// and a file by its extension. Without any of them it is standard input.
pub proof fn the_arguments_say_what_is_printed(
    text: Option<Seq<char>>,
    path: Seq<char>,
    address: Seq<char>,
    markdown: bool,
)
    ensures
        source_of(text, Some(path), Some(address), markdown) == Ok::<SourceText, Seq<char>>(
            SourceText::Url(address),
        ),
        text matches Some(t) ==> source_of(text, None, None, markdown) == Ok::<
            SourceText,
            Seq<char>,
        >(SourceText::Inline { text: t, markdown }),
        source_of(None, None, None, markdown) == Ok::<SourceText, Seq<char>>(
            SourceText::Stdin { markdown },
        ),
        source_of(None, Some("-"@), None, markdown) == Ok::<SourceText, Seq<char>>(
            SourceText::Stdin { markdown },
        ),
        text is Some ==> source_of(text, Some(path), None, markdown) is Err,
        ({
            let ext = extension_of(path);
            let found = source_of(None, Some(path), None, markdown);
            path != "-"@ ==> {
                &&& (ext == "png"@ || ext == "jpg"@ || ext == "jpeg"@) && !markdown ==> found
                    == Ok::<SourceText, Seq<char>>(SourceText::Image(path))
                &&& (ext == "png"@ || ext == "jpg"@ || ext == "jpeg"@) && markdown ==> found
                    is Err
                &&& ext == "txt"@ ==> found == Ok::<SourceText, Seq<char>>(
                    SourceText::Document { path, markdown },
                )
                &&& ext == "md"@ || ext == "markdown"@ ==> found == Ok::<SourceText, Seq<char>>(
                    SourceText::Document { path, markdown: true },
                )
                &&& ext != "png"@ && ext != "jpg"@ && ext != "jpeg"@ && ext != "txt"@ && ext
                    != "md"@ && ext != "markdown"@ ==> found is Err
            }
        }),
{
    reveal_strlit("png");
    reveal_strlit("jpg");
    reveal_strlit("jpeg");
    reveal_strlit("txt");
    reveal_strlit("md");
    reveal_strlit("markdown");
    assert("txt"@[0] == 't' && "png"@[0] == 'p' && "jpg"@[0] == 'j' && "jpeg"@[0] == 'j'
        && "md"@[0] == 'm' && "markdown"@[0] == 'm');
}

/// Each word for an algorithm stands for the one of that name.
pub proof fn dither_words_stand_for_their_algorithms()
    ensures
        dither_of(DitherArg::Floyd) == Dither::FloydSteinberg,
        dither_of(DitherArg::Atkinson) == Dither::Atkinson,
        dither_of(DitherArg::Threshold) == Dither::Threshold,
{
}

/// The columns of the `scan` table stand below each other as long as what is in them
/// is no longer than they are wide, and nothing is ever cut off.
pub proof fn scan_columns_line_up(name: Seq<char>, model: PrinterModel, id: Seq<char>, k: int)
    requires
        name.len() <= 20,
    ensures
        ({
            let row = scan_text(name, model.word(), id);
            &&& row.len() == 30 + id.len()
            &&& row.take(name.len() as int) == name
            &&& row.subrange(21, 21int + model.word().len()) == model.word()
            &&& row.skip(30) == id
            &&& name.len() <= k < 21 || 21 + model.word().len() <= k < 30 ==> row[k] == ' '
        }),
{
    reveal_strlit("lx-d02");
    reveal_strlit("x6");
    reveal_strlit(" ");
    let row = scan_text(name, model.word(), id);
    assert(row.take(name.len() as int) =~= name);
    assert(row.subrange(21, 21int + model.word().len()) =~= model.word());
    assert(row.skip(30) =~= id);
}

/// A name that is too long pushes the rest of its row to the right.
pub proof fn long_names_are_shown_whole(name: Seq<char>, model: PrinterModel, id: Seq<char>)
    requires
        name.len() > 20,
    ensures
        scan_text(name, model.word(), id).take(name.len() as int) == name,
        scan_text(name, model.word(), id).skip(name.len() + 10int) == id,
{
    reveal_strlit("lx-d02");
    reveal_strlit("x6");
    reveal_strlit(" ");
    let row = scan_text(name, model.word(), id);
    assert(row.take(name.len() as int) =~= name);
    assert(row.skip(name.len() + 10int) =~= id);
}

/// Services are listed in order with a blank between neighbours.
pub proof fn services_are_listed_in_order(words: Seq<Seq<char>>, next: Seq<char>)
    ensures
        joined(seq![next]) == next,
        words.len() > 0 ==> joined(words.push(next)) == joined(words).push(' ') + next,
{
    reveal_strlit(" ");
    assert(words.push(next).drop_last() =~= words);
    if words.len() > 0 {
        assert(joined(words.push(next)) =~= joined(words).push(' ') + next);
    }
}

/// The `status` command says how full the battery is and whether there is paper, then
/// only what the printer has told, and warns of heat and of a low battery.
pub proof fn the_status_says_what_was_told(s: Status)
    ensures
        ({
            let lines = status_text(s);
            let density = if s.density is Some {
                1int
            } else {
                0
            };
            let voltage = density + if s.voltage_mv is Some {
                1int
            } else {
                0
            };
            let heat = voltage + if s.overheat {
                1int
            } else {
                0
            };
            let low = heat + if s.low_battery {
                1int
            } else {
                0
            };
            &&& lines.len() == 2 + low
            &&& lines[0] == "Battery:  "@ + decimal_digits(s.battery_pct as nat) + "%"@ + (
            if s.charging {
                " (charging)"@
            } else if s.charged {
                " (charged)"@
            } else {
                ""@
            })
            &&& lines[1] == (if s.no_paper {
                "Paper:    "@ + "OUT"@
            } else {
                "Paper:    "@ + "OK"@
            })
            &&& s.density is Some ==> lines[2] == "Density:  "@ + decimal_digits(
                s.density->0 as nat,
            )
            &&& s.voltage_mv is Some ==> lines[2 + density] == "Voltage:  "@ + volts_text(
                s.voltage_mv->0 as nat,
            ) + " V"@
            &&& s.overheat ==> lines[2 + voltage] == "Warning:  print head is overheating"@
            &&& s.low_battery ==> lines[2 + heat] == "Warning:  battery is low"@
        }),
{
}

} // verus!
