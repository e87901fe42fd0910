//! The fence body of a wagara band: `key: value` lines.

use crate::strings::{
    chars_of, decimal, parse_number, quote, same_text, split_chars, text_of, to_small_letters,
    trim, trim_chars,
};
use vstd::prelude::*;
#[allow(unused_imports)]
use crate::strings::{
    char_lists, decimal_digits, number_in, pieces, quoted, small_letters, trimmed,
};

verus! {

/// Smallest band height, in pixels.
pub const MIN_HEIGHT: u32 = 16;

/// Largest band height, in pixels.
pub const MAX_HEIGHT: u32 = 400;

/// Smallest motif scale.
pub const MIN_SCALE: u32 = 1;

/// Largest motif scale.
pub const MAX_SCALE: u32 = 4;

/// Default band height, in pixels.
pub const DEFAULT_HEIGHT: u32 = 56;

/// Errors from wagara rendering.
#[derive(Debug)]
pub enum WagaraError {
    /// The fence named a pattern this module does not draw.
    UnknownPattern(String),
    /// A `key: value` line in the fence body was malformed or out of range.
    BadOption(String),
}

impl WagaraError {
    /// The wording of [`WagaraError::message`].
    pub open spec fn wording(&self) -> Seq<char> {
        match *self {
            WagaraError::UnknownPattern(name) => "unknown wagara pattern "@ + quoted(name@)
                + " (valid: asanoha, ichimatsu, kanoko, kikkou, sayagata, seigaiha, shippou, tatewaku, uroko, yagasuri)"@,
            WagaraError::BadOption(why) => why@,
        }
    }

    /// One line for the user.
    pub fn message(&self) -> (text: String)
        ensures
            text@ == self.wording(),
    {
        match self {
            WagaraError::UnknownPattern(name) => {
                let mut text: String = "unknown wagara pattern ".to_owned();
                text.append(quote(name.as_str()).as_str());
                text.append(
                    " (valid: asanoha, ichimatsu, kanoko, kikkou, sayagata, seigaiha, shippou, tatewaku, uroko, yagasuri)",
                );
                text
            },
            WagaraError::BadOption(why) => why.as_str().to_owned(),
        }
    }
}

/// Tuning knobs from a wagara fence body.
#[derive(Debug, Clone, Copy, PartialEq, Eq, Structural)]
pub struct WagaraOptions {
    /// Band height in pixels.
    pub height: u32,
    /// Motif size multiplier.
    pub scale: u32,
}

/// What a band looks like unless told otherwise.
pub open spec fn default_options() -> WagaraOptions {
    WagaraOptions { height: DEFAULT_HEIGHT, scale: MIN_SCALE }
}

impl Default for WagaraOptions {
    fn default() -> (opts: Self)
        ensures
            opts == default_options(),
    {
        WagaraOptions { height: DEFAULT_HEIGHT, scale: MIN_SCALE }
    }
}

/// The first place of a character, or the length if it does not occur.
pub open spec fn first_place(text: Seq<char>, c: char) -> int
    decreases text.len(),
{
    if text.len() == 0 {
        0
    } else if text[0] == c {
        0
    } else {
        1 + first_place(text.skip(1), c)
    }
}

/// The range of a number that an option takes.
pub open spec fn range_of(key: Seq<char>) -> (u32, u32) {
    if key == "height"@ {
        (MIN_HEIGHT, MAX_HEIGHT)
    } else {
        (MIN_SCALE, MAX_SCALE)
    }
}

/// The options after one more line, or why the line is no good. The line has no
/// white space around it.
pub open spec fn option_line(opts: WagaraOptions, line: Seq<char>) -> Result<
    WagaraOptions,
    Seq<char>,
> {
    let colon = first_place(line, ':');
    if line.len() == 0 {
        Ok(opts)
    } else if colon >= line.len() {
        Err(
            "wagara option "@ + quoted(line)
                + " is not a `key: value` line (valid keys: height, scale)"@,
        )
    } else {
        let key = small_letters(trimmed(line.take(colon)));
        let value = trimmed(line.skip(colon + 1));
        if key != "height"@ && key != "scale"@ {
            Err("unknown wagara option "@ + quoted(key) + " (valid: height, scale)"@)
        } else {
            match number_in(value) {
                None => Err(
                    "wagara "@ + key + " must be a whole number, got "@ + quoted(value),
                ),
                Some(n) => if range_of(key).0 <= n <= range_of(key).1 {
                    if key == "height"@ {
                        Ok(WagaraOptions { height: n as u32, ..opts })
                    } else {
                        Ok(WagaraOptions { scale: n as u32, ..opts })
                    }
                } else {
                    Err(
                        "wagara "@ + key + " must be between "@ + decimal_digits(
                            range_of(key).0 as nat,
                        ) + " and "@ + decimal_digits(range_of(key).1 as nat) + ", got "@
                            + decimal_digits(n),
                    )
                },
            }
        }
    }
}

/// The options after some lines.
pub open spec fn option_lines(lines: Seq<Seq<char>>) -> Result<WagaraOptions, Seq<char>>
    decreases lines.len(),
{
    if lines.len() == 0 {
        Ok(default_options())
    } else {
        match option_lines(lines.drop_last()) {
            Err(e) => Err(e),
            Ok(opts) => option_line(opts, trimmed(lines.last())),
        }
    }
}

/// The options that a fence body asks for.
pub open spec fn options_in(body: Seq<char>) -> Result<WagaraOptions, Seq<char>> {
    option_lines(pieces(body, '\n'))
}

/// Whether an outcome is the one that is called for.
pub open spec fn is_outcome(
    r: Result<WagaraOptions, WagaraError>,
    s: Result<WagaraOptions, Seq<char>>,
) -> bool {
    match s {
        Ok(opts) => r == Ok::<WagaraOptions, WagaraError>(opts),
        Err(why) => r matches Err(WagaraError::BadOption(e)) && e@ == why,
    }
}

fn find_first(text: &[char], c: char) -> (place: usize)
    ensures
        place == first_place(text@, c),
        place <= text@.len(),
{
    let mut i: usize = 0;
    assert(text@.skip(0) =~= text@);
    while i < text.len()
        invariant
            i <= text@.len(),
            first_place(text@, c) == i + first_place(text@.skip(i as int), c),
        decreases text@.len() - i,
    {
        if text[i] == c {
            return i;
        }
        assert(text@.skip(i as int).skip(1) =~= text@.skip(i + 1));
        i = i + 1;
    }
    i
}

fn bad(before: &str, middle: &str, after: &str) -> (e: Result<WagaraOptions, WagaraError>)
    ensures
        e matches Err(WagaraError::BadOption(why)) && why@ == before@ + middle@ + after@,
{
    let mut why: String = before.to_owned();
    why.append(middle);
    why.append(after);
    Err(WagaraError::BadOption(why))
}

fn parse_line(opts: WagaraOptions, line: &[char]) -> (r: Result<WagaraOptions, WagaraError>)
    ensures
        is_outcome(r, option_line(opts, line@)),
{
    if line.len() == 0 {
        return Ok(opts);
    }
    let colon: usize = find_first(line, ':');
    if colon >= line.len() {
        let shown: String = quote(text_of(line).as_str());
        return bad(
            "wagara option ",
            shown.as_str(),
            " is not a `key: value` line (valid keys: height, scale)",
        );
    }
    assert(line@.len() == line.len());
    let left: &[char] = vstd::slice::slice_subrange(line, 0, colon);
    let right: &[char] = vstd::slice::slice_subrange(line, colon + 1, line.len());
    assert(left@ =~= line@.take(colon as int));
    assert(right@ =~= line@.skip(colon + 1));
    let key: String = to_small_letters(text_of(trim_chars(left).as_slice()).as_str());
    let value: Vec<char> = trim_chars(right);
    let tall: bool = same_text(key.as_str(), "height");
    if !tall && !same_text(key.as_str(), "scale") {
        let shown: String = quote(key.as_str());
        return bad("unknown wagara option ", shown.as_str(), " (valid: height, scale)");
    }
    let n: u32 = match parse_number(value.as_slice()) {
        Some(n) => n,
        None => {
            let mut why: String = "wagara ".to_owned();
            why.append(key.as_str());
            why.append(" must be a whole number, got ");
            why.append(quote(text_of(value.as_slice()).as_str()).as_str());
            return Err(WagaraError::BadOption(why));
        },
    };
    let (lo, hi): (u32, u32) = if tall {
        (MIN_HEIGHT, MAX_HEIGHT)
    } else {
        (MIN_SCALE, MAX_SCALE)
    };
    if n < lo || n > hi {
        let mut why: String = "wagara ".to_owned();
        why.append(key.as_str());
        why.append(" must be between ");
        why.append(decimal(lo as u128).as_str());
        why.append(" and ");
        why.append(decimal(hi as u128).as_str());
        why.append(", got ");
        why.append(decimal(n as u128).as_str());
        return Err(WagaraError::BadOption(why));
    }
    if tall {
        Ok(WagaraOptions { height: n, scale: opts.scale })
    } else {
        Ok(WagaraOptions { height: opts.height, scale: n })
    }
}

proof fn lemma_fault_stays(lines: Seq<Seq<char>>, n: int)
    requires
        0 <= n <= lines.len(),
        option_lines(lines.take(n)) is Err,
    ensures
        option_lines(lines) == option_lines(lines.take(n)),
    decreases lines.len() - n,
{
    if n < lines.len() {
        assert(lines.take(n + 1).drop_last() =~= lines.take(n));
        lemma_fault_stays(lines, n + 1);
    } else {
        assert(lines.take(n) =~= lines);
    }
}

/// Parse a wagara fence body: zero or more `key: value` lines.
///
/// Blank lines are ignored, keys are case-insensitive, and spacing is free.
/// Anything else is an error rather than a silent default — a separator that
/// quietly ignored `heigth: 80` would just look wrong with no way to tell why.
pub fn parse_wagara_options(body: &str) -> (r: Result<WagaraOptions, WagaraError>)
    ensures
        is_outcome(r, options_in(body@)),
{
    let chars: Vec<char> = chars_of(body);
    let lines: Vec<Vec<char>> = split_chars(chars.as_slice(), '\n');
    let ghost all = char_lists(lines@);
    let mut opts: WagaraOptions = WagaraOptions::default();
    let mut i: usize = 0;
    assert(all.take(0) =~= Seq::empty());
    while i < lines.len()
        invariant
            i <= lines@.len(),
            all == char_lists(lines@),
            all == pieces(body@, '\n'),
            option_lines(all.take(i as int)) == Ok::<WagaraOptions, Seq<char>>(opts),
        decreases lines@.len() - i,
    {
        let line: Vec<char> = trim_chars(lines[i].as_slice());
        proof {
            assert(all.take(i + 1).drop_last() =~= all.take(i as int));
            assert(all.take(i + 1).last() == lines@[i as int]@);
        }
        match parse_line(opts, line.as_slice()) {
            Ok(next) => {
                opts = next;
            },
            Err(e) => {
                proof {
                    lemma_fault_stays(all, i + 1);
                }
                return Err(e);
            },
        }
        i = i + 1;
    }
    assert(all.take(i as int) =~= all);
    Ok(opts)
}

/// Options that parse are within range.
pub proof fn parsed_options_are_in_range(lines: Seq<Seq<char>>)
    ensures
        option_lines(lines) matches Ok(opts) ==> MIN_HEIGHT <= opts.height <= MAX_HEIGHT
            && MIN_SCALE <= opts.scale <= MAX_SCALE,
    decreases lines.len(),
{
    if lines.len() > 0 {
        parsed_options_are_in_range(lines.drop_last());
    }
}

} // verus!
