//! Small helpers on text: numbers as digits, prefixes, and the like.

use vstd::prelude::*;

verus! {

/// The character of a decimal or hexadecimal digit.
pub open spec fn digit_char(d: int) -> char {
    if d < 10 {
        (48 + d) as char
    } else {
        (55 + d) as char
    }
}

/// A number in decimal, without leading zeros.
pub open spec fn decimal_digits(n: nat) -> Seq<char>
    decreases n,
{
    if n < 10 {
        seq![digit_char(n as int)]
    } else {
        decimal_digits(n / 10).push(digit_char((n % 10) as int))
    }
}

/// `String::push` of the standard library: one character goes to the end.
pub assume_specification[ String::push ](s: &mut String, c: char)
    ensures
        final(s)@ == old(s)@.push(c),
;

/// One hexadecimal digit, in capitals.
pub fn digit(d: u8) -> (c: char)
    requires
        d < 16,
    ensures
        c == digit_char(d as int),
{
    if d < 10 {
        (48u8 + d) as char
    } else {
        (55u8 + d) as char
    }
}

/// A number in decimal.
pub fn decimal(n: u128) -> (text: String)
    ensures
        text@ == decimal_digits(n as nat),
    decreases n,
{
    let mut text: String = if n < 10 {
        String::new()
    } else {
        decimal(n / 10)
    };
    text.push(digit((n % 10) as u8));
    assert(text@ =~= decimal_digits(n as nat));
    text
}

/// Whether `text` begins with `prefix`.
pub open spec fn has_prefix(text: Seq<char>, prefix: Seq<char>) -> bool {
    text.len() >= prefix.len() && text.take(prefix.len() as int) == prefix
}

/// Whether `part` stands in `text` at position `at`.
pub open spec fn stands_at(text: Seq<char>, part: Seq<char>, at: int) -> bool {
    0 <= at && at + part.len() <= text.len() && text.subrange(at, at + part.len()) == part
}

/// Whether `part` stands somewhere in `text`.
pub open spec fn holds_part(text: Seq<char>, part: Seq<char>) -> bool {
    exists|at: int| stands_at(text, part, at)
}

/// A character with capital ASCII letters made small.
pub open spec fn small(c: char) -> char {
    if 'A' <= c && c <= 'Z' {
        ((c as u32) + 32) as char
    } else {
        c
    }
}

/// Text with capital ASCII letters made small.
pub open spec fn small_letters(text: Seq<char>) -> Seq<char> {
    Seq::new(text.len(), |i: int| small(text[i]))
}

/// Whether a character is white space, as Unicode has it.
pub open spec fn is_white(c: char) -> bool {
    let n = c as u32;
    0x09 <= n <= 0x0D || n == 0x20 || n == 0x85 || n == 0xA0 || n == 0x1680 || 0x2000 <= n <= 0x200A
        || n == 0x2028 || n == 0x2029 || n == 0x202F || n == 0x205F || n == 0x3000
}

/// Whether there is nothing but white space in a text.
pub open spec fn is_blank_text(text: Seq<char>) -> bool {
    forall|i: int| 0 <= i < text.len() ==> is_white(#[trigger] text[i])
}

/// The characters of a text.
pub fn chars_of(s: &str) -> (chars: Vec<char>)
    ensures
        chars@ == s@,
{
    let mut chars: Vec<char> = Vec::new();
    for c in it: s.chars()
        invariant
            chars@ == it.seq().take(it.index()),
            it.seq() == s@,
    {
        chars.push(c);
        assert(chars@ =~= it.seq().take(it.index() + 1));
    }
    assert(chars@ =~= s@);
    chars
}

/// The text made of some characters.
pub fn text_of(chars: &[char]) -> (s: String)
    ensures
        s@ == chars@,
{
    let mut s: String = String::new();
    let mut i: usize = 0;
    while i < chars.len()
        invariant
            i <= chars@.len(),
            s@ == chars@.take(i as int),
        decreases chars@.len() - i,
    {
        s.push(chars[i]);
        i = i + 1;
        assert(s@ =~= chars@.take(i as int));
    }
    assert(s@ =~= chars@);
    s
}

/// Whether two texts are the same.
pub fn same_text(a: &str, b: &str) -> (same: bool)
    ensures
        same == (a@ == b@),
{
    let x: Vec<char> = chars_of(a);
    let y: Vec<char> = chars_of(b);
    same_chars(x.as_slice(), y.as_slice())
}

/// Whether two runs of characters are the same.
pub fn same_chars(x: &[char], y: &[char]) -> (same: bool)
    ensures
        same == (x@ == y@),
{
    if x.len() != y.len() {
        return false;
    }
    let mut i: usize = 0;
    while i < x.len()
        invariant
            x@.len() == y@.len(),
            i <= x@.len(),
            x@.take(i as int) == y@.take(i as int),
        decreases x@.len() - i,
    {
        if x[i] != y[i] {
            assert(x@[i as int] != y@[i as int]);
            return false;
        }
        i = i + 1;
        assert(x@.take(i as int) =~= x@.take(i - 1).push(x@[i - 1]));
        assert(y@.take(i as int) =~= y@.take(i - 1).push(y@[i - 1]));
    }
    assert(x@ =~= x@.take(i as int) && y@ =~= y@.take(i as int));
    true
}

/// Whether `part` stands in `text` at position `at`.
fn match_at(text: &[char], part: &[char], at: usize) -> (found: bool)
    requires
        at + part@.len() <= text@.len(),
    ensures
        found == stands_at(text@, part@, at as int),
{
    assert(text@.len() == text.len());
    let piece: &[char] = vstd::slice::slice_subrange(text, at, at + part.len());
    same_chars(piece, part)
}

/// Whether `text` begins with `prefix`.
pub fn begins_with(text: &str, prefix: &str) -> (found: bool)
    ensures
        found == has_prefix(text@, prefix@),
{
    let t: Vec<char> = chars_of(text);
    let p: Vec<char> = chars_of(prefix);
    if p.len() > t.len() {
        return false;
    }
    assert(text@.take(p@.len() as int) =~= text@.subrange(0, p@.len() as int));
    match_at(t.as_slice(), p.as_slice(), 0)
}

/// Whether `part` stands somewhere in `text`.
pub fn contains(text: &str, part: &str) -> (found: bool)
    ensures
        found == holds_part(text@, part@),
{
    let t: Vec<char> = chars_of(text);
    let p: Vec<char> = chars_of(part);
    if p.len() > t.len() {
        return false;
    }
    let last: usize = t.len() - p.len();
    let mut at: usize = 0;
    loop
        invariant
            at <= last,
            t@ == text@,
            p@ == part@,
            last + p@.len() == t@.len(),
            forall|k: int| 0 <= k < at ==> !stands_at(text@, part@, k),
        decreases last - at,
    {
        if match_at(t.as_slice(), p.as_slice(), at) {
            return true;
        }
        if at == last {
            assert forall|k: int| !stands_at(text@, part@, k) by {}
            return false;
        }
        at = at + 1;
    }
}

/// A character with capital ASCII letters made small.
pub fn small_char(c: char) -> (r: char)
    ensures
        r == small(c),
{
    if c >= 'A' && c <= 'Z' {
        (c as u8 + 32) as char
    } else {
        c
    }
}

/// Text with capital ASCII letters made small.
pub fn to_small_letters(text: &str) -> (r: String)
    ensures
        r@ == small_letters(text@),
{
    let t: Vec<char> = chars_of(text);
    let mut r: String = String::new();
    let mut i: usize = 0;
    while i < t.len()
        invariant
            i <= t@.len(),
            t@ == text@,
            r@ == small_letters(text@).take(i as int),
        decreases t@.len() - i,
    {
        r.push(small_char(t[i]));
        i = i + 1;
        assert(r@ =~= small_letters(text@).take(i as int));
    }
    assert(r@ =~= small_letters(text@));
    r
}

/// Whether a character is white space.
pub fn is_white_char(c: char) -> (r: bool)
    ensures
        r == is_white(c),
{
    let n: u32 = c as u32;
    (n >= 0x09 && n <= 0x0D) || n == 0x20 || n == 0x85 || n == 0xA0 || n == 0x1680 || (n >= 0x2000
        && n <= 0x200A) || n == 0x2028 || n == 0x2029 || n == 0x202F || n == 0x205F || n == 0x3000
}

/// Whether there is nothing but white space in a text.
pub fn is_blank(text: &str) -> (blank: bool)
    ensures
        blank == is_blank_text(text@),
{
    let t: Vec<char> = chars_of(text);
    let mut i: usize = 0;
    while i < t.len()
        invariant
            i <= t@.len(),
            t@ == text@,
            forall|k: int| 0 <= k < i ==> is_white(#[trigger] text@[k]),
        decreases t@.len() - i,
    {
        if !is_white_char(t[i]) {
            return false;
        }
        i = i + 1;
    }
    true
}

/// Text without its leading white space.
pub open spec fn skip_white(text: Seq<char>) -> Seq<char>
    decreases text.len(),
{
    if text.len() > 0 && is_white(text[0]) {
        skip_white(text.skip(1))
    } else {
        text
    }
}

/// Text without its trailing white space.
pub open spec fn drop_white(text: Seq<char>) -> Seq<char>
    decreases text.len(),
{
    if text.len() > 0 && is_white(text.last()) {
        drop_white(text.drop_last())
    } else {
        text
    }
}

/// Text without the white space around it.
pub open spec fn trimmed(text: Seq<char>) -> Seq<char> {
    drop_white(skip_white(text))
}

/// Trimming takes white space off both ends and nothing else: what is left is a
/// part of the text that begins and ends with something else, with nothing but
/// white space around it.
pub proof fn trimming_takes_white_space_off_the_ends(text: Seq<char>)
    ensures
        exists|a: int, b: int|
            #![trigger text.subrange(a, b)]
            0 <= a <= b <= text.len() && trimmed(text) == text.subrange(a, b) && is_blank_text(
                text.take(a),
            ) && is_blank_text(text.skip(b)) && (a < b ==> !is_white(text[a]) && !is_white(
                text[b - 1],
            )),
{
    let a = lemma_skip(text);
    let rest = text.skip(a);
    let n = lemma_drop(rest);
    let b = a + n;
    assert(trimmed(text) =~= text.subrange(a, b));
    assert(text.skip(b) =~= rest.skip(n));
    if n == 0 && a < text.len() {
        assert(rest[0] == text[a]);
        assert(is_white(rest.skip(0)[0]));
    }
    if n > 0 {
        assert(rest[n - 1] == text[b - 1]);
        assert(rest[0] == text[a]);
    }
}

proof fn lemma_skip(text: Seq<char>) -> (a: int)
    ensures
        0 <= a <= text.len(),
        skip_white(text) == text.skip(a),
        is_blank_text(text.take(a)),
        a < text.len() ==> !is_white(text[a]),
    decreases text.len(),
{
    if text.len() > 0 && is_white(text[0]) {
        let a = lemma_skip(text.skip(1));
        assert(text.skip(1).skip(a) =~= text.skip(a + 1));
        assert forall|i: int| 0 <= i < text.take(a + 1).len() implies is_white(
            #[trigger] text.take(a + 1)[i],
        ) by {
            if i > 0 {
                assert(is_white(text.skip(1).take(a)[i - 1]));
            }
        }
        a + 1
    } else {
        assert(text.skip(0) =~= text);
        0
    }
}

proof fn lemma_drop(text: Seq<char>) -> (n: int)
    ensures
        0 <= n <= text.len(),
        drop_white(text) == text.take(n),
        is_blank_text(text.skip(n)),
        n > 0 ==> !is_white(text[n - 1]),
    decreases text.len(),
{
    if text.len() > 0 && is_white(text.last()) {
        let less = text.drop_last();
        let n = lemma_drop(less);
        assert(less.take(n) =~= text.take(n));
        assert forall|i: int| 0 <= i < text.skip(n).len() implies is_white(
            #[trigger] text.skip(n)[i],
        ) by {
            if n + i < less.len() {
                assert(is_white(less.skip(n)[i]));
            }
        }
        n
    } else {
        assert(text.take(text.len() as int) =~= text);
        text.len() as int
    }
}

/// The characters of a text without the white space around it.
pub fn trim_chars(text: &[char]) -> (r: Vec<char>)
    ensures
        r@ == trimmed(text@),
{
    let mut from: usize = 0;
    assert(text@.skip(0) =~= text@);
    while from < text.len() && is_white_char(text[from])
        invariant
            from <= text@.len(),
            skip_white(text@) == skip_white(text@.skip(from as int)),
        decreases text@.len() - from,
    {
        assert(text@.skip(from as int).skip(1) =~= text@.skip(from + 1));
        from = from + 1;
    }
    let ghost rest = text@.skip(from as int);
    let mut to: usize = text.len();
    assert(text@.subrange(from as int, to as int) =~= rest);
    while to > from && is_white_char(text[to - 1])
        invariant
            from <= to <= text@.len(),
            drop_white(rest) == drop_white(text@.subrange(from as int, to as int)),
        decreases to - from,
    {
        assert(text@.subrange(from as int, to as int).drop_last() =~= text@.subrange(
            from as int,
            to - 1,
        ));
        to = to - 1;
    }
    let piece: &[char] = vstd::slice::slice_subrange(text, from, to);
    vstd::slice::slice_to_vec(piece)
}

/// Text without the white space around it.
pub fn trim(text: &str) -> (r: String)
    ensures
        r@ == trimmed(text@),
{
    let t: Vec<char> = chars_of(text);
    text_of(trim_chars(t.as_slice()).as_slice())
}

/// The pieces between the occurrences of a character; there is always one.
pub open spec fn pieces(text: Seq<char>, c: char) -> Seq<Seq<char>>
    decreases text.len(),
{
    if text.len() == 0 {
        seq![Seq::empty()]
    } else {
        let before = pieces(text.drop_last(), c);
        if text.last() == c {
            before.push(Seq::empty())
        } else {
            before.update(before.len() - 1, before.last().push(text.last()))
        }
    }
}

/// There is always a piece.
pub proof fn lemma_pieces_not_empty(text: Seq<char>, c: char)
    ensures
        pieces(text, c).len() >= 1,
    decreases text.len(),
{
    if text.len() > 0 {
        lemma_pieces_not_empty(text.drop_last(), c);
    }
}

/// Some texts one after the other, with a character between each two.
pub open spec fn joined(parts: Seq<Seq<char>>, c: char) -> Seq<char>
    decreases parts.len(),
{
    if parts.len() == 0 {
        Seq::empty()
    } else if parts.len() == 1 {
        parts[0]
    } else {
        joined(parts.drop_last(), c).push(c) + parts.last()
    }
}

/// Splitting loses nothing: the pieces with the character between them are the
/// text, and no piece holds the character.
pub proof fn pieces_make_up_the_text(text: Seq<char>, c: char)
    ensures
        joined(pieces(text, c), c) == text,
        forall|i: int|
            0 <= i < pieces(text, c).len() ==> !(#[trigger] pieces(text, c)[i]).contains(c),
    decreases text.len(),
{
    let all = pieces(text, c);
    if text.len() == 0 {
        assert(all[0] =~= Seq::empty());
    } else {
        let before = pieces(text.drop_last(), c);
        pieces_make_up_the_text(text.drop_last(), c);
        lemma_pieces_not_empty(text.drop_last(), c);
        assert(text =~= text.drop_last().push(text.last()));
        if text.last() == c {
            assert(all.drop_last() =~= before);
            assert(joined(all, c) =~= text);
            assert forall|i: int| 0 <= i < all.len() implies !(#[trigger] all[i]).contains(c) by {
                if i < before.len() {
                    assert(!before[i].contains(c));
                }
            }
        } else {
            let n = before.len() - 1;
            assert(all.drop_last() =~= before.drop_last());
            assert(all.last() =~= before.last().push(text.last()));
            assert(joined(all, c) =~= text);
            assert forall|i: int| 0 <= i < all.len() implies !(#[trigger] all[i]).contains(c) by {
                assert(!before[i].contains(c));
                if i == n {
                    if all[n].contains(c) {
                        let k = choose|k: int| 0 <= k < all[n].len() && all[n][k] == c;
                        assert(before[n][k] == c);
                    }
                }
            }
        }
    }
}

/// The characters of each text of a list.
pub open spec fn char_lists(lists: Seq<Vec<char>>) -> Seq<Seq<char>> {
    Seq::new(lists.len(), |i: int| lists[i]@)
}

/// The pieces between the occurrences of a character.
pub fn split_chars(text: &[char], c: char) -> (r: Vec<Vec<char>>)
    ensures
        char_lists(r@) == pieces(text@, c),
        r@.len() >= 1,
{
    let mut r: Vec<Vec<char>> = Vec::new();
    let mut current: Vec<char> = Vec::new();
    let mut i: usize = 0;
    assert(text@.take(0) =~= Seq::empty());
    assert(char_lists(r@).push(current@) =~= pieces(text@.take(0), c));
    while i < text.len()
        invariant
            i <= text@.len(),
            char_lists(r@).push(current@) == pieces(text@.take(i as int), c),
        decreases text@.len() - i,
    {
        let ch: char = text[i];
        let ghost before = char_lists(r@).push(current@);
        assert(text@.take(i + 1).drop_last() =~= text@.take(i as int));
        assert(text@.take(i + 1).last() == ch);
        if ch == c {
            let ghost done = char_lists(r@);
            let ghost piece = current@;
            r.push(current);
            current = Vec::new();
            assert(char_lists(r@) =~= done.push(piece));
            assert(char_lists(r@).push(current@) =~= before.push(Seq::empty()));
        } else {
            current.push(ch);
            assert(char_lists(r@).push(current@) =~= before.update(
                before.len() - 1,
                before.last().push(ch),
            ));
        }
        i = i + 1;
    }
    assert(text@.take(i as int) =~= text@);
    let ghost done = char_lists(r@);
    let ghost piece = current@;
    r.push(current);
    assert(char_lists(r@) =~= done.push(piece));
    r
}

/// Whether a text is made of decimal digits.
pub open spec fn is_digits(text: Seq<char>) -> bool {
    text.len() > 0 && forall|i: int| 0 <= i < text.len() ==> '0' <= #[trigger] text[i] <= '9'
}

/// The number that decimal digits stand for.
pub open spec fn value_of_digits(text: Seq<char>) -> nat
    decreases text.len(),
{
    if text.len() == 0 {
        0
    } else {
        value_of_digits(text.drop_last()) * 10 + (text.last() as int - 48) as nat
    }
}

/// Whether a text is a number in decimal, without leading zeros.
pub open spec fn is_decimal(text: Seq<char>, n: nat) -> bool {
    &&& is_digits(text)
    &&& value_of_digits(text) == n
    &&& text.len() == 1 || text[0] != '0'
}

/// The digits of a number stand for that number, without leading zeros.
pub proof fn decimal_digits_stand_for_the_number(n: nat)
    ensures
        is_decimal(decimal_digits(n), n),
    decreases n,
{
    let text = decimal_digits(n);
    let d = (n % 10) as int;
    assert(48 <= digit_char(d) as int <= 57 && digit_char(d) as int - 48 == d);
    if n >= 10 {
        let head = decimal_digits(n / 10);
        decimal_digits_stand_for_the_number(n / 10);
        assert(text.drop_last() =~= head);
        assert(text[0] == head[0]);
        assert forall|i: int| 0 <= i < text.len() implies '0' <= #[trigger] text[i] <= '9' by {
            if i < head.len() {
                assert(text[i] == head[i]);
            }
        }
        assert(head[0] != '0') by {
            if head.len() == 1 {
                assert(head.drop_last() =~= Seq::empty());
                assert(value_of_digits(head.drop_last()) == 0);
            }
        }
    } else {
        assert(text.drop_last() =~= Seq::empty());
        assert(value_of_digits(text.drop_last()) == 0);
    }
}

/// The 32-bit number that a text stands for: digits, perhaps with a plus sign
/// before them.
pub open spec fn number_in(text: Seq<char>) -> Option<nat> {
    let digits = if text.len() > 0 && text[0] == '+' {
        text.skip(1)
    } else {
        text
    };
    if is_digits(digits) && value_of_digits(digits) <= u32::MAX {
        Some(value_of_digits(digits))
    } else {
        None
    }
}

proof fn lemma_value_grows(text: Seq<char>, n: int)
    requires
        is_digits(text),
        0 <= n <= text.len(),
    ensures
        value_of_digits(text.take(n)) <= value_of_digits(text),
    decreases text.len() - n,
{
    if n < text.len() {
        assert(text.take(n + 1).drop_last() =~= text.take(n));
        lemma_value_grows(text, n + 1);
    } else {
        assert(text.take(n) =~= text);
    }
}

/// The 32-bit number that a text stands for.
#[verifier::loop_isolation(false)]
pub fn parse_number(text: &[char]) -> (n: Option<u32>)
    ensures
        match n {
            Some(v) => number_in(text@) == Some(v as nat),
            None => number_in(text@) is None,
        },
{
    let from: usize = if text.len() > 0 && text[0] == '+' {
        1
    } else {
        0
    };
    let ghost digits = if from == 1 {
        text@.skip(1)
    } else {
        text@
    };
    if from == text.len() {
        return None;
    }
    let mut value: u64 = 0;
    let mut i: usize = from;
    assert(digits.take(0) =~= Seq::empty());
    while i < text.len()
        invariant
            from <= i <= text@.len(),
            from <= 1,
            digits == if from == 1 {
                text@.skip(1)
            } else {
                text@
            },
            forall|j: int| 0 <= j < i - from ==> '0' <= #[trigger] digits[j] <= '9',
            value == value_of_digits(digits.take(i - from)),
            value <= u32::MAX,
        decreases text@.len() - i,
    {
        let c: char = text[i];
        assert(digits[i - from] == c);
        if !(c >= '0' && c <= '9') {
            return None;
        }
        assert(digits.take(i - from + 1).drop_last() =~= digits.take(i - from));
        value = value * 10 + (c as u64 - 48);
        i = i + 1;
        if value > 0xFFFF_FFFF {
            proof {
                if is_digits(digits) {
                    lemma_value_grows(digits, i - from);
                }
            }
            return None;
        }
    }
    assert(digits.take(i - from) =~= digits);
    Some(value as u32)
}

/// How a text is shown between quotes, with what would be hard to read written
/// out.
pub uninterp spec fn quoted(text: Seq<char>) -> Seq<char>;

/// Whether a text holds nothing but printable ASCII characters, without quotes
/// and backslashes.
pub open spec fn is_plain_text(text: Seq<char>) -> bool {
    forall|i: int|
        0 <= i < text.len() ==> ' ' <= #[trigger] text[i] <= '~' && text[i] != '"' && text[i]
            != '\\'
}

/// The `Debug` form of a `str` in the standard library, which depends on the
/// text alone. Plain text stands between two quotes as it is.
#[verifier::external_body]
pub(crate) fn quote(text: &str) -> (r: String)
    ensures
        r@ == quoted(text@),
        is_plain_text(text@) ==> r@ == seq!['"'] + text@ + seq!['"'],
{
    format!("{:?}", text)
}

} // verus!
