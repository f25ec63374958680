//! Byte-level character classes, source-position arithmetic, and text helpers
//! shared by the two tokenizers.
//!
//! Input arrives as a raw byte buffer and each byte is treated as one
//! character, namely the code point with that value. The classes below
//! therefore only need to cover the 256 one-byte code points; they agree with
//! the Unicode `Alphabetic` and `Numeric` properties on that range.
use vstd::prelude::*;
use vstd::string::StringExecFns;

verus! {

/// A plain space character.
pub open spec fn is_space_byte(b: u8) -> bool {
    b == 32
}

/// A line break: `\n` or `\r`.
pub open spec fn is_line_break(b: u8) -> bool {
    b == 10 || b == 13
}

/// Whitespace between tokens: a space or a line break.
pub open spec fn is_blank_byte(b: u8) -> bool {
    is_space_byte(b) || is_line_break(b)
}

/// Alphabetic one-byte code points: the ASCII letters and the Latin-1
/// letters (the feminine and masculine ordinal indicators, the micro sign,
/// and the accented letter ranges, which exclude the multiplication and
/// division signs).
pub open spec fn is_alpha_byte(b: u8) -> bool {
    (65 <= b && b <= 90) || (97 <= b && b <= 122) || b == 170 || b == 181 || b == 186 || (192 <= b
        && b <= 214) || (216 <= b && b <= 246) || 248 <= b
}

/// Numeric one-byte code points: the ASCII digits and the Latin-1 superscript
/// and fraction signs.
pub open spec fn is_numeric_byte(b: u8) -> bool {
    (48 <= b && b <= 57) || b == 178 || b == 179 || b == 185 || b == 188 || b == 189 || b == 190
}

/// A character that may continue an identifier: alphanumeric or underscore.
pub open spec fn is_ident_byte(b: u8) -> bool {
    is_alpha_byte(b) || is_numeric_byte(b) || b == 95
}

/// A character that may appear in a numeric literal: numeric or a period.
pub open spec fn is_number_like_byte(b: u8) -> bool {
    is_numeric_byte(b) || b == 46
}

/// An ASCII decimal digit.
pub open spec fn is_ascii_digit(b: u8) -> bool {
    48 <= b && b <= 57
}

pub fn blank_byte(b: u8) -> (r: bool)
    ensures
        r == is_blank_byte(b),
{
    b == 32 || b == 10 || b == 13
}

pub fn alpha_byte(b: u8) -> (r: bool)
    ensures
        r == is_alpha_byte(b),
{
    (65 <= b && b <= 90) || (97 <= b && b <= 122) || b == 170 || b == 181 || b == 186 || (192 <= b
        && b <= 214) || (216 <= b && b <= 246) || 248 <= b
}

pub fn numeric_byte(b: u8) -> (r: bool)
    ensures
        r == is_numeric_byte(b),
{
    (48 <= b && b <= 57) || b == 178 || b == 179 || b == 185 || b == 188 || b == 189 || b == 190
}

pub fn ident_byte(b: u8) -> (r: bool)
    ensures
        r == is_ident_byte(b),
{
    alpha_byte(b) || numeric_byte(b) || b == 95
}

pub fn number_like_byte(b: u8) -> (r: bool)
    ensures
        r == is_number_like_byte(b),
{
    numeric_byte(b) || b == 46
}

/// The line number of the character at index `k` of `buf`, counting from
/// `init_line`: each line break before `k` starts a new line.
pub open spec fn line_at(buf: Seq<u8>, init_line: nat, k: int) -> nat
    decreases k,
{
    if k <= 0 {
        init_line
    } else {
        line_at(buf, init_line, k - 1) + (if is_line_break(buf[k - 1]) {
            1nat
        } else {
            0nat
        })
    }
}

/// The column of the character at index `k` of `buf`: zero at the start of
/// the buffer and directly after each line break, advancing by one per
/// character otherwise.
pub open spec fn col_at(buf: Seq<u8>, k: int) -> nat
    decreases k,
{
    if k <= 0 {
        0nat
    } else if is_line_break(buf[k - 1]) {
        0nat
    } else {
        col_at(buf, k - 1) + 1
    }
}

/// Lines and columns never outrun the number of characters consumed.
pub proof fn lemma_pos_bounds(buf: Seq<u8>, init_line: nat, k: int)
    requires
        0 <= k,
    ensures
        line_at(buf, init_line, k) <= init_line + k,
        col_at(buf, k) <= k,
    decreases k,
{
    if k > 0 {
        lemma_pos_bounds(buf, init_line, k - 1);
    }
}

/// The first index at or after `i` that does not continue an identifier.
pub open spec fn scan_ident_end(buf: Seq<u8>, i: int) -> int
    decreases buf.len() - i,
{
    if 0 <= i < buf.len() && is_ident_byte(buf[i]) {
        scan_ident_end(buf, i + 1)
    } else {
        i
    }
}

/// The first index at or after `i` that cannot belong to a numeric literal.
pub open spec fn scan_number_end(buf: Seq<u8>, i: int) -> int
    decreases buf.len() - i,
{
    if 0 <= i < buf.len() && is_number_like_byte(buf[i]) {
        scan_number_end(buf, i + 1)
    } else {
        i
    }
}

/// The first index at or after `i` that ends a line comment: a line break,
/// or the end of the input.
pub open spec fn skip_comment_body(buf: Seq<u8>, i: int) -> int
    decreases buf.len() - i,
{
    if 0 <= i < buf.len() && !is_line_break(buf[i]) {
        skip_comment_body(buf, i + 1)
    } else {
        i
    }
}

pub proof fn lemma_scan_ident_end(buf: Seq<u8>, i: int)
    requires
        0 <= i <= buf.len(),
    ensures
        i <= scan_ident_end(buf, i) <= buf.len(),
        forall|m: int| i <= m < scan_ident_end(buf, i) ==> is_ident_byte(buf[m]),
        scan_ident_end(buf, i) < buf.len() ==> !is_ident_byte(buf[scan_ident_end(buf, i)]),
    decreases buf.len() - i,
{
    if i < buf.len() && is_ident_byte(buf[i]) {
        lemma_scan_ident_end(buf, i + 1);
    }
}

pub proof fn lemma_scan_number_end(buf: Seq<u8>, i: int)
    requires
        0 <= i <= buf.len(),
    ensures
        i <= scan_number_end(buf, i) <= buf.len(),
        forall|m: int| i <= m < scan_number_end(buf, i) ==> is_number_like_byte(buf[m]),
        scan_number_end(buf, i) < buf.len() ==> !is_number_like_byte(
            buf[scan_number_end(buf, i)],
        ),
    decreases buf.len() - i,
{
    if i < buf.len() && is_number_like_byte(buf[i]) {
        lemma_scan_number_end(buf, i + 1);
    }
}

pub proof fn lemma_skip_comment_body(buf: Seq<u8>, i: int)
    requires
        0 <= i <= buf.len(),
    ensures
        i <= skip_comment_body(buf, i) <= buf.len(),
        forall|m: int| i <= m < skip_comment_body(buf, i) ==> !is_line_break(buf[m]),
        skip_comment_body(buf, i) < buf.len() ==> is_line_break(buf[skip_comment_body(buf, i)]),
    decreases buf.len() - i,
{
    if i < buf.len() && !is_line_break(buf[i]) {
        lemma_skip_comment_body(buf, i + 1);
    }
}

/// The index at which the next token starts when scanning from `j`: any run
/// of whitespace and line comments is skipped, the line break that ends a
/// comment included.
pub open spec fn skip_trivia(buf: Seq<u8>, j: int) -> int
    decreases buf.len() - j,
    via skip_trivia_decreases
{
    if j < 0 {
        skip_trivia(buf, 0)
    } else if j < buf.len() {
        if is_blank_byte(buf[j]) {
            skip_trivia(buf, j + 1)
        } else if buf[j] == 35 {
            skip_trivia(buf, skip_comment_body(buf, j + 1))
        } else {
            j
        }
    } else {
        j
    }
}

#[via_fn]
proof fn skip_trivia_decreases(buf: Seq<u8>, j: int) {
    if 0 <= j < buf.len() && !is_blank_byte(buf[j]) && buf[j] == 35 {
        lemma_skip_comment_body(buf, j + 1);
    }
}

pub proof fn lemma_skip_trivia(buf: Seq<u8>, j: int)
    requires
        0 <= j <= buf.len(),
    ensures
        j <= skip_trivia(buf, j) <= buf.len(),
    decreases buf.len() - j,
{
    if j < buf.len() {
        if is_blank_byte(buf[j]) {
            lemma_skip_trivia(buf, j + 1);
        } else if buf[j] == 35 {
            lemma_skip_comment_body(buf, j + 1);
            lemma_skip_trivia(buf, skip_comment_body(buf, j + 1));
        }
    }
}

/// After skipping, the scan never stands on whitespace or on the start of
/// a comment.
pub proof fn lemma_skip_trivia_solid(buf: Seq<u8>, j: int)
    requires
        0 <= j <= buf.len(),
    ensures
        skip_trivia(buf, j) < buf.len() ==> !is_blank_byte(buf[skip_trivia(buf, j)]) && buf[
            skip_trivia(buf, j)
        ] != 35,
    decreases buf.len() - j,
{
    if j < buf.len() {
        if is_blank_byte(buf[j]) {
            lemma_skip_trivia_solid(buf, j + 1);
        } else if buf[j] == 35 {
            lemma_skip_comment_body(buf, j + 1);
            lemma_skip_trivia_solid(buf, skip_comment_body(buf, j + 1));
        }
    }
}

/// Input that is nothing but whitespace and line comments, read from `j`.
pub open spec fn trivia_from(s: Seq<u8>, j: int) -> bool
    decreases s.len() - j, 0int,
{
    if j >= s.len() {
        true
    } else if j < 0 {
        false
    } else if is_blank_byte(s[j]) {
        trivia_from(s, j + 1)
    } else if s[j] == 35 {
        comment_body_from(s, j + 1)
    } else {
        false
    }
}

/// The rest of a line comment: anything up to a line break, after which
/// only trivia may follow.
pub open spec fn comment_body_from(s: Seq<u8>, j: int) -> bool
    decreases s.len() - j, 1int,
{
    if j >= s.len() {
        true
    } else if j < 0 {
        false
    } else if is_line_break(s[j]) {
        trivia_from(s, j + 1)
    } else {
        comment_body_from(s, j + 1)
    }
}

proof fn lemma_comment_skip(s: Seq<u8>, j: int)
    requires
        0 <= j <= s.len(),
        comment_body_from(s, j),
    ensures
        skip_comment_body(s, j) == s.len() || (is_line_break(s[skip_comment_body(s, j)])
            && trivia_from(s, skip_comment_body(s, j) + 1)),
    decreases s.len() - j,
{
    if j < s.len() && !is_line_break(s[j]) {
        lemma_comment_skip(s, j + 1);
    }
}

/// Skipping consumes trivia-only input entirely.
pub proof fn lemma_trivia_skip(s: Seq<u8>, j: int)
    requires
        0 <= j <= s.len(),
        trivia_from(s, j),
    ensures
        skip_trivia(s, j) == s.len(),
    decreases s.len() - j,
{
    if j < s.len() {
        if is_blank_byte(s[j]) {
            lemma_trivia_skip(s, j + 1);
        } else {
            assert(s[j] == 35);
            lemma_skip_comment_body(s, j + 1);
            lemma_comment_skip(s, j + 1);
            let e = skip_comment_body(s, j + 1);
            assert(skip_trivia(s, j) == skip_trivia(s, e));
            if e < s.len() {
                assert(is_line_break(s[e]) && trivia_from(s, e + 1));
                assert(skip_trivia(s, e) == skip_trivia(s, e + 1));
                lemma_trivia_skip(s, e + 1);
            } else {
                assert(skip_trivia(s, e) == e);
            }
        }
    }
}

/// The number of periods in a piece of text.
pub open spec fn dot_count(t: Seq<u8>) -> nat
    decreases t.len(),
{
    if t.len() == 0 {
        0nat
    } else {
        dot_count(t.drop_last()) + (if t.last() == 46 {
            1nat
        } else {
            0nat
        })
    }
}

/// A well-formed numeric literal: at least one ASCII digit, nothing but
/// ASCII digits and periods, and at most one period. On text drawn from the
/// number-like characters this is exactly the set of strings accepted by the
/// standard 64-bit float parser.
pub open spec fn valid_number_text(t: Seq<u8>) -> bool {
    (exists|i: int| 0 <= i < t.len() && is_ascii_digit(t[i])) && (forall|i: int|
        0 <= i < t.len() ==> is_ascii_digit(t[i]) || t[i] == 46) && dot_count(t) <= 1
}

pub fn check_number_text(t: &Vec<u8>) -> (r: bool)
    ensures
        r == valid_number_text(t@),
{
    let mut has_digit = false;
    let mut plain = true;
    let mut dots: usize = 0;
    let mut i: usize = 0;
    while i < t.len()
        invariant
            0 <= i <= t@.len(),
            dots <= i,
            has_digit == exists|j: int| 0 <= j < i && is_ascii_digit(t@[j]),
            plain == forall|j: int| 0 <= j < i ==> is_ascii_digit(t@[j]) || t@[j] == 46,
            dots == dot_count(t@.subrange(0, i as int)),
        decreases t@.len() - i,
    {
        let b = t[i];
        if 48 <= b && b <= 57 {
            has_digit = true;
        } else if b == 46 {
            dots = dots + 1;
        } else {
            plain = false;
        }
        proof {
            assert(t@.subrange(0, i + 1).drop_last() =~= t@.subrange(0, i as int));
        }
        i = i + 1;
    }
    proof {
        assert(t@.subrange(0, t@.len() as int) =~= t@);
    }
    has_digit && plain && dots <= 1
}

/// The characters a byte sequence stands for, one per byte.
pub open spec fn chars_of(t: Seq<u8>) -> Seq<char> {
    t.map_values(|b: u8| b as char)
}

/// Relies on `String::push`: appends the given character to the end of the
/// string.
#[verifier::external_body]
pub(crate) fn push_char(s: &mut String, c: char)
    ensures
        final (s)@ == old(s)@.push(c),
{
    s.push(c);
}

/// Builds the string a byte sequence stands for, one character per byte.
pub fn bytes_to_string(t: &Vec<u8>) -> (r: String)
    ensures
        r@ == chars_of(t@),
{
    let mut s = String::new();
    let mut i: usize = 0;
    while i < t.len()
        invariant
            0 <= i <= t@.len(),
            s@ == chars_of(t@.subrange(0, i as int)),
        decreases t@.len() - i,
    {
        push_char(&mut s, t[i] as char);
        proof {
            assert(chars_of(t@.subrange(0, i + 1)) =~= chars_of(t@.subrange(0, i as int)).push(
                t@[i as int] as char));
        }
        i = i + 1;
    }
    proof {
        assert(t@.subrange(0, t@.len() as int) =~= t@);
    }
    s
}

/// The message reported for a numeric literal that cannot be parsed.
pub open spec fn number_error_text(t: Seq<u8>) -> Seq<char> {
    "Unable to parse number '"@ + chars_of(t) + "': invalid float literal"@
}

pub fn number_error_message(t: &Vec<u8>) -> (r: String)
    ensures
        r@ == number_error_text(t@),
{
    let mut m = String::from_str("Unable to parse number '");
    let text = bytes_to_string(t);
    m.append(text.as_str());
    m.append("': invalid float literal");
    m
}

} // verus!
