use vstd::prelude::*;
use vstd::utf8::{
    valid_first_scalar, decode_first_scalar, length_of_first_scalar,
};

verus! {

// ---------------------------------------------------------------------------
// Byte classes.
// ---------------------------------------------------------------------------

pub open spec fn spec_is_digit(b: u8) -> bool {
    48 <= b <= 57
}

pub open spec fn spec_is_ident_start(b: u8) -> bool {
    (65 <= b <= 90) || (97 <= b <= 122) || b == 95
}

pub open spec fn spec_is_ident_char(b: u8) -> bool {
    spec_is_ident_start(b) || spec_is_digit(b)
}

pub open spec fn spec_is_hex_digit(b: u8) -> bool {
    spec_is_digit(b) || (97 <= b <= 102) || (65 <= b <= 70)
}

pub open spec fn spec_is_oct_digit(b: u8) -> bool {
    48 <= b <= 55
}

/// Digit or `_` separator of a decimal literal.
pub open spec fn spec_is_dec_us(b: u8) -> bool {
    spec_is_digit(b) || b == 95
}

pub open spec fn spec_is_hex_us(b: u8) -> bool {
    spec_is_hex_digit(b) || b == 95
}

pub open spec fn spec_is_oct_us(b: u8) -> bool {
    spec_is_oct_digit(b) || b == 95
}

/// A nibble of a hex-pattern byte: hex digit or the `?` wildcard.
pub open spec fn spec_is_nibble(b: u8) -> bool {
    spec_is_hex_digit(b) || b == 63
}

pub fn is_digit(b: u8) -> (r: bool)
    ensures
        r == spec_is_digit(b),
{
    48 <= b && b <= 57
}

pub fn is_ident_start(b: u8) -> (r: bool)
    ensures
        r == spec_is_ident_start(b),
{
    (65 <= b && b <= 90) || (97 <= b && b <= 122) || b == 95
}

pub fn is_ident_char(b: u8) -> (r: bool)
    ensures
        r == spec_is_ident_char(b),
{
    is_ident_start(b) || is_digit(b)
}

pub fn is_hex_digit(b: u8) -> (r: bool)
    ensures
        r == spec_is_hex_digit(b),
{
    is_digit(b) || (97 <= b && b <= 102) || (65 <= b && b <= 70)
}

pub fn is_nibble(b: u8) -> (r: bool)
    ensures
        r == spec_is_nibble(b),
{
    is_hex_digit(b) || b == 63
}

// ---------------------------------------------------------------------------
// Maximal runs of a byte class.
// ---------------------------------------------------------------------------

/// End of the maximal run of bytes satisfying `f`, starting at `i`.
pub open spec fn run_end(s: Seq<u8>, i: int, f: spec_fn(u8) -> bool) -> int
    decreases s.len() - i,
    when 0 <= i <= s.len()
{
    if i < s.len() && f(s[i]) {
        run_end(s, i + 1, f)
    } else {
        i
    }
}

pub proof fn lemma_run_end_props(s: Seq<u8>, i: int, f: spec_fn(u8) -> bool)
    requires
        0 <= i <= s.len(),
    ensures
        i <= run_end(s, i, f) <= s.len(),
        forall|k: int| i <= k < run_end(s, i, f) ==> f(s[k]),
        run_end(s, i, f) < s.len() ==> !f(s[run_end(s, i, f)]),
    decreases s.len() - i,
{
    if i < s.len() && f(s[i]) {
        lemma_run_end_props(s, i + 1, f);
    }
}

pub open spec fn ident_class() -> spec_fn(u8) -> bool {
    |b: u8| spec_is_ident_char(b)
}

pub open spec fn dec_us_class() -> spec_fn(u8) -> bool {
    |b: u8| spec_is_dec_us(b)
}

pub open spec fn hex_us_class() -> spec_fn(u8) -> bool {
    |b: u8| spec_is_hex_us(b)
}

pub open spec fn oct_us_class() -> spec_fn(u8) -> bool {
    |b: u8| spec_is_oct_us(b)
}

pub open spec fn digit_class() -> spec_fn(u8) -> bool {
    |b: u8| spec_is_digit(b)
}

/// Not a line terminator: the body class of a `//` comment.
pub open spec fn line_class() -> spec_fn(u8) -> bool {
    |b: u8| b != 10 && b != 13
}

/// A regexp flag character: `i` or `s`.
pub open spec fn flag_class() -> spec_fn(u8) -> bool {
    |b: u8| b == 105 || b == 115
}

pub fn scan_ident_end(s: &Vec<u8>, i: usize) -> (r: usize)
    requires
        i <= s@.len(),
    ensures
        r == run_end(s@, i as int, ident_class()),
        i <= r <= s@.len(),
{
    let ghost f = ident_class();
    let mut j: usize = i;
    loop
        invariant
            i <= j <= s@.len(),
            run_end(s@, i as int, f) == run_end(s@, j as int, f),
            f == ident_class(),
        ensures
            i <= j <= s@.len(),
            run_end(s@, i as int, f) == j as int,
        decreases s@.len() - j,
    {
        if j < s.len() && is_ident_char(s[j]) {
            proof {
                assert(f(s@[j as int]));
                assert(run_end(s@, j as int, f) == run_end(s@, j + 1, f));
            }
            j += 1;
        } else {
            proof {
                assert(run_end(s@, j as int, f) == j as int);
            }
            break;
        }
    }
    j
}

pub fn scan_class_end(s: &Vec<u8>, i: usize, class: u8) -> (r: usize)
    requires
        i <= s@.len(),
        1 <= class <= 6,
    ensures
        class == 1 ==> r == run_end(s@, i as int, dec_us_class()),
        class == 2 ==> r == run_end(s@, i as int, hex_us_class()),
        class == 3 ==> r == run_end(s@, i as int, oct_us_class()),
        class == 4 ==> r == run_end(s@, i as int, line_class()),
        class == 5 ==> r == run_end(s@, i as int, flag_class()),
        class == 6 ==> r == run_end(s@, i as int, digit_class()),
        i <= r <= s@.len(),
{
    let ghost f: spec_fn(u8) -> bool = if class == 1 {
        dec_us_class()
    } else if class == 2 {
        hex_us_class()
    } else if class == 3 {
        oct_us_class()
    } else if class == 4 {
        line_class()
    } else if class == 5 {
        flag_class()
    } else {
        digit_class()
    };
    let mut j: usize = i;
    loop
        invariant
            i <= j <= s@.len(),
            1 <= class <= 6,
            f == (if class == 1 {
                dec_us_class()
            } else if class == 2 {
                hex_us_class()
            } else if class == 3 {
                oct_us_class()
            } else if class == 4 {
                line_class()
            } else if class == 5 {
                flag_class()
            } else {
                digit_class()
            }),
            run_end(s@, i as int, f) == run_end(s@, j as int, f),
        ensures
            i <= j <= s@.len(),
            run_end(s@, i as int, f) == j as int,
        decreases s@.len() - j,
    {
        if j < s.len() {
            let b = s[j];
            let cont = if class == 1 {
                is_digit(b) || b == 95
            } else if class == 2 {
                is_hex_digit(b) || b == 95
            } else if class == 3 {
                (48 <= b && b <= 55) || b == 95
            } else if class == 4 {
                b != 10 && b != 13
            } else if class == 5 {
                b == 105 || b == 115
            } else {
                is_digit(b)
            };
            proof {
                assert(cont == f(s@[j as int]));
            }
            if cont {
                proof {
                    assert(run_end(s@, j as int, f) == run_end(s@, j + 1, f));
                }
                j += 1;
            } else {
                proof {
                    assert(run_end(s@, j as int, f) == j as int);
                }
                break;
            }
        } else {
            proof {
                assert(run_end(s@, j as int, f) == j as int);
            }
            break;
        }
    }
    j
}

// ---------------------------------------------------------------------------
// UTF-8 scalars.
// ---------------------------------------------------------------------------

/// Decodes the scalar starting at byte `i`, if the bytes there form a valid
/// UTF-8 encoding of one Unicode scalar; the specification is vstd's UTF-8
/// model over the tail `s[i..]`.
pub fn scalar_at(s: &Vec<u8>, i: usize) -> (r: Option<(u32, usize)>)
    requires
        i < s@.len(),
    ensures
        r is Some <==> valid_first_scalar(s@.skip(i as int)),
        r matches Some(p) ==> {
            &&& p.0 == decode_first_scalar(s@.skip(i as int))
            &&& p.1 == length_of_first_scalar(s@.skip(i as int))
            &&& 1 <= p.1 <= 4
            &&& i + p.1 <= s@.len()
        },
{
    let ghost t = s@.skip(i as int);
    proof {
        assert(t.len() == s@.len() - i);
        assert(t[0] == s@[i as int]);
    }
    let n = s.len();
    let b0 = s[i];
    if b0 < 0x80 {
        proof {
            assert(b0 & 0x7f == b0) by (bit_vector)
                requires b0 < 0x80,
            ;
            assert(vstd::utf8::is_leading_byte_width_1(t[0]));
            assert(vstd::utf8::valid_first_scalar(t));
            assert(vstd::utf8::decode_first_scalar(t) == b0 as u32);
            assert(vstd::utf8::length_of_first_scalar(t) == 1);
        }
        Some((b0 as u32, 1))
    } else if 0xc0 <= b0 && b0 <= 0xdf {
        if n - i >= 2 && 0x80 <= s[i + 1] && s[i + 1] <= 0xbf {
            proof {
                assert(t[1] == s@[i + 1]);
            }
            let b1 = s[i + 1];
            let cp: u32 = (((b0 & 0x1F) as u32) << 6) | ((b1 & 0x3f) as u32);
            proof {
                assert(vstd::utf8::is_leading_byte_width_2(t[0]));
                assert(vstd::utf8::is_continuation_byte(t[1]));
                assert(vstd::utf8::valid_leading_and_continuation_bytes_first_codepoint(t));
                assert(vstd::utf8::decode_first_codepoint(t) == cp);
                assert(vstd::utf8::length_of_first_codepoint(t) == 2);
            }
            if cp >= 0x80 {
                proof {
                    assert(cp < 0x800) by (bit_vector)
                        requires cp == (((b0 & 0x1F) as u32) << 6) | ((b1 & 0x3f) as u32),
                    ;
                    assert(vstd::utf8::valid_first_scalar(t));
                }
                Some((cp, 2))
            } else {
                proof {
                    assert(!vstd::utf8::not_overlong_encoding(cp, 2));
                    assert(!vstd::utf8::valid_first_scalar(t));
                }
                None
            }
        } else {
            proof {
                assert(!vstd::utf8::valid_leading_and_continuation_bytes_first_codepoint(t));
                assert(!vstd::utf8::valid_first_scalar(t));
            }
            None
        }
    } else if 0xe0 <= b0 && b0 <= 0xef {
        if n - i >= 3 && 0x80 <= s[i + 1] && s[i + 1] <= 0xbf && 0x80 <= s[i + 2] && s[i + 2]
            <= 0xbf {
            proof {
                assert(t[1] == s@[i + 1]);
                assert(t[2] == s@[i + 2]);
            }
            let b1 = s[i + 1];
            let b2 = s[i + 2];
            let cp: u32 = (((b0 & 0x0F) as u32) << 12) | (((b1 & 0x3f) as u32) << 6) | ((b2
                & 0x3f) as u32);
            proof {
                assert(vstd::utf8::is_leading_byte_width_3(t[0]));
                assert(vstd::utf8::valid_leading_and_continuation_bytes_first_codepoint(t));
                assert(vstd::utf8::decode_first_codepoint(t) == cp);
                assert(vstd::utf8::length_of_first_codepoint(t) == 3);
            }
            if cp >= 0x800 && !(0xD800 <= cp && cp <= 0xDFFF) {
                proof {
                    assert(vstd::utf8::valid_first_scalar(t));
                }
                Some((cp, 3))
            } else {
                proof {
                    assert(!vstd::utf8::valid_first_scalar(t));
                }
                None
            }
        } else {
            proof {
                assert(!vstd::utf8::valid_leading_and_continuation_bytes_first_codepoint(t));
                assert(!vstd::utf8::valid_first_scalar(t));
            }
            None
        }
    } else if 0xf0 <= b0 && b0 <= 0xf7 {
        if n - i >= 4 && 0x80 <= s[i + 1] && s[i + 1] <= 0xbf && 0x80 <= s[i + 2] && s[i + 2]
            <= 0xbf && 0x80 <= s[i + 3] && s[i + 3] <= 0xbf {
            proof {
                assert(t[1] == s@[i + 1]);
                assert(t[2] == s@[i + 2]);
                assert(t[3] == s@[i + 3]);
            }
            let b1 = s[i + 1];
            let b2 = s[i + 2];
            let b3 = s[i + 3];
            let cp: u32 = (((b0 & 0x07) as u32) << 18) | (((b1 & 0x3f) as u32) << 12) | (((b2
                & 0x3f) as u32) << 6) | ((b3 & 0x3f) as u32);
            proof {
                assert(vstd::utf8::is_leading_byte_width_4(t[0]));
                assert(vstd::utf8::valid_leading_and_continuation_bytes_first_codepoint(t));
                assert(vstd::utf8::decode_first_codepoint(t) == cp);
                assert(vstd::utf8::length_of_first_codepoint(t) == 4);
            }
            if 0x10000 <= cp && cp <= 0x10ffff {
                proof {
                    assert(vstd::utf8::valid_first_scalar(t));
                }
                Some((cp, 4))
            } else {
                proof {
                    assert(!vstd::utf8::valid_first_scalar(t));
                }
                None
            }
        } else {
            proof {
                assert(!vstd::utf8::valid_leading_and_continuation_bytes_first_codepoint(t));
                assert(!vstd::utf8::valid_first_scalar(t));
            }
            None
        }
    } else {
        proof {
            assert(!vstd::utf8::valid_leading_and_continuation_bytes_first_codepoint(t));
            assert(!vstd::utf8::valid_first_scalar(t));
        }
        None
    }
}

/// Unicode whitespace recognized inside rule source: ASCII space and tab plus
/// the space-separator scalars (NBSP, U+2000..U+200A, U+202F, U+205F).
pub open spec fn spec_is_space_scalar(cp: u32) -> bool {
    ||| cp == 0x20
    ||| cp == 0x09
    ||| cp == 0xA0
    ||| (0x2000 <= cp <= 0x200A)
    ||| cp == 0x202F
    ||| cp == 0x205F
}

pub fn is_space_scalar(cp: u32) -> (r: bool)
    ensures
        r == spec_is_space_scalar(cp),
{
    cp == 0x20 || cp == 0x09 || cp == 0xA0 || (0x2000 <= cp && cp <= 0x200A) || cp == 0x202F
        || cp == 0x205F
}

/// End of a maximal run of whitespace scalars starting at `i`.
pub open spec fn ws_end(s: Seq<u8>, i: int) -> int
    decreases s.len() - i,
    when 0 <= i <= s.len()
{
    if i < s.len() && valid_first_scalar(s.skip(i)) && spec_is_space_scalar(
        decode_first_scalar(s.skip(i)),
    ) && i + length_of_first_scalar(s.skip(i)) <= s.len() {
        ws_end(s, i + length_of_first_scalar(s.skip(i)))
    } else {
        i
    }
}

/// End of a maximal run of valid non-ASCII, non-whitespace scalars: such runs
/// form one UNKNOWN token.
pub open spec fn unknown_end(s: Seq<u8>, i: int) -> int
    decreases s.len() - i,
    when 0 <= i <= s.len()
{
    if i < s.len() && valid_first_scalar(s.skip(i)) && decode_first_scalar(s.skip(i)) >= 0x80
        && !spec_is_space_scalar(decode_first_scalar(s.skip(i))) && i + length_of_first_scalar(
        s.skip(i),
    ) <= s.len() {
        unknown_end(s, i + length_of_first_scalar(s.skip(i)))
    } else {
        i
    }
}

pub proof fn lemma_ws_end_props(s: Seq<u8>, i: int)
    requires
        0 <= i <= s.len(),
    ensures
        i <= ws_end(s, i) <= s.len(),
    decreases s.len() - i,
{
    if i < s.len() && valid_first_scalar(s.skip(i)) && spec_is_space_scalar(
        decode_first_scalar(s.skip(i)),
    ) && i + length_of_first_scalar(s.skip(i)) <= s.len() {
        if length_of_first_scalar(s.skip(i)) >= 1 {
            lemma_ws_end_props(s, i + length_of_first_scalar(s.skip(i)));
        }
    }
}

pub proof fn lemma_unknown_end_props(s: Seq<u8>, i: int)
    requires
        0 <= i <= s.len(),
    ensures
        i <= unknown_end(s, i) <= s.len(),
    decreases s.len() - i,
{
    if i < s.len() && valid_first_scalar(s.skip(i)) && decode_first_scalar(s.skip(i)) >= 0x80
        && !spec_is_space_scalar(decode_first_scalar(s.skip(i))) && i + length_of_first_scalar(
        s.skip(i),
    ) <= s.len() {
        if length_of_first_scalar(s.skip(i)) >= 1 {
            lemma_unknown_end_props(s, i + length_of_first_scalar(s.skip(i)));
        }
    }
}

pub fn scan_ws_end(s: &Vec<u8>, i: usize) -> (r: usize)
    requires
        i <= s@.len(),
    ensures
        r == ws_end(s@, i as int),
        i <= r <= s@.len(),
{
    let mut j: usize = i;
    loop
        invariant
            i <= j <= s@.len(),
            ws_end(s@, i as int) == ws_end(s@, j as int),
        ensures
            i <= j <= s@.len(),
            ws_end(s@, i as int) == j as int,
        decreases s@.len() - j,
    {
        if j >= s.len() {
            proof {
                assert(ws_end(s@, j as int) == j as int);
            }
            break;
        }
        match scalar_at(s, j) {
            Some((cp, l)) => {
                if is_space_scalar(cp) {
                    proof {
                        assert(ws_end(s@, j as int) == ws_end(s@, j + l));
                    }
                    j += l;
                } else {
                    proof {
                        assert(ws_end(s@, j as int) == j as int);
                    }
                    break;
                }
            },
            None => {
                proof {
                    assert(ws_end(s@, j as int) == j as int);
                }
                break;
            },
        }
    }
    j
}

pub fn scan_unknown_end(s: &Vec<u8>, i: usize) -> (r: usize)
    requires
        i <= s@.len(),
    ensures
        r == unknown_end(s@, i as int),
        i <= r <= s@.len(),
{
    let mut j: usize = i;
    loop
        invariant
            i <= j <= s@.len(),
            unknown_end(s@, i as int) == unknown_end(s@, j as int),
        ensures
            i <= j <= s@.len(),
            unknown_end(s@, i as int) == j as int,
        decreases s@.len() - j,
    {
        if j >= s.len() {
            proof {
                assert(unknown_end(s@, j as int) == j as int);
            }
            break;
        }
        match scalar_at(s, j) {
            Some((cp, l)) => {
                if cp >= 0x80 && !is_space_scalar(cp) {
                    proof {
                        assert(unknown_end(s@, j as int) == unknown_end(s@, j + l));
                    }
                    j += l;
                } else {
                    proof {
                        assert(unknown_end(s@, j as int) == j as int);
                    }
                    break;
                }
            },
            None => {
                proof {
                    assert(unknown_end(s@, j as int) == j as int);
                }
                break;
            },
        }
    }
    j
}

// ---------------------------------------------------------------------------
// Strings, comments, regexps.
// ---------------------------------------------------------------------------

/// End of a double-quoted string body starting right after the opening
/// quote: `\"` and `\\` are escape pairs.  `None` when no closing quote is
/// found before the end of the input.
pub open spec fn str_body_end(s: Seq<u8>, i: int) -> Option<int>
    decreases s.len() - i,
    when 0 <= i <= s.len()
{
    if i >= s.len() {
        None
    } else if s[i] == 34 {
        Some(i + 1)
    } else if s[i] == 92 && i + 2 <= s.len() {
        str_body_end(s, i + 2)
    } else {
        str_body_end(s, i + 1)
    }
}

/// End of a triple-quoted string body starting right after the opening
/// `"""`: the body runs verbatim to the first `"""`, or the literal is
/// unterminated.
pub open spec fn triple_body_end(s: Seq<u8>, i: int) -> Option<int>
    decreases s.len() - i,
    when 0 <= i <= s.len()
{
    if i >= s.len() {
        None
    } else if i + 3 <= s.len() && s[i] == 34 && s[i + 1] == 34 && s[i + 2] == 34 {
        Some(i + 3)
    } else {
        triple_body_end(s, i + 1)
    }
}

/// End of a block comment body starting right after `/*`: runs to the first
/// `*/`, or to the end of the input when unterminated.
pub open spec fn block_comment_end(s: Seq<u8>, i: int) -> int
    decreases s.len() - i,
    when 0 <= i <= s.len()
{
    if i + 2 > s.len() {
        s.len() as int
    } else if s[i] == 42 && s[i + 1] == 47 {
        i + 2
    } else {
        block_comment_end(s, i + 1)
    }
}

/// End of a regexp body starting inside the delimiters, or `None` when the
/// regexp is not closed before a line break or the end of the input.
/// `\` escapes the next byte, so `\/` does not terminate the body.
pub open spec fn regexp_body_end(s: Seq<u8>, i: int) -> Option<int>
    decreases s.len() - i,
    when 0 <= i <= s.len()
{
    if i >= s.len() {
        None
    } else if s[i] == 47 {
        Some(i + 1)
    } else if s[i] == 10 || s[i] == 13 {
        None
    } else if s[i] == 92 && i + 2 <= s.len() {
        regexp_body_end(s, i + 2)
    } else if s[i] == 92 {
        None
    } else {
        regexp_body_end(s, i + 1)
    }
}

pub proof fn lemma_str_body_end_props(s: Seq<u8>, i: int)
    requires
        0 <= i <= s.len(),
    ensures
        str_body_end(s, i) matches Some(j) ==> i < j <= s.len(),
    decreases s.len() - i,
{
    if i >= s.len() {
    } else if s[i] == 34 {
    } else if s[i] == 92 && i + 2 <= s.len() {
        lemma_str_body_end_props(s, i + 2);
    } else {
        lemma_str_body_end_props(s, i + 1);
    }
}

pub proof fn lemma_triple_body_end_props(s: Seq<u8>, i: int)
    requires
        0 <= i <= s.len(),
    ensures
        triple_body_end(s, i) matches Some(j) ==> i < j <= s.len(),
    decreases s.len() - i,
{
    if i >= s.len() {
    } else if i + 3 <= s.len() && s[i] == 34 && s[i + 1] == 34 && s[i + 2] == 34 {
    } else {
        lemma_triple_body_end_props(s, i + 1);
    }
}

pub proof fn lemma_block_comment_end_props(s: Seq<u8>, i: int)
    requires
        0 <= i <= s.len(),
    ensures
        i <= block_comment_end(s, i) <= s.len(),
    decreases s.len() - i,
{
    if i + 2 > s.len() {
    } else if s[i] == 42 && s[i + 1] == 47 {
    } else {
        lemma_block_comment_end_props(s, i + 1);
    }
}

pub proof fn lemma_regexp_body_end_props(s: Seq<u8>, i: int)
    requires
        0 <= i <= s.len(),
    ensures
        regexp_body_end(s, i) matches Some(j) ==> i < j <= s.len(),
    decreases s.len() - i,
{
    if i >= s.len() {
    } else if s[i] == 47 {
    } else if s[i] == 10 || s[i] == 13 {
    } else if s[i] == 92 && i + 2 <= s.len() {
        lemma_regexp_body_end_props(s, i + 2);
    } else if s[i] == 92 {
    } else {
        lemma_regexp_body_end_props(s, i + 1);
    }
}

pub fn scan_str_body_end(s: &Vec<u8>, i: usize) -> (r: Option<usize>)
    requires
        i <= s@.len(),
    ensures
        r is Some <==> str_body_end(s@, i as int) is Some,
        r matches Some(j) ==> str_body_end(s@, i as int) == Some(j as int) && i < j <= s@.len(),
{
    proof { lemma_str_body_end_props(s@, i as int); }
    let mut j: usize = i;
    loop
        invariant
            i <= j <= s@.len(),
            str_body_end(s@, i as int) == str_body_end(s@, j as int),
        ensures
            i <= j <= s@.len(),
            str_body_end(s@, i as int) is None,
        decreases s@.len() - j,
    {
        if j >= s.len() {
            proof {
                assert(str_body_end(s@, j as int) is None);
            }
            break;
        }
        let b = s[j];
        if b == 34 {
            proof {
                assert(str_body_end(s@, j as int) == Some(j + 1 as int));
            }
            return Some(j + 1);
        } else if b == 92 && s.len() - j >= 2 {
            proof {
                assert(str_body_end(s@, j as int) == str_body_end(s@, j + 2));
            }
            j += 2;
        } else {
            proof {
                assert(str_body_end(s@, j as int) == str_body_end(s@, j + 1));
            }
            j += 1;
        }
    }
    None
}

pub fn scan_triple_body_end(s: &Vec<u8>, i: usize) -> (r: Option<usize>)
    requires
        i <= s@.len(),
    ensures
        r is Some <==> triple_body_end(s@, i as int) is Some,
        r matches Some(j) ==> triple_body_end(s@, i as int) == Some(j as int) && i < j
            <= s@.len(),
{
    proof { lemma_triple_body_end_props(s@, i as int); }
    let mut j: usize = i;
    loop
        invariant
            i <= j <= s@.len(),
            triple_body_end(s@, i as int) == triple_body_end(s@, j as int),
        ensures
            i <= j <= s@.len(),
            triple_body_end(s@, i as int) is None,
        decreases s@.len() - j,
    {
        if j >= s.len() {
            proof {
                assert(triple_body_end(s@, j as int) is None);
            }
            break;
        }
        if s.len() - j >= 3 && s[j] == 34 && s[j + 1] == 34 && s[j + 2] == 34 {
            proof {
                assert(triple_body_end(s@, j as int) == Some(j + 3 as int));
            }
            return Some(j + 3);
        }
        proof {
            assert(triple_body_end(s@, j as int) == triple_body_end(s@, j + 1));
        }
        j += 1;
    }
    None
}

pub fn scan_block_comment_end(s: &Vec<u8>, i: usize) -> (r: usize)
    requires
        i <= s@.len(),
    ensures
        r == block_comment_end(s@, i as int),
        i <= r <= s@.len(),
{
    proof { lemma_block_comment_end_props(s@, i as int); }
    let mut j: usize = i;
    loop
        invariant
            i <= j <= s@.len(),
            block_comment_end(s@, i as int) == block_comment_end(s@, j as int),
        decreases s@.len() - j,
    {
        if s.len() - j < 2 {
            proof {
                assert(block_comment_end(s@, j as int) == s@.len());
            }
            return s.len();
        }
        if s[j] == 42 && s[j + 1] == 47 {
            proof {
                assert(block_comment_end(s@, j as int) == j + 2);
            }
            return j + 2;
        }
        proof {
            assert(block_comment_end(s@, j as int) == block_comment_end(s@, j + 1));
        }
        j += 1;
    }
}

pub fn scan_regexp_body_end(s: &Vec<u8>, i: usize) -> (r: Option<usize>)
    requires
        i <= s@.len(),
    ensures
        r is Some <==> regexp_body_end(s@, i as int) is Some,
        r matches Some(j) ==> {
            &&& regexp_body_end(s@, i as int) == Some(j as int)
            &&& i < j <= s@.len()
        },
{
    proof { lemma_regexp_body_end_props(s@, i as int); }
    let mut j: usize = i;
    loop
        invariant
            i <= j <= s@.len(),
            regexp_body_end(s@, i as int) == regexp_body_end(s@, j as int),
        decreases s@.len() - j,
    {
        if j >= s.len() {
            proof {
                assert(regexp_body_end(s@, j as int) is None);
            }
            return None;
        }
        let b = s[j];
        if b == 47 {
            proof {
                assert(regexp_body_end(s@, j as int) == Some(j + 1 as int));
            }
            return Some(j + 1);
        } else if b == 10 || b == 13 {
            proof {
                assert(regexp_body_end(s@, j as int) is None);
            }
            return None;
        } else if b == 92 && s.len() - j >= 2 {
            proof {
                assert(regexp_body_end(s@, j as int) == regexp_body_end(s@, j + 2));
            }
            j += 2;
        } else if b == 92 {
            proof {
                assert(regexp_body_end(s@, j as int) is None);
            }
            return None;
        } else {
            proof {
                assert(regexp_body_end(s@, j as int) == regexp_body_end(s@, j + 1));
            }
            j += 1;
        }
    }
}

} // verus!
