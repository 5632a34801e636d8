use vstd::prelude::*;
use vstd::utf8::{valid_first_scalar, decode_first_scalar, length_of_first_scalar};
use crate::span::Span;
use crate::token::Token;
use crate::scan::{
    spec_is_digit, spec_is_ident_start, spec_is_hex_digit, spec_is_oct_digit, spec_is_nibble,
    spec_is_space_scalar, run_end, ident_class, dec_us_class, hex_us_class, oct_us_class,
    digit_class, line_class, flag_class, ws_end, unknown_end, str_body_end, triple_body_end,
    block_comment_end, regexp_body_end, is_digit, is_ident_start, is_hex_digit, is_nibble,
    is_space_scalar, scan_ident_end, scan_class_end, scan_ws_end, scan_unknown_end,
    scan_str_body_end, scan_triple_body_end, scan_block_comment_end, scan_regexp_body_end,
    scalar_at, lemma_run_end_props, lemma_ws_end_props, lemma_unknown_end_props,
};

verus! {

/// Lexer mode: which sub-grammar applies to the next bytes.  `Normal` covers
/// ordinary rule text, `HexPattern` the byte syntax inside `{ ... }` pattern
/// bodies, and `HexJump` the bracketed bound syntax inside a hex pattern.
#[derive(Clone, Copy, Debug, PartialEq, Eq, Structural)]
pub enum Mode {
    Normal,
    HexPattern,
    HexJump,
}

/// Number of reserved words.
pub const KW_COUNT: usize = 38;

/// The keyword `rule` as a byte sequence.
pub open spec fn kw_rule() -> Seq<u8> {
    seq![114u8, 117u8, 108u8, 101u8]
}

/// The keyword `global` as a byte sequence.
pub open spec fn kw_global() -> Seq<u8> {
    seq![103u8, 108u8, 111u8, 98u8, 97u8, 108u8]
}

/// The keyword `private` as a byte sequence.
pub open spec fn kw_private() -> Seq<u8> {
    seq![112u8, 114u8, 105u8, 118u8, 97u8, 116u8, 101u8]
}

/// The keyword `condition` as a byte sequence.
pub open spec fn kw_condition() -> Seq<u8> {
    seq![99u8, 111u8, 110u8, 100u8, 105u8, 116u8, 105u8, 111u8, 110u8]
}

/// The keyword `meta` as a byte sequence.
pub open spec fn kw_meta() -> Seq<u8> {
    seq![109u8, 101u8, 116u8, 97u8]
}

/// The keyword `strings` as a byte sequence.
pub open spec fn kw_strings() -> Seq<u8> {
    seq![115u8, 116u8, 114u8, 105u8, 110u8, 103u8, 115u8]
}

/// The keyword `true` as a byte sequence.
pub open spec fn kw_true() -> Seq<u8> {
    seq![116u8, 114u8, 117u8, 101u8]
}

/// The keyword `false` as a byte sequence.
pub open spec fn kw_false() -> Seq<u8> {
    seq![102u8, 97u8, 108u8, 115u8, 101u8]
}

/// The keyword `and` as a byte sequence.
pub open spec fn kw_and() -> Seq<u8> {
    seq![97u8, 110u8, 100u8]
}

/// The keyword `or` as a byte sequence.
pub open spec fn kw_or() -> Seq<u8> {
    seq![111u8, 114u8]
}

/// The keyword `not` as a byte sequence.
pub open spec fn kw_not() -> Seq<u8> {
    seq![110u8, 111u8, 116u8]
}

/// The keyword `of` as a byte sequence.
pub open spec fn kw_of() -> Seq<u8> {
    seq![111u8, 102u8]
}

/// The keyword `them` as a byte sequence.
pub open spec fn kw_them() -> Seq<u8> {
    seq![116u8, 104u8, 101u8, 109u8]
}

/// The keyword `all` as a byte sequence.
pub open spec fn kw_all() -> Seq<u8> {
    seq![97u8, 108u8, 108u8]
}

/// The keyword `any` as a byte sequence.
pub open spec fn kw_any() -> Seq<u8> {
    seq![97u8, 110u8, 121u8]
}

/// The keyword `none` as a byte sequence.
pub open spec fn kw_none() -> Seq<u8> {
    seq![110u8, 111u8, 110u8, 101u8]
}

/// The keyword `at` as a byte sequence.
pub open spec fn kw_at() -> Seq<u8> {
    seq![97u8, 116u8]
}

/// The keyword `in` as a byte sequence.
pub open spec fn kw_in() -> Seq<u8> {
    seq![105u8, 110u8]
}

/// The keyword `for` as a byte sequence.
pub open spec fn kw_for() -> Seq<u8> {
    seq![102u8, 111u8, 114u8]
}

/// The keyword `nocase` as a byte sequence.
pub open spec fn kw_nocase() -> Seq<u8> {
    seq![110u8, 111u8, 99u8, 97u8, 115u8, 101u8]
}

/// The keyword `ascii` as a byte sequence.
pub open spec fn kw_ascii() -> Seq<u8> {
    seq![97u8, 115u8, 99u8, 105u8, 105u8]
}

/// The keyword `wide` as a byte sequence.
pub open spec fn kw_wide() -> Seq<u8> {
    seq![119u8, 105u8, 100u8, 101u8]
}

/// The keyword `fullword` as a byte sequence.
pub open spec fn kw_fullword() -> Seq<u8> {
    seq![102u8, 117u8, 108u8, 108u8, 119u8, 111u8, 114u8, 100u8]
}

/// The keyword `xor` as a byte sequence.
pub open spec fn kw_xor() -> Seq<u8> {
    seq![120u8, 111u8, 114u8]
}

/// The keyword `base64` as a byte sequence.
pub open spec fn kw_base64() -> Seq<u8> {
    seq![98u8, 97u8, 115u8, 101u8, 54u8, 52u8]
}

/// The keyword `base64wide` as a byte sequence.
pub open spec fn kw_base64wide() -> Seq<u8> {
    seq![98u8, 97u8, 115u8, 101u8, 54u8, 52u8, 119u8, 105u8, 100u8, 101u8]
}

/// The keyword `contains` as a byte sequence.
pub open spec fn kw_contains() -> Seq<u8> {
    seq![99u8, 111u8, 110u8, 116u8, 97u8, 105u8, 110u8, 115u8]
}

/// The keyword `icontains` as a byte sequence.
pub open spec fn kw_icontains() -> Seq<u8> {
    seq![105u8, 99u8, 111u8, 110u8, 116u8, 97u8, 105u8, 110u8, 115u8]
}

/// The keyword `startswith` as a byte sequence.
pub open spec fn kw_startswith() -> Seq<u8> {
    seq![115u8, 116u8, 97u8, 114u8, 116u8, 115u8, 119u8, 105u8, 116u8, 104u8]
}

/// The keyword `istartswith` as a byte sequence.
pub open spec fn kw_istartswith() -> Seq<u8> {
    seq![105u8, 115u8, 116u8, 97u8, 114u8, 116u8, 115u8, 119u8, 105u8, 116u8, 104u8]
}

/// The keyword `endswith` as a byte sequence.
pub open spec fn kw_endswith() -> Seq<u8> {
    seq![101u8, 110u8, 100u8, 115u8, 119u8, 105u8, 116u8, 104u8]
}

/// The keyword `iendswith` as a byte sequence.
pub open spec fn kw_iendswith() -> Seq<u8> {
    seq![105u8, 101u8, 110u8, 100u8, 115u8, 119u8, 105u8, 116u8, 104u8]
}

/// The keyword `iequals` as a byte sequence.
pub open spec fn kw_iequals() -> Seq<u8> {
    seq![105u8, 101u8, 113u8, 117u8, 97u8, 108u8, 115u8]
}

/// The keyword `matches` as a byte sequence.
pub open spec fn kw_matches() -> Seq<u8> {
    seq![109u8, 97u8, 116u8, 99u8, 104u8, 101u8, 115u8]
}

/// The keyword `defined` as a byte sequence.
pub open spec fn kw_defined() -> Seq<u8> {
    seq![100u8, 101u8, 102u8, 105u8, 110u8, 101u8, 100u8]
}

/// The keyword `filesize` as a byte sequence.
pub open spec fn kw_filesize() -> Seq<u8> {
    seq![102u8, 105u8, 108u8, 101u8, 115u8, 105u8, 122u8, 101u8]
}

/// The keyword `entrypoint` as a byte sequence.
pub open spec fn kw_entrypoint() -> Seq<u8> {
    seq![101u8, 110u8, 116u8, 114u8, 121u8, 112u8, 111u8, 105u8, 110u8, 116u8]
}

/// The keyword `import` as a byte sequence.
pub open spec fn kw_import() -> Seq<u8> {
    seq![105u8, 109u8, 112u8, 111u8, 114u8, 116u8]
}

pub open spec fn spec_word_token(s: Seq<u8>, i: int, j: int) -> Token {
    let t = s.subrange(i, j);
    let sp = Span(i as usize, j as usize);
    if t == kw_rule() {
        Token::RULE_KW(sp)
    } else if t == kw_global() {
        Token::GLOBAL_KW(sp)
    } else if t == kw_private() {
        Token::PRIVATE_KW(sp)
    } else if t == kw_condition() {
        Token::CONDITION_KW(sp)
    } else if t == kw_meta() {
        Token::META_KW(sp)
    } else if t == kw_strings() {
        Token::STRINGS_KW(sp)
    } else if t == kw_true() {
        Token::TRUE_KW(sp)
    } else if t == kw_false() {
        Token::FALSE_KW(sp)
    } else if t == kw_and() {
        Token::AND_KW(sp)
    } else if t == kw_or() {
        Token::OR_KW(sp)
    } else if t == kw_not() {
        Token::NOT_KW(sp)
    } else if t == kw_of() {
        Token::OF_KW(sp)
    } else if t == kw_them() {
        Token::THEM_KW(sp)
    } else if t == kw_all() {
        Token::ALL_KW(sp)
    } else if t == kw_any() {
        Token::ANY_KW(sp)
    } else if t == kw_none() {
        Token::NONE_KW(sp)
    } else if t == kw_at() {
        Token::AT_KW(sp)
    } else if t == kw_in() {
        Token::IN_KW(sp)
    } else if t == kw_for() {
        Token::FOR_KW(sp)
    } else if t == kw_nocase() {
        Token::NOCASE_KW(sp)
    } else if t == kw_ascii() {
        Token::ASCII_KW(sp)
    } else if t == kw_wide() {
        Token::WIDE_KW(sp)
    } else if t == kw_fullword() {
        Token::FULLWORD_KW(sp)
    } else if t == kw_xor() {
        Token::XOR_KW(sp)
    } else if t == kw_base64() {
        Token::BASE64_KW(sp)
    } else if t == kw_base64wide() {
        Token::BASE64WIDE_KW(sp)
    } else if t == kw_contains() {
        Token::CONTAINS_KW(sp)
    } else if t == kw_icontains() {
        Token::ICONTAINS_KW(sp)
    } else if t == kw_startswith() {
        Token::STARTSWITH_KW(sp)
    } else if t == kw_istartswith() {
        Token::ISTARTSWITH_KW(sp)
    } else if t == kw_endswith() {
        Token::ENDSWITH_KW(sp)
    } else if t == kw_iendswith() {
        Token::IENDSWITH_KW(sp)
    } else if t == kw_iequals() {
        Token::IEQUALS_KW(sp)
    } else if t == kw_matches() {
        Token::MATCHES_KW(sp)
    } else if t == kw_defined() {
        Token::DEFINED_KW(sp)
    } else if t == kw_filesize() {
        Token::FILESIZE_KW(sp)
    } else if t == kw_entrypoint() {
        Token::ENTRYPOINT_KW(sp)
    } else if t == kw_import() {
        Token::IMPORT_KW(sp)
    } else {
        Token::IDENT(sp)
    }
}

/// End and kind of the numeric literal starting at `i` (which holds a digit):
/// `0x`/`0o` prefixes select hex and octal digit runs, `_` separators are
/// part of the literal, and `digits.digits` forms a float.  The second
/// component is true for a float literal.
pub open spec fn spec_number_end(s: Seq<u8>, i: int) -> (int, bool) {
    if i + 2 < s.len() && s[i] == 48 && (s[i + 1] == 120 || s[i + 1] == 88) && spec_is_hex_digit(
        s[i + 2],
    ) {
        (run_end(s, i + 2, hex_us_class()), false)
    } else if i + 2 < s.len() && s[i] == 48 && (s[i + 1] == 111 || s[i + 1] == 79)
        && spec_is_oct_digit(s[i + 2]) {
        (run_end(s, i + 2, oct_us_class()), false)
    } else {
        let j = run_end(s, i, dec_us_class());
        if j + 1 < s.len() && s[j] == 46 && spec_is_digit(s[j + 1]) {
            (run_end(s, j + 1, dec_us_class()), true)
        } else {
            (j, false)
        }
    }
}

/// What `next_token` returns in `Normal` mode on a non-empty rest of input:
/// `t` is the token, `j` the position after it, `b` the first byte.
pub open spec fn normal_token_ok(s: Seq<u8>, i: int, t: Token, j: int) -> bool {
    let b = s[i];
    &&& (b == 10 ==> t is NEWLINE && j == i + 1)
    &&& (b == 13 ==> t is NEWLINE && j == (if i + 1 < s.len() && s[i + 1] == 10 {
        i + 2
    } else {
        i + 1
    }))
    &&& (b == 32 || b == 9 ==> t is WHITESPACE && j == ws_end(s, i))
    &&& (spec_is_ident_start(b) ==> j == run_end(s, i, ident_class()) && t == spec_word_token(
        s,
        i,
        j,
    ))
    &&& (spec_is_digit(b) ==> (t is INTEGER_LIT || t is FLOAT_LIT) && j == spec_number_end(
        s,
        i,
    ).0 && (t is FLOAT_LIT <==> spec_number_end(s, i).1))
    &&& (b == 34 ==> (if i + 2 < s.len() && s[i + 1] == 34 && s[i + 2] == 34 {
        match triple_body_end(s, i + 3) {
            Some(e) => t is STRING_LIT && j == e,
            None => t is UNKNOWN && j == i + 1,
        }
    } else {
        match str_body_end(s, i + 1) {
            Some(e) => t is STRING_LIT && j == e,
            None => t is UNKNOWN && j == i + 1,
        }
    }))
    &&& (b == 47 ==> (if i + 1 < s.len() && s[i + 1] == 47 {
        t is COMMENT && j == run_end(s, i + 2, line_class())
    } else if i + 1 < s.len() && s[i + 1] == 42 {
        t is COMMENT && j == block_comment_end(s, i + 2)
    } else if regexp_body_end(s, i + 1) is Some {
        t is REGEXP && j == run_end(s, regexp_body_end(s, i + 1)->0, flag_class())
    } else {
        t is UNKNOWN && j == i + 1
    }))
    &&& (b == 36 ==> t is PATTERN_IDENT && j == run_end(s, i + 1, ident_class()))
    &&& (b == 35 ==> (if run_end(s, i + 1, ident_class()) > i + 1 {
        t is PATTERN_COUNT && j == run_end(s, i + 1, ident_class())
    } else {
        t is UNKNOWN && j == i + 1
    }))
    &&& (b == 64 ==> (if run_end(s, i + 1, ident_class()) > i + 1 {
        t is PATTERN_OFFSET && j == run_end(s, i + 1, ident_class())
    } else {
        t is UNKNOWN && j == i + 1
    }))
    &&& (b == 33 ==> (if i + 1 < s.len() && s[i + 1] == 61 {
        t is NE && j == i + 2
    } else if run_end(s, i + 1, ident_class()) > i + 1 {
        t is PATTERN_LENGTH && j == run_end(s, i + 1, ident_class())
    } else {
        t is UNKNOWN && j == i + 1
    }))
    &&& (b >= 0x80 ==> (if !valid_first_scalar(s.skip(i)) {
        t is INVALID_UTF8 && j == i + 1
    } else if spec_is_space_scalar(decode_first_scalar(s.skip(i))) {
        t is WHITESPACE && j == ws_end(s, i)
    } else {
        t is UNKNOWN && j == unknown_end(s, i)
    }))
    &&& (b == 123 ==> t is L_BRACE && j == i + 1)
    &&& (b == 125 ==> t is R_BRACE && j == i + 1)
    &&& (b == 40 ==> t is L_PAREN && j == i + 1)
    &&& (b == 41 ==> t is R_PAREN && j == i + 1)
    &&& (b == 91 ==> t is L_BRACKET && j == i + 1)
    &&& (b == 93 ==> t is R_BRACKET && j == i + 1)
    &&& (b == 58 ==> t is COLON && j == i + 1)
    &&& (b == 44 ==> t is COMMA && j == i + 1)
    &&& (b == 61 ==> (if i + 1 < s.len() && s[i + 1] == 61 {
        t is EQ && j == i + 2
    } else {
        t is EQUAL && j == i + 1
    }))
    &&& (b == 46 ==> (if i + 1 < s.len() && s[i + 1] == 46 {
        t is DOT_DOT && j == i + 2
    } else {
        t is DOT && j == i + 1
    }))
    &&& (b == 45 ==> t is HYPHEN && j == i + 1)
    &&& (b == 43 ==> t is PLUS && j == i + 1)
    &&& (b == 42 ==> t is ASTERISK && j == i + 1)
    &&& (b == 92 ==> t is BACKSLASH && j == i + 1)
    &&& (b == 37 ==> t is PERCENT && j == i + 1)
    &&& (b == 124 ==> t is PIPE && j == i + 1)
    &&& (b == 94 ==> t is CARET && j == i + 1)
    &&& (b == 38 ==> t is AMPERSAND && j == i + 1)
    &&& (b == 126 ==> t is TILDE && j == i + 1)
    &&& (b == 60 ==> (if i + 1 < s.len() && s[i + 1] == 61 {
        t is LE && j == i + 2
    } else if i + 1 < s.len() && s[i + 1] == 60 {
        t is SHL && j == i + 2
    } else {
        t is LT && j == i + 1
    }))
    &&& (b == 62 ==> (if i + 1 < s.len() && s[i + 1] == 61 {
        t is GE && j == i + 2
    } else if i + 1 < s.len() && s[i + 1] == 62 {
        t is SHR && j == i + 2
    } else {
        t is GT && j == i + 1
    }))
}

/// What `next_token` returns in `HexPattern` mode.
pub open spec fn hex_token_ok(s: Seq<u8>, i: int, t: Token, j: int) -> bool {
    let b = s[i];
    &&& (spec_is_nibble(b) ==> t is HEX_BYTE && j == (if i + 1 < s.len() && spec_is_nibble(
        s[i + 1],
    ) {
        i + 2
    } else {
        i + 1
    }))
    &&& (b == 91 ==> t is L_BRACKET && j == i + 1)
    &&& (b == 125 ==> t is R_BRACE && j == i + 1)
    &&& (b == 40 ==> t is L_PAREN && j == i + 1)
    &&& (b == 41 ==> t is R_PAREN && j == i + 1)
    &&& (b == 124 ==> t is PIPE && j == i + 1)
    &&& (b == 126 ==> t is TILDE && j == i + 1)
    &&& (b == 32 || b == 9 ==> t is WHITESPACE && j == ws_end(s, i))
    &&& (b == 10 ==> t is NEWLINE && j == i + 1)
    &&& (b == 13 ==> t is NEWLINE && j == (if i + 1 < s.len() && s[i + 1] == 10 {
        i + 2
    } else {
        i + 1
    }))
}

/// What `next_token` returns in `HexJump` mode.
pub open spec fn jump_token_ok(s: Seq<u8>, i: int, t: Token, j: int) -> bool {
    let b = s[i];
    &&& (spec_is_digit(b) ==> t is INTEGER_LIT && j == run_end(s, i, digit_class()))
    &&& (b == 45 ==> t is HYPHEN && j == i + 1)
    &&& (b == 93 ==> t is R_BRACKET && j == i + 1)
    &&& (b == 32 || b == 9 ==> t is WHITESPACE && j == ws_end(s, i))
    &&& (b == 10 ==> t is NEWLINE && j == i + 1)
    &&& (b == 13 ==> t is NEWLINE && j == (if i + 1 < s.len() && s[i + 1] == 10 {
        i + 2
    } else {
        i + 1
    }))
}

/// The mode after scanning one token: `[` enters jump mode from hex-pattern
/// mode, `]` returns to hex-pattern mode, `}` leaves a hex pattern.
pub open spec fn mode_after(s: Seq<u8>, i: int, m: Mode) -> Mode {
    let b = s[i];
    match m {
        Mode::Normal => Mode::Normal,
        Mode::HexPattern => if b == 91 {
            Mode::HexJump
        } else if b == 125 {
            Mode::Normal
        } else {
            Mode::HexPattern
        },
        Mode::HexJump => if b == 93 {
            Mode::HexPattern
        } else {
            Mode::HexJump
        },
    }
}

/// Mode-switching tokenizer over a byte buffer.  `next_token` never fails:
/// every byte sequence yields some token sequence, with unrecognized input
/// covered by UNKNOWN and INVALID_UTF8 tokens.
pub struct Tokenizer {
    pub src: Vec<u8>,
    pub pos: usize,
    pub mode: Mode,
}

impl Tokenizer {
    pub open spec fn wf(self) -> bool {
        self.pos <= self.src@.len()
    }

    pub fn new(data: &[u8]) -> (r: Tokenizer)
        ensures
            r.wf(),
            r.src@ == data@,
            r.pos == 0,
            r.mode is Normal,
    {
        Tokenizer { src: vstd::slice::slice_to_vec(data), pos: 0, mode: Mode::Normal }
    }

    /// The parser calls this after recognizing `{` at the start of a
    /// hex-pattern body.
    pub fn enter_hex_pattern_mode(&mut self)
        ensures
            final(self).src == old(self).src,
            final(self).pos == old(self).pos,
            final(self).mode is HexPattern,
    {
        self.mode = Mode::HexPattern;
    }

    /// Enters the bracketed jump sub-grammar; also entered internally when a
    /// `[` is scanned in hex-pattern mode.
    pub fn enter_hex_jump_mode(&mut self)
        ensures
            final(self).src == old(self).src,
            final(self).pos == old(self).pos,
            final(self).mode is HexJump,
    {
        self.mode = Mode::HexJump;
    }

    /// Scans the next token.  Returns `None` exactly at the end of the input;
    /// otherwise the token's span starts at the old position, ends at the new
    /// one, and is never empty, so repeated calls consume the whole input and
    /// the spans partition `[0, len)`.
    pub fn next_token(&mut self) -> (r: Option<Token>)
        requires
            old(self).wf(),
        ensures
            final(self).wf(),
            final(self).src == old(self).src,
            r is None <==> old(self).pos == old(self).src@.len(),
            r is None ==> *final(self) == *old(self),
            r matches Some(t) ==> {
                &&& t.spec_span().0 == old(self).pos
                &&& t.spec_span().1 == final(self).pos
                &&& old(self).pos < final(self).pos <= old(self).src@.len()
                &&& final(self).mode == mode_after(old(self).src@, old(self).pos as int, old(self).mode)
                &&& (old(self).mode is Normal ==> normal_token_ok(
                    old(self).src@,
                    old(self).pos as int,
                    t,
                    final(self).pos as int,
                ))
                &&& (old(self).mode is HexPattern ==> hex_token_ok(
                    old(self).src@,
                    old(self).pos as int,
                    t,
                    final(self).pos as int,
                ))
                &&& (old(self).mode is HexJump ==> jump_token_ok(
                    old(self).src@,
                    old(self).pos as int,
                    t,
                    final(self).pos as int,
                ))
            },
    {
        if self.pos >= self.src.len() {
            return None;
        }
        let i = self.pos;
        let b = self.src[i];
        let (t, j): (Token, usize) = match self.mode {
            Mode::Normal => scan_normal(&self.src, i),
            Mode::HexPattern => scan_hex(&self.src, i),
            Mode::HexJump => scan_jump(&self.src, i),
        };
        match self.mode {
            Mode::Normal => {},
            Mode::HexPattern => {
                if b == 91 {
                    self.mode = Mode::HexJump;
                } else if b == 125 {
                    self.mode = Mode::Normal;
                }
            },
            Mode::HexJump => {
                if b == 93 {
                    self.mode = Mode::HexPattern;
                }
            },
        }
        self.pos = j;
        Some(t)
    }
}

/// A whitespace token starting at an ASCII space or tab.
fn ws_token(s: &Vec<u8>, i: usize) -> (r: (Token, usize))
    requires
        i < s@.len(),
        s@[i as int] == 32 || s@[i as int] == 9,
    ensures
        r.0 is WHITESPACE,
        r.0.spec_span() == Span(i, r.1),
        i < r.1 <= s@.len(),
        r.1 == ws_end(s@, i as int),
{
    let j = scan_ws_end(s, i);
    proof {
        let t = s@.skip(i as int);
        assert(t[0] == s@[i as int]);
        assert((32u8 & 0x7f) == 32u8) by (bit_vector);
        assert((9u8 & 0x7f) == 9u8) by (bit_vector);
        assert(valid_first_scalar(t));
        assert(spec_is_space_scalar(decode_first_scalar(t)));
        assert(length_of_first_scalar(t) == 1);
        assert(ws_end(s@, i as int) == ws_end(s@, i + 1));
        lemma_ws_end_props(s@, i + 1);
    }
    (Token::WHITESPACE(Span(i, j)), j)
}

/// One token of the normal-mode sub-grammar, starting at `i`.
#[verifier::rlimit(100)]
#[verifier::spinoff_prover]
fn scan_normal(s: &Vec<u8>, i: usize) -> (r: (Token, usize))
    requires
        i < s@.len(),
    ensures
        r.0.spec_span() == Span(i, r.1),
        i < r.1 <= s@.len(),
        normal_token_ok(s@, i as int, r.0, r.1 as int),
{
    let _n = s.len();
    let b = s[i];
    if b == 10 {
        (Token::NEWLINE(Span(i, i + 1)), i + 1)
    } else if b == 13 {
        if s.len() - i >= 2 && s[i + 1] == 10 {
            (Token::NEWLINE(Span(i, i + 2)), i + 2)
        } else {
            (Token::NEWLINE(Span(i, i + 1)), i + 1)
        }
    } else if b == 32 || b == 9 {
        ws_token(s, i)
    } else if is_ident_start(b) {
        let j = scan_ident_end(s, i);
        proof {
            assert(ident_class()(s@[i as int]));
            assert(run_end(s@, i as int, ident_class()) == run_end(s@, i + 1, ident_class()));
            lemma_run_end_props(s@, i + 1, ident_class());
        }
        let t = classify_word(s, i, j);
        (t, j)
    } else if is_digit(b) {
        scan_number(s, i)
    } else if b == 34 {
        if s.len() - i >= 3 && s[i + 1] == 34 && s[i + 2] == 34 {
            match scan_triple_body_end(s, i + 3) {
                Some(j) => (Token::STRING_LIT(Span(i, j)), j),
                None => (Token::UNKNOWN(Span(i, i + 1)), i + 1),
            }
        } else {
            match scan_str_body_end(s, i + 1) {
                Some(j) => (Token::STRING_LIT(Span(i, j)), j),
                None => (Token::UNKNOWN(Span(i, i + 1)), i + 1),
            }
        }
    } else if b == 47 {
        if s.len() - i >= 2 && s[i + 1] == 47 {
            let j = scan_class_end(s, i + 2, 4);
            (Token::COMMENT(Span(i, j)), j)
        } else if s.len() - i >= 2 && s[i + 1] == 42 {
            let j = scan_block_comment_end(s, i + 2);
            (Token::COMMENT(Span(i, j)), j)
        } else {
            match scan_regexp_body_end(s, i + 1) {
                Some(e) => {
                    let j = scan_class_end(s, e, 5);
                    (Token::REGEXP(Span(i, j)), j)
                },
                None => (Token::UNKNOWN(Span(i, i + 1)), i + 1),
            }
        }
    } else if b == 36 {
        let j = scan_ident_end(s, i + 1);
        (Token::PATTERN_IDENT(Span(i, j)), j)
    } else if b == 35 {
        let j = scan_ident_end(s, i + 1);
        if j > i + 1 {
            (Token::PATTERN_COUNT(Span(i, j)), j)
        } else {
            (Token::UNKNOWN(Span(i, i + 1)), i + 1)
        }
    } else if b == 64 {
        let j = scan_ident_end(s, i + 1);
        if j > i + 1 {
            (Token::PATTERN_OFFSET(Span(i, j)), j)
        } else {
            (Token::UNKNOWN(Span(i, i + 1)), i + 1)
        }
    } else if b == 33 {
        if s.len() - i >= 2 && s[i + 1] == 61 {
            (Token::NE(Span(i, i + 2)), i + 2)
        } else {
            let j = scan_ident_end(s, i + 1);
            if j > i + 1 {
                (Token::PATTERN_LENGTH(Span(i, j)), j)
            } else {
                (Token::UNKNOWN(Span(i, i + 1)), i + 1)
            }
        }
    } else if b >= 0x80 {
        match scalar_at(s, i) {
            Some((cp, l)) => {
                if is_space_scalar(cp) {
                    let j = scan_ws_end(s, i);
                    proof {
                        assert(ws_end(s@, i as int) == ws_end(s@, i + l));
                        lemma_ws_end_props(s@, i + l);
                    }
                    (Token::WHITESPACE(Span(i, j)), j)
                } else {
                    let j = scan_unknown_end(s, i);
                    proof {
                        let t = s@.skip(i as int);
                        assert(t[0] == s@[i as int]);
                        assert(cp >= 0x80);
                        assert(unknown_end(s@, i as int) == unknown_end(s@, i + l));
                        lemma_unknown_end_props(s@, i + l);
                    }
                    (Token::UNKNOWN(Span(i, j)), j)
                }
            },
            None => (Token::INVALID_UTF8(Span(i, i + 1)), i + 1),
        }
    } else if b == 123 {
        (Token::L_BRACE(Span(i, i + 1)), i + 1)
    } else if b == 125 {
        (Token::R_BRACE(Span(i, i + 1)), i + 1)
    } else if b == 40 {
        (Token::L_PAREN(Span(i, i + 1)), i + 1)
    } else if b == 41 {
        (Token::R_PAREN(Span(i, i + 1)), i + 1)
    } else if b == 91 {
        (Token::L_BRACKET(Span(i, i + 1)), i + 1)
    } else if b == 93 {
        (Token::R_BRACKET(Span(i, i + 1)), i + 1)
    } else if b == 58 {
        (Token::COLON(Span(i, i + 1)), i + 1)
    } else if b == 44 {
        (Token::COMMA(Span(i, i + 1)), i + 1)
    } else if b == 61 {
        if s.len() - i >= 2 && s[i + 1] == 61 {
            (Token::EQ(Span(i, i + 2)), i + 2)
        } else {
            (Token::EQUAL(Span(i, i + 1)), i + 1)
        }
    } else if b == 46 {
        if s.len() - i >= 2 && s[i + 1] == 46 {
            (Token::DOT_DOT(Span(i, i + 2)), i + 2)
        } else {
            (Token::DOT(Span(i, i + 1)), i + 1)
        }
    } else if b == 45 {
        (Token::HYPHEN(Span(i, i + 1)), i + 1)
    } else if b == 43 {
        (Token::PLUS(Span(i, i + 1)), i + 1)
    } else if b == 42 {
        (Token::ASTERISK(Span(i, i + 1)), i + 1)
    } else if b == 92 {
        (Token::BACKSLASH(Span(i, i + 1)), i + 1)
    } else if b == 37 {
        (Token::PERCENT(Span(i, i + 1)), i + 1)
    } else if b == 124 {
        (Token::PIPE(Span(i, i + 1)), i + 1)
    } else if b == 94 {
        (Token::CARET(Span(i, i + 1)), i + 1)
    } else if b == 38 {
        (Token::AMPERSAND(Span(i, i + 1)), i + 1)
    } else if b == 126 {
        (Token::TILDE(Span(i, i + 1)), i + 1)
    } else if b == 60 {
        if s.len() - i >= 2 && s[i + 1] == 61 {
            (Token::LE(Span(i, i + 2)), i + 2)
        } else if s.len() - i >= 2 && s[i + 1] == 60 {
            (Token::SHL(Span(i, i + 2)), i + 2)
        } else {
            (Token::LT(Span(i, i + 1)), i + 1)
        }
    } else if b == 62 {
        if s.len() - i >= 2 && s[i + 1] == 61 {
            (Token::GE(Span(i, i + 2)), i + 2)
        } else if s.len() - i >= 2 && s[i + 1] == 62 {
            (Token::SHR(Span(i, i + 2)), i + 2)
        } else {
            (Token::GT(Span(i, i + 1)), i + 1)
        }
    } else {
        (Token::UNKNOWN(Span(i, i + 1)), i + 1)
    }
}

/// One token of the hex-pattern sub-grammar.
fn scan_hex(s: &Vec<u8>, i: usize) -> (r: (Token, usize))
    requires
        i < s@.len(),
    ensures
        r.0.spec_span() == Span(i, r.1),
        i < r.1 <= s@.len(),
        hex_token_ok(s@, i as int, r.0, r.1 as int),
{
    let _n = s.len();
    let b = s[i];
    if is_nibble(b) {
        if s.len() - i >= 2 && is_nibble(s[i + 1]) {
            (Token::HEX_BYTE(Span(i, i + 2)), i + 2)
        } else {
            (Token::HEX_BYTE(Span(i, i + 1)), i + 1)
        }
    } else if b == 91 {
        (Token::L_BRACKET(Span(i, i + 1)), i + 1)
    } else if b == 125 {
        (Token::R_BRACE(Span(i, i + 1)), i + 1)
    } else if b == 40 {
        (Token::L_PAREN(Span(i, i + 1)), i + 1)
    } else if b == 41 {
        (Token::R_PAREN(Span(i, i + 1)), i + 1)
    } else if b == 124 {
        (Token::PIPE(Span(i, i + 1)), i + 1)
    } else if b == 126 {
        (Token::TILDE(Span(i, i + 1)), i + 1)
    } else if b == 32 || b == 9 {
        ws_token(s, i)
    } else if b == 10 {
        (Token::NEWLINE(Span(i, i + 1)), i + 1)
    } else if b == 13 {
        if s.len() - i >= 2 && s[i + 1] == 10 {
            (Token::NEWLINE(Span(i, i + 2)), i + 2)
        } else {
            (Token::NEWLINE(Span(i, i + 1)), i + 1)
        }
    } else if b == 47 && s.len() - i >= 2 && s[i + 1] == 47 {
        let j = scan_class_end(s, i + 2, 4);
        (Token::COMMENT(Span(i, j)), j)
    } else if b == 47 && s.len() - i >= 2 && s[i + 1] == 42 {
        let j = scan_block_comment_end(s, i + 2);
        (Token::COMMENT(Span(i, j)), j)
    } else {
        (Token::UNKNOWN(Span(i, i + 1)), i + 1)
    }
}

/// One token of the hex-jump sub-grammar.
fn scan_jump(s: &Vec<u8>, i: usize) -> (r: (Token, usize))
    requires
        i < s@.len(),
    ensures
        r.0.spec_span() == Span(i, r.1),
        i < r.1 <= s@.len(),
        jump_token_ok(s@, i as int, r.0, r.1 as int),
{
    let _n = s.len();
    let b = s[i];
    if is_digit(b) {
        let j = scan_class_end(s, i, 6);
        proof {
            assert(digit_class()(s@[i as int]));
            assert(run_end(s@, i as int, digit_class()) == run_end(s@, i + 1, digit_class()));
            lemma_run_end_props(s@, i + 1, digit_class());
        }
        (Token::INTEGER_LIT(Span(i, j)), j)
    } else if b == 45 {
        (Token::HYPHEN(Span(i, i + 1)), i + 1)
    } else if b == 93 {
        (Token::R_BRACKET(Span(i, i + 1)), i + 1)
    } else if b == 32 || b == 9 {
        ws_token(s, i)
    } else if b == 10 {
        (Token::NEWLINE(Span(i, i + 1)), i + 1)
    } else if b == 13 {
        if s.len() - i >= 2 && s[i + 1] == 10 {
            (Token::NEWLINE(Span(i, i + 2)), i + 2)
        } else {
            (Token::NEWLINE(Span(i, i + 1)), i + 1)
        }
    } else {
        (Token::UNKNOWN(Span(i, i + 1)), i + 1)
    }
}

/// The reserved words, numbered; the order fixes the classification chain.
pub open spec fn kw_seq(id: int) -> Seq<u8> {
    if id == 0 {
        kw_rule()
    } else if id == 1 {
        kw_global()
    } else if id == 2 {
        kw_private()
    } else if id == 3 {
        kw_condition()
    } else if id == 4 {
        kw_meta()
    } else if id == 5 {
        kw_strings()
    } else if id == 6 {
        kw_true()
    } else if id == 7 {
        kw_false()
    } else if id == 8 {
        kw_and()
    } else if id == 9 {
        kw_or()
    } else if id == 10 {
        kw_not()
    } else if id == 11 {
        kw_of()
    } else if id == 12 {
        kw_them()
    } else if id == 13 {
        kw_all()
    } else if id == 14 {
        kw_any()
    } else if id == 15 {
        kw_none()
    } else if id == 16 {
        kw_at()
    } else if id == 17 {
        kw_in()
    } else if id == 18 {
        kw_for()
    } else if id == 19 {
        kw_nocase()
    } else if id == 20 {
        kw_ascii()
    } else if id == 21 {
        kw_wide()
    } else if id == 22 {
        kw_fullword()
    } else if id == 23 {
        kw_xor()
    } else if id == 24 {
        kw_base64()
    } else if id == 25 {
        kw_base64wide()
    } else if id == 26 {
        kw_contains()
    } else if id == 27 {
        kw_icontains()
    } else if id == 28 {
        kw_startswith()
    } else if id == 29 {
        kw_istartswith()
    } else if id == 30 {
        kw_endswith()
    } else if id == 31 {
        kw_iendswith()
    } else if id == 32 {
        kw_iequals()
    } else if id == 33 {
        kw_matches()
    } else if id == 34 {
        kw_defined()
    } else if id == 35 {
        kw_filesize()
    } else if id == 36 {
        kw_entrypoint()
    } else if id == 37 {
        kw_import()
    } else {
        Seq::empty()
    }
}

fn kw_len(id: usize) -> (r: usize)
    requires
        id < 38,
    ensures
        r == kw_seq(id as int).len(),
{
    match id {
        0 => 4,
        1 => 6,
        2 => 7,
        3 => 9,
        4 => 4,
        5 => 7,
        6 => 4,
        7 => 5,
        8 => 3,
        9 => 2,
        10 => 3,
        11 => 2,
        12 => 4,
        13 => 3,
        14 => 3,
        15 => 4,
        16 => 2,
        17 => 2,
        18 => 3,
        19 => 6,
        20 => 5,
        21 => 4,
        22 => 8,
        23 => 3,
        24 => 6,
        25 => 10,
        26 => 8,
        27 => 9,
        28 => 10,
        29 => 11,
        30 => 8,
        31 => 9,
        32 => 7,
        33 => 7,
        34 => 7,
        35 => 8,
        36 => 10,
        37 => 6,
        _ => 0,
    }
}

fn kw_byte(id: usize, k: usize) -> (r: u8)
    requires
        id < 38,
        k < kw_seq(id as int).len(),
    ensures
        r == kw_seq(id as int)[k as int],
{
    match id {
        0 => match k { 0 => 114, 1 => 117, 2 => 108, 3 => 101, _ => 0, },
        1 => match k { 0 => 103, 1 => 108, 2 => 111, 3 => 98, 4 => 97, 5 => 108, _ => 0, },
        2 => match k { 0 => 112, 1 => 114, 2 => 105, 3 => 118, 4 => 97, 5 => 116, 6 => 101, _ => 0, },
        3 => match k { 0 => 99, 1 => 111, 2 => 110, 3 => 100, 4 => 105, 5 => 116, 6 => 105, 7 => 111, 8 => 110, _ => 0, },
        4 => match k { 0 => 109, 1 => 101, 2 => 116, 3 => 97, _ => 0, },
        5 => match k { 0 => 115, 1 => 116, 2 => 114, 3 => 105, 4 => 110, 5 => 103, 6 => 115, _ => 0, },
        6 => match k { 0 => 116, 1 => 114, 2 => 117, 3 => 101, _ => 0, },
        7 => match k { 0 => 102, 1 => 97, 2 => 108, 3 => 115, 4 => 101, _ => 0, },
        8 => match k { 0 => 97, 1 => 110, 2 => 100, _ => 0, },
        9 => match k { 0 => 111, 1 => 114, _ => 0, },
        10 => match k { 0 => 110, 1 => 111, 2 => 116, _ => 0, },
        11 => match k { 0 => 111, 1 => 102, _ => 0, },
        12 => match k { 0 => 116, 1 => 104, 2 => 101, 3 => 109, _ => 0, },
        13 => match k { 0 => 97, 1 => 108, 2 => 108, _ => 0, },
        14 => match k { 0 => 97, 1 => 110, 2 => 121, _ => 0, },
        15 => match k { 0 => 110, 1 => 111, 2 => 110, 3 => 101, _ => 0, },
        16 => match k { 0 => 97, 1 => 116, _ => 0, },
        17 => match k { 0 => 105, 1 => 110, _ => 0, },
        18 => match k { 0 => 102, 1 => 111, 2 => 114, _ => 0, },
        19 => match k { 0 => 110, 1 => 111, 2 => 99, 3 => 97, 4 => 115, 5 => 101, _ => 0, },
        20 => match k { 0 => 97, 1 => 115, 2 => 99, 3 => 105, 4 => 105, _ => 0, },
        21 => match k { 0 => 119, 1 => 105, 2 => 100, 3 => 101, _ => 0, },
        22 => match k { 0 => 102, 1 => 117, 2 => 108, 3 => 108, 4 => 119, 5 => 111, 6 => 114, 7 => 100, _ => 0, },
        23 => match k { 0 => 120, 1 => 111, 2 => 114, _ => 0, },
        24 => match k { 0 => 98, 1 => 97, 2 => 115, 3 => 101, 4 => 54, 5 => 52, _ => 0, },
        25 => match k { 0 => 98, 1 => 97, 2 => 115, 3 => 101, 4 => 54, 5 => 52, 6 => 119, 7 => 105, 8 => 100, 9 => 101, _ => 0, },
        26 => match k { 0 => 99, 1 => 111, 2 => 110, 3 => 116, 4 => 97, 5 => 105, 6 => 110, 7 => 115, _ => 0, },
        27 => match k { 0 => 105, 1 => 99, 2 => 111, 3 => 110, 4 => 116, 5 => 97, 6 => 105, 7 => 110, 8 => 115, _ => 0, },
        28 => match k { 0 => 115, 1 => 116, 2 => 97, 3 => 114, 4 => 116, 5 => 115, 6 => 119, 7 => 105, 8 => 116, 9 => 104, _ => 0, },
        29 => match k { 0 => 105, 1 => 115, 2 => 116, 3 => 97, 4 => 114, 5 => 116, 6 => 115, 7 => 119, 8 => 105, 9 => 116, 10 => 104, _ => 0, },
        30 => match k { 0 => 101, 1 => 110, 2 => 100, 3 => 115, 4 => 119, 5 => 105, 6 => 116, 7 => 104, _ => 0, },
        31 => match k { 0 => 105, 1 => 101, 2 => 110, 3 => 100, 4 => 115, 5 => 119, 6 => 105, 7 => 116, 8 => 104, _ => 0, },
        32 => match k { 0 => 105, 1 => 101, 2 => 113, 3 => 117, 4 => 97, 5 => 108, 6 => 115, _ => 0, },
        33 => match k { 0 => 109, 1 => 97, 2 => 116, 3 => 99, 4 => 104, 5 => 101, 6 => 115, _ => 0, },
        34 => match k { 0 => 100, 1 => 101, 2 => 102, 3 => 105, 4 => 110, 5 => 101, 6 => 100, _ => 0, },
        35 => match k { 0 => 102, 1 => 105, 2 => 108, 3 => 101, 4 => 115, 5 => 105, 6 => 122, 7 => 101, _ => 0, },
        36 => match k { 0 => 101, 1 => 110, 2 => 116, 3 => 114, 4 => 121, 5 => 112, 6 => 111, 7 => 105, 8 => 110, 9 => 116, _ => 0, },
        37 => match k { 0 => 105, 1 => 109, 2 => 112, 3 => 111, 4 => 114, 5 => 116, _ => 0, },
        _ => 0,
    }
}

/// Compares `s[i..j]` with reserved word number `id`.
fn kw_eq(s: &Vec<u8>, i: usize, j: usize, id: usize) -> (r: bool)
    requires
        i <= j <= s@.len(),
        id < KW_COUNT,
    ensures
        r <==> s@.subrange(i as int, j as int) == kw_seq(id as int),
{
    let n = j - i;
    if n != kw_len(id) {
        proof {
            assert(s@.subrange(i as int, j as int).len() == j - i);
        }
        return false;
    }
    let mut k: usize = 0;
    while k < n
        invariant
            i <= j <= s@.len(),
            n == j - i,
            id < KW_COUNT,
            n == kw_seq(id as int).len(),
            k <= n,
            forall|m: int| 0 <= m < k ==> s@.subrange(i as int, j as int)[m] == kw_seq(id as int)[m],
        decreases n - k,
    {
        proof {
            assert(s@.subrange(i as int, j as int)[k as int] == s@[i + k]);
        }
        if s[i + k] != kw_byte(id, k) {
            proof {
                assert(s@.subrange(i as int, j as int)[k as int] != kw_seq(id as int)[k as int]);
            }
            return false;
        }
        k += 1;
    }
    proof {
        assert(s@.subrange(i as int, j as int) =~= kw_seq(id as int));
    }
    true
}

/// Classifies an identifier-shaped run as a keyword or IDENT.
fn classify_word(s: &Vec<u8>, i: usize, j: usize) -> (r: Token)
    requires
        i <= j <= s@.len(),
    ensures
        r == spec_word_token(s@, i as int, j as int),
{
    let sp = Span(i, j);
    if kw_eq(s, i, j, 0) {
        Token::RULE_KW(sp)
    } else if kw_eq(s, i, j, 1) {
        Token::GLOBAL_KW(sp)
    } else if kw_eq(s, i, j, 2) {
        Token::PRIVATE_KW(sp)
    } else if kw_eq(s, i, j, 3) {
        Token::CONDITION_KW(sp)
    } else if kw_eq(s, i, j, 4) {
        Token::META_KW(sp)
    } else if kw_eq(s, i, j, 5) {
        Token::STRINGS_KW(sp)
    } else if kw_eq(s, i, j, 6) {
        Token::TRUE_KW(sp)
    } else if kw_eq(s, i, j, 7) {
        Token::FALSE_KW(sp)
    } else if kw_eq(s, i, j, 8) {
        Token::AND_KW(sp)
    } else if kw_eq(s, i, j, 9) {
        Token::OR_KW(sp)
    } else if kw_eq(s, i, j, 10) {
        Token::NOT_KW(sp)
    } else if kw_eq(s, i, j, 11) {
        Token::OF_KW(sp)
    } else if kw_eq(s, i, j, 12) {
        Token::THEM_KW(sp)
    } else if kw_eq(s, i, j, 13) {
        Token::ALL_KW(sp)
    } else if kw_eq(s, i, j, 14) {
        Token::ANY_KW(sp)
    } else if kw_eq(s, i, j, 15) {
        Token::NONE_KW(sp)
    } else if kw_eq(s, i, j, 16) {
        Token::AT_KW(sp)
    } else if kw_eq(s, i, j, 17) {
        Token::IN_KW(sp)
    } else if kw_eq(s, i, j, 18) {
        Token::FOR_KW(sp)
    } else if kw_eq(s, i, j, 19) {
        Token::NOCASE_KW(sp)
    } else if kw_eq(s, i, j, 20) {
        Token::ASCII_KW(sp)
    } else if kw_eq(s, i, j, 21) {
        Token::WIDE_KW(sp)
    } else if kw_eq(s, i, j, 22) {
        Token::FULLWORD_KW(sp)
    } else if kw_eq(s, i, j, 23) {
        Token::XOR_KW(sp)
    } else if kw_eq(s, i, j, 24) {
        Token::BASE64_KW(sp)
    } else if kw_eq(s, i, j, 25) {
        Token::BASE64WIDE_KW(sp)
    } else if kw_eq(s, i, j, 26) {
        Token::CONTAINS_KW(sp)
    } else if kw_eq(s, i, j, 27) {
        Token::ICONTAINS_KW(sp)
    } else if kw_eq(s, i, j, 28) {
        Token::STARTSWITH_KW(sp)
    } else if kw_eq(s, i, j, 29) {
        Token::ISTARTSWITH_KW(sp)
    } else if kw_eq(s, i, j, 30) {
        Token::ENDSWITH_KW(sp)
    } else if kw_eq(s, i, j, 31) {
        Token::IENDSWITH_KW(sp)
    } else if kw_eq(s, i, j, 32) {
        Token::IEQUALS_KW(sp)
    } else if kw_eq(s, i, j, 33) {
        Token::MATCHES_KW(sp)
    } else if kw_eq(s, i, j, 34) {
        Token::DEFINED_KW(sp)
    } else if kw_eq(s, i, j, 35) {
        Token::FILESIZE_KW(sp)
    } else if kw_eq(s, i, j, 36) {
        Token::ENTRYPOINT_KW(sp)
    } else if kw_eq(s, i, j, 37) {
        Token::IMPORT_KW(sp)
    } else {
        Token::IDENT(sp)
    }
}

/// Numeric literal starting at a digit.
fn scan_number(s: &Vec<u8>, i: usize) -> (r: (Token, usize))
    requires
        i < s@.len(),
        spec_is_digit(s@[i as int]),
    ensures
        r.0.spec_span() == Span(i, r.1),
        i < r.1 <= s@.len(),
        (r.0 is INTEGER_LIT || r.0 is FLOAT_LIT),
        r.1 == spec_number_end(s@, i as int).0,
        r.0 is FLOAT_LIT <==> spec_number_end(s@, i as int).1,
{
    let b = s[i];
    if s.len() - i > 2 && b == 48 && (s[i + 1] == 120 || s[i + 1] == 88) && is_hex_digit(
        s[i + 2],
    ) {
        let j = scan_class_end(s, i + 2, 2);
        proof {
            assert(hex_us_class()(s@[i + 2]));
            assert(run_end(s@, i + 2, hex_us_class()) == run_end(s@, i + 3, hex_us_class()));
            lemma_run_end_props(s@, i + 3, hex_us_class());
        }
        (Token::INTEGER_LIT(Span(i, j)), j)
    } else if s.len() - i > 2 && b == 48 && (s[i + 1] == 111 || s[i + 1] == 79) && 48 <= s[i + 2]
        && s[i + 2] <= 55 {
        let j = scan_class_end(s, i + 2, 3);
        proof {
            assert(oct_us_class()(s@[i + 2]));
            assert(run_end(s@, i + 2, oct_us_class()) == run_end(s@, i + 3, oct_us_class()));
            lemma_run_end_props(s@, i + 3, oct_us_class());
        }
        (Token::INTEGER_LIT(Span(i, j)), j)
    } else {
        let j = scan_class_end(s, i, 1);
        proof {
            assert(dec_us_class()(s@[i as int]));
            assert(run_end(s@, i as int, dec_us_class()) == run_end(s@, i + 1, dec_us_class()));
            lemma_run_end_props(s@, i + 1, dec_us_class());
        }
        if s.len() - j > 1 && s[j] == 46 && is_digit(s[j + 1]) {
            let k = scan_class_end(s, j + 1, 1);
            proof {
                assert(dec_us_class()(s@[j + 1]));
                assert(run_end(s@, j + 1, dec_us_class()) == run_end(s@, j + 2, dec_us_class()));
                lemma_run_end_props(s@, j + 2, dec_us_class());
            }
            (Token::FLOAT_LIT(Span(i, k)), k)
        } else {
            (Token::INTEGER_LIT(Span(i, j)), j)
        }
    }
}


/// The spans of a token sequence partition `[0, n)`: the first starts at 0,
/// each token starts where the previous one ended, every span is non-empty,
/// and the last ends at `n`.
pub open spec fn tokens_partition(ts: Seq<Token>, n: int) -> bool {
    &&& (ts.len() == 0 ==> n == 0)
    &&& (ts.len() > 0 ==> ts[0].spec_span().0 == 0 && ts[ts.len() - 1].spec_span().1 == n)
    &&& (forall|k: int| 0 <= k < ts.len() ==> (#[trigger] ts[k].spec_span()).0 < ts[k].spec_span().1)
    &&& (forall|k: int| 1 <= k < ts.len() ==> (#[trigger] ts[k].spec_span()).0 == ts[k - 1].spec_span().1)
}

/// The token is what one scanner step yields over its span under one of
/// the three lexer modes, or one half of a split CRLF newline.
pub open spec fn scan_step_ok(s: Seq<u8>, i: int, t: Token, j: int) -> bool {
    ||| normal_token_ok(s, i, t, j)
    ||| hex_token_ok(s, i, t, j)
    ||| jump_token_ok(s, i, t, j)
    ||| (t is NEWLINE && j == i + 1 && 0 <= i && i + 1 < s.len() && s[i] == 13 && s[i + 1]
        == 10)
}

/// Tokenizes a whole buffer, driving the mode switches the way the parser
/// does: a `{` that follows a pattern identifier and `=` enters hex-pattern
/// mode.  The resulting spans partition the input, and every token is the
/// scan of its own span: tokenization is total.  With `split_crlf`, a CRLF
/// newline token is broken into one leaf per byte, which the syntax tree
/// wants so that each line break of a CRLF pair shows on its own.
pub fn tokenize_all(data: &[u8], split_crlf: bool) -> (r: Vec<Token>)
    ensures
        tokens_partition(r@, data@.len() as int),
        forall|k: int|
            0 <= k < r@.len() ==> scan_step_ok(
                data@,
                (#[trigger] r@[k]).spec_span().0 as int,
                r@[k],
                r@[k].spec_span().1 as int,
            ),
{
    let mut tk = Tokenizer::new(data);
    let mut out: Vec<Token> = Vec::new();
    // 0: none, 1: pattern identifier, 2: `=`, 3: anything else.
    let mut prev1: u8 = 0;
    let mut prev2: u8 = 0;
    loop
        invariant
            tk.wf(),
            tk.src@ == data@,
            tokens_partition(out@, tk.pos as int),
            forall|k: int|
                0 <= k < out@.len() ==> scan_step_ok(
                    data@,
                    (#[trigger] out@[k]).spec_span().0 as int,
                    out@[k],
                    out@[k].spec_span().1 as int,
                ),
        ensures
            tokens_partition(out@, data@.len() as int),
            forall|k: int|
                0 <= k < out@.len() ==> scan_step_ok(
                    data@,
                    (#[trigger] out@[k]).spec_span().0 as int,
                    out@[k],
                    out@[k].spec_span().1 as int,
                ),
        decreases data@.len() - tk.pos,
    {
        let ghost prev = out@;
        match tk.next_token() {
            Some(t) => {
                proof {
                    assert(scan_step_ok(
                        data@,
                        t.spec_span().0 as int,
                        t,
                        t.spec_span().1 as int,
                    ));
                }
                let sp = t.span();
                let mut split = false;
                if split_crlf {
                    if let Token::NEWLINE(_) = t {
                        if sp.1 - sp.0 == 2 && sp.1 <= data.len() && data[sp.0] == 13 && data[sp.0
                            + 1] == 10 {
                            split = true;
                        }
                    }
                }
                if split {
                    push_tok(&mut out, Token::NEWLINE(Span(sp.0, sp.0 + 1)));
                    push_tok(&mut out, Token::NEWLINE(Span(sp.0 + 1, sp.1)));
                    proof {
                        assert(scan_step_ok(
                            data@,
                            sp.0 as int,
                            Token::NEWLINE(Span(sp.0, (sp.0 + 1) as usize)),
                            sp.0 + 1,
                        ));
                        assert(normal_token_ok(
                            data@,
                            sp.0 + 1,
                            Token::NEWLINE(Span((sp.0 + 1) as usize, sp.1)),
                            sp.1 as int,
                        ));
                        assert forall|k: int| 0 <= k < out@.len() implies scan_step_ok(
                            data@,
                            (#[trigger] out@[k]).spec_span().0 as int,
                            out@[k],
                            out@[k].spec_span().1 as int,
                        ) by {
                            if k < prev.len() {
                                assert(out@[k] == prev[k]);
                            }
                        }
                    }
                } else {
                    push_tok(&mut out, t);
                    proof {
                        assert forall|k: int| 0 <= k < out@.len() implies scan_step_ok(
                            data@,
                            (#[trigger] out@[k]).spec_span().0 as int,
                            out@[k],
                            out@[k].spec_span().1 as int,
                        ) by {
                            if k < prev.len() {
                                assert(out@[k] == prev[k]);
                            }
                        }
                    }
                }
                if !t.is_trivia() {
                    let code: u8 = match t {
                        Token::PATTERN_IDENT(_) => 1,
                        Token::EQUAL(_) => 2,
                        Token::L_BRACE(_) => 3,
                        _ => 4,
                    };
                    if code == 3 && prev1 == 2 && prev2 == 1 {
                        tk.enter_hex_pattern_mode();
                    }
                    prev2 = prev1;
                    prev1 = code;
                }
            },
            None => {
                break;
            },
        }
    }
    out
}


/// Appends a token whose span starts exactly where the sequence so far ends.
fn push_tok(out: &mut Vec<Token>, t: Token)
    requires
        tokens_partition(old(out)@, t.spec_span().0 as int),
        t.spec_span().0 < t.spec_span().1,
    ensures
        tokens_partition(final(out)@, t.spec_span().1 as int),
        final(out)@ == old(out)@.push(t),
{
    let ghost old_out = out@;
    out.push(t);
    proof {
        assert(out@ == old_out.push(t));
        assert forall|k: int| 0 <= k < out@.len() implies (
            #[trigger] out@[k].spec_span()).0 < out@[k].spec_span().1 by {
            if k < old_out.len() {
                assert(out@[k] == old_out[k]);
            }
        }
        assert forall|k: int| 1 <= k < out@.len() implies (
            #[trigger] out@[k].spec_span()).0 == out@[k - 1].spec_span().1 by {
            if k < old_out.len() {
                assert(out@[k] == old_out[k]);
                assert(out@[k - 1] == old_out[k - 1]);
            } else {
                assert(out@[k] == t);
                if old_out.len() > 0 {
                    assert(out@[k - 1] == old_out[old_out.len() - 1]);
                }
            }
        }
        assert(out@[0].spec_span().0 == 0);
    }
}

/// Every token span of a partition lies within `[0, n]`.
pub proof fn lemma_partition_span_bounds(ts: Seq<Token>, n: int)
    requires
        tokens_partition(ts, n),
    ensures
        forall|k: int| 0 <= k < ts.len() ==> (#[trigger] ts[k].spec_span()).1 <= n,
{
    assert forall|k: int| 0 <= k < ts.len() implies (#[trigger] ts[k].spec_span()).1 <= n by {
        if k < ts.len() - 1 {
            lemma_token_spans_disjoint(ts, n, k, ts.len() - 1);
        }
    }
}

/// The source text covered by each token, concatenated in order.
pub open spec fn token_texts(s: Seq<u8>, ts: Seq<Token>) -> Seq<u8>
    decreases ts.len(),
{
    if ts.len() == 0 {
        Seq::empty()
    } else {
        token_texts(s, ts.drop_last()) + s.subrange(
            ts.last().spec_span().0 as int,
            ts.last().spec_span().1 as int,
        )
    }
}

/// Removing the last token of a partition leaves a partition of the prefix.
pub proof fn lemma_partition_prefix(ts: Seq<Token>, n: int)
    requires
        tokens_partition(ts, n),
        ts.len() > 0,
    ensures
        tokens_partition(ts.drop_last(), ts[ts.len() - 1].spec_span().0 as int),
{
    let p = ts.drop_last();
    assert(forall|k: int| 0 <= k < p.len() ==> p[k] == ts[k]);
    if p.len() > 0 {
        assert(ts[ts.len() - 1].spec_span().0 == ts[ts.len() - 2].spec_span().1);
    }
}

/// Concatenating the text under each token of a partition of `[0, n)`
/// reproduces the first `n` source bytes: tokenization loses nothing.
pub proof fn lemma_partition_concat(s: Seq<u8>, ts: Seq<Token>, n: int)
    requires
        tokens_partition(ts, n),
        0 <= n <= s.len(),
    ensures
        token_texts(s, ts) == s.subrange(0, n),
    decreases ts.len(),
{
    if ts.len() == 0 {
        assert(s.subrange(0, 0) =~= Seq::<u8>::empty());
        assert(token_texts(s, ts) =~= s.subrange(0, n));
    } else {
        let last = ts[ts.len() - 1];
        let m = last.spec_span().0 as int;
        lemma_partition_prefix(ts, n);
        lemma_partition_concat(s, ts.drop_last(), m);
        assert(token_texts(s, ts) == s.subrange(0, m) + s.subrange(m, n));
        assert(s.subrange(0, m) + s.subrange(m, n) =~= s.subrange(0, n));
    }
}

/// Every byte offset below `n` is covered by some token of a partition:
/// there are no gaps.
pub proof fn lemma_tokens_cover_all_bytes(ts: Seq<Token>, n: int, k: int)
    requires
        tokens_partition(ts, n),
        0 <= k < n,
    ensures
        exists|idx: int|
            0 <= idx < ts.len() && (#[trigger] ts[idx].spec_span()).0 <= k < ts[
                idx
            ].spec_span().1,
    decreases ts.len(),
{
    let last = ts[ts.len() - 1];
    if last.spec_span().0 <= k {
        assert(0 <= ts.len() - 1 < ts.len() && ts[ts.len() - 1].spec_span().0 <= k < ts[ts.len()
            - 1].spec_span().1);
    } else {
        lemma_partition_prefix(ts, n);
        lemma_tokens_cover_all_bytes(ts.drop_last(), last.spec_span().0 as int, k);
        let idx = choose|idx: int|
            0 <= idx < ts.drop_last().len() && (#[trigger] ts.drop_last()[idx].spec_span()).0 <= k
                < ts.drop_last()[idx].spec_span().1;
        assert(ts[idx] == ts.drop_last()[idx]);
        assert(ts[idx].spec_span().0 <= k < ts[idx].spec_span().1);
    }
}

/// Tokens of a partition cover pairwise disjoint ranges: there are no
/// overlaps.
pub proof fn lemma_token_spans_disjoint(ts: Seq<Token>, n: int, i: int, j: int)
    requires
        tokens_partition(ts, n),
        0 <= i < j < ts.len(),
    ensures
        ts[i].spec_span().1 <= ts[j].spec_span().0,
    decreases j - i,
{
    if j == i + 1 {
    } else {
        lemma_token_spans_disjoint(ts, n, i, j - 1);
    }
}


} // verus!
