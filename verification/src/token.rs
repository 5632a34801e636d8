use vstd::prelude::*;
use crate::span::Span;

verus! {

/// A token of the rule language: a tag and the span of source bytes it covers.
/// Keyword variants end in `_KW`; punctuation and literal variants carry the
/// same span payload.
#[allow(non_camel_case_types)]
#[derive(Clone, Copy, Debug, PartialEq, Eq, Structural)]
pub enum Token {
    // Keywords.
    RULE_KW(Span),
    GLOBAL_KW(Span),
    PRIVATE_KW(Span),
    CONDITION_KW(Span),
    META_KW(Span),
    STRINGS_KW(Span),
    TRUE_KW(Span),
    FALSE_KW(Span),
    AND_KW(Span),
    OR_KW(Span),
    NOT_KW(Span),
    OF_KW(Span),
    THEM_KW(Span),
    ALL_KW(Span),
    ANY_KW(Span),
    NONE_KW(Span),
    AT_KW(Span),
    IN_KW(Span),
    FOR_KW(Span),
    NOCASE_KW(Span),
    ASCII_KW(Span),
    WIDE_KW(Span),
    FULLWORD_KW(Span),
    XOR_KW(Span),
    BASE64_KW(Span),
    BASE64WIDE_KW(Span),
    CONTAINS_KW(Span),
    ICONTAINS_KW(Span),
    STARTSWITH_KW(Span),
    ISTARTSWITH_KW(Span),
    ENDSWITH_KW(Span),
    IENDSWITH_KW(Span),
    IEQUALS_KW(Span),
    MATCHES_KW(Span),
    DEFINED_KW(Span),
    FILESIZE_KW(Span),
    ENTRYPOINT_KW(Span),
    IMPORT_KW(Span),
    // Identifiers and pattern references.
    IDENT(Span),
    PATTERN_IDENT(Span),
    PATTERN_COUNT(Span),
    PATTERN_OFFSET(Span),
    PATTERN_LENGTH(Span),
    // Literals.
    INTEGER_LIT(Span),
    FLOAT_LIT(Span),
    STRING_LIT(Span),
    REGEXP(Span),
    HEX_BYTE(Span),
    // Trivia.
    COMMENT(Span),
    WHITESPACE(Span),
    NEWLINE(Span),
    // Punctuation.
    L_BRACE(Span),
    R_BRACE(Span),
    L_PAREN(Span),
    R_PAREN(Span),
    L_BRACKET(Span),
    R_BRACKET(Span),
    COLON(Span),
    EQUAL(Span),
    COMMA(Span),
    DOT(Span),
    DOT_DOT(Span),
    HYPHEN(Span),
    PLUS(Span),
    ASTERISK(Span),
    BACKSLASH(Span),
    PERCENT(Span),
    PIPE(Span),
    CARET(Span),
    AMPERSAND(Span),
    TILDE(Span),
    LT(Span),
    GT(Span),
    LE(Span),
    GE(Span),
    EQ(Span),
    NE(Span),
    SHL(Span),
    SHR(Span),
    // Recovery tokens: unrecognized input and bytes outside valid UTF-8.
    UNKNOWN(Span),
    INVALID_UTF8(Span),
}

impl Token {
    /// The span carried by any token variant.
    pub open spec fn spec_span(self) -> Span {
        match self {
            Token::RULE_KW(s) => s,
            Token::GLOBAL_KW(s) => s,
            Token::PRIVATE_KW(s) => s,
            Token::CONDITION_KW(s) => s,
            Token::META_KW(s) => s,
            Token::STRINGS_KW(s) => s,
            Token::TRUE_KW(s) => s,
            Token::FALSE_KW(s) => s,
            Token::AND_KW(s) => s,
            Token::OR_KW(s) => s,
            Token::NOT_KW(s) => s,
            Token::OF_KW(s) => s,
            Token::THEM_KW(s) => s,
            Token::ALL_KW(s) => s,
            Token::ANY_KW(s) => s,
            Token::NONE_KW(s) => s,
            Token::AT_KW(s) => s,
            Token::IN_KW(s) => s,
            Token::FOR_KW(s) => s,
            Token::NOCASE_KW(s) => s,
            Token::ASCII_KW(s) => s,
            Token::WIDE_KW(s) => s,
            Token::FULLWORD_KW(s) => s,
            Token::XOR_KW(s) => s,
            Token::BASE64_KW(s) => s,
            Token::BASE64WIDE_KW(s) => s,
            Token::CONTAINS_KW(s) => s,
            Token::ICONTAINS_KW(s) => s,
            Token::STARTSWITH_KW(s) => s,
            Token::ISTARTSWITH_KW(s) => s,
            Token::ENDSWITH_KW(s) => s,
            Token::IENDSWITH_KW(s) => s,
            Token::IEQUALS_KW(s) => s,
            Token::MATCHES_KW(s) => s,
            Token::DEFINED_KW(s) => s,
            Token::FILESIZE_KW(s) => s,
            Token::ENTRYPOINT_KW(s) => s,
            Token::IMPORT_KW(s) => s,
            Token::IDENT(s) => s,
            Token::PATTERN_IDENT(s) => s,
            Token::PATTERN_COUNT(s) => s,
            Token::PATTERN_OFFSET(s) => s,
            Token::PATTERN_LENGTH(s) => s,
            Token::INTEGER_LIT(s) => s,
            Token::FLOAT_LIT(s) => s,
            Token::STRING_LIT(s) => s,
            Token::REGEXP(s) => s,
            Token::HEX_BYTE(s) => s,
            Token::COMMENT(s) => s,
            Token::WHITESPACE(s) => s,
            Token::NEWLINE(s) => s,
            Token::L_BRACE(s) => s,
            Token::R_BRACE(s) => s,
            Token::L_PAREN(s) => s,
            Token::R_PAREN(s) => s,
            Token::L_BRACKET(s) => s,
            Token::R_BRACKET(s) => s,
            Token::COLON(s) => s,
            Token::EQUAL(s) => s,
            Token::COMMA(s) => s,
            Token::DOT(s) => s,
            Token::DOT_DOT(s) => s,
            Token::HYPHEN(s) => s,
            Token::PLUS(s) => s,
            Token::ASTERISK(s) => s,
            Token::BACKSLASH(s) => s,
            Token::PERCENT(s) => s,
            Token::PIPE(s) => s,
            Token::CARET(s) => s,
            Token::AMPERSAND(s) => s,
            Token::TILDE(s) => s,
            Token::LT(s) => s,
            Token::GT(s) => s,
            Token::LE(s) => s,
            Token::GE(s) => s,
            Token::EQ(s) => s,
            Token::NE(s) => s,
            Token::SHL(s) => s,
            Token::SHR(s) => s,
            Token::UNKNOWN(s) => s,
            Token::INVALID_UTF8(s) => s,
        }
    }

    pub fn span(&self) -> (r: Span)
        ensures
            r == self.spec_span(),
    {
        match self {
            Token::RULE_KW(s) => *s,
            Token::GLOBAL_KW(s) => *s,
            Token::PRIVATE_KW(s) => *s,
            Token::CONDITION_KW(s) => *s,
            Token::META_KW(s) => *s,
            Token::STRINGS_KW(s) => *s,
            Token::TRUE_KW(s) => *s,
            Token::FALSE_KW(s) => *s,
            Token::AND_KW(s) => *s,
            Token::OR_KW(s) => *s,
            Token::NOT_KW(s) => *s,
            Token::OF_KW(s) => *s,
            Token::THEM_KW(s) => *s,
            Token::ALL_KW(s) => *s,
            Token::ANY_KW(s) => *s,
            Token::NONE_KW(s) => *s,
            Token::AT_KW(s) => *s,
            Token::IN_KW(s) => *s,
            Token::FOR_KW(s) => *s,
            Token::NOCASE_KW(s) => *s,
            Token::ASCII_KW(s) => *s,
            Token::WIDE_KW(s) => *s,
            Token::FULLWORD_KW(s) => *s,
            Token::XOR_KW(s) => *s,
            Token::BASE64_KW(s) => *s,
            Token::BASE64WIDE_KW(s) => *s,
            Token::CONTAINS_KW(s) => *s,
            Token::ICONTAINS_KW(s) => *s,
            Token::STARTSWITH_KW(s) => *s,
            Token::ISTARTSWITH_KW(s) => *s,
            Token::ENDSWITH_KW(s) => *s,
            Token::IENDSWITH_KW(s) => *s,
            Token::IEQUALS_KW(s) => *s,
            Token::MATCHES_KW(s) => *s,
            Token::DEFINED_KW(s) => *s,
            Token::FILESIZE_KW(s) => *s,
            Token::ENTRYPOINT_KW(s) => *s,
            Token::IMPORT_KW(s) => *s,
            Token::IDENT(s) => *s,
            Token::PATTERN_IDENT(s) => *s,
            Token::PATTERN_COUNT(s) => *s,
            Token::PATTERN_OFFSET(s) => *s,
            Token::PATTERN_LENGTH(s) => *s,
            Token::INTEGER_LIT(s) => *s,
            Token::FLOAT_LIT(s) => *s,
            Token::STRING_LIT(s) => *s,
            Token::REGEXP(s) => *s,
            Token::HEX_BYTE(s) => *s,
            Token::COMMENT(s) => *s,
            Token::WHITESPACE(s) => *s,
            Token::NEWLINE(s) => *s,
            Token::L_BRACE(s) => *s,
            Token::R_BRACE(s) => *s,
            Token::L_PAREN(s) => *s,
            Token::R_PAREN(s) => *s,
            Token::L_BRACKET(s) => *s,
            Token::R_BRACKET(s) => *s,
            Token::COLON(s) => *s,
            Token::EQUAL(s) => *s,
            Token::COMMA(s) => *s,
            Token::DOT(s) => *s,
            Token::DOT_DOT(s) => *s,
            Token::HYPHEN(s) => *s,
            Token::PLUS(s) => *s,
            Token::ASTERISK(s) => *s,
            Token::BACKSLASH(s) => *s,
            Token::PERCENT(s) => *s,
            Token::PIPE(s) => *s,
            Token::CARET(s) => *s,
            Token::AMPERSAND(s) => *s,
            Token::TILDE(s) => *s,
            Token::LT(s) => *s,
            Token::GT(s) => *s,
            Token::LE(s) => *s,
            Token::GE(s) => *s,
            Token::EQ(s) => *s,
            Token::NE(s) => *s,
            Token::SHL(s) => *s,
            Token::SHR(s) => *s,
            Token::UNKNOWN(s) => *s,
            Token::INVALID_UTF8(s) => *s,
        }
    }

    /// Trivia tokens carry no grammatical content: whitespace, newlines and
    /// comments.
    pub open spec fn spec_is_trivia(self) -> bool {
        self is WHITESPACE || self is NEWLINE || self is COMMENT
    }

    pub fn is_trivia(&self) -> (r: bool)
        ensures
            r == self.spec_is_trivia(),
    {
        match self {
            Token::WHITESPACE(_) => true,
            Token::NEWLINE(_) => true,
            Token::COMMENT(_) => true,
            _ => false,
        }
    }
}

} // verus!
