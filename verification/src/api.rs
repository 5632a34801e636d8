use vstd::prelude::*;
use vstd::string::{StrSliceExecFns, StringSliceAdditionalSpecFns};
use crate::token::Token;
use crate::tokenizer::{tokens_partition, tokenize_all};
use crate::cst::{Cst, CstChild, NodeKind};
use crate::diag::Diagnostic;
use crate::ast::SourceFile;
use crate::parse::{parse_to_cst, span_text};
use crate::render::render_report;
use crate::validate::validate;
use crate::tokenizer::lemma_partition_span_bounds;

verus! {

/// Relies on String::from_utf8_lossy: bytes that form valid UTF-8 convert
/// to the string of exactly those bytes.
#[verifier::external_body]
fn bytes_to_string(b: &Vec<u8>) -> (r: String)
    ensures
        vstd::utf8::valid_utf8(b@) ==> r@ == vstd::utf8::decode_utf8(b@),
{
    String::from_utf8_lossy(b.as_slice()).into_owned()
}

/// Front-end entry point: tokenizes, parses and validates rule source.
pub struct Parser {}

impl Parser {
    pub fn new() -> (r: Parser)
    {
        Parser {  }
    }

    /// Builds the lossless concrete syntax tree of the source.  On success
    /// the tree covers every input byte: concatenating its leaves in order
    /// reproduces the source exactly.  On any diagnostic the collected,
    /// ordered list is returned instead.
    pub fn build_cst(&self, src: &str, _origin: Option<&str>) -> (r: Result<Cst, Vec<Diagnostic>>)
        ensures
            r matches Ok(c) ==> c.wf() && c.lossless() && c.source@ == src.spec_bytes(),
            r matches Err(ds) ==> ds@.len() > 0,
    {
        let bytes = src.as_bytes_vec();
        let (cst, diags) = parse_to_cst(bytes);
        if diags.len() > 0 {
            Err(diags)
        } else {
            Ok(cst)
        }
    }

    /// Builds the abstract syntax tree: parses, decodes literals, and runs
    /// the semantic validator.  Returns either the validated AST or the
    /// full ordered, non-empty list of diagnostics.  A returned AST passed
    /// validation, so in particular its rule names are pairwise distinct.
    pub fn build_ast(&self, src: &str, _origin: Option<&str>) -> (r: Result<
        SourceFile,
        Vec<Diagnostic>,
    >)
        ensures
            r matches Err(ds) ==> ds@.len() > 0,
            r matches Ok(sf) ==> forall|i: int, j: int|
                0 <= i < j < sf.rules@.len() ==> sf.rules@[i].name@ != sf.rules@[j].name@,
            r matches Ok(sf) ==> forall|ri: int, pi: int|
                0 <= ri < sf.rules@.len() && 0 <= pi < sf.rules@[ri].patterns@.len() ==> !(
                #[trigger] crate::validate::is_dup_pattern(sf.rules@[ri].patterns@, pi)),
            r matches Ok(sf) ==> forall|ri: int, pi: int|
                0 <= ri < sf.rules@.len() && 0 <= pi < sf.rules@[ri].patterns@.len()
                    ==> #[trigger] crate::validate::pattern_used(sf.rules@[ri], pi),
    {
        let bytes = src.as_bytes_vec();
        let (cst, diags) = parse_to_cst(bytes);
        if diags.len() > 0 {
            return Err(diags);
        }
        let mut diags2: Vec<Diagnostic> = Vec::new();
        let sf = crate::ast::build_ast_from_cst(&cst, &mut diags2);
        let ghost pre = diags2@;
        validate(&sf, &mut diags2);
        if diags2.len() > 0 {
            Err(diags2)
        } else {
            proof {
                // No diagnostics at all, so every validator count is zero:
                // no duplicate rules, no duplicate patterns, nothing unused.
                assert(pre.len() == 0);
                assert(crate::validate::dup_diag_count(diags2@, diags2@.len() as int) == 0);
                assert(crate::validate::dup_diag_count(pre, pre.len() as int) == 0);
                assert(crate::validate::dup_count(sf.rules@, sf.rules@.len() as int) == 0);
                crate::validate::lemma_dup_count_zero(sf.rules@, sf.rules@.len() as int);
                assert(crate::validate::dup_string_diag_count(
                    diags2@,
                    diags2@.len() as int,
                ) == 0);
                assert(crate::validate::dup_string_diag_count(pre, pre.len() as int) == 0);
                crate::validate::lemma_total_dup_patterns_zero(
                    sf.rules@,
                    sf.rules@.len() as int,
                );
                assert(crate::validate::unused_diag_count(diags2@, diags2@.len() as int)
                    == 0);
                assert(crate::validate::unused_diag_count(pre, pre.len() as int) == 0);
                crate::validate::lemma_total_unused_zero(sf.rules@, sf.rules@.len() as int);
            }
            Ok(sf)
        }
    }
}

/// Renders a diagnostic against its source as the boxed textual report.
pub fn report_string(d: &Diagnostic, src: &str, origin: Option<&str>) -> (r: String)
{
    let bytes = src.as_bytes_vec();
    let out = render_report(d, &bytes, origin);
    bytes_to_string(&out)
}

/// Tokenize-only interface for tooling: the spans of the result partition
/// the input, every token is the scan of its own span under the lexer's
/// sub-grammars, and a CRLF line break is one NEWLINE token.
pub fn tokenize(data: &[u8]) -> (r: Vec<Token>)
    ensures
        tokens_partition(r@, data@.len() as int),
        forall|k: int|
            0 <= k < r@.len() ==> crate::tokenizer::scan_step_ok(
                data@,
                (#[trigger] r@[k]).spec_span().0 as int,
                r@[k],
                r@[k].spec_span().1 as int,
            ),
{
    tokenize_all(data, false)
}

// ---------------------------------------------------------------------------
// Textual rendering of the CST.
// ---------------------------------------------------------------------------

/// Display name of a composite node.
fn node_name(k: NodeKind) -> (r: &'static str)
{
    match k {
        NodeKind::SourceFile => "source_file",
        NodeKind::RuleDecl => "rule_decl",
        NodeKind::Tags => "tags",
        NodeKind::MetaDef => "meta_def",
        NodeKind::PatternDef => "pattern_def",
        NodeKind::HexPattern => "hex_pattern",
        NodeKind::HexJump => "hex_jump",
        NodeKind::HexAlt => "hex_alt",
        NodeKind::BooleanExpr => "boolean_expr",
        NodeKind::BooleanTerm => "boolean_term",
        NodeKind::OfExpr => "of_expr",
        NodeKind::ForExpr => "for_expr",
        NodeKind::Range => "range",
    }
}

/// Display name of a leaf token.
fn tok_name(t: Token) -> (r: &'static str)
{
    match t {
        Token::RULE_KW(_) => "k_RULE",
        Token::GLOBAL_KW(_) => "k_GLOBAL",
        Token::PRIVATE_KW(_) => "k_PRIVATE",
        Token::CONDITION_KW(_) => "k_CONDITION",
        Token::META_KW(_) => "k_META",
        Token::STRINGS_KW(_) => "k_STRINGS",
        Token::TRUE_KW(_) => "k_TRUE",
        Token::FALSE_KW(_) => "k_FALSE",
        Token::AND_KW(_) => "k_AND",
        Token::OR_KW(_) => "k_OR",
        Token::NOT_KW(_) => "k_NOT",
        Token::OF_KW(_) => "k_OF",
        Token::THEM_KW(_) => "k_THEM",
        Token::ALL_KW(_) => "k_ALL",
        Token::ANY_KW(_) => "k_ANY",
        Token::NONE_KW(_) => "k_NONE",
        Token::AT_KW(_) => "k_AT",
        Token::IN_KW(_) => "k_IN",
        Token::FOR_KW(_) => "k_FOR",
        Token::NOCASE_KW(_) => "k_NOCASE",
        Token::ASCII_KW(_) => "k_ASCII",
        Token::WIDE_KW(_) => "k_WIDE",
        Token::FULLWORD_KW(_) => "k_FULLWORD",
        Token::XOR_KW(_) => "k_XOR",
        Token::BASE64_KW(_) => "k_BASE64",
        Token::BASE64WIDE_KW(_) => "k_BASE64WIDE",
        Token::CONTAINS_KW(_) => "k_CONTAINS",
        Token::ICONTAINS_KW(_) => "k_ICONTAINS",
        Token::STARTSWITH_KW(_) => "k_STARTSWITH",
        Token::ISTARTSWITH_KW(_) => "k_ISTARTSWITH",
        Token::ENDSWITH_KW(_) => "k_ENDSWITH",
        Token::IENDSWITH_KW(_) => "k_IENDSWITH",
        Token::IEQUALS_KW(_) => "k_IEQUALS",
        Token::MATCHES_KW(_) => "k_MATCHES",
        Token::DEFINED_KW(_) => "k_DEFINED",
        Token::FILESIZE_KW(_) => "k_FILESIZE",
        Token::ENTRYPOINT_KW(_) => "k_ENTRYPOINT",
        Token::IMPORT_KW(_) => "k_IMPORT",
        Token::IDENT(_) => "ident",
        Token::PATTERN_IDENT(_) => "pattern_ident",
        Token::PATTERN_COUNT(_) => "pattern_count",
        Token::PATTERN_OFFSET(_) => "pattern_offset",
        Token::PATTERN_LENGTH(_) => "pattern_length",
        Token::INTEGER_LIT(_) => "INTEGER_LIT",
        Token::FLOAT_LIT(_) => "FLOAT_LIT",
        Token::STRING_LIT(_) => "STRING_LIT",
        Token::REGEXP(_) => "REGEXP",
        Token::HEX_BYTE(_) => "HEX_BYTE",
        Token::COMMENT(_) => "COMMENT",
        Token::WHITESPACE(_) => "WHITESPACE",
        Token::NEWLINE(_) => "WHITESPACE",
        Token::L_BRACE(_) => "LBRACE",
        Token::R_BRACE(_) => "RBRACE",
        Token::L_PAREN(_) => "LPAREN",
        Token::R_PAREN(_) => "RPAREN",
        Token::L_BRACKET(_) => "LBRACKET",
        Token::R_BRACKET(_) => "RBRACKET",
        Token::COLON(_) => "COLON",
        Token::EQUAL(_) => "EQUAL",
        Token::COMMA(_) => "COMMA",
        Token::DOT(_) => "DOT",
        Token::DOT_DOT(_) => "DOTDOT",
        Token::HYPHEN(_) => "HYPHEN",
        Token::PLUS(_) => "PLUS",
        Token::ASTERISK(_) => "ASTERISK",
        Token::BACKSLASH(_) => "BACKSLASH",
        Token::PERCENT(_) => "PERCENT",
        Token::PIPE(_) => "PIPE",
        Token::CARET(_) => "CARET",
        Token::AMPERSAND(_) => "AMPERSAND",
        Token::TILDE(_) => "TILDE",
        Token::LT(_) => "LT",
        Token::GT(_) => "GT",
        Token::LE(_) => "LE",
        Token::GE(_) => "GE",
        Token::EQ(_) => "EQ",
        Token::NE(_) => "NE",
        Token::SHL(_) => "SHL",
        Token::SHR(_) => "SHR",
        Token::UNKNOWN(_) => "UNKNOWN",
        Token::INVALID_UTF8(_) => "INVALID_UTF8",
    }
}

/// Appends one child's rendering: connector, name, quoted text for leaves,
/// and the node's own children below it.
fn tree_children(cst: &Cst, m: usize, prefix: &Vec<u8>, out: &mut Vec<u8>)
    requires
        cst.wf(),
        m < cst.nodes@.len(),
    decreases m,
{
    // Visible children: trivia leaves are filtered out unless requested.
    let n = cst.nodes[m].children.len();
    let mut visible: Vec<CstChild> = Vec::new();
    let mut i: usize = 0;
    while i < n
        invariant
            cst.wf(),
            m < cst.nodes@.len(),
            n == cst.nodes@[m as int].children@.len(),
            forall|x: int| 0 <= x < visible@.len() ==> (#[trigger] visible@[x] matches
                CstChild::Tree(j) ==> j < m && j < cst.nodes@.len()) && (visible@[x] matches
                CstChild::Tok(t) ==> t < cst.tokens@.len()),
        decreases n - i,
    {
        if i < cst.nodes[m].children.len() {
            proof {
                assert(crate::cst::children_ok(
                    cst.nodes@[m as int].children@,
                    cst.tokens@.len() as int,
                    m as int,
                ));
                assert(crate::cst::child_ok(
                    cst.nodes@[m as int].children@[i as int],
                    cst.tokens@.len() as int,
                    m as int,
                ));
            }
            let c = cst.nodes[m].children[i];
            let keep = match c {
                CstChild::Tok(t) => cst.show_ws || !cst.tokens[t].is_trivia(),
                CstChild::Tree(_) => true,
            };
            if keep {
                visible.push(c);
            }
        }
        i += 1;
    }
    let vn = visible.len();
    let mut k: usize = 0;
    while k < vn
        invariant
            cst.wf(),
            m < cst.nodes@.len(),
            vn == visible@.len(),
            forall|x: int| 0 <= x < visible@.len() ==> (#[trigger] visible@[x] matches
                CstChild::Tree(j) ==> j < m && j < cst.nodes@.len()) && (visible@[x] matches
                CstChild::Tok(t) ==> t < cst.tokens@.len()),
        decreases vn - k,
    {
        let last = k + 1 >= vn;
        crate::diag::push_bytes(out, prefix.as_slice());
        if last {
            crate::diag::push_str_bytes(out, "\u{2514}\u{2500} ");
        } else {
            crate::diag::push_str_bytes(out, "\u{251c}\u{2500} ");
        }
        match visible[k] {
            CstChild::Tok(t) => {
                let tok = cst.tokens[t];
                crate::diag::push_str_bytes(out, tok_name(tok));
                crate::diag::push_str_bytes(out, " \"");
                if !tok.is_trivia() {
                    proof {
                        lemma_partition_span_bounds(cst.tokens@, cst.source@.len() as int);
                    }
                    let sp = tok.span();
                    if sp.0 <= sp.1 && sp.1 <= cst.source.len() {
                        let text = span_text(&cst.source, sp);
                        crate::diag::push_bytes(out, text.as_slice());
                    }
                }
                crate::diag::push_str_bytes(out, "\"\n");
            },
            CstChild::Tree(j) => {
                crate::diag::push_str_bytes(out, node_name(cst.nodes[j].kind));
                crate::diag::push_str_bytes(out, "\n");
                let mut sub: Vec<u8> = Vec::new();
                crate::diag::push_bytes(&mut sub, prefix.as_slice());
                if last {
                    crate::diag::push_str_bytes(&mut sub, "   ");
                } else {
                    crate::diag::push_str_bytes(&mut sub, "\u{2502}  ");
                }
                tree_children(cst, j, &sub, out);
            },
        }
        k += 1;
    }
}

impl Cst {
    /// Chooses whether whitespace leaves appear in the textual rendering.
    pub fn whitespaces(self, with_ws: bool) -> (r: Cst)
        ensures
            r.wf() == self.wf(),
            r.lossless() == self.lossless(),
    {
        let Cst { source, tokens, nodes, root, show_ws: _ } = self;
        Cst { source, tokens, nodes, root, show_ws: with_ws }
    }

    /// Renders the tree, one node per line, leaves with their source text.
    pub fn ascii_tree_string(&self) -> (r: String)
        requires
            self.wf(),
    {
        let mut out: Vec<u8> = Vec::new();
        crate::diag::push_str_bytes(&mut out, " ");
        crate::diag::push_str_bytes(&mut out, node_name(self.nodes[self.root].kind));
        crate::diag::push_str_bytes(&mut out, "\n");
        let mut prefix: Vec<u8> = Vec::new();
        crate::diag::push_str_bytes(&mut prefix, " ");
        tree_children(self, self.root, &prefix, &mut out);
        bytes_to_string(&out)
    }
}

} // verus!
