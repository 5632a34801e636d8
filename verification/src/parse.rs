use vstd::prelude::*;
use crate::span::Span;
use crate::token::Token;
use crate::tokenizer::{tokens_partition, tokenize_all, lemma_partition_span_bounds};
use crate::cst::{Cst, CstBuilder, NodeKind};
use crate::diag::{Diagnostic, DiagKind, Severity, Label, LabelStyle, push_str_bytes, push_bytes};

verus! {

/// Parser state: the source, its token stream, a cursor, the tree under
/// construction, and the diagnostics collected so far.
pub struct Ps {
    pub src: Vec<u8>,
    pub toks: Vec<Token>,
    pub pos: usize,
    pub b: CstBuilder,
    pub diags: Vec<Diagnostic>,
}

impl Ps {
    pub open spec fn wf(self) -> bool {
        &&& self.b.wf()
        &&& self.pos <= self.toks@.len()
        &&& self.b.tokens@ == self.toks@.subrange(0, self.pos as int)
        &&& tokens_partition(self.toks@, self.src@.len() as int)
    }
}

/// What every parsing step guarantees: the source and token stream are
/// untouched, the cursor only moves forward, open nodes are balanced, and
/// diagnostics are only appended.
pub open spec fn prog(o: Ps, n: Ps) -> bool {
    &&& n.wf()
    &&& n.src@ == o.src@
    &&& n.toks@ == o.toks@
    &&& o.pos <= n.pos
    &&& n.b.depth() == o.b.depth()
    &&& o.diags@.is_prefix_of(n.diags@)
}

impl Ps {
    /// The next token, if any.
    fn peek(&self) -> (r: Option<Token>)
        requires
            self.wf(),
        ensures
            r == (if self.pos < self.toks@.len() {
                Some(self.toks@[self.pos as int])
            } else {
                None::<Token>
            }),
    {
        if self.pos < self.toks.len() {
            Some(self.toks[self.pos])
        } else {
            None
        }
    }

    /// Consumes the next token into the innermost open node.
    fn bump(&mut self)
        requires
            old(self).wf(),
            old(self).pos < old(self).toks@.len(),
        ensures
            prog(*old(self), *final(self)),
            final(self).pos == old(self).pos + 1,
            final(self).diags@ == old(self).diags@,
    {
        let _n = self.toks.len();
        let t = self.toks[self.pos];
        self.b.token(t);
        self.pos = self.pos + 1;
        proof {
            assert(self.b.tokens@ =~= self.toks@.subrange(0, self.pos as int));
        }
    }

    /// Consumes whitespace, newlines and comments into the current node.
    fn skip_trivia(&mut self)
        requires
            old(self).wf(),
        ensures
            prog(*old(self), *final(self)),
            final(self).diags@ == old(self).diags@,
            final(self).pos < final(self).toks@.len() ==> !final(self).toks@[
                final(self).pos as int
            ].spec_is_trivia(),
    {
        let ghost p0 = *self;
        while self.pos < self.toks.len() && self.toks[self.pos].is_trivia()
            invariant
                p0 == *old(self),
                p0.wf(),
                prog(p0, *self),
                self.diags@ == p0.diags@,
            decreases self.toks@.len() - self.pos,
        {
            self.bump();
        }
    }

    /// Start offset of the next token, or the end of the input.
    fn cur_start(&self) -> (r: usize)
        requires
            self.wf(),
        ensures
            r <= self.src@.len(),
    {
        proof {
            lemma_partition_span_bounds(self.toks@, self.src@.len() as int);
        }
        if self.pos < self.toks.len() {
            self.toks[self.pos].span().start()
        } else {
            self.src.len()
        }
    }

    fn push_diag(&mut self, d: Diagnostic)
        requires
            old(self).wf(),
        ensures
            prog(*old(self), *final(self)),
            final(self).pos == old(self).pos,
            final(self).diags@ == old(self).diags@.push(d),
    {
        self.diags.push(d);
        proof {
            assert(old(self).diags@.is_prefix_of(self.diags@)) by {
                assert(self.diags@.subrange(0, old(self).diags@.len() as int) =~= old(
                    self,
                ).diags@);
            }
        }
    }

    /// Records a syntax error pointing at the next token (or the end of the
    /// input), with the set of alternatives that would have been accepted.
    fn syntax_err(&mut self, label: &str)
        requires
            old(self).wf(),
        ensures
            prog(*old(self), *final(self)),
            final(self).pos == old(self).pos,
            final(self).diags@.len() == old(self).diags@.len() + 1,
    {
        let at = self.cur_start();
        let mut message: Vec<u8> = Vec::new();
        push_str_bytes(&mut message, "syntax error");
        let mut text: Vec<u8> = Vec::new();
        push_str_bytes(&mut text, label);
        let sp = Span(at, at);
        let mut labels: Vec<Label> = Vec::new();
        labels.push(Label { span: sp, style: LabelStyle::Point, text });
        self.push_diag(
            Diagnostic {
                kind: DiagKind::SyntaxError,
                severity: Severity::Error,
                message,
                primary: sp,
                labels,
                note: None,
            },
        );
    }

    /// Records a syntax error underlining a full span.
    fn syntax_err_span(&mut self, sp: Span, label: &str)
        requires
            old(self).wf(),
        ensures
            prog(*old(self), *final(self)),
            final(self).pos == old(self).pos,
            final(self).diags@.len() == old(self).diags@.len() + 1,
    {
        let mut message: Vec<u8> = Vec::new();
        push_str_bytes(&mut message, "syntax error");
        let mut text: Vec<u8> = Vec::new();
        push_str_bytes(&mut text, label);
        let mut labels: Vec<Label> = Vec::new();
        labels.push(Label { span: sp, style: LabelStyle::Under, text });
        self.push_diag(
            Diagnostic {
                kind: DiagKind::SyntaxError,
                severity: Severity::Error,
                message,
                primary: sp,
                labels,
                note: None,
            },
        );
    }

    /// Records a duplicate-tag diagnostic at the repeated occurrence.
    fn dup_tag_err(&mut self, sp: Span)
        requires
            old(self).wf(),
            sp.0 <= sp.1 <= old(self).src@.len(),
        ensures
            prog(*old(self), *final(self)),
            final(self).pos == old(self).pos,
            final(self).diags@.len() == old(self).diags@.len() + 1,
    {
        let name = span_text(&self.src, sp);
        let mut message: Vec<u8> = Vec::new();
        push_str_bytes(&mut message, "duplicate tag `");
        push_bytes(&mut message, name.as_slice());
        push_str_bytes(&mut message, "`");
        let mut text: Vec<u8> = Vec::new();
        push_str_bytes(&mut text, "duplicate tag");
        let mut labels: Vec<Label> = Vec::new();
        labels.push(Label { span: sp, style: LabelStyle::Under, text });
        self.push_diag(
            Diagnostic {
                kind: DiagKind::DuplicateTag,
                severity: Severity::Error,
                message,
                primary: sp,
                labels,
                note: None,
            },
        );
    }
}

/// Copies the source bytes under a span.
pub fn span_text(src: &Vec<u8>, sp: Span) -> (r: Vec<u8>)
    requires
        sp.0 <= sp.1 <= src@.len(),
    ensures
        r@ == src@.subrange(sp.0 as int, sp.1 as int),
{
    let mut r: Vec<u8> = Vec::new();
    let mut k: usize = sp.0;
    while k < sp.1
        invariant
            sp.0 <= k <= sp.1 <= src@.len(),
            r@ == src@.subrange(sp.0 as int, k as int),
        decreases sp.1 - k,
    {
        r.push(src[k]);
        proof {
            assert(src@.subrange(sp.0 as int, k + 1) =~= src@.subrange(sp.0 as int, k as int)
                + seq![src@[k as int]]);
        }
        k += 1;
    }
    r
}

/// Compares the source bytes under two spans.
fn span_text_eq(src: &Vec<u8>, a: Span, b: Span) -> (r: bool)
    requires
        a.0 <= a.1 <= src@.len(),
        b.0 <= b.1 <= src@.len(),
    ensures
        r <==> src@.subrange(a.0 as int, a.1 as int) == src@.subrange(b.0 as int, b.1 as int),
{
    let ta = span_text(src, a);
    let tb = span_text(src, b);
    if ta.len() != tb.len() {
        proof {
            assert(ta@.len() != tb@.len());
        }
        return false;
    }
    let n = ta.len();
    let mut k: usize = 0;
    while k < n
        invariant
            k <= n,
            n == ta@.len(),
            n == tb@.len(),
            ta@ == src@.subrange(a.0 as int, a.1 as int),
            tb@ == src@.subrange(b.0 as int, b.1 as int),
            forall|m: int| 0 <= m < k ==> ta@[m] == tb@[m],
        decreases n - k,
    {
        if ta[k] != tb[k] {
            return false;
        }
        k += 1;
    }
    proof {
        assert(ta@ =~= tb@);
    }
    true
}

// ---------------------------------------------------------------------------
// Grammar productions.
// ---------------------------------------------------------------------------

/// Parses a whole source file: any number of rule declarations.  On junk at
/// the top level one diagnostic is recorded and parsing resynchronizes at
/// the next rule, so independent errors are all collected.
pub fn parse_source_file(ps: &mut Ps)
    requires
        old(ps).wf(),
    ensures
        prog(*old(ps), *final(ps)),
        final(ps).pos == final(ps).toks@.len(),
    decreases ps.toks@.len() - ps.pos, 9int,
{
    let ghost p0 = *ps;
    loop
        invariant
            p0 == *old(ps),
            p0.wf(),
            prog(p0, *ps),
        ensures
            prog(p0, *ps),
            ps.pos == ps.toks@.len(),
        decreases ps.toks@.len() - ps.pos,
    {
        ps.skip_trivia();
        match ps.peek() {
            None => {
                break;
            },
            Some(t) => {
                match t {
                    Token::GLOBAL_KW(_) | Token::PRIVATE_KW(_) | Token::RULE_KW(_) => {
                        if !parse_rule(ps) {
                            // Resynchronize at the next rule so that later
                            // independent errors are still discovered.
                            resync_to_rule(ps);
                        }
                    },
                    _ => {
                        ps.syntax_err("expected YARA rules");
                        ps.bump();
                        resync_to_rule(ps);
                    },
                }
            },
        }
    }
}

/// Skips tokens until the next possible start of a rule declaration.
fn resync_to_rule(ps: &mut Ps)
    requires
        old(ps).wf(),
    ensures
        prog(*old(ps), *final(ps)),
    decreases ps.toks@.len() - ps.pos, 9int,
{
    let ghost p0 = *ps;
    loop
        invariant
            p0 == *old(ps),
            p0.wf(),
            prog(p0, *ps),
        ensures
            prog(p0, *ps),
        decreases ps.toks@.len() - ps.pos,
    {
        match ps.peek() {
            None => {
                break;
            },
            Some(t) => {
                match t {
                    Token::GLOBAL_KW(_) | Token::PRIVATE_KW(_) | Token::RULE_KW(_) => {
                        break;
                    },
                    _ => {
                        ps.bump();
                    },
                }
            },
        }
    }
}

/// Parses one rule declaration.  Returns false after recording a diagnostic
/// and abandoning the rule; the caller resynchronizes.
#[verifier::rlimit(100)]
#[verifier::spinoff_prover]
fn parse_rule(ps: &mut Ps) -> (ok: bool)
    requires
        old(ps).wf(),
        old(ps).pos < old(ps).toks@.len(),
        old(ps).toks@[old(ps).pos as int] is GLOBAL_KW || old(ps).toks@[
            old(ps).pos as int
        ] is PRIVATE_KW || old(ps).toks@[old(ps).pos as int] is RULE_KW,
    ensures
        prog(*old(ps), *final(ps)),
        old(ps).pos < final(ps).pos,
    decreases ps.toks@.len() - ps.pos, 8int,
{
    let ghost p0 = *ps;
    ps.b.open(NodeKind::RuleDecl);
    let mut seen_g = false;
    let mut seen_p = false;
    // Rule modifiers, then the `rule` keyword itself.
    loop
        invariant_except_break
            !seen_g && !seen_p ==> ps.pos == p0.pos,
            seen_g || seen_p ==> p0.pos < ps.pos,
        invariant
            p0 == *old(ps),
            p0.wf(),
            ps.wf(),
            ps.src@ == p0.src@,
            ps.toks@ == p0.toks@,
            p0.pos <= ps.pos,
            ps.b.depth() == p0.b.depth() + 1,
            p0.diags@.is_prefix_of(ps.diags@),
            p0.pos < p0.toks@.len(),
            p0.toks@[p0.pos as int] is GLOBAL_KW || p0.toks@[p0.pos as int] is PRIVATE_KW
                || p0.toks@[p0.pos as int] is RULE_KW,
        ensures
            ps.wf(),
            ps.src@ == p0.src@,
            ps.toks@ == p0.toks@,
            p0.pos < ps.pos,
            ps.b.depth() == p0.b.depth() + 1,
            p0.diags@.is_prefix_of(ps.diags@),
        decreases ps.toks@.len() - ps.pos,
    {
        let nt = ps.peek();
        let mut handled = false;
        if let Some(Token::GLOBAL_KW(_)) = nt {
            if !seen_g {
                ps.bump();
                seen_g = true;
                ps.skip_trivia();
                handled = true;
            }
        }
        if !handled {
            if let Some(Token::PRIVATE_KW(_)) = nt {
                if !seen_p {
                    ps.bump();
                    seen_p = true;
                    ps.skip_trivia();
                    handled = true;
                }
            }
        }
        if !handled {
            if let Some(Token::RULE_KW(_)) = nt {
                ps.bump();
                break;
            }
            // Some other token where a modifier or `rule` was expected.
            if seen_p && !seen_g {
                ps.syntax_err("expected `global` or `rule`");
            } else if seen_g && !seen_p {
                ps.syntax_err("expected `private` or `rule`");
            } else {
                ps.syntax_err("expected `rule`");
            }
            ps.b.close();
            return false;
        }
    }
    ps.skip_trivia();
    // Rule name.
    match ps.peek() {
        Some(Token::IDENT(_)) => {
            ps.bump();
        },
        _ => {
            ps.syntax_err("expected identifier");
            ps.b.close();
            return false;
        },
    }
    ps.skip_trivia();
    // Optional tags, then the opening brace.
    let mut had_tags = false;
    match ps.peek() {
        Some(Token::COLON(_)) => {
            had_tags = true;
            ps.bump();
            ps.skip_trivia();
            if !parse_tags(ps) {
                ps.b.close();
                return false;
            }
            ps.skip_trivia();
        },
        _ => {},
    }
    match ps.peek() {
        Some(Token::L_BRACE(_)) => {
            ps.bump();
        },
        _ => {
            if had_tags {
                ps.syntax_err("expected identifier or opening brace `{`");
            } else {
                ps.syntax_err("expected colon `:` or opening brace `{`");
            }
            ps.b.close();
            return false;
        },
    }
    // Sections: `meta:`, `strings:`, then the mandatory `condition:`.
    let mut seen_condition = false;
    loop
        invariant
            p0 == *old(ps),
            p0.wf(),
            ps.wf(),
            ps.src@ == p0.src@,
            ps.toks@ == p0.toks@,
            p0.pos < ps.pos,
            ps.b.depth() == p0.b.depth() + 1,
            p0.diags@.is_prefix_of(ps.diags@),
        ensures
            prog(p0, *ps),
            p0.pos < ps.pos,
        decreases ps.toks@.len() - ps.pos,
    {
        ps.skip_trivia();
        let nt = ps.peek();
        match nt {
            None => {
                if seen_condition {
                    ps.syntax_err("expected closing brace `}` or operator");
                } else {
                    ps.syntax_err("expected `condition`, `meta`, or `strings`");
                }
                ps.b.close();
                return false;
            },
            Some(Token::R_BRACE(_)) => {
                if seen_condition {
                    ps.bump();
                    ps.b.close();
                    return true;
                } else {
                    ps.syntax_err("expected `condition`, `meta`, or `strings`");
                    ps.b.close();
                    return false;
                }
            },
            Some(Token::META_KW(_)) => {
                if !parse_meta_section(ps) {
                    ps.b.close();
                    return false;
                }
            },
            Some(Token::STRINGS_KW(_)) => {
                if !parse_strings_section(ps) {
                    ps.b.close();
                    return false;
                }
            },
            Some(Token::CONDITION_KW(_)) => {
                if seen_condition {
                    ps.syntax_err("expected closing brace `}` or operator");
                    ps.b.close();
                    return false;
                }
                ps.bump();
                ps.skip_trivia();
                match ps.peek() {
                    Some(Token::COLON(_)) => {
                        ps.bump();
                    },
                    _ => {
                        ps.syntax_err("expected colon `:`");
                        ps.b.close();
                        return false;
                    },
                }
                ps.skip_trivia();
                if !parse_boolean_expr(ps, false) {
                    ps.b.close();
                    return false;
                }
                seen_condition = true;
            },
            Some(_) => {
                if seen_condition {
                    ps.syntax_err("expected closing brace `}` or operator");
                } else {
                    ps.syntax_err("expected `condition`, `meta`, or `strings`");
                }
                ps.b.close();
                return false;
            },
        }
    }
}

/// Parses the tag list after the colon of a rule header; a repeated tag is
/// reported at its second occurrence, and parsing continues.
fn parse_tags(ps: &mut Ps) -> (ok: bool)
    requires
        old(ps).wf(),
    ensures
        prog(*old(ps), *final(ps)),
    decreases ps.toks@.len() - ps.pos, 7int,
{
    let ghost p0 = *ps;
    match ps.peek() {
        Some(Token::IDENT(_)) => {},
        _ => {
            ps.syntax_err("expected identifier");
            return false;
        },
    }
    ps.b.open(NodeKind::Tags);
    let mut seen: Vec<Span> = Vec::new();
    loop
        invariant
            p0 == *old(ps),
            p0.wf(),
            ps.wf(),
            ps.src@ == p0.src@,
            ps.toks@ == p0.toks@,
            p0.pos <= ps.pos,
            ps.b.depth() == p0.b.depth() + 1,
            p0.diags@.is_prefix_of(ps.diags@),
            forall|k: int| 0 <= k < seen@.len() ==> (#[trigger] seen@[k]).0 <= seen@[k].1
                <= ps.src@.len(),
        ensures
            ps.wf(),
            ps.src@ == p0.src@,
            ps.toks@ == p0.toks@,
            p0.pos <= ps.pos,
            ps.b.depth() == p0.b.depth() + 1,
            p0.diags@.is_prefix_of(ps.diags@),
        decreases ps.toks@.len() - ps.pos,
    {
        match ps.peek() {
            Some(Token::IDENT(_)) => {
                proof {
                    lemma_partition_span_bounds(ps.toks@, ps.src@.len() as int);
                }
                let sp = ps.toks[ps.pos].span();
                ps.bump();
                // Tags must be unique within one rule.
                let mut k: usize = 0;
                let mut dup = false;
                while k < seen.len()
                    invariant
                        ps.wf(),
                        sp.0 <= sp.1 <= ps.src@.len(),
                        forall|m: int| 0 <= m < seen@.len() ==> (#[trigger] seen@[m]).0
                            <= seen@[m].1 <= ps.src@.len(),
                        k <= seen@.len(),
                    decreases seen@.len() - k,
                {
                    if span_text_eq(&ps.src, seen[k], sp) {
                        dup = true;
                    }
                    k += 1;
                }
                if dup {
                    ps.dup_tag_err(sp);
                }
                seen.push(sp);
                ps.skip_trivia();
            },
            _ => {
                break;
            },
        }
    }
    ps.b.close();
    true
}

/// Parses `meta:` and its non-empty list of `name = value` entries.
fn parse_meta_section(ps: &mut Ps) -> (ok: bool)
    requires
        old(ps).wf(),
        old(ps).pos < old(ps).toks@.len(),
    ensures
        prog(*old(ps), *final(ps)),
        old(ps).pos < final(ps).pos,
    decreases ps.toks@.len() - ps.pos, 7int,
{
    let ghost p0 = *ps;
    ps.bump();  // `meta`
    ps.skip_trivia();
    match ps.peek() {
        Some(Token::COLON(_)) => {
            ps.bump();
        },
        _ => {
            ps.syntax_err("expected colon `:`");
            return false;
        },
    }
    ps.skip_trivia();
    match ps.peek() {
        Some(Token::IDENT(_)) => {},
        _ => {
            ps.syntax_err("expected identifier");
            return false;
        },
    }
    loop
        invariant
            p0 == *old(ps),
            p0.wf(),
            ps.wf(),
            ps.src@ == p0.src@,
            ps.toks@ == p0.toks@,
            p0.pos < ps.pos,
            ps.b.depth() == p0.b.depth(),
            p0.diags@.is_prefix_of(ps.diags@),
        ensures
            prog(p0, *ps),
            p0.pos < ps.pos,
        decreases ps.toks@.len() - ps.pos,
    {
        match ps.peek() {
            Some(Token::IDENT(_)) => {
                if !parse_meta_def(ps) {
                    return false;
                }
                ps.skip_trivia();
            },
            _ => {
                break;
            },
        }
    }
    true
}

/// Parses one `name = value` meta entry.
fn parse_meta_def(ps: &mut Ps) -> (ok: bool)
    requires
        old(ps).wf(),
        old(ps).pos < old(ps).toks@.len(),
    ensures
        prog(*old(ps), *final(ps)),
        old(ps).pos < final(ps).pos,
    decreases ps.toks@.len() - ps.pos, 6int,
{
    ps.b.open(NodeKind::MetaDef);
    ps.bump();  // name
    ps.skip_trivia();
    match ps.peek() {
        Some(Token::EQUAL(_)) => {
            ps.bump();
        },
        _ => {
            ps.syntax_err("expected equal sign `=`");
            ps.b.close();
            return false;
        },
    }
    ps.skip_trivia();
    match ps.peek() {
        Some(Token::TRUE_KW(_)) | Some(Token::FALSE_KW(_)) | Some(Token::STRING_LIT(_))
            | Some(Token::INTEGER_LIT(_)) | Some(Token::FLOAT_LIT(_)) => {
            ps.bump();
        },
        Some(Token::HYPHEN(_)) => {
            ps.bump();
            ps.skip_trivia();
            match ps.peek() {
                Some(Token::INTEGER_LIT(_)) | Some(Token::FLOAT_LIT(_)) => {
                    ps.bump();
                },
                _ => {
                    ps.syntax_err("expected number");
                    ps.b.close();
                    return false;
                },
            }
        },
        _ => {
            ps.syntax_err("expected `false`, `true`, number, or string literal");
            ps.b.close();
            return false;
        },
    }
    ps.b.close();
    true
}

/// Parses `strings:` and its non-empty list of pattern declarations.
fn parse_strings_section(ps: &mut Ps) -> (ok: bool)
    requires
        old(ps).wf(),
        old(ps).pos < old(ps).toks@.len(),
    ensures
        prog(*old(ps), *final(ps)),
        old(ps).pos < final(ps).pos,
    decreases ps.toks@.len() - ps.pos, 7int,
{
    let ghost p0 = *ps;
    ps.bump();  // `strings`
    ps.skip_trivia();
    match ps.peek() {
        Some(Token::COLON(_)) => {
            ps.bump();
        },
        _ => {
            ps.syntax_err("expected colon `:`");
            return false;
        },
    }
    ps.skip_trivia();
    match ps.peek() {
        Some(Token::PATTERN_IDENT(_)) => {},
        _ => {
            ps.syntax_err("expected string identifier");
            return false;
        },
    }
    loop
        invariant
            p0 == *old(ps),
            p0.wf(),
            ps.wf(),
            ps.src@ == p0.src@,
            ps.toks@ == p0.toks@,
            p0.pos < ps.pos,
            ps.b.depth() == p0.b.depth(),
            p0.diags@.is_prefix_of(ps.diags@),
        ensures
            prog(p0, *ps),
            p0.pos < ps.pos,
        decreases ps.toks@.len() - ps.pos,
    {
        match ps.peek() {
            Some(Token::PATTERN_IDENT(_)) => {
                if !parse_pattern_def(ps) {
                    return false;
                }
                ps.skip_trivia();
            },
            _ => {
                break;
            },
        }
    }
    true
}

/// Parses one pattern declaration: `$name = <value> modifiers...`.
fn parse_pattern_def(ps: &mut Ps) -> (ok: bool)
    requires
        old(ps).wf(),
        old(ps).pos < old(ps).toks@.len(),
    ensures
        prog(*old(ps), *final(ps)),
        old(ps).pos < final(ps).pos,
    decreases ps.toks@.len() - ps.pos, 6int,
{
    ps.b.open(NodeKind::PatternDef);
    ps.bump();  // pattern identifier
    ps.skip_trivia();
    match ps.peek() {
        Some(Token::EQUAL(_)) => {
            ps.bump();
        },
        _ => {
            ps.syntax_err("expected equal sign `=`");
            ps.b.close();
            return false;
        },
    }
    ps.skip_trivia();
    match ps.peek() {
        Some(Token::STRING_LIT(_)) | Some(Token::REGEXP(_)) => {
            ps.bump();
        },
        Some(Token::L_BRACE(_)) => {
            if !parse_hex_pattern(ps) {
                ps.b.close();
                return false;
            }
        },
        _ => {
            ps.syntax_err("expected opening brace `{`, regexp, or string literal");
            ps.b.close();
            return false;
        },
    }
    if !parse_modifiers(ps) {
        ps.b.close();
        return false;
    }
    ps.b.close();
    true
}

/// Parses the modifier list after a pattern value.
fn parse_modifiers(ps: &mut Ps) -> (ok: bool)
    requires
        old(ps).wf(),
    ensures
        prog(*old(ps), *final(ps)),
    decreases ps.toks@.len() - ps.pos, 5int,
{
    let ghost p0 = *ps;
    loop
        invariant
            p0 == *old(ps),
            p0.wf(),
            prog(p0, *ps),
        ensures
            prog(p0, *ps),
        decreases ps.toks@.len() - ps.pos,
    {
        ps.skip_trivia();
        match ps.peek() {
            Some(Token::NOCASE_KW(_)) | Some(Token::ASCII_KW(_)) | Some(Token::WIDE_KW(_))
                | Some(Token::FULLWORD_KW(_)) | Some(Token::PRIVATE_KW(_)) => {
                ps.bump();
            },
            Some(Token::XOR_KW(_)) | Some(Token::BASE64_KW(_)) | Some(
                Token::BASE64WIDE_KW(_),
            ) => {
                ps.bump();
                ps.skip_trivia();
                match ps.peek() {
                    Some(Token::L_PAREN(_)) => {
                        ps.bump();
                        ps.skip_trivia();
                        match ps.peek() {
                            Some(Token::INTEGER_LIT(_)) => {
                                ps.bump();
                                ps.skip_trivia();
                                match ps.peek() {
                                    Some(Token::HYPHEN(_)) => {
                                        ps.bump();
                                        ps.skip_trivia();
                                        match ps.peek() {
                                            Some(Token::INTEGER_LIT(_)) => {
                                                ps.bump();
                                                ps.skip_trivia();
                                            },
                                            _ => {
                                                ps.syntax_err("expected number");
                                                return false;
                                            },
                                        }
                                    },
                                    _ => {},
                                }
                            },
                            Some(Token::STRING_LIT(_)) => {
                                ps.bump();
                                ps.skip_trivia();
                            },
                            _ => {
                                ps.syntax_err("expected number or string literal");
                                return false;
                            },
                        }
                        match ps.peek() {
                            Some(Token::R_PAREN(_)) => {
                                ps.bump();
                            },
                            _ => {
                                ps.syntax_err("expected closing parenthesis `)`");
                                return false;
                            },
                        }
                    },
                    _ => {},
                }
            },
            _ => {
                break;
            },
        }
    }
    true
}

/// Parses a hex pattern body `{ ... }`, switching the token classes through
/// the tokenizer's hex modes (already arranged by tokenization).
fn parse_hex_pattern(ps: &mut Ps) -> (ok: bool)
    requires
        old(ps).wf(),
        old(ps).pos < old(ps).toks@.len(),
    ensures
        prog(*old(ps), *final(ps)),
        old(ps).pos < final(ps).pos,
    decreases ps.toks@.len() - ps.pos, 5int,
{
    let ghost p0 = *ps;
    ps.b.open(NodeKind::HexPattern);
    ps.bump();  // `{`
    ps.skip_trivia();
    match ps.peek() {
        Some(Token::HEX_BYTE(_)) => {},
        Some(Token::R_BRACE(_)) => {
            ps.syntax_err("unexpected closing brace `}`");
            ps.b.close();
            return false;
        },
        _ => {
            ps.syntax_err("expected bytes");
            ps.b.close();
            return false;
        },
    }
    loop
        invariant
            p0 == *old(ps),
            p0.wf(),
            ps.wf(),
            ps.src@ == p0.src@,
            ps.toks@ == p0.toks@,
            p0.pos < ps.pos,
            ps.b.depth() == p0.b.depth() + 1,
            p0.diags@.is_prefix_of(ps.diags@),
        ensures
            prog(p0, *ps),
            p0.pos < ps.pos,
        decreases ps.toks@.len() - ps.pos,
    {
        ps.skip_trivia();
        match ps.peek() {
            Some(Token::HEX_BYTE(_)) => {
                ps.bump();
            },
            Some(Token::TILDE(_)) => {
                ps.bump();
                ps.skip_trivia();
                match ps.peek() {
                    Some(Token::HEX_BYTE(_)) => {
                        ps.bump();
                    },
                    _ => {
                        ps.syntax_err("expected bytes");
                        ps.b.close();
                        return false;
                    },
                }
            },
            Some(Token::L_BRACKET(_)) => {
                if !parse_hex_jump(ps) {
                    ps.b.close();
                    return false;
                }
                ps.skip_trivia();
                // A jump cannot end the pattern and cannot be followed by
                // an alternation pipe.
                match ps.peek() {
                    Some(Token::HEX_BYTE(_)) | Some(Token::L_BRACKET(_)) | Some(
                        Token::L_PAREN(_),
                    ) => {},
                    _ => {
                        ps.syntax_err(
                            "expected byte, opening bracket `[`, or opening parenthesis `(`",
                        );
                        ps.b.close();
                        return false;
                    },
                }
            },
            Some(Token::L_PAREN(_)) => {
                if !parse_hex_group(ps) {
                    ps.b.close();
                    return false;
                }
            },
            Some(Token::R_BRACE(_)) => {
                ps.bump();
                ps.b.close();
                return true;
            },
            _ => {
                ps.syntax_err(
                    "expected byte, closing brace `}`, opening bracket `[`, or opening parenthesis `(`",
                );
                ps.b.close();
                return false;
            },
        }
    }
}

/// Parses a bracketed jump `[n]`, `[lo-hi]`, `[-...]`.
fn parse_hex_jump(ps: &mut Ps) -> (ok: bool)
    requires
        old(ps).wf(),
        old(ps).pos < old(ps).toks@.len(),
    ensures
        prog(*old(ps), *final(ps)),
        old(ps).pos < final(ps).pos,
    decreases ps.toks@.len() - ps.pos, 4int,
{
    let ghost p0 = *ps;
    ps.b.open(NodeKind::HexJump);
    ps.bump();  // `[`
    loop
        invariant
            p0 == *old(ps),
            p0.wf(),
            ps.wf(),
            ps.src@ == p0.src@,
            ps.toks@ == p0.toks@,
            p0.pos < ps.pos,
            ps.b.depth() == p0.b.depth() + 1,
            p0.diags@.is_prefix_of(ps.diags@),
        ensures
            prog(p0, *ps),
            p0.pos < ps.pos,
        decreases ps.toks@.len() - ps.pos,
    {
        ps.skip_trivia();
        match ps.peek() {
            Some(Token::INTEGER_LIT(_)) | Some(Token::HYPHEN(_)) => {
                ps.bump();
            },
            Some(Token::R_BRACKET(_)) => {
                ps.bump();
                ps.b.close();
                return true;
            },
            _ => {
                ps.syntax_err("expected closing bracket `]` or number");
                ps.b.close();
                return false;
            },
        }
    }
}

/// Parses a parenthesized hex alternation group.
fn parse_hex_group(ps: &mut Ps) -> (ok: bool)
    requires
        old(ps).wf(),
        old(ps).pos < old(ps).toks@.len(),
    ensures
        prog(*old(ps), *final(ps)),
        old(ps).pos < final(ps).pos,
    decreases ps.toks@.len() - ps.pos, 5int,
{
    let ghost p0 = *ps;
    ps.b.open(NodeKind::HexAlt);
    ps.bump();  // `(`
    loop
        invariant
            p0 == *old(ps),
            p0.wf(),
            ps.wf(),
            ps.src@ == p0.src@,
            ps.toks@ == p0.toks@,
            p0.pos < ps.pos,
            ps.b.depth() == p0.b.depth() + 1,
            p0.diags@.is_prefix_of(ps.diags@),
        ensures
            prog(p0, *ps),
            p0.pos < ps.pos,
        decreases ps.toks@.len() - ps.pos,
    {
        ps.skip_trivia();
        match ps.peek() {
            Some(Token::HEX_BYTE(_)) | Some(Token::PIPE(_)) => {
                ps.bump();
            },
            Some(Token::TILDE(_)) => {
                ps.bump();
                ps.skip_trivia();
                match ps.peek() {
                    Some(Token::HEX_BYTE(_)) => {
                        ps.bump();
                    },
                    _ => {
                        ps.syntax_err("expected bytes");
                        ps.b.close();
                        return false;
                    },
                }
            },
            Some(Token::L_BRACKET(_)) => {
                if !parse_hex_jump(ps) {
                    ps.b.close();
                    return false;
                }
            },
            Some(Token::L_PAREN(_)) => {
                if !parse_hex_group(ps) {
                    ps.b.close();
                    return false;
                }
            },
            Some(Token::R_PAREN(_)) => {
                ps.bump();
                ps.b.close();
                return true;
            },
            _ => {
                ps.syntax_err(
                    "expected byte, closing parenthesis `)`, opening bracket `[`, opening parenthesis `(`, or pipe `|`",
                );
                ps.b.close();
                return false;
            },
        }
    }
}

/// Parses a boolean expression: terms joined by `and`/`or`.
fn parse_boolean_expr(ps: &mut Ps, in_for: bool) -> (ok: bool)
    requires
        old(ps).wf(),
    ensures
        prog(*old(ps), *final(ps)),
        ok ==> old(ps).pos < final(ps).pos,
    decreases ps.toks@.len() - ps.pos, 4int,
{
    let ghost p0 = *ps;
    ps.b.open(NodeKind::BooleanExpr);
    if !parse_boolean_term(ps, in_for) {
        ps.b.close();
        return false;
    }
    loop
        invariant
            p0 == *old(ps),
            p0.wf(),
            ps.wf(),
            ps.src@ == p0.src@,
            ps.toks@ == p0.toks@,
            p0.pos < ps.pos,
            ps.b.depth() == p0.b.depth() + 1,
            p0.diags@.is_prefix_of(ps.diags@),
        ensures
            ps.wf(),
            ps.src@ == p0.src@,
            ps.toks@ == p0.toks@,
            p0.pos < ps.pos,
            ps.b.depth() == p0.b.depth() + 1,
            p0.diags@.is_prefix_of(ps.diags@),
        decreases ps.toks@.len() - ps.pos,
    {
        ps.skip_trivia();
        match ps.peek() {
            Some(Token::AND_KW(_)) | Some(Token::OR_KW(_)) => {
                ps.bump();
                ps.skip_trivia();
                if !parse_boolean_term(ps, in_for) {
                    ps.b.close();
                    return false;
                }
            },
            _ => {
                break;
            },
        }
    }
    ps.b.close();
    true
}

/// Parses one boolean term: a literal, a negation, a pattern match, a
/// quantified `of` expression, a `for .. of` expression, or a comparison of
/// arithmetic expressions.
#[verifier::rlimit(100)]
#[verifier::spinoff_prover]
fn parse_boolean_term(ps: &mut Ps, in_for: bool) -> (ok: bool)
    requires
        old(ps).wf(),
    ensures
        prog(*old(ps), *final(ps)),
        ok ==> old(ps).pos < final(ps).pos,
    decreases ps.toks@.len() - ps.pos, 3int,
{
    let ghost p0 = *ps;
    ps.b.open(NodeKind::BooleanTerm);
    let nt = ps.peek();
    match nt {
        Some(Token::TRUE_KW(_)) | Some(Token::FALSE_KW(_)) => {
            ps.bump();
        },
        Some(Token::NOT_KW(_)) | Some(Token::DEFINED_KW(_)) => {
            ps.bump();
            ps.skip_trivia();
            if !parse_boolean_term(ps, in_for) {
                ps.b.close();
                return false;
            }
        },
        Some(Token::FOR_KW(_)) => {
            if !parse_for_expr(ps) {
                ps.b.close();
                return false;
            }
        },
        Some(Token::PATTERN_IDENT(s)) => {
            proof {
                assert(ps.toks@[ps.pos as int].spec_span().0 < ps.toks@[
                    ps.pos as int
                ].spec_span().1);
            }
            if s.1 - s.0 == 1 && !in_for {
                ps.syntax_err_span(
                    s,
                    "this `$` is outside of the condition of a `for .. of` statement",
                );
                ps.b.close();
                return false;
            }
            ps.bump();
            ps.skip_trivia();
            match ps.peek() {
                Some(Token::AT_KW(_)) => {
                    ps.bump();
                    ps.skip_trivia();
                    if !parse_arith_expr(ps, in_for, 0) {
                        ps.b.close();
                        return false;
                    }
                },
                Some(Token::IN_KW(_)) => {
                    ps.bump();
                    ps.skip_trivia();
                    if !parse_range(ps, in_for) {
                        ps.b.close();
                        return false;
                    }
                },
                _ => {},
            }
        },
        Some(Token::ALL_KW(_)) | Some(Token::ANY_KW(_)) | Some(Token::NONE_KW(_)) => {
            ps.bump();
            ps.skip_trivia();
            if !parse_of_tail(ps) {
                ps.b.close();
                return false;
            }
        },
        Some(Token::INTEGER_LIT(_)) | Some(Token::FLOAT_LIT(_)) | Some(Token::STRING_LIT(_))
            | Some(Token::REGEXP(_)) | Some(Token::IDENT(_)) | Some(Token::PATTERN_COUNT(_))
            | Some(Token::PATTERN_OFFSET(_)) | Some(Token::PATTERN_LENGTH(_)) | Some(
            Token::HYPHEN(_),
        ) | Some(Token::L_PAREN(_)) | Some(Token::FILESIZE_KW(_)) | Some(
            Token::ENTRYPOINT_KW(_),
        ) => {
            if !parse_arith_expr(ps, in_for, 0) {
                ps.b.close();
                return false;
            }
            ps.skip_trivia();
            match ps.peek() {
                Some(Token::EQ(_)) | Some(Token::NE(_)) | Some(Token::LT(_)) | Some(
                    Token::GT(_),
                ) | Some(Token::LE(_)) | Some(Token::GE(_)) | Some(Token::CONTAINS_KW(_))
                    | Some(Token::ICONTAINS_KW(_)) | Some(Token::STARTSWITH_KW(_)) | Some(
                    Token::ISTARTSWITH_KW(_),
                ) | Some(Token::ENDSWITH_KW(_)) | Some(Token::IENDSWITH_KW(_)) | Some(
                    Token::IEQUALS_KW(_),
                ) | Some(Token::MATCHES_KW(_)) => {
                    ps.bump();
                    ps.skip_trivia();
                    if !parse_arith_expr(ps, in_for, 0) {
                        ps.b.close();
                        return false;
                    }
                },
                Some(Token::OF_KW(_)) => {
                    // `N of ...` quantifier.
                    if !parse_of_tail(ps) {
                        ps.b.close();
                        return false;
                    }
                },
                Some(Token::PERCENT(_)) => {
                    // `N% of ...` quantifier.
                    ps.bump();
                    ps.skip_trivia();
                    match ps.peek() {
                        Some(Token::OF_KW(_)) => {},
                        _ => {
                            ps.syntax_err("expected `of`");
                            ps.b.close();
                            return false;
                        },
                    }
                    if !parse_of_tail(ps) {
                        ps.b.close();
                        return false;
                    }
                },
                Some(Token::AND_KW(_)) | Some(Token::OR_KW(_)) | Some(Token::R_BRACE(_))
                    | Some(Token::R_PAREN(_)) | None => {},
                _ => {
                    ps.syntax_err(
                        "expected `of`, closing brace `}`, dot `.`, opening bracket `[`, opening parenthesis `(`, operator, or percent `%`",
                    );
                    ps.b.close();
                    return false;
                },
            }
        },
        _ => {
            ps.syntax_err("expected boolean expression");
            ps.b.close();
            return false;
        },
    }
    ps.b.close();
    true
}

/// Parses `of them`, `of ($set)`, or `of (rule, names)` after a quantifier.
/// A rule-name set cannot be anchored with `in` or `at`.
#[verifier::rlimit(50)]
fn parse_of_tail(ps: &mut Ps) -> (ok: bool)
    requires
        old(ps).wf(),
    ensures
        prog(*old(ps), *final(ps)),
        ok ==> old(ps).pos < final(ps).pos,
    decreases ps.toks@.len() - ps.pos, 2int,
{
    let ghost p0 = *ps;
    ps.b.open(NodeKind::OfExpr);
    match ps.peek() {
        Some(Token::OF_KW(_)) => {
            ps.bump();
        },
        _ => {
            ps.syntax_err("expected `of`");
            ps.b.close();
            return false;
        },
    }
    ps.skip_trivia();
    let mut rules_set = false;
    match ps.peek() {
        Some(Token::THEM_KW(_)) => {
            ps.bump();
        },
        Some(Token::L_PAREN(_)) => {
            ps.bump();
            ps.skip_trivia();
            loop
                invariant
                    p0 == *old(ps),
                    p0.wf(),
                    ps.wf(),
                    ps.src@ == p0.src@,
                    ps.toks@ == p0.toks@,
                    p0.pos < ps.pos,
                    ps.b.depth() == p0.b.depth() + 1,
                    p0.diags@.is_prefix_of(ps.diags@),
                ensures
                    ps.wf(),
                    ps.src@ == p0.src@,
                    ps.toks@ == p0.toks@,
                    p0.pos < ps.pos,
                    ps.b.depth() == p0.b.depth() + 1,
                    p0.diags@.is_prefix_of(ps.diags@),
                decreases ps.toks@.len() - ps.pos,
            {
                match ps.peek() {
                    Some(Token::PATTERN_IDENT(_)) => {
                        ps.bump();
                        ps.skip_trivia();
                        // An optional wildcard completes the member.
                        match ps.peek() {
                            Some(Token::ASTERISK(_)) => {
                                ps.bump();
                                ps.skip_trivia();
                            },
                            _ => {},
                        }
                    },
                    Some(Token::IDENT(_)) => {
                        rules_set = true;
                        ps.bump();
                        ps.skip_trivia();
                    },
                    _ => {
                        ps.syntax_err("expected identifier or string identifier");
                        ps.b.close();
                        return false;
                    },
                }
                match ps.peek() {
                    Some(Token::COMMA(_)) => {
                        ps.bump();
                        ps.skip_trivia();
                    },
                    Some(Token::R_PAREN(_)) => {
                        ps.bump();
                        break;
                    },
                    _ => {
                        ps.syntax_err("expected closing parenthesis `)` or comma `,`");
                        ps.b.close();
                        return false;
                    },
                }
            }
        },
        _ => {
            ps.syntax_err("expected `them` or opening parenthesis `(`");
            ps.b.close();
            return false;
        },
    }
    if rules_set {
        ps.skip_trivia();
        match ps.peek() {
            Some(Token::IN_KW(_)) => {
                ps.syntax_err("unexpected `in`");
                ps.b.close();
                return false;
            },
            Some(Token::AT_KW(_)) => {
                ps.syntax_err("unexpected `at`");
                ps.b.close();
                return false;
            },
            _ => {},
        }
    }
    ps.b.close();
    true
}

/// Parses `for <quantifier> of <set> : ( <expr> )`.
fn parse_for_expr(ps: &mut Ps) -> (ok: bool)
    requires
        old(ps).wf(),
        old(ps).pos < old(ps).toks@.len(),
    ensures
        prog(*old(ps), *final(ps)),
        old(ps).pos < final(ps).pos,
    decreases ps.toks@.len() - ps.pos, 2int,
{
    ps.b.open(NodeKind::ForExpr);
    ps.bump();  // `for`
    ps.skip_trivia();
    match ps.peek() {
        Some(Token::ALL_KW(_)) | Some(Token::ANY_KW(_)) | Some(Token::NONE_KW(_)) | Some(
            Token::INTEGER_LIT(_),
        ) => {
            ps.bump();
        },
        _ => {
            ps.syntax_err("expected quantifier");
            ps.b.close();
            return false;
        },
    }
    ps.skip_trivia();
    match ps.peek() {
        Some(Token::OF_KW(_)) => {},
        _ => {
            ps.syntax_err("expected `of`");
            ps.b.close();
            return false;
        },
    }
    if !parse_of_tail(ps) {
        ps.b.close();
        return false;
    }
    ps.skip_trivia();
    match ps.peek() {
        Some(Token::COLON(_)) => {
            ps.bump();
        },
        _ => {
            ps.syntax_err("expected colon `:`");
            ps.b.close();
            return false;
        },
    }
    ps.skip_trivia();
    match ps.peek() {
        Some(Token::L_PAREN(_)) => {
            ps.bump();
        },
        _ => {
            ps.syntax_err("expected opening parenthesis `(`");
            ps.b.close();
            return false;
        },
    }
    ps.skip_trivia();
    if !parse_boolean_expr(ps, true) {
        ps.b.close();
        return false;
    }
    ps.skip_trivia();
    match ps.peek() {
        Some(Token::R_PAREN(_)) => {
            ps.bump();
        },
        _ => {
            ps.syntax_err("expected closing parenthesis `)`");
            ps.b.close();
            return false;
        },
    }
    ps.b.close();
    true
}

/// Binding power of an arithmetic or bitwise binary operator.
fn binop_prec(t: Token) -> (r: Option<u32>)
    ensures
        r matches Some(p) ==> p <= 6,
{
    match t {
        Token::PIPE(_) => Some(1),
        Token::CARET(_) => Some(2),
        Token::AMPERSAND(_) => Some(3),
        Token::SHL(_) | Token::SHR(_) => Some(4),
        Token::PLUS(_) | Token::HYPHEN(_) => Some(5),
        Token::ASTERISK(_) | Token::BACKSLASH(_) => Some(6),
        _ => None,
    }
}

/// Parses an arithmetic expression by precedence climbing.
fn parse_arith_expr(ps: &mut Ps, in_for: bool, min_prec: u32) -> (ok: bool)
    requires
        old(ps).wf(),
    ensures
        prog(*old(ps), *final(ps)),
        ok ==> old(ps).pos < final(ps).pos,
    decreases ps.toks@.len() - ps.pos, 2int,
{
    let ghost p0 = *ps;
    if !parse_primary(ps, in_for) {
        return false;
    }
    loop
        invariant
            p0 == *old(ps),
            p0.wf(),
            ps.wf(),
            ps.src@ == p0.src@,
            ps.toks@ == p0.toks@,
            p0.pos < ps.pos,
            ps.b.depth() == p0.b.depth(),
            p0.diags@.is_prefix_of(ps.diags@),
        ensures
            prog(p0, *ps),
            p0.pos < ps.pos,
        decreases ps.toks@.len() - ps.pos,
    {
        ps.skip_trivia();
        let mut done = true;
        match ps.peek() {
            Some(t) => {
                match binop_prec(t) {
                    Some(p) => {
                        if p >= min_prec {
                            ps.bump();
                            ps.skip_trivia();
                            if !parse_arith_expr(ps, in_for, p + 1) {
                                return false;
                            }
                            done = false;
                        }
                    },
                    None => {},
                }
            },
            None => {},
        }
        if done {
            break;
        }
    }
    true
}

/// Parses a primary expression: a literal, an identifier with member,
/// index and call suffixes, a pattern accessor, a negation, or a
/// parenthesized expression.
fn parse_primary(ps: &mut Ps, in_for: bool) -> (ok: bool)
    requires
        old(ps).wf(),
    ensures
        prog(*old(ps), *final(ps)),
        ok ==> old(ps).pos < final(ps).pos,
    decreases ps.toks@.len() - ps.pos, 1int,
{
    let ghost p0 = *ps;
    match ps.peek() {
        Some(Token::INTEGER_LIT(_)) | Some(Token::FLOAT_LIT(_)) | Some(Token::STRING_LIT(_))
            | Some(Token::REGEXP(_)) | Some(Token::FILESIZE_KW(_)) | Some(
            Token::ENTRYPOINT_KW(_),
        ) | Some(Token::PATTERN_IDENT(_)) => {
            ps.bump();
        },
        Some(Token::HYPHEN(_)) => {
            ps.bump();
            ps.skip_trivia();
            if !parse_primary(ps, in_for) {
                return false;
            }
        },
        Some(Token::IDENT(_)) => {
            ps.bump();
            loop
                invariant
                    p0 == *old(ps),
                    p0.wf(),
                    ps.wf(),
                    ps.src@ == p0.src@,
                    ps.toks@ == p0.toks@,
                    p0.pos < ps.pos,
                    ps.b.depth() == p0.b.depth(),
                    p0.diags@.is_prefix_of(ps.diags@),
                ensures
                    prog(p0, *ps),
                    p0.pos < ps.pos,
                decreases ps.toks@.len() - ps.pos,
            {
                match ps.peek() {
                    Some(Token::DOT(_)) => {
                        ps.bump();
                        match ps.peek() {
                            Some(Token::IDENT(_)) => {
                                ps.bump();
                            },
                            _ => {
                                ps.syntax_err("expected identifier");
                                return false;
                            },
                        }
                    },
                    Some(Token::L_BRACKET(_)) => {
                        ps.bump();
                        ps.skip_trivia();
                        if !parse_arith_expr(ps, in_for, 0) {
                            return false;
                        }
                        ps.skip_trivia();
                        match ps.peek() {
                            Some(Token::R_BRACKET(_)) => {
                                ps.bump();
                            },
                            _ => {
                                ps.syntax_err("expected closing bracket `]`");
                                return false;
                            },
                        }
                    },
                    Some(Token::L_PAREN(_)) => {
                        ps.bump();
                        ps.skip_trivia();
                        match ps.peek() {
                            Some(Token::R_PAREN(_)) => {
                                ps.bump();
                            },
                            _ => {
                                if !parse_arg_list(ps, in_for) {
                                    return false;
                                }
                            },
                        }
                    },
                    _ => {
                        break;
                    },
                }
            }
        },
        Some(Token::PATTERN_COUNT(_)) => {
            ps.bump();
            ps.skip_trivia();
            match ps.peek() {
                Some(Token::IN_KW(_)) => {
                    ps.bump();
                    ps.skip_trivia();
                    if !parse_range(ps, in_for) {
                        return false;
                    }
                },
                _ => {},
            }
        },
        Some(Token::PATTERN_OFFSET(_)) | Some(Token::PATTERN_LENGTH(_)) => {
            ps.bump();
            ps.skip_trivia();
            match ps.peek() {
                Some(Token::L_BRACKET(_)) => {
                    ps.bump();
                    ps.skip_trivia();
                    if !parse_arith_expr(ps, in_for, 0) {
                        return false;
                    }
                    ps.skip_trivia();
                    match ps.peek() {
                        Some(Token::R_BRACKET(_)) => {
                            ps.bump();
                        },
                        _ => {
                            ps.syntax_err("expected closing bracket `]`");
                            return false;
                        },
                    }
                },
                _ => {},
            }
        },
        Some(Token::L_PAREN(_)) => {
            ps.bump();
            ps.skip_trivia();
            if !parse_boolean_expr(ps, in_for) {
                return false;
            }
            ps.skip_trivia();
            match ps.peek() {
                Some(Token::R_PAREN(_)) => {
                    ps.bump();
                },
                _ => {
                    ps.syntax_err("expected closing parenthesis `)`");
                    return false;
                },
            }
        },
        _ => {
            ps.syntax_err("expected expression");
            return false;
        },
    }
    true
}

/// Parses the remaining arguments of a call, after the opening parenthesis.
fn parse_arg_list(ps: &mut Ps, in_for: bool) -> (ok: bool)
    requires
        old(ps).wf(),
    ensures
        prog(*old(ps), *final(ps)),
        ok ==> old(ps).pos < final(ps).pos,
    decreases ps.toks@.len() - ps.pos, 3int,
{
    let ghost p0 = *ps;
    if !parse_arith_expr(ps, in_for, 0) {
        return false;
    }
    loop
        invariant
            p0 == *old(ps),
            p0.wf(),
            ps.wf(),
            ps.src@ == p0.src@,
            ps.toks@ == p0.toks@,
            p0.pos < ps.pos,
            ps.b.depth() == p0.b.depth(),
            p0.diags@.is_prefix_of(ps.diags@),
        ensures
            prog(p0, *ps),
            p0.pos < ps.pos,
        decreases ps.toks@.len() - ps.pos,
    {
        ps.skip_trivia();
        match ps.peek() {
            Some(Token::COMMA(_)) => {
                ps.bump();
                ps.skip_trivia();
                if !parse_arith_expr(ps, in_for, 0) {
                    return false;
                }
            },
            Some(Token::R_PAREN(_)) => {
                ps.bump();
                break;
            },
            _ => {
                ps.syntax_err("expected closing parenthesis `)` or comma `,`");
                return false;
            },
        }
    }
    true
}

/// Parses `( lo .. hi )`.
fn parse_range(ps: &mut Ps, in_for: bool) -> (ok: bool)
    requires
        old(ps).wf(),
    ensures
        prog(*old(ps), *final(ps)),
        ok ==> old(ps).pos < final(ps).pos,
    decreases ps.toks@.len() - ps.pos, 0int,
{
    match ps.peek() {
        Some(Token::L_PAREN(_)) => {},
        _ => {
            ps.syntax_err("expected opening parenthesis `(`");
            return false;
        },
    }
    ps.b.open(NodeKind::Range);
    ps.bump();
    ps.skip_trivia();
    if !parse_arith_expr(ps, in_for, 0) {
        ps.b.close();
        return false;
    }
    ps.skip_trivia();
    match ps.peek() {
        Some(Token::DOT_DOT(_)) => {
            ps.bump();
        },
        _ => {
            ps.syntax_err("expected `..`");
            ps.b.close();
            return false;
        },
    }
    ps.skip_trivia();
    if !parse_arith_expr(ps, in_for, 0) {
        ps.b.close();
        return false;
    }
    ps.skip_trivia();
    match ps.peek() {
        Some(Token::R_PAREN(_)) => {
            ps.bump();
        },
        _ => {
            ps.syntax_err("expected closing parenthesis `)`");
            ps.b.close();
            return false;
        },
    }
    ps.b.close();
    true
}

/// Tokenizes and parses a source buffer into a lossless CST, collecting
/// diagnostics.  The tree always covers the entire input, whatever errors
/// occurred.
pub fn parse_to_cst(srcv: Vec<u8>) -> (r: (Cst, Vec<Diagnostic>))
    ensures
        r.0.wf(),
        r.0.lossless(),
        r.0.source@ == srcv@,
{
    let toks = tokenize_all(srcv.as_slice(), true);
    let b = CstBuilder::new();
    let mut ps = Ps { src: srcv, toks, pos: 0, b, diags: Vec::new() };
    proof {
        assert(ps.b.tokens@ =~= ps.toks@.subrange(0, 0));
    }
    parse_source_file(&mut ps);
    let Ps { src, toks, pos, b, diags } = ps;
    proof {
        assert(b.tokens@ =~= toks@);
    }
    let cst = b.finish(src);
    (cst, diags)
}

} // verus!
