use vstd::prelude::*;
use crate::span::Span;
use crate::token::Token;
use crate::scan::spec_is_hex_digit;
use crate::diag::{Diagnostic, DiagKind, Severity, Label, LabelStyle, push_str_bytes, push_bytes, push_dec};
use crate::cst::{Cst, CstChild, CstNode, NodeKind, children_ok};
use crate::parse::span_text;
use crate::tokenizer::lemma_partition_span_bounds;

verus! {

// ---------------------------------------------------------------------------
// Abstract syntax tree.
// ---------------------------------------------------------------------------

/// A parsed rule file: the reduced, typed form of the CST with trivia
/// dropped and literals decoded.
#[derive(Debug)]
pub struct SourceFile {
    pub rules: Vec<RuleDecl>,
}

#[derive(Debug)]
pub struct RuleDecl {
    pub is_global: bool,
    pub is_private: bool,
    pub name: Vec<u8>,
    pub name_span: Span,
    pub tags: Vec<NameRef>,
    pub meta: Vec<MetaDef>,
    pub patterns: Vec<PatternDecl>,
    pub condition: Expr,
}

/// A name occurrence with its source location.
#[derive(Debug)]
pub struct NameRef {
    pub name: Vec<u8>,
    pub span: Span,
}

#[derive(Debug)]
pub struct MetaDef {
    pub name: Vec<u8>,
    pub span: Span,
    pub value: MetaValue,
}

#[derive(Debug)]
pub enum MetaValue {
    Bool(bool),
    Int(i64),
    Float(Vec<u8>),
    Str(Vec<u8>),
    Invalid,
}

/// A pattern declaration; the name is stored without its `$` sigil, so the
/// anonymous pattern has an empty name.
#[derive(Debug)]
pub struct PatternDecl {
    pub name: Vec<u8>,
    pub span: Span,
    pub kind: PatternKind,
    pub mods: Vec<PatternMod>,
}

#[derive(Debug)]
pub enum PatternKind {
    Text(Vec<u8>),
    Regexp(Vec<u8>),
    Hex(Vec<HexPart>),
}

/// One element of a hex pattern body, in source order; alternation groups
/// are kept flat between `AltOpen`/`AltClose` markers.
#[derive(Debug)]
#[derive(Clone, Copy)]
pub enum HexPart {
    Byte { value: u8, mask: u8, negated: bool, span: Span },
    Jump { lo: u64, hi: Option<u64>, span: Span },
    AltOpen(Span),
    AltClose(Span),
    Pipe(Span),
}

#[derive(Clone, Copy, Debug, PartialEq, Eq, Structural)]
pub enum ModKind {
    Nocase,
    Ascii,
    Wide,
    Fullword,
    Xor,
    Base64,
    Base64Wide,
    PrivateMod,
}

#[derive(Debug)]
pub struct PatternMod {
    pub kind: ModKind,
    pub span: Span,
}

#[derive(Clone, Copy, Debug, PartialEq, Eq, Structural)]
pub enum UnOp {
    Not,
    Defined,
    Neg,
}

#[derive(Clone, Copy, Debug, PartialEq, Eq, Structural)]
pub enum BinOp {
    And,
    Or,
    Eq,
    Ne,
    Lt,
    Gt,
    Le,
    Ge,
    Contains,
    IContains,
    StartsWith,
    IStartsWith,
    EndsWith,
    IEndsWith,
    IEquals,
    Matches,
    BitOr,
    BitXor,
    BitAnd,
    Shl,
    Shr,
    Add,
    Sub,
    Mul,
    Div,
    At,
    In,
    RangeOp,
    Index,
    Member,
    Call,
}

#[derive(Clone, Copy, Debug, PartialEq, Eq, Structural)]
pub enum Quant {
    All,
    Any,
    NoneOf,
    Num(i64),
    Percent(i64),
}

#[derive(Debug)]
pub enum OfSet {
    Them,
    Patterns(Vec<NameRef>),
    Rules(Vec<NameRef>),
}

/// A condition expression.  Pattern accessors store their bare name, so a
/// reference `$a`/`#a`/`@a`/`!a` carries the name `a`.
#[derive(Debug)]
pub enum Expr {
    BoolLit(bool, Span),
    IntLit(i64, Span),
    FloatLit(Span),
    StrLit(Vec<u8>, Span),
    RegexpLit(Span),
    Filesize(Span),
    Entrypoint(Span),
    Ident(Vec<u8>, Span),
    PatternMatch(Vec<u8>, Span),
    PatternCount(Vec<u8>, Span),
    PatternOffset(Vec<u8>, Span),
    PatternLength(Vec<u8>, Span),
    Unary(UnOp, Box<Expr>, Span),
    Binary(BinOp, Box<Expr>, Box<Expr>),
    OfQuant(Quant, OfSet, Span),
    ForOf(Quant, OfSet, Box<Expr>, Span),
    Invalid(Span),
}

// ---------------------------------------------------------------------------
// Integer literals.
// ---------------------------------------------------------------------------

/// Numeric value of one digit byte.
pub open spec fn digit_val(b: u8) -> int {
    if 48 <= b <= 57 {
        b - 48
    } else if 97 <= b <= 102 {
        b - 87
    } else if 65 <= b <= 70 {
        b - 55
    } else {
        0
    }
}

/// Value of a digit run in the given base; `_` separators are skipped.
pub open spec fn num_value(t: Seq<u8>, base: int) -> int
    decreases t.len(),
{
    if t.len() == 0 {
        0
    } else if t.last() == 95 {
        num_value(t.drop_last(), base)
    } else {
        num_value(t.drop_last(), base) * base + digit_val(t.last())
    }
}

proof fn lemma_num_value_nonneg(t: Seq<u8>, base: int)
    requires
        base >= 2,
    ensures
        num_value(t, base) >= 0,
    decreases t.len(),
{
    if t.len() > 0 {
        lemma_num_value_nonneg(t.drop_last(), base);
        if t.last() != 95 {
            assert(num_value(t.drop_last(), base) * base >= 0) by (nonlinear_arith)
                requires num_value(t.drop_last(), base) >= 0, base >= 2,
            ;
        }
    }
}

/// Extending a digit run never decreases its value.
proof fn lemma_num_value_monotone(t: Seq<u8>, base: int, k: int)
    requires
        base >= 2,
        0 <= k <= t.len(),
    ensures
        num_value(t.subrange(0, k), base) <= num_value(t, base),
    decreases t.len() - k,
{
    if k < t.len() {
        lemma_num_value_monotone(t, base, k + 1);
        let p = t.subrange(0, k);
        let q = t.subrange(0, k + 1);
        assert(q.drop_last() =~= p);
        assert(q.last() == t[k]);
        lemma_num_value_nonneg(p, base);
        if t[k] == 95 {
            assert(num_value(q, base) == num_value(p, base));
        } else {
            assert(num_value(p, base) * base >= num_value(p, base)) by (nonlinear_arith)
                requires num_value(p, base) >= 0, base >= 2,
            ;
            assert(num_value(q, base) >= num_value(p, base));
        }
    } else {
        assert(t.subrange(0, k) =~= t);
    }
}

/// Decodes a run of digits (and `_` separators) in the given base; `None`
/// when the value exceeds `u64::MAX`.
fn parse_digits(t: &Vec<u8>, start: usize, base: u64) -> (r: Option<u64>)
    requires
        start <= t@.len(),
        base == 10 || base == 16 || base == 8,
    ensures
        r matches Some(v) ==> v == num_value(t@.subrange(start as int, t@.len() as int), base as int),
        r is None ==> num_value(t@.subrange(start as int, t@.len() as int), base as int)
            > u64::MAX,
{
    let ghost whole = t@.subrange(start as int, t@.len() as int);
    let mut acc: u128 = 0;
    let mut k: usize = start;
    while k < t.len()
        invariant
            start <= k <= t@.len(),
            base == 10 || base == 16 || base == 8,
            whole == t@.subrange(start as int, t@.len() as int),
            acc == num_value(t@.subrange(start as int, k as int), base as int),
            acc <= u64::MAX,
        decreases t@.len() - k,
    {
        let b = t[k];
        let d: u64 = if 48 <= b && b <= 57 {
            (b - 48) as u64
        } else if 97 <= b && b <= 102 {
            (b - 87) as u64
        } else if 65 <= b && b <= 70 {
            (b - 55) as u64
        } else {
            0
        };
        proof {
            assert(t@.subrange(start as int, k + 1).drop_last() =~= t@.subrange(
                start as int,
                k as int,
            ));
            assert(t@.subrange(start as int, k + 1).last() == t@[k as int]);
            assert(acc * (base as u128) <= 0xffff_ffff_ffff_ffffu128 * 16) by (nonlinear_arith)
                requires acc <= 0xffff_ffff_ffff_ffffu128, base <= 16,
            ;
        }
        let next: u128 = if b == 95 {
            acc
        } else {
            acc * (base as u128) + (d as u128)
        };
        if next > u64::MAX as u128 {
            proof {
                let pre = t@.subrange(start as int, k + 1);
                assert(num_value(pre, base as int) == next);
                lemma_num_value_monotone(whole, base as int, k + 1 - start);
                assert(whole.subrange(0, k + 1 - start) =~= pre);
            }
            return None;
        }
        acc = next;
        k += 1;
    }
    proof {
        assert(t@.subrange(start as int, t@.len() as int) =~= t@.subrange(
            start as int,
            k as int,
        ));
    }
    Some(acc as u64)
}

/// Decodes an integer literal (its raw text, without any sign) per its
/// base prefix: `0x`/`0X` hex, `0o`/`0O` octal, else decimal; underscore
/// separators are ignored.  Returns the magnitude, or `None` when it
/// exceeds `u64::MAX`.
pub fn decode_integer_magnitude(text: &Vec<u8>) -> (r: Option<u64>)
    ensures
        r matches Some(v) ==> v == spec_integer_magnitude(text@),
        r is None ==> spec_integer_magnitude(text@) > u64::MAX,
{
    if text.len() > 2 && text[0] == 48 && (text[1] == 120 || text[1] == 88) {
        parse_digits(text, 2, 16)
    } else if text.len() > 2 && text[0] == 48 && (text[1] == 111 || text[1] == 79) {
        parse_digits(text, 2, 8)
    } else {
        let r = parse_digits(text, 0, 10);
        proof {
            assert(text@.subrange(0, text@.len() as int) =~= text@);
        }
        r
    }
}

/// The magnitude an integer literal denotes.
pub open spec fn spec_integer_magnitude(t: Seq<u8>) -> int {
    if t.len() > 2 && t[0] == 48 && (t[1] == 120 || t[1] == 88) {
        num_value(t.subrange(2, t.len() as int), 16)
    } else if t.len() > 2 && t[0] == 48 && (t[1] == 111 || t[1] == 79) {
        num_value(t.subrange(2, t.len() as int), 8)
    } else {
        num_value(t, 10)
    }
}

/// Decodes a possibly negated integer literal into a signed 64-bit value;
/// `None` exactly when the value falls outside
/// `[-9223372036854775808, 9223372036854775807]`.
pub fn decode_i64(text: &Vec<u8>, negative: bool) -> (r: Option<i64>)
    ensures
        r matches Some(v) ==> (if negative {
            v == -spec_integer_magnitude(text@)
        } else {
            v == spec_integer_magnitude(text@)
        }),
        r is None <==> (if negative {
            spec_integer_magnitude(text@) > 0x8000_0000_0000_0000
        } else {
            spec_integer_magnitude(text@) > 0x7fff_ffff_ffff_ffff
        }),
{
    match decode_integer_magnitude(text) {
        None => None,
        Some(v) => {
            if negative {
                if v > 9223372036854775808u64 {
                    None
                } else if v == 9223372036854775808u64 {
                    Some(i64::MIN)
                } else {
                    Some(-(v as i64))
                }
            } else {
                if v > 9223372036854775807u64 {
                    None
                } else {
                    Some(v as i64)
                }
            }
        },
    }
}

// ---------------------------------------------------------------------------
// String literals and escape sequences.
// ---------------------------------------------------------------------------

/// Kind of escape-sequence fault, with the offending span relative to the
/// literal's start.
pub enum EscErr {
    UnknownEscape { from: usize, to: usize },
    MissingHexDigits { from: usize, to: usize },
    BadHexValue { from: usize, to: usize },
}

/// Escape-decodes the body of a double-quoted string literal, returning the
/// decoded bytes up to the first invalid escape, if any, with its location.
pub open spec fn spec_unescape(s: Seq<u8>, k: int) -> (Seq<u8>, Option<(int, int, int)>)
    decreases s.len() - k,
    when 0 <= k <= s.len()
{
    if k >= s.len() {
        (Seq::empty(), None)
    } else if s[k] == 92 {
        if k + 1 >= s.len() {
            (Seq::empty(), Some((1, k, k + 1)))
        } else {
            let e = s[k + 1];
            if e == 34 || e == 92 || e == 110 || e == 114 || e == 116 || e == 48 {
                let v: u8 = if e == 110 {
                    10
                } else if e == 114 {
                    13
                } else if e == 116 {
                    9
                } else if e == 48 {
                    0
                } else {
                    e
                };
                let rest = spec_unescape(s, k + 2);
                (seq![v] + rest.0, rest.1)
            } else if e == 120 {
                if k + 4 <= s.len() && spec_is_hex_digit(s[k + 2]) && spec_is_hex_digit(
                    s[k + 3],
                ) {
                    let v = (digit_val(s[k + 2]) * 16 + digit_val(s[k + 3])) as u8;
                    let rest = spec_unescape(s, k + 4);
                    (seq![v] + rest.0, rest.1)
                } else if s.len() - k >= 4 {
                    (Seq::empty(), Some((3, k + 2, k + 4)))
                } else {
                    (Seq::empty(), Some((2, k, k + 2)))
                }
            } else {
                (Seq::empty(), Some((1, k, k + 2)))
            }
        }
    } else {
        let rest = spec_unescape(s, k + 1);
        (seq![s[k]] + rest.0, rest.1)
    }
}

/// Escape-decodes a string body.  The error, if any, reports the kind and
/// the byte range of the offending escape within `s`.
pub fn unescape(s: &Vec<u8>) -> (r: (Vec<u8>, Option<EscErr>))
    ensures
        r.0@ == spec_unescape(s@, 0).0,
        r.1 is Some <==> spec_unescape(s@, 0).1 is Some,
{
    let mut out: Vec<u8> = Vec::new();
    let mut k: usize = 0;
    loop
        invariant
            0 <= k <= s@.len(),
            spec_unescape(s@, 0).1 is Some <==> spec_unescape(s@, k as int).1 is Some,
            spec_unescape(s@, 0).0 == out@ + spec_unescape(s@, k as int).0,
        ensures
            0 <= k <= s@.len(),
            spec_unescape(s@, 0).1 is Some <==> spec_unescape(s@, k as int).1 is Some,
            spec_unescape(s@, 0).0 == out@ + spec_unescape(s@, k as int).0,
            spec_unescape(s@, k as int).1 is None,
            spec_unescape(s@, k as int).0 == Seq::<u8>::empty(),
        decreases s@.len() - k,
    {
        if k >= s.len() {
            proof {
                assert(spec_unescape(s@, k as int).1 is None);
                assert(spec_unescape(s@, k as int).0 == Seq::<u8>::empty());
            }
            break;
        }
        let b = s[k];
        if b == 92 {
            if k + 1 >= s.len() {
                proof {
                    assert(spec_unescape(s@, k as int).1 is Some);
                    assert(spec_unescape(s@, 0).0 =~= out@);
                }
                return (out, Some(EscErr::UnknownEscape { from: k, to: k + 1 }));
            }
            let e = s[k + 1];
            if e == 34 || e == 92 || e == 110 || e == 114 || e == 116 || e == 48 {
                let v: u8 = if e == 110 {
                    10
                } else if e == 114 {
                    13
                } else if e == 116 {
                    9
                } else if e == 48 {
                    0
                } else {
                    e
                };
                let ghost pre = out@;
                out.push(v);
                proof {
                    assert(spec_unescape(s@, k as int).1 == spec_unescape(s@, k + 2).1);
                    assert(spec_unescape(s@, k as int).0 == seq![v] + spec_unescape(
                        s@,
                        k + 2,
                    ).0);
                    assert(pre + spec_unescape(s@, k as int).0 =~= out@ + spec_unescape(
                        s@,
                        k + 2,
                    ).0);
                }
                k += 2;
            } else if e == 120 {
                if s.len() - k >= 4 && is_hex_digit_b(s[k + 2]) && is_hex_digit_b(s[k + 3]) {
                    let v: u8 = hex_pair_val(s[k + 2], s[k + 3]);
                    let ghost pre = out@;
                    out.push(v);
                    proof {
                        assert(spec_unescape(s@, k as int).1 == spec_unescape(s@, k + 4).1);
                        assert(spec_unescape(s@, k as int).0 == seq![v] + spec_unescape(
                            s@,
                            k + 4,
                        ).0);
                        assert(pre + spec_unescape(s@, k as int).0 =~= out@ + spec_unescape(
                            s@,
                            k + 4,
                        ).0);
                    }
                    k += 4;
                } else if s.len() - k >= 4 {
                    proof {
                        assert(spec_unescape(s@, k as int).1 is Some);
                        assert(spec_unescape(s@, 0).0 =~= out@);
                    }
                    return (out, Some(EscErr::BadHexValue { from: k + 2, to: k + 4 }));
                } else {
                    proof {
                        assert(spec_unescape(s@, k as int).1 is Some);
                        assert(spec_unescape(s@, 0).0 =~= out@);
                    }
                    return (out, Some(EscErr::MissingHexDigits { from: k, to: k + 2 }));
                }
            } else {
                proof {
                    assert(spec_unescape(s@, k as int).1 is Some);
                    assert(spec_unescape(s@, 0).0 =~= out@);
                }
                let to = if k + 2 <= s.len() { k + 2 } else { k + 1 };
                return (out, Some(EscErr::UnknownEscape { from: k, to }));
            }
        } else {
            let ghost pre = out@;
            out.push(b);
            proof {
                assert(spec_unescape(s@, k as int).1 == spec_unescape(s@, k + 1).1);
                assert(spec_unescape(s@, k as int).0 == seq![b] + spec_unescape(s@, k + 1).0);
                assert(pre + spec_unescape(s@, k as int).0 =~= out@ + spec_unescape(
                    s@,
                    k + 1,
                ).0);
            }
            k += 1;
        }
    }
    proof {
        assert(spec_unescape(s@, 0).0 =~= out@);
    }
    (out, None)
}

fn is_hex_digit_b(b: u8) -> (r: bool)
    ensures
        r == spec_is_hex_digit(b),
{
    (48 <= b && b <= 57) || (97 <= b && b <= 102) || (65 <= b && b <= 70)
}

/// Value of a two-digit hex pair.
fn hex_pair_val(hi: u8, lo: u8) -> (r: u8)
    requires
        spec_is_hex_digit(hi),
        spec_is_hex_digit(lo),
    ensures
        r == digit_val(hi) * 16 + digit_val(lo),
{
    let h: u8 = if 48 <= hi && hi <= 57 {
        hi - 48
    } else if 97 <= hi && hi <= 102 {
        hi - 87
    } else {
        hi - 55
    };
    let l: u8 = if 48 <= lo && lo <= 57 {
        lo - 48
    } else if 97 <= lo && lo <= 102 {
        lo - 87
    } else {
        lo - 55
    };
    h * 16 + l
}


// ---------------------------------------------------------------------------
// Diagnostics raised while building the AST.
// ---------------------------------------------------------------------------

proof fn lemma_prefix_trans(a: Seq<Diagnostic>, b: Seq<Diagnostic>, c: Seq<Diagnostic>)
    requires
        a.is_prefix_of(b),
        b.is_prefix_of(c),
    ensures
        a.is_prefix_of(c),
{
    assert(a =~= c.subrange(0, a.len() as int));
}

fn push_one_label(sp: Span, text: Vec<u8>) -> (r: Vec<Label>)
{
    let mut labels: Vec<Label> = Vec::new();
    labels.push(Label { span: sp, style: LabelStyle::Under, text });
    labels
}

/// An integer literal outside the signed 64-bit range.
fn diag_int_i64(diags: &mut Vec<Diagnostic>, sp: Span)
    ensures
        old(diags)@.is_prefix_of(final(diags)@),
{
    let mut message: Vec<u8> = Vec::new();
    push_str_bytes(&mut message, "invalid integer");
    let mut text: Vec<u8> = Vec::new();
    push_str_bytes(
        &mut text,
        "this number is out of the valid range: [-9223372036854775808, 9223372036854775807]",
    );
    let labels = push_one_label(sp, text);
    let ghost pre = diags@;
    diags.push(
        Diagnostic {
            kind: DiagKind::InvalidInteger,
            severity: Severity::Error,
            message,
            primary: sp,
            labels,
            note: None,
        },
    );
    proof {
        assert(pre =~= diags@.subrange(0, pre.len() as int));
    }
}

/// An integer literal outside a bounded range such as `[0, 65535]`.
fn diag_int_range(diags: &mut Vec<Diagnostic>, sp: Span, lo: u64, hi: u64)
    ensures
        old(diags)@.is_prefix_of(final(diags)@),
{
    let mut message: Vec<u8> = Vec::new();
    push_str_bytes(&mut message, "invalid integer");
    let mut text: Vec<u8> = Vec::new();
    push_str_bytes(&mut text, "this number is out of the valid range: [");
    push_dec(&mut text, lo);
    push_str_bytes(&mut text, ", ");
    push_dec(&mut text, hi);
    push_str_bytes(&mut text, "]");
    let labels = push_one_label(sp, text);
    let ghost pre = diags@;
    diags.push(
        Diagnostic {
            kind: DiagKind::InvalidInteger,
            severity: Severity::Error,
            message,
            primary: sp,
            labels,
            note: None,
        },
    );
    proof {
        assert(pre =~= diags@.subrange(0, pre.len() as int));
    }
}

/// A range whose lower bound exceeds its upper bound; `shown_hi` is the
/// value printed for the upper bound.
fn diag_bad_range(diags: &mut Vec<Diagnostic>, sp: Span, lo: u64, shown_hi: u64)
    ensures
        old(diags)@.is_prefix_of(final(diags)@),
{
    let mut message: Vec<u8> = Vec::new();
    push_str_bytes(&mut message, "invalid range");
    let mut text: Vec<u8> = Vec::new();
    push_str_bytes(&mut text, "lower bound (");
    push_dec(&mut text, lo);
    push_str_bytes(&mut text, ") is greater than upper bound (");
    push_dec(&mut text, shown_hi);
    push_str_bytes(&mut text, ")");
    let labels = push_one_label(sp, text);
    let ghost pre = diags@;
    diags.push(
        Diagnostic {
            kind: DiagKind::InvalidRange,
            severity: Severity::Error,
            message,
            primary: sp,
            labels,
            note: None,
        },
    );
    proof {
        assert(pre =~= diags@.subrange(0, pre.len() as int));
    }
}

/// A negative range bound.
fn diag_range_negative(diags: &mut Vec<Diagnostic>, sp: Span)
    ensures
        old(diags)@.is_prefix_of(final(diags)@),
{
    let mut message: Vec<u8> = Vec::new();
    push_str_bytes(&mut message, "invalid range");
    let mut text: Vec<u8> = Vec::new();
    push_str_bytes(&mut text, "range bound can not be negative");
    let labels = push_one_label(sp, text);
    let ghost pre = diags@;
    diags.push(
        Diagnostic {
            kind: DiagKind::InvalidRange,
            severity: Severity::Error,
            message,
            primary: sp,
            labels,
            note: None,
        },
    );
    proof {
        assert(pre =~= diags@.subrange(0, pre.len() as int));
    }
}

/// A malformed hex pattern, reported against its pattern name.
fn diag_invalid_hex(
    diags: &mut Vec<Diagnostic>,
    pname: &Vec<u8>,
    sp: Span,
    label: Vec<u8>,
    coalesced: bool,
)
    ensures
        old(diags)@.is_prefix_of(final(diags)@),
{
    let mut message: Vec<u8> = Vec::new();
    push_str_bytes(&mut message, "invalid hex string `");
    push_bytes(&mut message, pname.as_slice());
    push_str_bytes(&mut message, "`");
    let labels = push_one_label(sp, label);
    let note = if coalesced {
        let mut n: Vec<u8> = Vec::new();
        push_str_bytes(&mut n, "consecutive jumps were coalesced into a single one");
        Some(n)
    } else {
        None
    };
    let ghost pre = diags@;
    diags.push(
        Diagnostic {
            kind: DiagKind::InvalidHexString,
            severity: Severity::Error,
            message,
            primary: sp,
            labels,
            note,
        },
    );
    proof {
        assert(pre =~= diags@.subrange(0, pre.len() as int));
    }
}

/// An invalid escape sequence inside a string literal.
fn diag_invalid_escape(diags: &mut Vec<Diagnostic>, sp: Span, label: Vec<u8>)
    ensures
        old(diags)@.is_prefix_of(final(diags)@),
{
    let mut message: Vec<u8> = Vec::new();
    push_str_bytes(&mut message, "invalid escape sequence");
    let labels = push_one_label(sp, label);
    let ghost pre = diags@;
    diags.push(
        Diagnostic {
            kind: DiagKind::InvalidEscape,
            severity: Severity::Error,
            message,
            primary: sp,
            labels,
            note: None,
        },
    );
    proof {
        assert(pre =~= diags@.subrange(0, pre.len() as int));
    }
}

// ---------------------------------------------------------------------------
// Walking the CST.
// ---------------------------------------------------------------------------

/// The `i`-th child of node `m`, with its references known to be in range.
fn child_at(cst: &Cst, m: usize, i: usize) -> (r: Option<CstChild>)
    requires
        cst.wf(),
        m < cst.nodes@.len(),
    ensures
        r matches Some(c) ==> {
            &&& i < cst.nodes@[m as int].children@.len()
            &&& i < usize::MAX
            &&& c == cst.nodes@[m as int].children@[i as int]
            &&& (c matches CstChild::Tree(j) ==> j < m && j < cst.nodes@.len())
            &&& (c matches CstChild::Tok(t) ==> t < cst.tokens@.len())
        },
        r is None <==> i >= cst.nodes@[m as int].children@.len(),
{
    if i < cst.nodes[m].children.len() {
        proof {
            assert(children_ok(
                cst.nodes@[m as int].children@,
                cst.tokens@.len() as int,
                m as int,
            ));
            assert(crate::cst::child_ok(
                cst.nodes@[m as int].children@[i as int],
                cst.tokens@.len() as int,
                m as int,
            ));
        }
        Some(cst.nodes[m].children[i])
    } else {
        None
    }
}

/// The token under a leaf child, if the `i`-th child is a leaf.
fn tok_child(cst: &Cst, m: usize, i: usize) -> (r: Option<Token>)
    requires
        cst.wf(),
        m < cst.nodes@.len(),
    ensures
        r is Some ==> i < cst.nodes@[m as int].children@.len(),
{
    match child_at(cst, m, i) {
        Some(CstChild::Tok(t)) => Some(cst.tokens[t]),
        _ => None,
    }
}

/// The source text of a token.
fn tok_text(cst: &Cst, t: Token) -> (r: Vec<u8>)
    requires
        cst.wf(),
{
    proof {
        lemma_partition_span_bounds(cst.tokens@, cst.source@.len() as int);
    }
    let sp = t.span();
    if sp.0 <= sp.1 && sp.1 <= cst.source.len() {
        span_text(&cst.source, sp)
    } else {
        Vec::new()
    }
}

/// Advances the cursor past trivia leaves.
fn skip_triv(cst: &Cst, m: usize, i: &mut usize)
    requires
        cst.wf(),
        m < cst.nodes@.len(),
    ensures
        *old(i) <= *final(i),
        *final(i) <= cst.nodes@[m as int].children@.len() || *final(i) == *old(i),
{
    let n = cst.nodes[m].children.len();
    loop
        invariant
            cst.wf(),
            m < cst.nodes@.len(),
            n == cst.nodes@[m as int].children@.len(),
            *old(i) <= *i,
            *i <= n || *i == *old(i),
        ensures
            *old(i) <= *i,
            *i <= n || *i == *old(i),
        decreases n - *i,
    {
        if *i >= n {
            break;
        }
        match child_at(cst, m, *i) {
            Some(CstChild::Tok(t)) => {
                if cst.tokens[t].is_trivia() {
                    *i += 1;
                } else {
                    break;
                }
            },
            _ => {
                break;
            },
        }
    }
}

/// Number of rule-declaration subtrees among the first `k` children.
pub open spec fn rule_child_count(nodes: Seq<CstNode>, cs: Seq<CstChild>, k: int) -> int
    decreases k,
    when 0 <= k <= cs.len()
{
    if k <= 0 {
        0
    } else {
        rule_child_count(nodes, cs, k - 1) + (if cs[k - 1] matches CstChild::Tree(j) && 0 <= j
            < nodes.len() && nodes[j as int].kind == NodeKind::RuleDecl {
            1int
        } else {
            0int
        })
    }
}

/// Builds the AST from a well-formed CST, collecting literal and range
/// diagnostics in source order.  The result holds one rule per
/// rule-declaration subtree of the root, in order.
pub fn build_ast_from_cst(cst: &Cst, diags: &mut Vec<Diagnostic>) -> (r: SourceFile)
    requires
        cst.wf(),
    ensures
        old(diags)@.is_prefix_of(final(diags)@),
        r.rules@.len() == rule_child_count(
            cst.nodes@,
            cst.nodes@[cst.root as int].children@,
            cst.nodes@[cst.root as int].children@.len() as int,
        ),
{
    let mut rules: Vec<RuleDecl> = Vec::new();
    let root = cst.root;
    let n = cst.nodes[root].children.len();
    let mut i: usize = 0;
    while i < n
        invariant
            cst.wf(),
            root == cst.root,
            n == cst.nodes@[root as int].children@.len(),
            i <= n,
            old(diags)@.is_prefix_of(diags@),
            rules@.len() == rule_child_count(
                cst.nodes@,
                cst.nodes@[root as int].children@,
                i as int,
            ),
        decreases n - i,
    {
        match child_at(cst, root, i) {
            Some(CstChild::Tree(j)) => {
                if matches!(cst.nodes[j].kind, NodeKind::RuleDecl) {
                    let ghost mid = diags@;
                    let rd = walk_rule(cst, j, diags);
                    proof {
                        lemma_prefix_trans(old(diags)@, mid, diags@);
                    }
                    rules.push(rd);
                }
            },
            _ => {},
        }
        i += 1;
    }
    SourceFile { rules }
}

/// Walks one rule declaration node.
fn walk_rule(cst: &Cst, m: usize, diags: &mut Vec<Diagnostic>) -> (r: RuleDecl)
    requires
        cst.wf(),
        m < cst.nodes@.len(),
    ensures
        old(diags)@.is_prefix_of(final(diags)@),
    decreases m, 9int,
{
    let mut is_global = false;
    let mut is_private = false;
    let mut name: Vec<u8> = Vec::new();
    let mut name_span = Span(0, 0);
    let mut have_name = false;
    let mut tags: Vec<NameRef> = Vec::new();
    let mut meta: Vec<MetaDef> = Vec::new();
    let mut patterns: Vec<PatternDecl> = Vec::new();
    let mut condition = Expr::BoolLit(false, Span(0, 0));
    let mut have_cond = false;
    let n = cst.nodes[m].children.len();
    let mut i: usize = 0;
    while i < n
        invariant
            cst.wf(),
            m < cst.nodes@.len(),
            n == cst.nodes@[m as int].children@.len(),
            i <= n,
            old(diags)@.is_prefix_of(diags@),
        decreases n - i,
    {
        match child_at(cst, m, i) {
            Some(CstChild::Tok(t)) => {
                let tok = cst.tokens[t];
                match tok {
                    Token::GLOBAL_KW(_) => {
                        is_global = true;
                    },
                    Token::PRIVATE_KW(_) => {
                        is_private = true;
                    },
                    Token::IDENT(sp) => {
                        if !have_name {
                            name = tok_text(cst, tok);
                            name_span = sp;
                            have_name = true;
                        }
                    },
                    _ => {},
                }
            },
            Some(CstChild::Tree(j)) => {
                let ghost mid = diags@;
                match cst.nodes[j].kind {
                    NodeKind::Tags => {
                        walk_tags(cst, j, &mut tags);
                    },
                    NodeKind::MetaDef => {
                        let md = walk_meta(cst, j, diags);
                        meta.push(md);
                    },
                    NodeKind::PatternDef => {
                        let pd = walk_pattern(cst, j, diags);
                        patterns.push(pd);
                    },
                    NodeKind::BooleanExpr => {
                        if !have_cond {
                            condition = walk_bool_expr(cst, j, diags);
                            have_cond = true;
                        }
                    },
                    _ => {},
                }
                proof {
                    lemma_prefix_trans(old(diags)@, mid, diags@);
                }
            },
            None => {},
        }
        i += 1;
    }
    RuleDecl { is_global, is_private, name, name_span, tags, meta, patterns, condition }
}

/// Collects the tag names of a rule header.
fn walk_tags(cst: &Cst, m: usize, out: &mut Vec<NameRef>)
    requires
        cst.wf(),
        m < cst.nodes@.len(),
    decreases m,
{
    let n = cst.nodes[m].children.len();
    let mut i: usize = 0;
    while i < n
        invariant
            cst.wf(),
            m < cst.nodes@.len(),
            n == cst.nodes@[m as int].children@.len(),
            i <= n,
        decreases n - i,
    {
        match child_at(cst, m, i) {
            Some(CstChild::Tok(t)) => {
                let tok = cst.tokens[t];
                if let Token::IDENT(sp) = tok {
                    let name = tok_text(cst, tok);
                    out.push(NameRef { name, span: sp });
                }
            },
            _ => {},
        }
        i += 1;
    }
}

/// Walks one `name = value` meta entry, decoding its literal.
fn walk_meta(cst: &Cst, m: usize, diags: &mut Vec<Diagnostic>) -> (r: MetaDef)
    requires
        cst.wf(),
        m < cst.nodes@.len(),
    ensures
        old(diags)@.is_prefix_of(final(diags)@),
    decreases m, 8int,
{
    let mut name: Vec<u8> = Vec::new();
    let mut span = Span(0, 0);
    let mut have_name = false;
    let mut value = MetaValue::Invalid;
    let mut pending_neg: Option<Span> = None;
    let n = cst.nodes[m].children.len();
    let mut i: usize = 0;
    while i < n
        invariant
            cst.wf(),
            m < cst.nodes@.len(),
            n == cst.nodes@[m as int].children@.len(),
            i <= n,
            old(diags)@.is_prefix_of(diags@),
        decreases n - i,
    {
        match child_at(cst, m, i) {
            Some(CstChild::Tok(t)) => {
                let ghost mid = diags@;
                let tok = cst.tokens[t];
                match tok {
                    Token::IDENT(sp) => {
                        if !have_name {
                            name = tok_text(cst, tok);
                            span = sp;
                            have_name = true;
                        }
                    },
                    Token::TRUE_KW(_) => {
                        value = MetaValue::Bool(true);
                    },
                    Token::FALSE_KW(_) => {
                        value = MetaValue::Bool(false);
                    },
                    Token::HYPHEN(sp) => {
                        pending_neg = Some(sp);
                    },
                    Token::INTEGER_LIT(sp) => {
                        let text = tok_text(cst, tok);
                        let (neg, full) = match pending_neg {
                            Some(h) => (true, Span(h.0, sp.1)),
                            None => (false, sp),
                        };
                        match decode_i64(&text, neg) {
                            Some(v) => {
                                value = MetaValue::Int(v);
                            },
                            None => {
                                diag_int_i64(diags, full);
                            },
                        }
                    },
                    Token::FLOAT_LIT(_) => {
                        value = MetaValue::Float(tok_text(cst, tok));
                    },
                    Token::STRING_LIT(_) => {
                        let s = decode_str_lit(cst, tok, diags);
                        value = MetaValue::Str(s);
                    },
                    _ => {},
                }
                proof {
                    lemma_prefix_trans(old(diags)@, mid, diags@);
                }
            },
            _ => {},
        }
        i += 1;
    }
    MetaDef { name, span, value }
}

/// Decodes a string-literal token, reporting invalid escape sequences.
fn decode_str_lit(cst: &Cst, tok: Token, diags: &mut Vec<Diagnostic>) -> (r: Vec<u8>)
    requires
        cst.wf(),
    ensures
        old(diags)@.is_prefix_of(final(diags)@),
{
    let text = tok_text(cst, tok);
    let sp = tok.span();
    let n = text.len();
    // Triple-quoted literals are verbatim.
    if n >= 6 && text[0] == 34 && text[1] == 34 && text[2] == 34 {
        let mut body: Vec<u8> = Vec::new();
        let mut k: usize = 3;
        while k < n - 3
            invariant
                n == text@.len(),
                n >= 6,
                k <= if n >= 3 { n - 3 } else { 0 } || k == 3,
                k >= 3,
            decreases n - k,
        {
            body.push(text[k]);
            k += 1;
        }
        return body;
    }
    // Strip the quotes that are present.
    let start: usize = if n >= 1 && text[0] == 34 {
        1
    } else {
        0
    };
    let end: usize = if n >= 2 && text[n - 1] == 34 {
        n - 1
    } else {
        n
    };
    let mut body: Vec<u8> = Vec::new();
    let mut k: usize = start;
    while k < end
        invariant
            n == text@.len(),
            end <= n,
            k >= start,
        decreases end - k,
    {
        body.push(text[k]);
        k += 1;
    }
    let (decoded, err) = unescape(&body);
    match err {
        None => decoded,
        Some(e) => {
            let base = sp.0;
            let (from, to, which): (usize, usize, u8) = match e {
                EscErr::UnknownEscape { from, to } => (from, to, 0),
                EscErr::MissingHexDigits { from, to } => (from, to, 1),
                EscErr::BadHexValue { from, to } => (from, to, 2),
            };
            // Offsets are relative to the body; shift past the quote.
            let shift = start;
            let f = if from <= body.len() { from } else { body.len() };
            let t2 = if to <= body.len() { to } else { body.len() };
            let lo = if base <= usize::MAX - shift { base + shift } else { base };
            let a = if lo <= usize::MAX - f { lo + f } else { lo };
            let b2 = if lo <= usize::MAX - t2 { lo + t2 } else { lo };
            let esp = Span(a, b2);
            let mut label: Vec<u8> = Vec::new();
            if which == 0 {
                push_str_bytes(&mut label, "invalid escape sequence `");
                let mut k2: usize = f;
                while k2 < t2
                    invariant
                        t2 <= body@.len(),
                    decreases t2 - k2,
                {
                    label.push(body[k2]);
                    k2 += 1;
                }
                push_str_bytes(&mut label, "`");
            } else if which == 1 {
                push_str_bytes(&mut label, "expecting two hex digits after `\\x`");
            } else {
                push_str_bytes(&mut label, "invalid hex value `");
                let mut k2: usize = f;
                while k2 < t2
                    invariant
                        t2 <= body@.len(),
                    decreases t2 - k2,
                {
                    label.push(body[k2]);
                    k2 += 1;
                }
                push_str_bytes(&mut label, "` after `\\x`");
            }
            diag_invalid_escape(diags, esp, label);
            decoded
        },
    }
}


/// Walks one pattern declaration.
fn walk_pattern(cst: &Cst, m: usize, diags: &mut Vec<Diagnostic>) -> (r: PatternDecl)
    requires
        cst.wf(),
        m < cst.nodes@.len(),
    ensures
        old(diags)@.is_prefix_of(final(diags)@),
    decreases m, 0int, 0int,
{
    let mut name: Vec<u8> = Vec::new();
    let mut dollar_name: Vec<u8> = Vec::new();
    let mut span = Span(0, 0);
    let mut kind = PatternKind::Text(Vec::new());
    let mut mods: Vec<PatternMod> = Vec::new();
    let n = cst.nodes[m].children.len();
    let mut i: usize = 0;
    let mut have_value = false;
    while i < n
        invariant
            cst.wf(),
            m < cst.nodes@.len(),
            n == cst.nodes@[m as int].children@.len(),
            i <= n,
            old(diags)@.is_prefix_of(diags@),
        decreases n - i,
    {
        let ghost mid = diags@;
        match child_at(cst, m, i) {
            Some(CstChild::Tok(t)) => {
                let tok = cst.tokens[t];
                match tok {
                    Token::PATTERN_IDENT(sp) => {
                        if name.len() == 0 && dollar_name.len() == 0 {
                            dollar_name = tok_text(cst, tok);
                            let mut k: usize = 1;
                            while k < dollar_name.len()
                                decreases dollar_name@.len() - k,
                            {
                                name.push(dollar_name[k]);
                                k += 1;
                            }
                            span = sp;
                        }
                    },
                    Token::STRING_LIT(_) => {
                        if !have_value {
                            let s = decode_str_lit(cst, tok, diags);
                            kind = PatternKind::Text(s);
                            have_value = true;
                        }
                    },
                    Token::REGEXP(_) => {
                        if !have_value {
                            kind = PatternKind::Regexp(tok_text(cst, tok));
                            have_value = true;
                        }
                    },
                    Token::NOCASE_KW(sp) => {
                        mods.push(PatternMod { kind: ModKind::Nocase, span: sp });
                    },
                    Token::ASCII_KW(sp) => {
                        mods.push(PatternMod { kind: ModKind::Ascii, span: sp });
                    },
                    Token::WIDE_KW(sp) => {
                        mods.push(PatternMod { kind: ModKind::Wide, span: sp });
                    },
                    Token::FULLWORD_KW(sp) => {
                        mods.push(PatternMod { kind: ModKind::Fullword, span: sp });
                    },
                    Token::PRIVATE_KW(sp) => {
                        mods.push(PatternMod { kind: ModKind::PrivateMod, span: sp });
                    },
                    Token::XOR_KW(sp) => {
                        mods.push(PatternMod { kind: ModKind::Xor, span: sp });
                        i = walk_mod_args(cst, m, i + 1, diags);
                        proof {
                            lemma_prefix_trans(old(diags)@, mid, diags@);
                        }
                        continue;
                    },
                    Token::BASE64_KW(sp) => {
                        mods.push(PatternMod { kind: ModKind::Base64, span: sp });
                        i = walk_mod_args(cst, m, i + 1, diags);
                        proof {
                            lemma_prefix_trans(old(diags)@, mid, diags@);
                        }
                        continue;
                    },
                    Token::BASE64WIDE_KW(sp) => {
                        mods.push(PatternMod { kind: ModKind::Base64Wide, span: sp });
                        i = walk_mod_args(cst, m, i + 1, diags);
                        proof {
                            lemma_prefix_trans(old(diags)@, mid, diags@);
                        }
                        continue;
                    },
                    _ => {},
                }
            },
            Some(CstChild::Tree(j)) => {
                if matches!(cst.nodes[j].kind, NodeKind::HexPattern) {
                    if !have_value {
                        let parts = walk_hex(cst, j, &dollar_name, diags);
                        kind = PatternKind::Hex(parts);
                        have_value = true;
                    }
                }
            },
            None => {},
        }
        proof {
            lemma_prefix_trans(old(diags)@, mid, diags@);
        }
        i += 1;
    }
    PatternDecl { name, span, kind, mods }
}

/// Walks an optional parenthesized modifier argument list starting at child
/// `i`, validating numeric arguments against the byte range `[0, 255]`.
/// Returns the cursor after the arguments.
fn walk_mod_args(cst: &Cst, m: usize, i: usize, diags: &mut Vec<Diagnostic>) -> (r: usize)
    requires
        cst.wf(),
        m < cst.nodes@.len(),
    ensures
        old(diags)@.is_prefix_of(final(diags)@),
        i <= r,
        r <= cst.nodes@[m as int].children@.len() || r == i,
{
    let n = cst.nodes[m].children.len();
    if i >= n {
        return i;
    }
    let mut k: usize = i;
    skip_triv(cst, m, &mut k);
    // Not an argument list: leave the cursor where the modifier ended.
    let opener = match child_at(cst, m, k) {
        Some(CstChild::Tok(t)) => matches!(cst.tokens[t], Token::L_PAREN(_)),
        _ => false,
    };
    if !opener {
        return i;
    }
    k += 1;
    let mut lo_val: u64 = 0;
    let mut lo_span = Span(0, 0);
    let mut have_lo = false;
    let mut lo_ok = true;
    loop
        invariant
            cst.wf(),
            m < cst.nodes@.len(),
            n == cst.nodes@[m as int].children@.len(),
            i < k <= n,
            old(diags)@.is_prefix_of(diags@),
        ensures
            i < k <= n,
            old(diags)@.is_prefix_of(diags@),
        decreases n - k,
    {
        if k >= n {
            break;
        }
        let ghost mid = diags@;
        let mut stop = false;
        match child_at(cst, m, k) {
            Some(CstChild::Tok(t)) => {
                let tok = cst.tokens[t];
                match tok {
                    Token::INTEGER_LIT(sp) => {
                        let text = tok_text(cst, tok);
                        let mut bad = false;
                        let mut v: u64 = 0;
                        match decode_integer_magnitude(&text) {
                            Some(x) => {
                                if x > 255 {
                                    bad = true;
                                } else {
                                    v = x;
                                }
                            },
                            None => {
                                bad = true;
                            },
                        }
                        if bad {
                            diag_int_range(diags, sp, 0, 255);
                            lo_ok = false;
                        } else if !have_lo {
                            lo_val = v;
                            lo_span = sp;
                            have_lo = true;
                        } else {
                            // The second bound of a range argument.
                            if lo_ok && lo_val > v {
                                diag_bad_range(diags, lo_span, lo_val, v);
                            }
                        }
                    },
                    Token::R_PAREN(_) => {
                        k += 1;
                        stop = true;
                    },
                    _ => {},
                }
            },
            _ => {},
        }
        proof {
            lemma_prefix_trans(old(diags)@, mid, diags@);
        }
        if stop {
            break;
        }
        k += 1;
    }
    k
}

/// Saturating addition for jump bounds.
fn sat_add(a: u64, b: u64) -> (r: u64)
    ensures
        r == (if a + b <= u64::MAX {
            (a + b) as u64
        } else {
            u64::MAX
        }),
{
    if a <= u64::MAX - b {
        a + b
    } else {
        u64::MAX
    }
}

/// Walks a hex pattern (or alternation group) body; jump bounds are checked
/// against `[0, 65535]`, consecutive jumps are coalesced before the bound
/// ordering check, and `~??` is rejected.
fn walk_hex(cst: &Cst, m: usize, pname: &Vec<u8>, diags: &mut Vec<Diagnostic>) -> (r: Vec<
    HexPart,
>)
    requires
        cst.wf(),
        m < cst.nodes@.len(),
    ensures
        old(diags)@.is_prefix_of(final(diags)@),
    decreases m, 0int, 0int,
{
    let mut parts: Vec<HexPart> = Vec::new();
    let mut pending_neg: Option<Span> = None;
    let n = cst.nodes[m].children.len();
    let mut i: usize = 0;
    while i < n
        invariant
            cst.wf(),
            m < cst.nodes@.len(),
            n == cst.nodes@[m as int].children@.len(),
            i <= n,
            old(diags)@.is_prefix_of(diags@),
        decreases n - i,
    {
        let ghost mid = diags@;
        match child_at(cst, m, i) {
            Some(CstChild::Tok(t)) => {
                let tok = cst.tokens[t];
                match tok {
                    Token::HEX_BYTE(sp) => {
                        let text = tok_text(cst, tok);
                        if text.len() != 2 {
                            let mut label: Vec<u8> = Vec::new();
                            push_str_bytes(&mut label, "uneven number of nibbles");
                            diag_invalid_hex(diags, pname, sp, label, false);
                        } else {
                            let (v0, m0) = nibble_of(text[0]);
                            let (v1, m1) = nibble_of(text[1]);
                            let value = v0 * 16 + v1;
                            let mask = m0 * 16 + m1;
                            let negated = pending_neg.is_some();
                            if negated && mask == 0 {
                                let nsp = match pending_neg {
                                    Some(h) => Span(h.0, sp.1),
                                    None => sp,
                                };
                                let mut label: Vec<u8> = Vec::new();
                                push_str_bytes(&mut label, "negation of `??` is not allowed");
                                diag_invalid_hex(diags, pname, nsp, label, false);
                            }
                            parts.push(HexPart::Byte { value, mask, negated, span: sp });
                        }
                        pending_neg = None;
                    },
                    Token::TILDE(sp) => {
                        pending_neg = Some(sp);
                    },
                    Token::PIPE(sp) => {
                        parts.push(HexPart::Pipe(sp));
                    },
                    _ => {},
                }
            },
            Some(CstChild::Tree(j)) => {
                match cst.nodes[j].kind {
                    NodeKind::HexJump => {
                        match walk_jump(cst, j, diags) {
                            Some(p) => {
                                parts.push(p);
                            },
                            None => {},
                        }
                    },
                    NodeKind::HexAlt => {
                        let inner = walk_hex(cst, j, pname, diags);
                        let mut k: usize = 0;
                        while k < inner.len()
                            decreases inner@.len() - k,
                        {
                            parts.push(inner[k]);
                            k += 1;
                        }
                    },
                    _ => {},
                }
            },
            None => {},
        }
        proof {
            lemma_prefix_trans(old(diags)@, mid, diags@);
        }
        i += 1;
    }
    coalesce_jumps(parts, pname, diags)
}

/// Nibble value and mask: `?` is a wildcard nibble.
fn nibble_of(b: u8) -> (r: (u8, u8))
    ensures
        r.0 <= 15,
        r.1 == 0 || r.1 == 15,
{
    if b == 63 {
        (0, 0)
    } else if 48 <= b && b <= 57 {
        (b - 48, 15)
    } else if 97 <= b && b <= 102 {
        (b - 87, 15)
    } else if 65 <= b && b <= 70 {
        (b - 55, 15)
    } else {
        (0, 15)
    }
}

/// Coalesces consecutive jumps into one combined bound, then checks that
/// the lower bound does not exceed the upper bound; when a violation spans
/// several coalesced jumps, the diagnostic notes the coalescing.
fn coalesce_jumps(parts: Vec<HexPart>, pname: &Vec<u8>, diags: &mut Vec<Diagnostic>) -> (r: Vec<
    HexPart,
>)
    ensures
        old(diags)@.is_prefix_of(final(diags)@),
{
    let mut out: Vec<HexPart> = Vec::new();
    let n = parts.len();
    let mut k: usize = 0;
    while k < n
        invariant
            n == parts@.len(),
            k <= n,
            old(diags)@.is_prefix_of(diags@),
        decreases n - k,
    {
        let ghost mid = diags@;
        let is_jump = matches!(parts[k], HexPart::Jump { .. });
        if is_jump {
            let start_k = k;
            let mut lo: u64 = 0;
            let mut hi: Option<u64> = Some(0);
            let mut first = Span(0, 0);
            let mut last = Span(0, 0);
            let mut count: usize = 0;
            while k < n && matches!(parts[k], HexPart::Jump { .. })
                invariant
                    n == parts@.len(),
                    k <= n,
                    start_k <= k,
                decreases n - k,
            {
                if let HexPart::Jump { lo: jl, hi: jh, span } = parts[k] {
                    lo = sat_add(lo, jl);
                    hi = match (hi, jh) {
                        (Some(a), Some(b)) => Some(sat_add(a, b)),
                        _ => None,
                    };
                    if count == 0 {
                        first = span;
                    }
                    last = span;
                    if count < usize::MAX {
                        count += 1;
                    }
                }
                k += 1;
            }
            let span = Span(first.0, last.1);
            let mut bad = false;
            let mut shown: u64 = 0;
            match hi {
                Some(h) => {
                    if lo > h {
                        bad = true;
                        shown = h;
                    }
                },
                None => {},
            }
            if bad {
                let mut label: Vec<u8> = Vec::new();
                push_str_bytes(&mut label, "lower bound (");
                push_dec(&mut label, lo);
                push_str_bytes(&mut label, ") is greater than upper bound (");
                push_dec(&mut label, shown);
                push_str_bytes(&mut label, ")");
                diag_invalid_hex(diags, pname, span, label, count > 1);
            }
            out.push(HexPart::Jump { lo, hi, span });
            if k == start_k {
                k += 1;
            }
        } else {
            out.push(parts[k]);
            k += 1;
        }
        proof {
            lemma_prefix_trans(old(diags)@, mid, diags@);
        }
    }
    out
}

/// Walks one bracketed jump; reports bounds outside `[0, 65535]` and
/// negative bounds.
fn walk_jump(cst: &Cst, m: usize, diags: &mut Vec<Diagnostic>) -> (r: Option<HexPart>)
    requires
        cst.wf(),
        m < cst.nodes@.len(),
    ensures
        old(diags)@.is_prefix_of(final(diags)@),
    decreases m, 0int, 0int,
{
    let n = cst.nodes[m].children.len();
    let mut lspan = Span(0, 0);
    let mut rspan = Span(0, 0);
    let mut neg_span: Option<Span> = None;
    let mut nums: Vec<(u64, Span, bool)> = Vec::new();
    let mut hyphen_after_num = false;
    let mut i: usize = 0;
    while i < n
        invariant
            cst.wf(),
            m < cst.nodes@.len(),
            n == cst.nodes@[m as int].children@.len(),
            i <= n,
            old(diags)@.is_prefix_of(diags@),
        decreases n - i,
    {
        let ghost mid = diags@;
        match child_at(cst, m, i) {
            Some(CstChild::Tok(t)) => {
                let tok = cst.tokens[t];
                match tok {
                    Token::L_BRACKET(sp) => {
                        lspan = sp;
                    },
                    Token::R_BRACKET(sp) => {
                        rspan = sp;
                    },
                    Token::HYPHEN(sp) => {
                        if nums.len() == 0 {
                            if neg_span.is_none() {
                                neg_span = Some(sp);
                            }
                        } else {
                            hyphen_after_num = true;
                        }
                    },
                    Token::INTEGER_LIT(sp) => {
                        let text = tok_text(cst, tok);
                        let mut ok = true;
                        let mut v: u64 = 0;
                        match decode_integer_magnitude(&text) {
                            Some(x) => {
                                if x > 65535 {
                                    ok = false;
                                } else {
                                    v = x;
                                }
                            },
                            None => {
                                ok = false;
                            },
                        }
                        match neg_span {
                            Some(h) => {
                                // A negative bound: report the sign and the
                                // digits together.
                                diag_int_range(diags, Span(h.0, sp.1), 0, 65535);
                                nums.push((0, sp, false));
                                neg_span = None;
                            },
                            None => {
                                if !ok {
                                    diag_int_range(diags, sp, 0, 65535);
                                }
                                nums.push((v, sp, ok));
                            },
                        }
                    },
                    _ => {},
                }
            },
            _ => {},
        }
        proof {
            lemma_prefix_trans(old(diags)@, mid, diags@);
        }
        i += 1;
    }
    let span = Span(lspan.0, rspan.1);
    if nums.len() == 0 {
        return None;
    }
    let (lo, _, lo_ok) = nums[0];
    if !lo_ok {
        return None;
    }
    if nums.len() >= 2 {
        let (hi, _, hi_ok) = nums[1];
        if !hi_ok {
            return None;
        }
        Some(HexPart::Jump { lo, hi: Some(hi), span })
    } else if hyphen_after_num {
        Some(HexPart::Jump { lo, hi: None, span })
    } else {
        Some(HexPart::Jump { lo, hi: Some(lo), span })
    }
}

/// Walks a boolean expression node: terms joined by `and`/`or`.
fn walk_bool_expr(cst: &Cst, m: usize, diags: &mut Vec<Diagnostic>) -> (r: Expr)
    requires
        cst.wf(),
        m < cst.nodes@.len(),
    ensures
        old(diags)@.is_prefix_of(final(diags)@),
    decreases m, 0int, 0int,
{
    let n = cst.nodes[m].children.len();
    let mut e = Expr::Invalid(Span(0, 0));
    let mut have = false;
    let mut pending_op: Option<BinOp> = None;
    let mut i: usize = 0;
    while i < n
        invariant
            cst.wf(),
            m < cst.nodes@.len(),
            n == cst.nodes@[m as int].children@.len(),
            i <= n,
            old(diags)@.is_prefix_of(diags@),
        decreases n - i,
    {
        let ghost mid = diags@;
        match child_at(cst, m, i) {
            Some(CstChild::Tok(t)) => {
                match cst.tokens[t] {
                    Token::AND_KW(_) => {
                        pending_op = Some(BinOp::And);
                    },
                    Token::OR_KW(_) => {
                        pending_op = Some(BinOp::Or);
                    },
                    _ => {},
                }
            },
            Some(CstChild::Tree(j)) => {
                if matches!(cst.nodes[j].kind, NodeKind::BooleanTerm) {
                    let term = walk_bool_term(cst, j, diags);
                    if !have {
                        e = term;
                        have = true;
                    } else {
                        let op = match pending_op {
                            Some(o) => o,
                            None => BinOp::And,
                        };
                        e = Expr::Binary(op, Box::new(e), Box::new(term));
                    }
                    pending_op = None;
                }
            },
            None => {},
        }
        proof {
            lemma_prefix_trans(old(diags)@, mid, diags@);
        }
        i += 1;
    }
    e
}

/// Comparison operator of a token, if any.
fn cmp_op_of(t: Token) -> (r: Option<BinOp>)
{
    match t {
        Token::EQ(_) => Some(BinOp::Eq),
        Token::NE(_) => Some(BinOp::Ne),
        Token::LT(_) => Some(BinOp::Lt),
        Token::GT(_) => Some(BinOp::Gt),
        Token::LE(_) => Some(BinOp::Le),
        Token::GE(_) => Some(BinOp::Ge),
        Token::CONTAINS_KW(_) => Some(BinOp::Contains),
        Token::ICONTAINS_KW(_) => Some(BinOp::IContains),
        Token::STARTSWITH_KW(_) => Some(BinOp::StartsWith),
        Token::ISTARTSWITH_KW(_) => Some(BinOp::IStartsWith),
        Token::ENDSWITH_KW(_) => Some(BinOp::EndsWith),
        Token::IENDSWITH_KW(_) => Some(BinOp::IEndsWith),
        Token::IEQUALS_KW(_) => Some(BinOp::IEquals),
        Token::MATCHES_KW(_) => Some(BinOp::Matches),
        _ => None,
    }
}

/// Arithmetic operator and its binding power.
fn arith_op_of(t: Token) -> (r: Option<(BinOp, u32)>)
    ensures
        r matches Some(p) ==> p.1 <= 6,
{
    match t {
        Token::PIPE(_) => Some((BinOp::BitOr, 1)),
        Token::CARET(_) => Some((BinOp::BitXor, 2)),
        Token::AMPERSAND(_) => Some((BinOp::BitAnd, 3)),
        Token::SHL(_) => Some((BinOp::Shl, 4)),
        Token::SHR(_) => Some((BinOp::Shr, 4)),
        Token::PLUS(_) => Some((BinOp::Add, 5)),
        Token::HYPHEN(_) => Some((BinOp::Sub, 5)),
        Token::ASTERISK(_) => Some((BinOp::Mul, 6)),
        Token::BACKSLASH(_) => Some((BinOp::Div, 6)),
        _ => None,
    }
}

/// Walks one boolean term.
#[verifier::rlimit(100)]
#[verifier::spinoff_prover]
fn walk_bool_term(cst: &Cst, m: usize, diags: &mut Vec<Diagnostic>) -> (r: Expr)
    requires
        cst.wf(),
        m < cst.nodes@.len(),
    ensures
        old(diags)@.is_prefix_of(final(diags)@),
    decreases m, cst.nodes@[m as int].children@.len() + 1, 0int,
{
    let mut i: usize = 0;
    skip_triv(cst, m, &mut i);
    match child_at(cst, m, i) {
        None => Expr::Invalid(Span(0, 0)),
        Some(CstChild::Tree(j)) => {
            match cst.nodes[j].kind {
                NodeKind::ForExpr => walk_for(cst, j, diags),
                NodeKind::BooleanTerm => walk_bool_term(cst, j, diags),
                NodeKind::BooleanExpr => walk_bool_expr(cst, j, diags),
                _ => Expr::Invalid(Span(0, 0)),
            }
        },
        Some(CstChild::Tok(t)) => {
            let tok = cst.tokens[t];
            match tok {
                Token::TRUE_KW(sp) => Expr::BoolLit(true, sp),
                Token::FALSE_KW(sp) => Expr::BoolLit(false, sp),
                Token::NOT_KW(sp) | Token::DEFINED_KW(sp) => {
                    let un = if matches!(tok, Token::NOT_KW(_)) {
                        UnOp::Not
                    } else {
                        UnOp::Defined
                    };
                    i += 1;
                    skip_triv(cst, m, &mut i);
                    match child_at(cst, m, i) {
                        Some(CstChild::Tree(j)) => {
                            if matches!(cst.nodes[j].kind, NodeKind::BooleanTerm) {
                                let inner = walk_bool_term(cst, j, diags);
                                Expr::Unary(un, Box::new(inner), sp)
                            } else {
                                Expr::Invalid(sp)
                            }
                        },
                        _ => Expr::Invalid(sp),
                    }
                },
                Token::PATTERN_IDENT(sp) => {
                    let text = tok_text(cst, tok);
                    let mut nm: Vec<u8> = Vec::new();
                    let mut k: usize = 1;
                    while k < text.len()
                        decreases text@.len() - k,
                    {
                        nm.push(text[k]);
                        k += 1;
                    }
                    let base = Expr::PatternMatch(nm, sp);
                    i += 1;
                    skip_triv(cst, m, &mut i);
                    match child_at(cst, m, i) {
                        Some(CstChild::Tok(t2)) => {
                            match cst.tokens[t2] {
                                Token::AT_KW(_) => {
                                    i += 1;
                                    skip_triv(cst, m, &mut i);
                                    let rhs = walk_expr_prec(cst, m, &mut i, 0, diags);
                                    Expr::Binary(BinOp::At, Box::new(base), Box::new(rhs))
                                },
                                Token::IN_KW(_) => {
                                    i += 1;
                                    skip_triv(cst, m, &mut i);
                                    match child_at(cst, m, i) {
                                        Some(CstChild::Tree(j)) => {
                                            if matches!(cst.nodes[j].kind, NodeKind::Range) {
                                                let rg = walk_range(cst, j, diags);
                                                Expr::Binary(
                                                    BinOp::In,
                                                    Box::new(base),
                                                    Box::new(rg),
                                                )
                                            } else {
                                                base
                                            }
                                        },
                                        _ => base,
                                    }
                                },
                                _ => base,
                            }
                        },
                        _ => base,
                    }
                },
                Token::ALL_KW(sp) | Token::ANY_KW(sp) | Token::NONE_KW(sp) => {
                    let q = match tok {
                        Token::ALL_KW(_) => Quant::All,
                        Token::ANY_KW(_) => Quant::Any,
                        _ => Quant::NoneOf,
                    };
                    i += 1;
                    skip_triv(cst, m, &mut i);
                    match child_at(cst, m, i) {
                        Some(CstChild::Tree(j)) => {
                            if matches!(cst.nodes[j].kind, NodeKind::OfExpr) {
                                let set = walk_of(cst, j, diags);
                                Expr::OfQuant(q, set, sp)
                            } else {
                                Expr::Invalid(sp)
                            }
                        },
                        _ => Expr::Invalid(sp),
                    }
                },
                _ => {
                    let e = walk_expr_prec(cst, m, &mut i, 0, diags);
                    skip_triv(cst, m, &mut i);
                    match child_at(cst, m, i) {
                        Some(CstChild::Tok(t2)) => {
                            let tk = cst.tokens[t2];
                            match cmp_op_of(tk) {
                                Some(op) => {
                                    i += 1;
                                    skip_triv(cst, m, &mut i);
                                    let rhs = walk_expr_prec(cst, m, &mut i, 0, diags);
                                    Expr::Binary(op, Box::new(e), Box::new(rhs))
                                },
                                None => {
                                    if let Token::PERCENT(psp) = tk {
                                        i += 1;
                                        skip_triv(cst, m, &mut i);
                                        let q = match e {
                                            Expr::IntLit(v, _) => Quant::Percent(v),
                                            _ => Quant::Percent(0),
                                        };
                                        match child_at(cst, m, i) {
                                            Some(CstChild::Tree(j)) => {
                                                if matches!(
                                                    cst.nodes[j].kind,
                                                    NodeKind::OfExpr,
                                                ) {
                                                    let set = walk_of(cst, j, diags);
                                                    Expr::OfQuant(q, set, psp)
                                                } else {
                                                    Expr::Invalid(psp)
                                                }
                                            },
                                            _ => Expr::Invalid(psp),
                                        }
                                    } else {
                                        e
                                    }
                                },
                            }
                        },
                        Some(CstChild::Tree(j)) => {
                            if matches!(cst.nodes[j].kind, NodeKind::OfExpr) {
                                let q = match e {
                                    Expr::IntLit(v, _) => Quant::Num(v),
                                    _ => Quant::Num(0),
                                };
                                let set = walk_of(cst, j, diags);
                                Expr::OfQuant(q, set, Span(0, 0))
                            } else {
                                e
                            }
                        },
                        None => e,
                    }
                },
            }
        },
    }
}

/// Walks a flat run of expression tokens and subtrees by precedence
/// climbing.
fn walk_expr_prec(
    cst: &Cst,
    m: usize,
    i: &mut usize,
    min_prec: u32,
    diags: &mut Vec<Diagnostic>,
) -> (r: Expr)
    requires
        cst.wf(),
        m < cst.nodes@.len(),
    ensures
        old(diags)@.is_prefix_of(final(diags)@),
        *old(i) <= *final(i),
        *final(i) <= cst.nodes@[m as int].children@.len() || *final(i) == *old(i),
    decreases m, cst.nodes@[m as int].children@.len() - *i, 2int,
{
    let ghost i0 = *i;
    let mut lhs = walk_prim(cst, m, i, diags);
    let n = cst.nodes[m].children.len();
    loop
        invariant
            cst.wf(),
            m < cst.nodes@.len(),
            n == cst.nodes@[m as int].children@.len(),
            i0 == *old(i),
            i0 <= *i,
            *i <= n || *i == i0,
            old(diags)@.is_prefix_of(diags@),
        ensures
            i0 <= *i,
            *i <= n || *i == i0,
            old(diags)@.is_prefix_of(diags@),
        decreases n - *i,
    {
        let ghost mid = diags@;
        skip_triv(cst, m, i);
        let mut advanced = false;
        match child_at(cst, m, *i) {
            Some(CstChild::Tok(t)) => {
                match arith_op_of(cst.tokens[t]) {
                    Some((op, p)) => {
                        if p >= min_prec {
                            *i += 1;
                            skip_triv(cst, m, i);
                            let rhs = walk_expr_prec(cst, m, i, p + 1, diags);
                            lhs = Expr::Binary(op, Box::new(lhs), Box::new(rhs));
                            advanced = true;
                        }
                    },
                    None => {},
                }
            },
            _ => {},
        }
        proof {
            lemma_prefix_trans(old(diags)@, mid, diags@);
        }
        if !advanced {
            break;
        }
    }
    lhs
}

/// Walks one primary expression at the cursor.
#[verifier::rlimit(100)]
#[verifier::spinoff_prover]
fn walk_prim(cst: &Cst, m: usize, i: &mut usize, diags: &mut Vec<Diagnostic>) -> (r: Expr)
    requires
        cst.wf(),
        m < cst.nodes@.len(),
    ensures
        old(diags)@.is_prefix_of(final(diags)@),
        *old(i) <= *final(i),
        *final(i) <= cst.nodes@[m as int].children@.len() || *final(i) == *old(i),
    decreases m, cst.nodes@[m as int].children@.len() - *i, 1int,
{
    skip_triv(cst, m, i);
    let c = child_at(cst, m, *i);
    match c {
        None => Expr::Invalid(Span(0, 0)),
        Some(CstChild::Tree(j)) => {
            *i += 1;
            match cst.nodes[j].kind {
                NodeKind::BooleanExpr => walk_bool_expr(cst, j, diags),
                NodeKind::Range => walk_range(cst, j, diags),
                _ => Expr::Invalid(Span(0, 0)),
            }
        },
        Some(CstChild::Tok(t)) => {
            let tok = cst.tokens[t];
            match tok {
                Token::INTEGER_LIT(sp) => {
                    *i += 1;
                    let text = tok_text(cst, tok);
                    match decode_i64(&text, false) {
                        Some(v) => Expr::IntLit(v, sp),
                        None => {
                            diag_int_i64(diags, sp);
                            Expr::Invalid(sp)
                        },
                    }
                },
                Token::HYPHEN(sp) => {
                    *i += 1;
                    skip_triv(cst, m, i);
                    match child_at(cst, m, *i) {
                        Some(CstChild::Tok(t2)) => {
                            match cst.tokens[t2] {
                                Token::INTEGER_LIT(sp2) => {
                                    *i += 1;
                                    let text = tok_text(cst, cst.tokens[t2]);
                                    let full = Span(sp.0, sp2.1);
                                    match decode_i64(&text, true) {
                                        Some(v) => Expr::IntLit(v, full),
                                        None => {
                                            diag_int_i64(diags, full);
                                            Expr::Invalid(full)
                                        },
                                    }
                                },
                                _ => {
                                    let inner = walk_prim(cst, m, i, diags);
                                    Expr::Unary(UnOp::Neg, Box::new(inner), sp)
                                },
                            }
                        },
                        _ => {
                            let inner = walk_prim(cst, m, i, diags);
                            Expr::Unary(UnOp::Neg, Box::new(inner), sp)
                        },
                    }
                },
                Token::FLOAT_LIT(sp) => {
                    *i += 1;
                    Expr::FloatLit(sp)
                },
                Token::STRING_LIT(sp) => {
                    *i += 1;
                    let s = decode_str_lit(cst, tok, diags);
                    Expr::StrLit(s, sp)
                },
                Token::REGEXP(sp) => {
                    *i += 1;
                    Expr::RegexpLit(sp)
                },
                Token::TRUE_KW(sp) => {
                    *i += 1;
                    Expr::BoolLit(true, sp)
                },
                Token::FALSE_KW(sp) => {
                    *i += 1;
                    Expr::BoolLit(false, sp)
                },
                Token::FILESIZE_KW(sp) => {
                    *i += 1;
                    Expr::Filesize(sp)
                },
                Token::ENTRYPOINT_KW(sp) => {
                    *i += 1;
                    Expr::Entrypoint(sp)
                },
                Token::IDENT(sp) => {
                    *i += 1;
                    let mut base = Expr::Ident(tok_text(cst, tok), sp);
                    let n = cst.nodes[m].children.len();
                    loop
                        invariant
                            cst.wf(),
                            m < cst.nodes@.len(),
                            n == cst.nodes@[m as int].children@.len(),
                            old(diags)@.is_prefix_of(diags@),
                            *old(i) <= *i,
                            *i <= n,
                        ensures
                            old(diags)@.is_prefix_of(diags@),
                            *old(i) <= *i,
                            *i <= n,
                        decreases n - *i,
                    {
                        let ghost mid = diags@;
                        let mut advanced = false;
                        match child_at(cst, m, *i) {
                            Some(CstChild::Tok(t2)) => {
                                match cst.tokens[t2] {
                                    Token::DOT(_) => {
                                        *i += 1;
                                        match child_at(cst, m, *i) {
                                            Some(CstChild::Tok(t3)) => {
                                                if let Token::IDENT(sp3) = cst.tokens[t3] {
                                                    *i += 1;
                                                    let member = Expr::Ident(
                                                        tok_text(cst, cst.tokens[t3]),
                                                        sp3,
                                                    );
                                                    base = Expr::Binary(
                                                        BinOp::Member,
                                                        Box::new(base),
                                                        Box::new(member),
                                                    );
                                                    advanced = true;
                                                }
                                            },
                                            _ => {},
                                        }
                                    },
                                    Token::L_BRACKET(_) => {
                                        *i += 1;
                                        skip_triv(cst, m, i);
                                        let idx = walk_expr_prec(cst, m, i, 0, diags);
                                        skip_triv(cst, m, i);
                                        match child_at(cst, m, *i) {
                                            Some(CstChild::Tok(t3)) => {
                                                if matches!(
                                                    cst.tokens[t3],
                                                    Token::R_BRACKET(_),
                                                ) {
                                                    *i += 1;
                                                }
                                            },
                                            _ => {},
                                        }
                                        base = Expr::Binary(
                                            BinOp::Index,
                                            Box::new(base),
                                            Box::new(idx),
                                        );
                                        advanced = true;
                                    },
                                    Token::L_PAREN(_) => {
                                        *i += 1;
                                        skip_triv(cst, m, i);
                                        let mut closed = false;
                                        match child_at(cst, m, *i) {
                                            Some(CstChild::Tok(t3)) => {
                                                if matches!(cst.tokens[t3], Token::R_PAREN(_)) {
                                                    *i += 1;
                                                    closed = true;
                                                }
                                            },
                                            _ => {},
                                        }
                                        if !closed {
                                            let arg = walk_expr_prec(cst, m, i, 0, diags);
                                            base = Expr::Binary(
                                                BinOp::Call,
                                                Box::new(base),
                                                Box::new(arg),
                                            );
                                            skip_triv(cst, m, i);
                                            match child_at(cst, m, *i) {
                                                Some(CstChild::Tok(t3)) => {
                                                    if matches!(
                                                        cst.tokens[t3],
                                                        Token::R_PAREN(_),
                                                    ) {
                                                        *i += 1;
                                                    }
                                                },
                                                _ => {},
                                            }
                                        } else {
                                            base = Expr::Binary(
                                                BinOp::Call,
                                                Box::new(base),
                                                Box::new(Expr::Invalid(sp)),
                                            );
                                        }
                                        advanced = true;
                                    },
                                    _ => {},
                                }
                            },
                            _ => {},
                        }
                        proof {
                            lemma_prefix_trans(old(diags)@, mid, diags@);
                        }
                        if !advanced {
                            break;
                        }
                    }
                    base
                },
                Token::PATTERN_IDENT(sp) => {
                    *i += 1;
                    let text = tok_text(cst, tok);
                    let mut nm: Vec<u8> = Vec::new();
                    let mut k: usize = 1;
                    while k < text.len()
                        decreases text@.len() - k,
                    {
                        nm.push(text[k]);
                        k += 1;
                    }
                    Expr::PatternMatch(nm, sp)
                },
                Token::PATTERN_COUNT(sp) => {
                    *i += 1;
                    let text = tok_text(cst, tok);
                    let mut nm: Vec<u8> = Vec::new();
                    let mut k: usize = 1;
                    while k < text.len()
                        decreases text@.len() - k,
                    {
                        nm.push(text[k]);
                        k += 1;
                    }
                    let base = Expr::PatternCount(nm, sp);
                    skip_triv(cst, m, i);
                    match child_at(cst, m, *i) {
                        Some(CstChild::Tok(t2)) => {
                            if matches!(cst.tokens[t2], Token::IN_KW(_)) {
                                *i += 1;
                                skip_triv(cst, m, i);
                                match child_at(cst, m, *i) {
                                    Some(CstChild::Tree(j)) => {
                                        if matches!(cst.nodes[j].kind, NodeKind::Range) {
                                            *i += 1;
                                            let rg = walk_range(cst, j, diags);
                                            Expr::Binary(
                                                BinOp::In,
                                                Box::new(base),
                                                Box::new(rg),
                                            )
                                        } else {
                                            base
                                        }
                                    },
                                    _ => base,
                                }
                            } else {
                                base
                            }
                        },
                        _ => base,
                    }
                },
                Token::PATTERN_OFFSET(sp) | Token::PATTERN_LENGTH(sp) => {
                    *i += 1;
                    let text = tok_text(cst, tok);
                    let mut nm: Vec<u8> = Vec::new();
                    let mut k: usize = 1;
                    while k < text.len()
                        decreases text@.len() - k,
                    {
                        nm.push(text[k]);
                        k += 1;
                    }
                    let base = if matches!(tok, Token::PATTERN_OFFSET(_)) {
                        Expr::PatternOffset(nm, sp)
                    } else {
                        Expr::PatternLength(nm, sp)
                    };
                    skip_triv(cst, m, i);
                    match child_at(cst, m, *i) {
                        Some(CstChild::Tok(t2)) => {
                            if matches!(cst.tokens[t2], Token::L_BRACKET(_)) {
                                *i += 1;
                                skip_triv(cst, m, i);
                                let idx = walk_expr_prec(cst, m, i, 0, diags);
                                skip_triv(cst, m, i);
                                match child_at(cst, m, *i) {
                                    Some(CstChild::Tok(t3)) => {
                                        if matches!(cst.tokens[t3], Token::R_BRACKET(_)) {
                                            *i += 1;
                                        }
                                    },
                                    _ => {},
                                }
                                Expr::Binary(BinOp::Index, Box::new(base), Box::new(idx))
                            } else {
                                base
                            }
                        },
                        _ => base,
                    }
                },
                Token::L_PAREN(sp) => {
                    *i += 1;
                    skip_triv(cst, m, i);
                    match child_at(cst, m, *i) {
                        Some(CstChild::Tree(j)) => {
                            if matches!(cst.nodes[j].kind, NodeKind::BooleanExpr) {
                                *i += 1;
                                let inner = walk_bool_expr(cst, j, diags);
                                skip_triv(cst, m, i);
                                match child_at(cst, m, *i) {
                                    Some(CstChild::Tok(t3)) => {
                                        if matches!(cst.tokens[t3], Token::R_PAREN(_)) {
                                            *i += 1;
                                        }
                                    },
                                    _ => {},
                                }
                                inner
                            } else {
                                Expr::Invalid(sp)
                            }
                        },
                        _ => {
                            Expr::Invalid(sp)
                        },
                    }
                },
                _ => {
                    *i += 1;
                    Expr::Invalid(tok.span())
                },
            }
        },
    }
}

/// Walks a `( lo .. hi )` range node, checking that literal bounds are
/// non-negative and ordered.
fn walk_range(cst: &Cst, m: usize, diags: &mut Vec<Diagnostic>) -> (r: Expr)
    requires
        cst.wf(),
        m < cst.nodes@.len(),
    ensures
        old(diags)@.is_prefix_of(final(diags)@),
    decreases m, cst.nodes@[m as int].children@.len() + 1, 0int,
{
    let mut i: usize = 0;
    skip_triv(cst, m, &mut i);
    // Step over the opening parenthesis.
    match child_at(cst, m, i) {
        Some(CstChild::Tok(t)) => {
            if matches!(cst.tokens[t], Token::L_PAREN(_)) {
                i += 1;
            }
        },
        _ => {},
    }
    skip_triv(cst, m, &mut i);
    let lo = walk_expr_prec(cst, m, &mut i, 0, diags);
    skip_triv(cst, m, &mut i);
    match child_at(cst, m, i) {
        Some(CstChild::Tok(t)) => {
            if matches!(cst.tokens[t], Token::DOT_DOT(_)) {
                i += 1;
            }
        },
        _ => {},
    }
    skip_triv(cst, m, &mut i);
    let ghost mid = diags@;
    let hi = walk_expr_prec(cst, m, &mut i, 0, diags);
    proof {
        lemma_prefix_trans(old(diags)@, mid, diags@);
    }
    // Range validation over literal bounds.
    let mut reported = false;
    if let Expr::IntLit(lv, lsp) = lo {
        if lv < 0 {
            diag_range_negative(diags, lsp);
            reported = true;
        }
    }
    if !reported {
        if let Expr::IntLit(hv, hsp) = hi {
            if hv < 0 {
                diag_range_negative(diags, hsp);
                reported = true;
            }
        }
    }
    if !reported {
        if let Expr::IntLit(lv, lsp) = lo {
            if let Expr::IntLit(hv, _) = hi {
                if lv >= 0 && hv >= 0 && lv > hv {
                    // The report names the lower bound's value for both
                    // bounds of a condition range.
                    diag_bad_range(diags, lsp, lv as u64, lv as u64);
                }
            }
        }
    }
    let lo2 = match lo {
        Expr::IntLit(v, sp) => Expr::IntLit(v, sp),
        other => other,
    };
    Expr::Binary(BinOp::RangeOp, Box::new(lo2), Box::new(hi))
}

/// Walks an `of`-set node.
fn walk_of(cst: &Cst, m: usize, diags: &mut Vec<Diagnostic>) -> (r: OfSet)
    requires
        cst.wf(),
        m < cst.nodes@.len(),
    ensures
        old(diags)@.is_prefix_of(final(diags)@),
    decreases m, 0int, 0int,
{
    let mut them = false;
    let mut pats: Vec<NameRef> = Vec::new();
    let mut rules: Vec<NameRef> = Vec::new();
    let n = cst.nodes[m].children.len();
    let mut i: usize = 0;
    while i < n
        invariant
            cst.wf(),
            m < cst.nodes@.len(),
            n == cst.nodes@[m as int].children@.len(),
            i <= n,
        decreases n - i,
    {
        match child_at(cst, m, i) {
            Some(CstChild::Tok(t)) => {
                let tok = cst.tokens[t];
                match tok {
                    Token::THEM_KW(_) => {
                        them = true;
                    },
                    Token::PATTERN_IDENT(sp) => {
                        let text = tok_text(cst, tok);
                        let mut nm: Vec<u8> = Vec::new();
                        let mut k: usize = 1;
                        while k < text.len()
                            decreases text@.len() - k,
                        {
                            nm.push(text[k]);
                            k += 1;
                        }
                        pats.push(NameRef { name: nm, span: sp });
                    },
                    Token::IDENT(sp) => {
                        rules.push(NameRef { name: tok_text(cst, tok), span: sp });
                    },
                    _ => {},
                }
            },
            _ => {},
        }
        i += 1;
    }
    if rules.len() > 0 {
        OfSet::Rules(rules)
    } else if them {
        OfSet::Them
    } else {
        OfSet::Patterns(pats)
    }
}

/// Walks a `for <quantifier> of <set> : ( <expr> )` node.
fn walk_for(cst: &Cst, m: usize, diags: &mut Vec<Diagnostic>) -> (r: Expr)
    requires
        cst.wf(),
        m < cst.nodes@.len(),
    ensures
        old(diags)@.is_prefix_of(final(diags)@),
    decreases m, 0int, 0int,
{
    let mut q = Quant::Any;
    let mut set = OfSet::Them;
    let mut body = Expr::Invalid(Span(0, 0));
    let mut span = Span(0, 0);
    let mut have_set = false;
    let mut have_body = false;
    let n = cst.nodes[m].children.len();
    let mut i: usize = 0;
    while i < n
        invariant
            cst.wf(),
            m < cst.nodes@.len(),
            n == cst.nodes@[m as int].children@.len(),
            i <= n,
            old(diags)@.is_prefix_of(diags@),
        decreases n - i,
    {
        let ghost mid = diags@;
        match child_at(cst, m, i) {
            Some(CstChild::Tok(t)) => {
                let tok = cst.tokens[t];
                match tok {
                    Token::FOR_KW(sp) => {
                        span = sp;
                    },
                    Token::ALL_KW(_) => {
                        q = Quant::All;
                    },
                    Token::ANY_KW(_) => {
                        q = Quant::Any;
                    },
                    Token::NONE_KW(_) => {
                        q = Quant::NoneOf;
                    },
                    Token::INTEGER_LIT(_) => {
                        let text = tok_text(cst, tok);
                        match decode_i64(&text, false) {
                            Some(v) => {
                                q = Quant::Num(v);
                            },
                            None => {},
                        }
                    },
                    _ => {},
                }
            },
            Some(CstChild::Tree(j)) => {
                match cst.nodes[j].kind {
                    NodeKind::OfExpr => {
                        if !have_set {
                            set = walk_of(cst, j, diags);
                            have_set = true;
                        }
                    },
                    NodeKind::BooleanExpr => {
                        if !have_body {
                            body = walk_bool_expr(cst, j, diags);
                            have_body = true;
                        }
                    },
                    _ => {},
                }
            },
            None => {},
        }
        proof {
            lemma_prefix_trans(old(diags)@, mid, diags@);
        }
        i += 1;
    }
    Expr::ForOf(q, set, Box::new(body), span)
}

} // verus!
