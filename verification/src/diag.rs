use vstd::prelude::*;
use vstd::string::StringSliceAdditionalSpecFns;
use crate::span::Span;

verus! {

/// Classification of a diagnostic, independent of its rendered message.
#[derive(Clone, Copy, Debug, PartialEq, Eq, Structural)]
pub enum DiagKind {
    SyntaxError,
    DuplicateRule,
    DuplicateTag,
    DuplicateString,
    UnusedString,
    InvalidInteger,
    InvalidHexString,
    InvalidRange,
    InvalidEscape,
    DuplicateModifier,
    InvalidModifierCombo,
    InvalidModifier,
}

#[derive(Clone, Copy, Debug, PartialEq, Eq, Structural)]
pub enum Severity {
    Error,
    Warning,
}

/// How a label is drawn under its span: a single caret column, or an
/// underline covering the whole span.
#[derive(Clone, Copy, Debug, PartialEq, Eq, Structural)]
pub enum LabelStyle {
    Point,
    Under,
}

/// One annotated source location of a diagnostic.
#[derive(Debug)]
pub struct Label {
    pub span: Span,
    pub style: LabelStyle,
    pub text: Vec<u8>,
}

/// A structured error record: kind, severity, message, a primary span that
/// fixes the header location, ordered labels, and an optional note.
#[derive(Debug)]
pub struct Diagnostic {
    pub kind: DiagKind,
    pub severity: Severity,
    pub message: Vec<u8>,
    pub primary: Span,
    pub labels: Vec<Label>,
    pub note: Option<Vec<u8>>,
}

/// Appends a byte slice to a buffer.
pub fn push_bytes(out: &mut Vec<u8>, s: &[u8])
    ensures
        final(out)@ == old(out)@ + s@,
{
    let mut k: usize = 0;
    while k < s.len()
        invariant
            k <= s@.len(),
            out@ == old(out)@ + s@.subrange(0, k as int),
        decreases s@.len() - k,
    {
        let ghost prev = out@;
        out.push(s[k]);
        proof {
            assert(old(out)@ + s@.subrange(0, k + 1) =~= out@);
        }
        k += 1;
    }
    proof {
        assert(s@.subrange(0, s@.len() as int) =~= s@);
    }
}

/// Appends the text of a `&str` (its UTF-8 bytes) to a buffer.
pub fn push_str_bytes(out: &mut Vec<u8>, s: &str)
    ensures
        final(out)@ == old(out)@ + s.spec_bytes(),
{
    push_bytes(out, s.as_bytes());
}

/// The canonical decimal digits of `v`, most significant first.
pub open spec fn dec_rep(v: nat) -> Seq<u8>
    decreases v,
{
    if v < 10 {
        seq![(48 + v) as u8]
    } else {
        dec_rep(v / 10).push((48 + v % 10) as u8)
    }
}

/// Renders an unsigned value in decimal.
pub fn u64_to_dec(v: u64) -> (r: Vec<u8>)
    ensures
        r@ == dec_rep(v as nat),
    decreases v,
{
    if v < 10 {
        let mut r: Vec<u8> = Vec::new();
        r.push(48 + v as u8);
        proof {
            assert(r@ =~= dec_rep(v as nat));
        }
        r
    } else {
        let mut r = u64_to_dec(v / 10);
        r.push(48 + (v % 10) as u8);
        r
    }
}

/// Appends the decimal rendering of `v`.
pub fn push_dec(out: &mut Vec<u8>, v: u64)
    ensures
        final(out)@ == old(out)@ + dec_rep(v as nat),
{
    let d = u64_to_dec(v);
    let mut k: usize = 0;
    while k < d.len()
        invariant
            k <= d@.len(),
            d@ == dec_rep(v as nat),
            out@ == old(out)@ + d@.subrange(0, k as int),
        decreases d@.len() - k,
    {
        let ghost prev = out@;
        out.push(d[k]);
        proof {
            assert(old(out)@ + d@.subrange(0, k + 1) =~= out@);
        }
        k += 1;
    }
    proof {
        assert(d@.subrange(0, d@.len() as int) =~= d@);
    }
}

} // verus!
