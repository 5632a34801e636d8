use vstd::prelude::*;
use crate::diag::{Diagnostic, LabelStyle, push_str_bytes, push_bytes, push_dec};

verus! {

/// Appends `n` copies of a piece of text.
fn push_repeat(out: &mut Vec<u8>, s: &str, n: usize)
    ensures
        old(out)@.is_prefix_of(final(out)@),
{
    let ghost pre = out@;
    let mut k: usize = 0;
    while k < n
        invariant
            pre.is_prefix_of(out@),
        decreases n - k,
    {
        let ghost mid = out@;
        push_str_bytes(out, s);
        proof {
            assert(mid =~= out@.subrange(0, mid.len() as int));
            assert(pre =~= out@.subrange(0, pre.len() as int));
        }
        k += 1;
    }
    proof {
        assert(pre =~= out@.subrange(0, pre.len() as int));
    }
}

/// 1-based line number of offset `pos`: one more than the newlines before
/// it.
pub open spec fn spec_line_of(s: Seq<u8>, pos: int) -> int
    decreases pos,
    when 0 <= pos
{
    if pos <= 0 {
        1
    } else {
        spec_line_of(s, pos - 1) + (if pos - 1 < s.len() && s[pos - 1] == 10 {
            1int
        } else {
            0int
        })
    }
}

/// Offset where the line containing `pos` starts.
pub open spec fn spec_line_start(s: Seq<u8>, pos: int) -> int
    decreases pos,
    when 0 <= pos
{
    if pos <= 0 {
        0
    } else if pos - 1 < s.len() && s[pos - 1] == 10 {
        pos
    } else {
        spec_line_start(s, pos - 1)
    }
}

/// 1-based line number of a byte offset (clamped to the input) and the
/// offset of its line start.
fn line_of(src: &Vec<u8>, pos: usize) -> (r: (u64, usize))
    ensures
        r.1 <= src@.len(),
        r.1 as int == spec_line_start(src@, if pos <= src@.len() {
            pos as int
        } else {
            src@.len() as int
        }),
        src@.len() < u64::MAX ==> r.0 as int == spec_line_of(src@, if pos <= src@.len() {
            pos as int
        } else {
            src@.len() as int
        }),
{
    let n = src.len();
    let p = if pos <= n {
        pos
    } else {
        n
    };
    let mut line: u64 = 1;
    let mut start: usize = 0;
    let mut k: usize = 0;
    while k < p
        invariant
            k <= p <= src@.len(),
            start <= k,
            line <= k + 1,
            start as int == spec_line_start(src@, k as int),
            src@.len() < u64::MAX ==> line as int == spec_line_of(src@, k as int),
        decreases p - k,
    {
        if src[k] == 10 {
            if line < u64::MAX {
                line = line + 1;
            }
            start = k + 1;
        }
        k += 1;
    }
    (line, start)
}

/// End of the line starting at `start`: the next newline (a trailing `\r`
/// excluded), or the end of the input.
fn line_end(src: &Vec<u8>, start: usize) -> (r: usize)
    requires
        start <= src@.len(),
    ensures
        start <= r <= src@.len(),
{
    let n = src.len();
    let mut k: usize = start;
    while k < n
        invariant
            start <= k <= n,
            n == src@.len(),
        decreases n - k,
    {
        if src[k] == 10 || src[k] == 13 {
            return k;
        }
        k += 1;
    }
    n
}

/// True for a UTF-8 continuation byte, which adds no display column.
fn is_cont(b: u8) -> (r: bool)
    ensures
        r == (0x80 <= b < 0xc0),
{
    0x80 <= b && b <= 0xbf
}

/// 1-based character column of `pos` counted from `start`: one more than
/// the non-continuation bytes between them, so each UTF-8 scalar is one
/// column and a tab counts as one character.
pub open spec fn spec_scalar_col(s: Seq<u8>, start: int, pos: int) -> int
    decreases pos - start,
    when start <= pos
{
    if pos <= start {
        1
    } else {
        spec_scalar_col(s, start, pos - 1) + (if 0 <= pos - 1 < s.len() && 0x80 <= s[pos - 1]
            < 0xc0 {
            0int
        } else {
            1int
        })
    }
}

/// 1-based character column of `pos` within its line (tabs count as one
/// character).
fn scalar_col(src: &Vec<u8>, start: usize, pos: usize) -> (r: u64)
    requires
        start <= src@.len(),
    ensures
        src@.len() < u64::MAX && start <= pos ==> r as int == spec_scalar_col(
            src@,
            start as int,
            if pos <= src@.len() {
                pos as int
            } else {
                src@.len() as int
            },
        ),
{
    let n = src.len();
    let p = if pos <= n {
        pos
    } else {
        n
    };
    let mut col: u64 = 1;
    let mut k: usize = start;
    if p <= start {
        return col;
    }
    while k < p
        invariant
            start <= k <= p,
            p <= n,
            n == src@.len(),
            col <= k - start + 1,
            src@.len() < u64::MAX ==> col as int == spec_scalar_col(src@, start as int, k as int),
        decreases p - k,
    {
        proof {
            assert(spec_scalar_col(src@, start as int, k + 1) == spec_scalar_col(
                src@,
                start as int,
                k as int,
            ) + (if 0x80 <= src@[k as int] < 0xc0 {
                0int
            } else {
                1int
            }));
        }
        if !is_cont(src[k]) {
            if col < u64::MAX {
                col = col + 1;
            }
        }
        k += 1;
    }
    col
}

/// 1-based display column of `pos` within its line, with tabs expanded to
/// four spaces.
fn disp_col(src: &Vec<u8>, start: usize, pos: usize) -> (r: usize)
    requires
        start <= src@.len(),
{
    let n = src.len();
    let p = if pos <= n {
        pos
    } else {
        n
    };
    let mut col: usize = 1;
    let mut k: usize = start;
    while k < p
        invariant
            start <= k <= p || k == start,
            p <= n,
            n == src@.len(),
        decreases p - k,
    {
        if src[k] == 9 {
            if col <= usize::MAX - 4 {
                col = col + 4;
            }
        } else if !is_cont(src[k]) {
            if col < usize::MAX {
                col = col + 1;
            }
        }
        k += 1;
    }
    col
}

/// Number of characters covered by `[from, to)` (at least one).
fn char_width(src: &Vec<u8>, from: usize, to: usize) -> (r: usize)
{
    let n = src.len();
    let a = if from <= n {
        from
    } else {
        n
    };
    let b = if to <= n {
        to
    } else {
        n
    };
    let mut w: usize = 0;
    let mut k: usize = a;
    while k < b
        invariant
            n == src@.len(),
            a <= k <= b || k == a,
            b <= n,
        decreases b - k,
    {
        if !is_cont(src[k]) {
            if w < usize::MAX {
                w = w + 1;
            }
        }
        k += 1;
    }
    if w == 0 {
        1
    } else {
        w
    }
}

/// Appends a source line with tabs expanded.
fn push_line_text(out: &mut Vec<u8>, src: &Vec<u8>, start: usize, end: usize)
    requires
        start <= src@.len(),
        end <= src@.len(),
{
    let mut k: usize = start;
    while k < end
        invariant
            k <= end || k == start,
            end <= src@.len(),
        decreases end - k,
    {
        if src[k] == 9 {
            push_str_bytes(out, "    ");
        } else {
            out.push(src[k]);
        }
        k += 1;
    }
}

/// Decimal digit count of a line number.
fn dec_width(v: u64) -> (r: usize)
    ensures
        1 <= r <= 6,
{
    if v < 10 {
        1
    } else if v < 100 {
        2
    } else if v < 1000 {
        3
    } else if v < 10000 {
        4
    } else if v < 100000 {
        5
    } else {
        6
    }
}

/// Appends a line number right-aligned in `w` columns.
fn push_padded_num(out: &mut Vec<u8>, v: u64, w: usize)
{
    let d = dec_width(v);
    if d < w {
        push_repeat(out, " ", w - d);
    }
    push_dec(out, v);
}

/// The bytes every report starts with.
pub open spec fn err_tag() -> Seq<u8> {
    seq![101u8, 114u8, 114u8, 111u8, 114u8, 58u8, 32u8]
}

/// The bytes every report ends with: the frame corner and a newline.
pub open spec fn frame_close_tail() -> Seq<u8> {
    seq![226u8, 149u8, 175u8, 10u8]
}

fn push_error_tag(out: &mut Vec<u8>)
    ensures
        final(out)@ == old(out)@ + err_tag(),
{
    out.push(101);
    out.push(114);
    out.push(114);
    out.push(111);
    out.push(114);
    out.push(58);
    out.push(32);
    proof {
        assert(out@ =~= old(out)@ + err_tag());
    }
}

fn push_frame_close(out: &mut Vec<u8>)
    ensures
        final(out)@ == old(out)@ + frame_close_tail(),
{
    out.push(226);
    out.push(149);
    out.push(175);
    out.push(10);
    proof {
        assert(out@ =~= old(out)@ + frame_close_tail());
    }
}

proof fn lemma_bytes_prefix_trans(a: Seq<u8>, b: Seq<u8>, c: Seq<u8>)
    requires
        a.is_prefix_of(b),
        b.is_prefix_of(c),
    ensures
        a.is_prefix_of(c),
{
    assert(a =~= c.subrange(0, a.len() as int));
}

/// Renders one diagnostic into the fixed boxed report layout: a header with
/// the message, a location line, framed source excerpts with underlines and
/// label leaders, an optional note, and a closing frame.  The layout is a
/// deterministic function of the diagnostic, the source and the origin.
pub fn render_report(d: &Diagnostic, src: &Vec<u8>, origin: Option<&str>) -> (r: Vec<u8>)
    ensures
        r@.len() >= d.message@.len() + 12,
        r@.subrange(0, d.message@.len() as int + 8) == err_tag() + d.message@ + seq![10u8],
        r@.subrange(r@.len() - 4, r@.len() as int) == frame_close_tail(),
{
    let mut out: Vec<u8> = Vec::new();
    // Header.
    push_error_tag(&mut out);
    push_bytes(&mut out, d.message.as_slice());
    out.push(10);
    let ghost hdr = out@;
    proof {
        assert(hdr =~= err_tag() + d.message@ + seq![10u8]);
    }
    // The rest of the report is assembled separately, then appended.
    let mut buf: Vec<u8> = Vec::new();
    // Gutter width: the widest label line number plus one.
    let mut maxline: u64 = 1;
    let nl = d.labels.len();
    let mut li: usize = 0;
    while li < nl
        invariant
            nl == d.labels@.len(),
        decreases nl - li,
    {
        let (l, _) = line_of(src, d.labels[li].span.0);
        if l > maxline {
            maxline = l;
        }
        li += 1;
    }
    let (ploc_line, ploc_start) = line_of(src, d.primary.0);
    if ploc_line > maxline {
        maxline = ploc_line;
    }
    let w = dec_width(maxline) + 1;
    // Location line.
    push_repeat(&mut buf, " ", w + 1);
    push_str_bytes(&mut buf, "\u{256d}\u{2500}[");
    match origin {
        Some(o) => {
            push_str_bytes(&mut buf, o);
        },
        None => {
            push_str_bytes(&mut buf, "line");
        },
    }
    push_str_bytes(&mut buf, ":");
    push_dec(&mut buf, ploc_line);
    push_str_bytes(&mut buf, ":");
    let pcol = scalar_col(src, ploc_start, d.primary.0);
    push_dec(&mut buf, pcol);
    push_str_bytes(&mut buf, "]\n");
    push_repeat(&mut buf, " ", w + 1);
    push_str_bytes(&mut buf, "\u{2502}\n");
    // Source excerpts, one group of labels per source line.
    let mut gi: usize = 0;
    let mut prev_line: u64 = 0;
    while gi < nl
        invariant
            nl == d.labels@.len(),
            gi <= nl,
            w <= 7,
        decreases nl - gi,
    {
        let (gline, gstart) = line_of(src, d.labels[gi].span.0);
        // Find the group extent: consecutive labels on this same line.
        let mut ge: usize = gi + 1;
        loop
            invariant
                nl == d.labels@.len(),
                gi < ge <= nl,
            ensures
                gi < ge <= nl,
            decreases nl - ge,
        {
            if ge >= nl {
                break;
            }
            let (l2, _) = line_of(src, d.labels[ge].span.0);
            if l2 == gline {
                ge += 1;
            } else {
                break;
            }
        }
        // Separator between non-adjacent excerpt lines.
        if prev_line > 0 && gline > prev_line && gline - prev_line > 1 {
            push_repeat(&mut buf, " ", w + 1);
            push_str_bytes(&mut buf, "\u{00b7} \n");
        }
        prev_line = gline;
        // The source line itself.
        let gend = line_end(src, gstart);
        push_padded_num(&mut buf, gline, w);
        push_str_bytes(&mut buf, " \u{2502} ");
        push_line_text(&mut buf, src, gstart, gend);
        push_str_bytes(&mut buf, "\n");
        // Marker geometry for each label of the group.
        let single = ge == gi + 1;
        if single && matches!(d.labels[gi].style, LabelStyle::Point) {
            let c = disp_col(src, gstart, d.labels[gi].span.0);
            push_repeat(&mut buf, " ", w + 1);
            push_str_bytes(&mut buf, "\u{00b7}");
            push_repeat(&mut buf, " ", c);
            push_str_bytes(&mut buf, "\u{2502} \n");
            push_repeat(&mut buf, " ", w + 1);
            push_str_bytes(&mut buf, "\u{00b7}");
            push_repeat(&mut buf, " ", c);
            push_str_bytes(&mut buf, "\u{2570}\u{2500} ");
            push_bytes(&mut buf, d.labels[gi].text.as_slice());
            push_str_bytes(&mut buf, "\n");
        } else {
            // Underline line covering every label of the group.
            push_repeat(&mut buf, " ", w + 1);
            push_str_bytes(&mut buf, "\u{00b7}");
            let mut cursor: usize = 0;
            let mut target: usize = 0;
            let mut k = gi;
            while k < ge
                invariant
                    nl == d.labels@.len(),
                    gi <= k <= ge <= nl,
                    gstart <= src@.len(),
                    w <= 7,
                        decreases ge - k,
            {
                let sp = d.labels[k].span;
                let c = disp_col(src, gstart, sp.0);
                let len = char_width(src, sp.0, sp.1);
                if c >= cursor {
                    push_repeat(&mut buf, " ", c - cursor);
                    let mid = len / 2;
                    push_repeat(&mut buf, "\u{2500}", mid);
                    push_str_bytes(&mut buf, "\u{252c}");
                    if len >= mid + 1 {
                        push_repeat(&mut buf, "\u{2500}", len - mid - 1);
                    }
                    cursor = if c <= usize::MAX - len {
                        c + len
                    } else {
                        c
                    };
                    let t = if cursor <= usize::MAX - 1 {
                        cursor + 1
                    } else {
                        cursor
                    };
                    if t > target {
                        target = t;
                    }
                }
                k += 1;
            }
            push_str_bytes(&mut buf, "  \n");
            // One leader per label, in order; later labels first get a
            // continuation line marking their stems.
            let mut k2 = gi;
            while k2 < ge
                invariant
                    nl == d.labels@.len(),
                    gi <= k2 <= ge <= nl,
                    gstart <= src@.len(),
                    w <= 7,
                        decreases ge - k2,
            {
                let sp = d.labels[k2].span;
                let c = disp_col(src, gstart, sp.0);
                let len = char_width(src, sp.0, sp.1);
                let mid = len / 2;
                let stem = if c <= usize::MAX - mid {
                    c + mid
                } else {
                    c
                };
                if k2 > gi {
                    // Continuation line with this label's stem.
                    push_repeat(&mut buf, " ", w + 1);
                    push_str_bytes(&mut buf, "\u{00b7}");
                    push_repeat(&mut buf, " ", stem);
                    push_str_bytes(&mut buf, "\u{2502}");
                    if target > stem {
                        push_repeat(&mut buf, " ", target - stem);
                    }
                    push_str_bytes(&mut buf, "\n");
                }
                push_repeat(&mut buf, " ", w + 1);
                push_str_bytes(&mut buf, "\u{00b7}");
                push_repeat(&mut buf, " ", stem);
                push_str_bytes(&mut buf, "\u{2570}");
                if target > stem {
                    push_repeat(&mut buf, "\u{2500}", target - stem);
                }
                push_str_bytes(&mut buf, " ");
                push_bytes(&mut buf, d.labels[k2].text.as_slice());
                push_str_bytes(&mut buf, "\n");
                k2 += 1;
            }
        }
        gi = ge;
    }
    // Optional note.
    match &d.note {
        Some(n) => {
            push_repeat(&mut buf, " ", w + 1);
            push_str_bytes(&mut buf, "\u{00b7} \n");
            push_repeat(&mut buf, " ", w + 1);
            push_str_bytes(&mut buf, "\u{00b7} Note: ");
            push_bytes(&mut buf, n.as_slice());
            push_str_bytes(&mut buf, "\n");
        },
        None => {},
    }
    // Closing frame.
    push_repeat(&mut buf, "\u{2500}", w + 1);
    push_bytes(&mut out, buf.as_slice());
    push_frame_close(&mut out);
    proof {
        assert(out@ =~= hdr + buf@ + frame_close_tail());
        assert(out@.subrange(0, hdr.len() as int) =~= hdr);
        assert(out@.subrange(out@.len() - 4, out@.len() as int) =~= frame_close_tail());
    }
    out
}

} // verus!
