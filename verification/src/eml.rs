use vstd::prelude::*;

verus! {

// ---------------------------------------------------------------------------
// Trusted declarations for the outside crates this module calls.
// ---------------------------------------------------------------------------

/// The insertion-ordered map used for collected header fields.
#[verifier::external_type_specification]
#[verifier::external_body]
#[verifier::reject_recursive_types(K)]
#[verifier::reject_recursive_types(V)]
#[verifier::reject_recursive_types(S)]
pub struct ExIndexMap<K, V, S>(indexmap::IndexMap<K, V, S>);

/// The entries held by a header map: key/value byte strings in insertion
/// order.
pub uninterp spec fn map_entries(m: &indexmap::IndexMap<Vec<u8>, Vec<u8>>) -> Seq<
    (Seq<u8>, Seq<u8>),
>;

/// Relies on IndexMap::new: a freshly created map holds no entries.
#[verifier::external_body]
fn im_new() -> (r: indexmap::IndexMap<Vec<u8>, Vec<u8>>)
    ensures
        map_entries(&r) == Seq::<(Seq<u8>, Seq<u8>)>::empty(),
{
    indexmap::IndexMap::new()
}

/// Relies on IndexMap::insert: inserting a fresh key appends the pair at
/// the end; inserting an existing key keeps its position and replaces its
/// value.
#[verifier::external_body]
fn im_insert(m: &mut indexmap::IndexMap<Vec<u8>, Vec<u8>>, k: Vec<u8>, v: Vec<u8>)
    ensures
        (exists|i: int|
            0 <= i < map_entries(&*old(m)).len() && (#[trigger] map_entries(&*old(m))[i]).0
                == k@) ==> map_entries(&*final(m)) == map_entries(&*old(m)).update(
            choose|i: int|
                0 <= i < map_entries(&*old(m)).len() && (#[trigger] map_entries(&*old(m))[
                    i
                ]).0 == k@,
            (k@, v@),
        ),
        !(exists|i: int|
            0 <= i < map_entries(&*old(m)).len() && (#[trigger] map_entries(&*old(m))[i]).0
                == k@) ==> map_entries(&*final(m)) == map_entries(&*old(m)).push((k@, v@)),
{
    m.insert(k, v);
}

/// Relies on IndexMap::get: returns the value stored under the key, if any.
#[verifier::external_body]
fn im_get(m: &indexmap::IndexMap<Vec<u8>, Vec<u8>>, k: &Vec<u8>) -> (r: Option<Vec<u8>>)
    ensures
        r is Some <==> (exists|i: int|
            0 <= i < map_entries(m).len() && (#[trigger] map_entries(m)[i]).0 == k@),
        r matches Some(v) ==> (exists|i: int|
            0 <= i < map_entries(m).len() && (#[trigger] map_entries(m)[i]).0 == k@
                && map_entries(m)[i].1 == v@),
{
    m.get(k).cloned()
}

/// Relies on IndexMap::iter: iteration yields the entries in insertion
/// order.
#[verifier::external_body]
fn im_entries_vec(m: &indexmap::IndexMap<Vec<u8>, Vec<u8>>) -> (r: Vec<(Vec<u8>, Vec<u8>)>)
    ensures
        r@.len() == map_entries(m).len(),
        forall|i: int|
            0 <= i < r@.len() ==> (#[trigger] r@[i]).0@ == map_entries(m)[i].0 && r@[i].1@
                == map_entries(m)[i].1,
{
    m.iter().map(|(k, v)| (k.clone(), v.clone())).collect()
}

/// What decoding a byte sequence as standard-alphabet base64 yields:
/// `None` for input that is not valid base64.  The result is a function of
/// the input bytes alone.
pub uninterp spec fn base64_decoding(s: Seq<u8>) -> Option<Seq<u8>>;

/// Relies on the base64 crate's STANDARD engine: decodes, or fails, purely
/// according to the input bytes.
#[verifier::external_body]
fn base64_decode(input: &Vec<u8>) -> (r: Option<Vec<u8>>)
    ensures
        r is Some <==> base64_decoding(input@) is Some,
        r matches Some(v) ==> base64_decoding(input@) == Some(v@),
{
    match base64::Engine::decode(&base64::engine::general_purpose::STANDARD, input.as_slice()) {
        Ok(v) => Some(v),
        Err(_) => None,
    }
}

// ---------------------------------------------------------------------------
// Byte helpers, each proved equal to its specification function.
// ---------------------------------------------------------------------------

pub open spec fn spec_is_ascii_ws(b: u8) -> bool {
    b == 32 || b == 9 || b == 10 || b == 13 || b == 11 || b == 12
}

/// The bytes kept when whitespace is stripped before decoding.
pub open spec fn non_ws_class() -> spec_fn(u8) -> bool {
    |x: u8| !spec_is_ascii_ws(x)
}

fn is_ascii_ws(b: u8) -> (r: bool)
    ensures
        r == spec_is_ascii_ws(b),
{
    b == 32 || b == 9 || b == 10 || b == 13 || b == 11 || b == 12
}

/// First index in `[from, to)` holding byte `b`, or `to`.
pub open spec fn spec_find(s: Seq<u8>, from: int, to: int, b: u8) -> int
    decreases to - from,
    when from <= to
{
    if from >= to {
        to
    } else if s[from] == b {
        from
    } else {
        spec_find(s, from + 1, to, b)
    }
}

fn find_byte(v: &Vec<u8>, from: usize, to: usize, b: u8) -> (r: Option<usize>)
    requires
        from <= to <= v@.len(),
    ensures
        r matches Some(p) ==> from <= p < to && v@[p as int] == b && p as int == spec_find(
            v@,
            from as int,
            to as int,
            b,
        ),
        r is None ==> spec_find(v@, from as int, to as int, b) == to,
{
    let mut k: usize = from;
    while k < to
        invariant
            from <= k <= to <= v@.len(),
            spec_find(v@, from as int, to as int, b) == spec_find(v@, k as int, to as int, b),
        decreases to - k,
    {
        if v[k] == b {
            proof {
                assert(spec_find(v@, k as int, to as int, b) == k as int);
            }
            return Some(k);
        }
        proof {
            assert(spec_find(v@, k as int, to as int, b) == spec_find(
                v@,
                k + 1,
                to as int,
                b,
            ));
        }
        k += 1;
    }
    proof {
        assert(spec_find(v@, k as int, to as int, b) == to);
    }
    None
}

/// First index in `[from, to)` holding a non-whitespace byte, or `to`.
pub open spec fn spec_skip_ws(s: Seq<u8>, from: int, to: int) -> int
    decreases to - from,
    when from <= to
{
    if from >= to {
        to
    } else if spec_is_ascii_ws(s[from]) {
        spec_skip_ws(s, from + 1, to)
    } else {
        from
    }
}

/// One past the last non-whitespace byte of `[from, to)`, or `from`.
pub open spec fn spec_rskip_ws(s: Seq<u8>, from: int, to: int) -> int
    decreases to - from,
    when from <= to
{
    if to <= from {
        from
    } else if spec_is_ascii_ws(s[to - 1]) {
        spec_rskip_ws(s, from, to - 1)
    } else {
        to
    }
}

/// `s[from..to]` with ASCII whitespace stripped from both ends.
pub open spec fn spec_trim(s: Seq<u8>, from: int, to: int) -> Seq<u8> {
    let a = spec_skip_ws(s, from, to);
    s.subrange(a, spec_rskip_ws(s, a, to))
}

/// Copies `v[from..to]` with ASCII whitespace trimmed from both ends.
fn trim_range(v: &Vec<u8>, from: usize, to: usize) -> (r: Vec<u8>)
    requires
        from <= to <= v@.len(),
    ensures
        r@ == spec_trim(v@, from as int, to as int),
{
    let mut a: usize = from;
    while a < to && is_ascii_ws(v[a])
        invariant
            from <= a <= to <= v@.len(),
            spec_skip_ws(v@, from as int, to as int) == spec_skip_ws(v@, a as int, to as int),
        decreases to - a,
    {
        proof {
            assert(spec_skip_ws(v@, a as int, to as int) == spec_skip_ws(
                v@,
                a + 1,
                to as int,
            ));
        }
        a += 1;
    }
    proof {
        assert(spec_skip_ws(v@, a as int, to as int) == a as int);
    }
    let mut b: usize = to;
    while b > a && is_ascii_ws(v[b - 1])
        invariant
            from <= a <= b <= to <= v@.len(),
            spec_rskip_ws(v@, a as int, to as int) == spec_rskip_ws(v@, a as int, b as int),
        decreases b,
    {
        proof {
            assert(spec_rskip_ws(v@, a as int, b as int) == spec_rskip_ws(
                v@,
                a as int,
                b - 1,
            ));
        }
        b -= 1;
    }
    proof {
        assert(spec_rskip_ws(v@, a as int, b as int) == b as int);
    }
    let mut r: Vec<u8> = Vec::new();
    let mut k: usize = a;
    while k < b
        invariant
            a <= k <= b <= v@.len(),
            r@ == v@.subrange(a as int, k as int),
        decreases b - k,
    {
        r.push(v[k]);
        proof {
            assert(v@.subrange(a as int, k + 1) =~= v@.subrange(a as int, k as int) + seq![
                v@[k as int]
            ]);
        }
        k += 1;
    }
    proof {
        assert(r@ == v@.subrange(a as int, b as int));
    }
    r
}

fn copy_vec(a: &Vec<u8>) -> (r: Vec<u8>)
    ensures
        r@ == a@,
{
    let mut r: Vec<u8> = Vec::new();
    let n = a.len();
    let mut k: usize = 0;
    while k < n
        invariant
            k <= n,
            n == a@.len(),
            r@ == a@.subrange(0, k as int),
        decreases n - k,
    {
        r.push(a[k]);
        proof {
            assert(a@.subrange(0, k + 1) =~= a@.subrange(0, k as int) + seq![a@[k as int]]);
        }
        k += 1;
    }
    proof {
        assert(a@.subrange(0, n as int) =~= a@);
    }
    r
}

fn bytes_eq2(a: &Vec<u8>, b: &Vec<u8>) -> (r: bool)
    ensures
        r <==> a@ == b@,
{
    if a.len() != b.len() {
        proof {
            assert(a@.len() != b@.len());
        }
        return false;
    }
    let n = a.len();
    let mut k: usize = 0;
    while k < n
        invariant
            k <= n,
            n == a@.len(),
            n == b@.len(),
            forall|m: int| 0 <= m < k ==> a@[m] == b@[m],
        decreases n - k,
    {
        if a[k] != b[k] {
            return false;
        }
        k += 1;
    }
    proof {
        assert(a@ =~= b@);
    }
    true
}

// ---------------------------------------------------------------------------
// The header/body separator.
// ---------------------------------------------------------------------------

/// The four-byte CRLF-CRLF separator occurs at `k`.
pub open spec fn crlf2_at(s: Seq<u8>, k: int) -> bool {
    &&& 0 <= k
    &&& k + 4 <= s.len()
    &&& s[k] == 13
    &&& s[k + 1] == 10
    &&& s[k + 2] == 13
    &&& s[k + 3] == 10
}

/// The two-byte LF-LF separator occurs at `k`.
pub open spec fn lf2_at(s: Seq<u8>, k: int) -> bool {
    &&& 0 <= k
    &&& k + 2 <= s.len()
    &&& s[k] == 10
    &&& s[k + 1] == 10
}

/// First offset at or after `i` where CRLF-CRLF occurs, or the length.
pub open spec fn spec_find_crlf2(s: Seq<u8>, i: int) -> int
    decreases s.len() - i,
    when 0 <= i <= s.len()
{
    if i + 4 > s.len() {
        s.len() as int
    } else if crlf2_at(s, i) {
        i
    } else {
        spec_find_crlf2(s, i + 1)
    }
}

/// First offset at or after `i` where LF-LF occurs, or the length.
pub open spec fn spec_find_lf2(s: Seq<u8>, i: int) -> int
    decreases s.len() - i,
    when 0 <= i <= s.len()
{
    if i + 2 > s.len() {
        s.len() as int
    } else if lf2_at(s, i) {
        i
    } else {
        spec_find_lf2(s, i + 1)
    }
}

pub proof fn lemma_find_crlf2_props(s: Seq<u8>, i: int)
    requires
        0 <= i <= s.len(),
    ensures
        i <= spec_find_crlf2(s, i) <= s.len(),
        spec_find_crlf2(s, i) < s.len() ==> crlf2_at(s, spec_find_crlf2(s, i)),
        forall|q: int| i <= q < spec_find_crlf2(s, i) ==> !crlf2_at(s, q),
        spec_find_crlf2(s, i) == s.len() ==> forall|q: int| i <= q ==> !crlf2_at(s, q),
    decreases s.len() - i,
{
    if i + 4 > s.len() {
    } else if crlf2_at(s, i) {
    } else {
        lemma_find_crlf2_props(s, i + 1);
    }
}

pub proof fn lemma_find_lf2_props(s: Seq<u8>, i: int)
    requires
        0 <= i <= s.len(),
    ensures
        i <= spec_find_lf2(s, i) <= s.len(),
        spec_find_lf2(s, i) < s.len() ==> lf2_at(s, spec_find_lf2(s, i)),
        forall|q: int| i <= q < spec_find_lf2(s, i) ==> !lf2_at(s, q),
        spec_find_lf2(s, i) == s.len() ==> forall|q: int| i <= q ==> !lf2_at(s, q),
    decreases s.len() - i,
{
    if i + 2 > s.len() {
    } else if lf2_at(s, i) {
    } else {
        lemma_find_lf2_props(s, i + 1);
    }
}

/// The split point of a message and the offset where its body starts: the
/// first CRLF-CRLF separator when one exists, else the first LF-LF
/// separator, else the end of the input.
pub open spec fn spec_split(s: Seq<u8>) -> (int, int) {
    let c = spec_find_crlf2(s, 0);
    if c < s.len() {
        (c, c + 4)
    } else {
        let l = spec_find_lf2(s, 0);
        if l < s.len() {
            (l, l + 2)
        } else {
            (s.len() as int, s.len() as int)
        }
    }
}

fn find_crlf2(v: &Vec<u8>) -> (r: Option<usize>)
    ensures
        r matches Some(p) ==> crlf2_at(v@, p as int) && p as int == spec_find_crlf2(v@, 0),
        r is None ==> spec_find_crlf2(v@, 0) == v@.len(),
{
    let n = v.len();
    if n < 4 {
        return None;
    }
    let mut k: usize = 0;
    while k <= n - 4
        invariant
            n == v@.len(),
            n >= 4,
            k <= n,
            spec_find_crlf2(v@, 0) == spec_find_crlf2(v@, k as int),
        decreases n - k,
    {
        if v[k] == 13 && v[k + 1] == 10 && v[k + 2] == 13 && v[k + 3] == 10 {
            proof {
                assert(spec_find_crlf2(v@, k as int) == k as int);
            }
            return Some(k);
        }
        proof {
            assert(spec_find_crlf2(v@, k as int) == spec_find_crlf2(v@, k + 1));
        }
        k += 1;
    }
    proof {
        assert(spec_find_crlf2(v@, k as int) == v@.len());
    }
    None
}

fn find_lf2(v: &Vec<u8>) -> (r: Option<usize>)
    ensures
        r matches Some(p) ==> lf2_at(v@, p as int) && p as int == spec_find_lf2(v@, 0),
        r is None ==> spec_find_lf2(v@, 0) == v@.len(),
{
    let n = v.len();
    if n < 2 {
        return None;
    }
    let mut k: usize = 0;
    while k <= n - 2
        invariant
            n == v@.len(),
            n >= 2,
            k <= n,
            spec_find_lf2(v@, 0) == spec_find_lf2(v@, k as int),
        decreases n - k,
    {
        if v[k] == 10 && v[k + 1] == 10 {
            proof {
                assert(spec_find_lf2(v@, k as int) == k as int);
            }
            return Some(k);
        }
        proof {
            assert(spec_find_lf2(v@, k as int) == spec_find_lf2(v@, k + 1));
        }
        k += 1;
    }
    proof {
        assert(spec_find_lf2(v@, k as int) == v@.len());
    }
    None
}

// ---------------------------------------------------------------------------
// The header entry list, at the specification level.
// ---------------------------------------------------------------------------

/// First index at or after `i` whose entry has key `k`, or the length.
pub open spec fn es_find_from(es: Seq<(Seq<u8>, Seq<u8>)>, k: Seq<u8>, i: int) -> int
    decreases es.len() - i,
    when 0 <= i <= es.len()
{
    if i >= es.len() {
        es.len() as int
    } else if es[i].0 == k {
        i
    } else {
        es_find_from(es, k, i + 1)
    }
}

pub open spec fn es_find(es: Seq<(Seq<u8>, Seq<u8>)>, k: Seq<u8>) -> int {
    es_find_from(es, k, 0)
}

/// The value stored under a key, if any.
pub open spec fn es_get(es: Seq<(Seq<u8>, Seq<u8>)>, k: Seq<u8>) -> Option<Seq<u8>> {
    if es_find(es, k) < es.len() {
        Some(es[es_find(es, k)].1)
    } else {
        None
    }
}

/// Inserting under an existing key keeps its position and replaces the
/// value; a fresh key is appended.
pub open spec fn es_insert(es: Seq<(Seq<u8>, Seq<u8>)>, k: Seq<u8>, v: Seq<u8>) -> Seq<
    (Seq<u8>, Seq<u8>),
> {
    if es_find(es, k) < es.len() {
        es.update(es_find(es, k), (k, v))
    } else {
        es.push((k, v))
    }
}

pub open spec fn keys_distinct(es: Seq<(Seq<u8>, Seq<u8>)>) -> bool {
    forall|i: int, j: int|
        0 <= i < j < es.len() ==> (#[trigger] es[i]).0 != (#[trigger] es[j]).0
}

pub proof fn lemma_es_find_props(es: Seq<(Seq<u8>, Seq<u8>)>, k: Seq<u8>, i: int)
    requires
        0 <= i <= es.len(),
    ensures
        i <= es_find_from(es, k, i) <= es.len(),
        es_find_from(es, k, i) < es.len() ==> es[es_find_from(es, k, i)].0 == k,
        forall|q: int| i <= q < es_find_from(es, k, i) ==> (#[trigger] es[q]).0 != k,
        es_find_from(es, k, i) == es.len() ==> forall|q: int|
            i <= q < es.len() ==> (#[trigger] es[q]).0 != k,
    decreases es.len() - i,
{
    if i >= es.len() {
    } else if es[i].0 == k {
    } else {
        lemma_es_find_props(es, k, i + 1);
    }
}

/// With distinct keys, any index whose entry holds the key is the found
/// index.
pub proof fn lemma_witness_is_es_find(es: Seq<(Seq<u8>, Seq<u8>)>, k: Seq<u8>, w: int)
    requires
        keys_distinct(es),
        0 <= w < es.len(),
        es[w].0 == k,
    ensures
        w == es_find(es, k),
{
    lemma_es_find_props(es, k, 0);
    let f = es_find(es, k);
    if f < w {
        assert(es[f].0 != es[w].0);
    }
}

pub proof fn lemma_es_insert_distinct(es: Seq<(Seq<u8>, Seq<u8>)>, k: Seq<u8>, v: Seq<u8>)
    requires
        keys_distinct(es),
    ensures
        keys_distinct(es_insert(es, k, v)),
{
    lemma_es_find_props(es, k, 0);
    let f = es_find(es, k);
    let es2 = es_insert(es, k, v);
    if f < es.len() {
        assert forall|i: int, j: int| 0 <= i < j < es2.len() implies (#[trigger] es2[i]).0 != (
        #[trigger] es2[j]).0 by {
            assert(es2[i].0 == es[i].0);
            assert(es2[j].0 == es[j].0);
        }
    } else {
        assert forall|i: int, j: int| 0 <= i < j < es2.len() implies (#[trigger] es2[i]).0 != (
        #[trigger] es2[j]).0 by {
            if j == es.len() {
                assert(es2[i].0 == es[i].0);
                assert(es[i].0 != k);
            }
        }
    }
}

// ---------------------------------------------------------------------------
// The header scanner, at the specification level.
// ---------------------------------------------------------------------------

pub open spec fn okey(o: Option<Vec<u8>>) -> Option<Seq<u8>> {
    match o {
        Some(v) => Some(v@),
        None => None,
    }
}

/// One header line `[ls, le)`: a line starting with a space or tab extends
/// the value of the most recently started field (when there is one and it
/// is still present); a line containing a colon starts a field with the
/// trimmed key and value; any other line is skipped.
pub open spec fn header_line_step(
    raw: Seq<u8>,
    ls: int,
    le: int,
    es: Seq<(Seq<u8>, Seq<u8>)>,
    last: Option<Seq<u8>>,
) -> (Seq<(Seq<u8>, Seq<u8>)>, Option<Seq<u8>>) {
    if ls < le && (raw[ls] == 32 || raw[ls] == 9) {
        match last {
            Some(k) => match es_get(es, k) {
                Some(v) => (
                    es_insert(es, k, v + seq![32u8] + spec_trim(raw, ls, le)),
                    last,
                ),
                None => (es, last),
            },
            None => (es, last),
        }
    } else {
        let c = spec_find(raw, ls, le, 58);
        if c < le {
            (
                es_insert(es, spec_trim(raw, ls, c), spec_trim(raw, c + 1, le)),
                Some(spec_trim(raw, ls, c)),
            )
        } else {
            (es, last)
        }
    }
}

/// Folds the header lines of `raw[..upto]`, one line per LF, starting at
/// offset `i` with the entries and pending key accumulated so far.
pub open spec fn headers_fold(
    raw: Seq<u8>,
    upto: int,
    i: int,
    es: Seq<(Seq<u8>, Seq<u8>)>,
    last: Option<Seq<u8>>,
) -> (Seq<(Seq<u8>, Seq<u8>)>, Option<Seq<u8>>)
    decreases upto - i,
    when 0 <= i && i <= upto
{
    if i >= upto {
        (es, last)
    } else {
        let f = spec_find(raw, i, upto, 10);
        let le = if f < i {
            i
        } else if f > upto {
            upto
        } else {
            f
        };
        let st = header_line_step(raw, i, le, es, last);
        if le < upto {
            headers_fold(raw, upto, le + 1, st.0, st.1)
        } else {
            st
        }
    }
}

/// The header fields of `raw[..upto]`: key/value pairs in first-occurrence
/// order of keys, later lines with a repeated key replacing the stored
/// value in place.
pub open spec fn headers_spec(raw: Seq<u8>, upto: int) -> Seq<(Seq<u8>, Seq<u8>)> {
    headers_fold(raw, upto, 0, Seq::empty(), None).0
}

// ---------------------------------------------------------------------------
// Fixed byte strings.
// ---------------------------------------------------------------------------

/// The header key that selects a transfer decoding, as bytes.
pub open spec fn cte_key() -> Seq<u8> {
    seq![67u8, 111u8, 110u8, 116u8, 101u8, 110u8, 116u8, 45u8, 84u8, 114u8, 97u8, 110u8,
        115u8, 102u8, 101u8, 114u8, 45u8, 69u8, 110u8, 99u8, 111u8, 100u8, 105u8, 110u8,
        103u8]
}

fn cte_key_vec() -> (r: Vec<u8>)
    ensures
        r@ == cte_key(),
{
    let mut r: Vec<u8> = Vec::new();
    r.push(67);
    r.push(111);
    r.push(110);
    r.push(116);
    r.push(101);
    r.push(110);
    r.push(116);
    r.push(45);
    r.push(84);
    r.push(114);
    r.push(97);
    r.push(110);
    r.push(115);
    r.push(102);
    r.push(101);
    r.push(114);
    r.push(45);
    r.push(69);
    r.push(110);
    r.push(99);
    r.push(111);
    r.push(100);
    r.push(105);
    r.push(110);
    r.push(103);
    proof {
        assert(r@ =~= cte_key());
    }
    r
}

/// The transfer-encoding value that triggers decoding, as bytes.
pub open spec fn b64_value() -> Seq<u8> {
    seq![98u8, 97u8, 115u8, 101u8, 54u8, 52u8]
}

fn b64_value_vec() -> (r: Vec<u8>)
    ensures
        r@ == b64_value(),
{
    let mut r: Vec<u8> = Vec::new();
    r.push(98);
    r.push(97);
    r.push(115);
    r.push(101);
    r.push(54);
    r.push(52);
    proof {
        assert(r@ =~= b64_value());
    }
    r
}

/// The content-type prefix that marks a multipart message, as bytes.
pub open spec fn multipart_prefix() -> Seq<u8> {
    seq![109u8, 117u8, 108u8, 116u8, 105u8, 112u8, 97u8, 114u8, 116u8, 47u8]
}

fn multipart_prefix_vec() -> (r: Vec<u8>)
    ensures
        r@ == multipart_prefix(),
{
    let mut r: Vec<u8> = Vec::new();
    r.push(109);
    r.push(117);
    r.push(108);
    r.push(116);
    r.push(105);
    r.push(112);
    r.push(97);
    r.push(114);
    r.push(116);
    r.push(47);
    proof {
        assert(r@ =~= multipart_prefix());
    }
    r
}

fn boundary_marker_vec() -> (r: Vec<u8>)
    ensures
        r@.len() == 9,
{
    let mut r: Vec<u8> = Vec::new();
    r.push(98);
    r.push(111);
    r.push(117);
    r.push(110);
    r.push(100);
    r.push(97);
    r.push(114);
    r.push(121);
    r.push(61);
    r
}

// ---------------------------------------------------------------------------
// The message structure.
// ---------------------------------------------------------------------------

/// One collected header field.
#[derive(Debug)]
pub struct Header {
    pub key: Option<Vec<u8>>,
    pub value: Option<Vec<u8>>,
}

/// The structured form of a message: its header fields, raw body, and the
/// body decoded per its transfer encoding when that applies.
#[derive(Debug)]
pub struct Eml {
    pub is_eml: Option<bool>,
    pub headers: Vec<Header>,
    pub body: Option<Vec<u8>>,
    pub decoded_body: Option<Vec<u8>>,
}

impl Eml {
    pub fn new() -> (r: Eml)
        ensures
            r.is_eml is None,
            r.headers@.len() == 0,
            r.body is None,
            r.decoded_body is None,
    {
        Eml { is_eml: None, headers: Vec::new(), body: None, decoded_body: None }
    }
}

/// A message parser.
pub struct EmlParser {
    pub result: Eml,
}

impl EmlParser {
    /// Creates a new message parser, with an empty result slot.
    pub fn new() -> (r: EmlParser)
        ensures
            r.result.is_eml is None,
            r.result.headers@.len() == 0,
            r.result.body is None,
            r.result.decoded_body is None,
    {
        EmlParser { result: Eml::new() }
    }

    /// Splits a message into its header block and body: at the first blank
    /// CRLF line when one exists, else at the first blank LF line, else the
    /// whole input is headers.
    pub fn split_message(&self, input: &Vec<u8>) -> (r: (usize, usize))
        ensures
            (r.0 as int, r.1 as int) == spec_split(input@),
            r.0 <= r.1 <= input@.len(),
            (exists|q: int| crlf2_at(input@, q)) ==> crlf2_at(input@, r.0 as int) && r.1 == r.0
                + 4 && forall|q: int| 0 <= q < r.0 ==> !crlf2_at(input@, q),
            !(exists|q: int| crlf2_at(input@, q)) && (exists|q: int| lf2_at(input@, q))
                ==> lf2_at(input@, r.0 as int) && r.1 == r.0 + 2 && forall|q: int|
                0 <= q < r.0 ==> !lf2_at(input@, q),
            !(exists|q: int| crlf2_at(input@, q)) && !(exists|q: int| lf2_at(input@, q)) ==> r.0
                == input@.len() && r.1 == input@.len(),
    {
        let n = input.len();
        proof {
            lemma_find_crlf2_props(input@, 0);
            lemma_find_lf2_props(input@, 0);
        }
        match find_crlf2(input) {
            Some(p) => (p, p + 4),
            None => {
                match find_lf2(input) {
                    Some(p) => (p, p + 2),
                    None => (n, n),
                }
            },
        }
    }

    /// Collects the header fields of `raw[..upto]`, one line per LF:
    /// `key: value` lines start a field with trimmed key and value, lines
    /// beginning with a space or tab continue the most recent field's
    /// value, a repeated key replaces the stored value at its first
    /// position, and keys stay unique in first-occurrence order.
    pub fn parse_headers(&self, raw: &Vec<u8>, upto: usize) -> (r: indexmap::IndexMap<
        Vec<u8>,
        Vec<u8>,
    >)
        requires
            upto <= raw@.len(),
        ensures
            map_entries(&r) == headers_spec(raw@, upto as int),
            keys_distinct(map_entries(&r)),
    {
        let mut headers = im_new();
        let mut last_key: Option<Vec<u8>> = None;
        let mut ls: usize = 0;
        while ls < upto
            invariant
                upto <= raw@.len(),
                ls <= upto,
                keys_distinct(map_entries(&headers)),
                headers_fold(raw@, upto as int, ls as int, map_entries(&headers), okey(
                    last_key,
                )) == headers_fold(
                    raw@,
                    upto as int,
                    0,
                    Seq::<(Seq<u8>, Seq<u8>)>::empty(),
                    None,
                ),
            decreases upto - ls,
        {
            let ghost ls0 = ls as int;
            let ghost es0 = map_entries(&headers);
            let ghost last0 = okey(last_key);
            // The line runs to the next LF; a trailing CR is part of the
            // trimmed-away whitespace.
            let le = match find_byte(raw, ls, upto, 10) {
                Some(p) => p,
                None => upto,
            };
            proof {
                let f = spec_find(raw@, ls0, upto as int, 10);
                assert(le as int == if f < ls0 {
                    ls0
                } else if f > upto {
                    upto as int
                } else {
                    f
                });
            }
            let first = raw[ls];
            if ls < le && (first == 32 || first == 9) {
                // Continuation of the previous field's value.
                match &last_key {
                    Some(k) => {
                        let got = im_get(&headers, k);
                        match got {
                            Some(old_val) => {
                                proof {
                                    // The witness behind the lookup is the
                                    // unique index holding this key.
                                    assert forall|w: int|
                                        0 <= w < es0.len() && (#[trigger] es0[w]).0 == k@
                                            implies w == es_find(es0, k@) by {
                                        lemma_witness_is_es_find(es0, k@, w);
                                    }
                                    lemma_es_find_props(es0, k@, 0);
                                    assert(es_get(es0, k@) == Some(old_val@));
                                }
                                let mut nv = old_val;
                                nv.push(32);
                                let ghost nv_mid = nv@;
                                let cont = trim_range(raw, ls, le);
                                let mut ci: usize = 0;
                                while ci < cont.len()
                                    invariant
                                        ci <= cont@.len(),
                                        nv@ == nv_mid + cont@.subrange(0, ci as int),
                                    decreases cont@.len() - ci,
                                {
                                    nv.push(cont[ci]);
                                    proof {
                                        assert(nv_mid + cont@.subrange(0, ci + 1) =~= nv@);
                                    }
                                    ci += 1;
                                }
                                proof {
                                    assert(cont@.subrange(0, cont@.len() as int) =~= cont@);
                                    assert(nv@ =~= es_get(es0, k@)->Some_0 + seq![32u8]
                                        + spec_trim(raw@, ls0, le as int));
                                }
                                let key_copy = copy_vec(k);
                                im_insert(&mut headers, key_copy, nv);
                                proof {
                                    assert forall|w: int|
                                        0 <= w < es0.len() && (#[trigger] es0[w]).0 == k@
                                            implies w == es_find(es0, k@) by {
                                        lemma_witness_is_es_find(es0, k@, w);
                                    }
                                    lemma_es_find_props(es0, k@, 0);
                                    assert(map_entries(&headers) == es_insert(es0, k@, nv@));
                                    lemma_es_insert_distinct(es0, k@, nv@);
                                }
                            },
                            None => {
                                proof {
                                    lemma_es_find_props(es0, k@, 0);
                                    assert(es_get(es0, k@) is None);
                                }
                            },
                        }
                    },
                    None => {},
                }
                proof {
                    assert(header_line_step(raw@, ls0, le as int, es0, last0) == (map_entries(
                        &headers,
                    ), okey(last_key)));
                }
            } else {
                match find_byte(raw, ls, le, 58) {
                    Some(colon) => {
                        let key = trim_range(raw, ls, colon);
                        let value = trim_range(raw, colon + 1, le);
                        let key2 = copy_vec(&key);
                        let ghost kk = key@;
                        im_insert(&mut headers, key, value);
                        last_key = Some(key2);
                        proof {
                            if exists|i: int|
                                0 <= i < es0.len() && (#[trigger] es0[i]).0 == kk {
                                assert forall|w: int|
                                    0 <= w < es0.len() && (#[trigger] es0[w]).0 == kk
                                        implies w == es_find(es0, kk) by {
                                    lemma_witness_is_es_find(es0, kk, w);
                                }
                                lemma_es_find_props(es0, kk, 0);
                                assert(map_entries(&headers) == es_insert(
                                    es0,
                                    kk,
                                    spec_trim(raw@, colon + 1, le as int),
                                ));
                            } else {
                                lemma_es_find_props(es0, kk, 0);
                                assert(es_find(es0, kk) == es0.len());
                                assert(map_entries(&headers) == es_insert(
                                    es0,
                                    kk,
                                    spec_trim(raw@, colon + 1, le as int),
                                ));
                            }
                            lemma_es_insert_distinct(
                                es0,
                                kk,
                                spec_trim(raw@, colon + 1, le as int),
                            );
                            assert(header_line_step(raw@, ls0, le as int, es0, last0) == (
                                map_entries(&headers),
                                okey(last_key),
                            ));
                        }
                    },
                    None => {
                        proof {
                            assert(spec_find(raw@, ls0, le as int, 58) == le as int);
                            assert(header_line_step(raw@, ls0, le as int, es0, last0) == (
                                map_entries(&headers),
                                okey(last_key),
                            ));
                        }
                    },
                }
            }
            proof {
                assert(headers_fold(raw@, upto as int, ls0, es0, last0) == headers_fold(
                    raw@,
                    upto as int,
                    if le < upto {
                        le + 1
                    } else {
                        upto as int
                    },
                    map_entries(&headers),
                    okey(last_key),
                ));
            }
            if le < upto {
                ls = le + 1;
            } else {
                ls = upto;
            }
        }
        proof {
            assert(headers_fold(raw@, upto as int, ls as int, map_entries(&headers), okey(
                last_key,
            )) == (map_entries(&headers), okey(last_key)));
        }
        headers
    }

    /// Parses a message: splits headers from body at the first blank line,
    /// collects the header fields, keeps the trimmed body, and decodes the
    /// body exactly when the headers carry the base64 transfer encoding and
    /// the whitespace-stripped body decodes cleanly.
    pub fn parse(&mut self, input: &Vec<u8>) -> (r: Eml)
        ensures
            r.is_eml == Some(true),
            ({
                let es = headers_spec(input@, spec_split(input@).0);
                let body = spec_trim(input@, spec_split(input@).1, input@.len() as int);
                &&& r.headers@.len() == es.len()
                &&& forall|i: int|
                    0 <= i < es.len() ==> {
                        let h = #[trigger] r.headers@[i];
                        h.key is Some && h.key->0@ == es[i].0 && h.value is Some
                            && h.value->0@ == es[i].1
                    }
                &&& r.body is Some
                &&& r.body->0@ == body
                &&& (r.decoded_body is Some <==> es_get(es, cte_key()) == Some(b64_value())
                    && base64_decoding(body.filter(non_ws_class())) is Some)
                &&& (r.decoded_body matches Some(d) ==> base64_decoding(
                    body.filter(non_ws_class()),
                ) == Some(d@))
            }),
    {
        let (he, bs) = self.split_message(input);
        let headers = self.parse_headers(input, he);
        let ghost es = map_entries(&headers);
        let mut out = Eml::new();
        out.is_eml = Some(true);
        let entries = im_entries_vec(&headers);
        let mut i: usize = 0;
        while i < entries.len()
            invariant
                i <= entries@.len(),
                entries@.len() == es.len(),
                forall|x: int|
                    0 <= x < entries@.len() ==> (#[trigger] entries@[x]).0@ == es[x].0
                        && entries@[x].1@ == es[x].1,
                out.is_eml == Some(true),
                out.body is None,
                out.decoded_body is None,
                out.headers@.len() == i,
                forall|x: int|
                    0 <= x < i ==> {
                        let h = #[trigger] out.headers@[x];
                        h.key is Some && h.key->0@ == es[x].0 && h.value is Some
                            && h.value->0@ == es[x].1
                    },
            decreases entries@.len() - i,
        {
            let kc = copy_vec(&entries[i].0);
            let vc = copy_vec(&entries[i].1);
            out.headers.push(Header { key: Some(kc), value: Some(vc) });
            i += 1;
        }
        // The raw body, trimmed.
        let body = trim_range(input, bs, input.len());
        // A declared base64 transfer encoding is decoded; a body that does
        // not decode cleanly leaves the decoded form absent.
        let cte = cte_key_vec();
        let got = im_get(&headers, &cte);
        proof {
            assert forall|w: int|
                0 <= w < es.len() && (#[trigger] es[w]).0 == cte_key() implies w == es_find(
                es,
                cte_key(),
            ) by {
                lemma_witness_is_es_find(es, cte_key(), w);
            }
            lemma_es_find_props(es, cte_key(), 0);
        }
        match got {
            Some(enc) => {
                proof {
                    assert(es_get(es, cte_key()) == Some(enc@));
                }
                let b64 = b64_value_vec();
                if bytes_eq2(&enc, &b64) {
                    let mut cleaned: Vec<u8> = Vec::new();
                    let mut ci: usize = 0;
                    while ci < body.len()
                        invariant
                            ci <= body@.len(),
                            cleaned@ == body@.subrange(0, ci as int).filter(non_ws_class()),
                        decreases body@.len() - ci,
                    {
                        let ghost pre = body@.subrange(0, ci as int);
                        let ghost cur = body@.subrange(0, ci + 1);
                        proof {
                            reveal(Seq::filter);
                            assert(cur.drop_last() =~= pre);
                            assert(cur.last() == body@[ci as int]);
                        }
                        if !is_ascii_ws(body[ci]) {
                            cleaned.push(body[ci]);
                        }
                        ci += 1;
                    }
                    proof {
                        assert(body@.subrange(0, body@.len() as int) =~= body@);
                    }
                    match base64_decode(&cleaned) {
                        Some(decoded) => {
                            out.decoded_body = Some(decoded);
                        },
                        None => {},
                    }
                }
            },
            None => {
                proof {
                    assert(es_get(es, cte_key()) is None);
                }
            },
        }
        out.body = Some(body);
        out
    }
}

/// The boundary parameter of a multipart content type, when the value
/// declares one: either quoted (`boundary="x"`) or running to the next `;`.
/// Multipart splitting itself is outside this module's scope; callers that
/// need the parts use this to recognize the separator.
pub fn content_type_boundary(content_type: &Vec<u8>) -> (r: Option<Vec<u8>>)
    ensures
        r is Some ==> content_type@.len() >= multipart_prefix().len() && content_type@.subrange(
            0,
            multipart_prefix().len() as int,
        ) == multipart_prefix(),
        content_type@.len() >= multipart_prefix().len() && content_type@.subrange(
            0,
            multipart_prefix().len() as int,
        ) != multipart_prefix() ==> r is None,
{
    // Only multipart content types carry a boundary.
    let prefix = multipart_prefix_vec();
    if content_type.len() < prefix.len() {
        return None;
    }
    let mut k: usize = 0;
    while k < prefix.len()
        invariant
            k <= prefix@.len(),
            prefix@ == multipart_prefix(),
            prefix@.len() <= content_type@.len(),
            forall|m: int| 0 <= m < k ==> content_type@[m] == prefix@[m],
        decreases prefix@.len() - k,
    {
        if content_type[k] != prefix[k] {
            proof {
                assert(content_type@.subrange(0, prefix@.len() as int)[k as int] != prefix@[
                    k as int
                ]);
            }
            return None;
        }
        k += 1;
    }
    proof {
        assert(content_type@.subrange(0, prefix@.len() as int) =~= prefix@);
    }
    // Locate `boundary=`.
    let marker = boundary_marker_vec();
    let n = content_type.len();
    let mn = marker.len();
    if mn > n || mn == 0 {
        return None;
    }
    let mut p: usize = 0;
    let mut found: Option<usize> = None;
    while p <= n - mn
        invariant
            mn == marker@.len(),
            n == content_type@.len(),
            1 <= mn <= n,
            p <= n,
            content_type@.subrange(0, multipart_prefix().len() as int) == multipart_prefix(),
            multipart_prefix().len() <= n,
            found matches Some(s) ==> s <= n,
        ensures
            found matches Some(s) ==> s <= n,
            content_type@.subrange(0, multipart_prefix().len() as int) == multipart_prefix(),
            multipart_prefix().len() <= n,
            n == content_type@.len(),
        decreases n - p,
    {
        let mut q: usize = 0;
        let mut all = true;
        while q < mn
            invariant
                q <= mn,
                mn == marker@.len(),
                n == content_type@.len(),
                p + mn <= n,
            decreases mn - q,
        {
            if content_type[p + q] != marker[q] {
                all = false;
            }
            q += 1;
        }
        if all {
            found = Some(p + mn);
            break;
        }
        p += 1;
    }
    match found {
        Some(start) => {
            let rest = trim_range(content_type, start, n);
            if rest.len() >= 2 && rest[0] == 34 {
                // A quoted boundary runs to the closing quote.
                let mut e: usize = 1;
                while e < rest.len() && rest[e] != 34
                    invariant
                        1 <= e <= rest@.len(),
                    decreases rest@.len() - e,
                {
                    e += 1;
                }
                Some(trim_range(&rest, 1, e))
            } else {
                // An unquoted boundary runs to the next `;`.
                let e = match find_byte(&rest, 0, rest.len(), 59) {
                    Some(x) => x,
                    None => rest.len(),
                };
                Some(trim_range(&rest, 0, e))
            }
        },
        None => None,
    }
}

} // verus!
