use vstd::prelude::*;
use crate::span::Span;
use crate::diag::{Diagnostic, DiagKind, Severity, Label, LabelStyle, push_str_bytes, push_bytes};
use crate::ast::{SourceFile, RuleDecl, PatternDecl, PatternKind, PatternMod, ModKind, Expr, OfSet, NameRef};

verus! {

// ---------------------------------------------------------------------------
// Duplicate-rule accounting: the specification behind the validator's
// central promise.
// ---------------------------------------------------------------------------

/// Rule `i` repeats the name of an earlier rule.
pub open spec fn is_dup_rule(rules: Seq<RuleDecl>, i: int) -> bool {
    exists|j: int| 0 <= j < i && rules[j].name@ == rules[i].name@
}

/// Number of rules among the first `k` that repeat an earlier name.
pub open spec fn dup_count(rules: Seq<RuleDecl>, k: int) -> int
    decreases k,
{
    if k <= 0 {
        0
    } else {
        dup_count(rules, k - 1) + if is_dup_rule(rules, k - 1) {
            1int
        } else {
            0int
        }
    }
}

/// Number of duplicate-rule diagnostics among the first `k` entries.
pub open spec fn dup_diag_count(ds: Seq<Diagnostic>, k: int) -> int
    decreases k,
{
    if k <= 0 {
        0
    } else {
        dup_diag_count(ds, k - 1) + if ds[k - 1].kind == DiagKind::DuplicateRule {
            1int
        } else {
            0int
        }
    }
}

proof fn lemma_dup_diag_count_prefix(ds1: Seq<Diagnostic>, ds2: Seq<Diagnostic>, k: int)
    requires
        0 <= k <= ds1.len(),
        k <= ds2.len(),
        forall|x: int| 0 <= x < k ==> ds1[x] == ds2[x],
    ensures
        dup_diag_count(ds1, k) == dup_diag_count(ds2, k),
    decreases k,
{
    if k > 0 {
        lemma_dup_diag_count_prefix(ds1, ds2, k - 1);
    }
}

/// Appending diagnostics of other kinds does not change the duplicate-rule
/// count.
proof fn lemma_dup_diag_count_extend(ds1: Seq<Diagnostic>, ds2: Seq<Diagnostic>, k: int)
    requires
        ds1.len() <= k <= ds2.len(),
        forall|x: int| 0 <= x < ds1.len() ==> ds1[x] == ds2[x],
        forall|x: int| ds1.len() <= x < ds2.len() ==> (#[trigger] ds2[x]).kind
            != DiagKind::DuplicateRule,
    ensures
        dup_diag_count(ds2, k) == dup_diag_count(ds1, ds1.len() as int),
    decreases k,
{
    if k > ds1.len() {
        lemma_dup_diag_count_extend(ds1, ds2, k - 1);
    } else {
        lemma_dup_diag_count_prefix(ds1, ds2, k);
    }
}

/// Names inserted by a list of referenced set members.
pub open spec fn names_of(list: Seq<NameRef>, k: int) -> Set<Seq<u8>>
    decreases k,
{
    if k <= 0 {
        Set::empty()
    } else {
        names_of(list, k - 1).insert(list[k - 1].name@)
    }
}

/// Names an `of`-set marks as referenced.
pub open spec fn set_refs(s: OfSet) -> Set<Seq<u8>> {
    match s {
        OfSet::Patterns(list) => names_of(list@, list@.len() as int),
        _ => Set::empty(),
    }
}

/// Pattern names a condition references: direct matches, accessors, and
/// `of`-set members.  A bare `$` match (empty name) refers to the iterated
/// set of an enclosing `for .. of` and names nothing.
pub open spec fn expr_refs(e: Expr) -> Set<Seq<u8>>
    decreases e,
{
    match e {
        Expr::PatternMatch(n, _) => if n@.len() > 0 {
            Set::empty().insert(n@)
        } else {
            Set::empty()
        },
        Expr::PatternCount(n, _) => Set::empty().insert(n@),
        Expr::PatternOffset(n, _) => Set::empty().insert(n@),
        Expr::PatternLength(n, _) => Set::empty().insert(n@),
        Expr::Unary(_, inner, _) => expr_refs(*inner),
        Expr::Binary(_, l, r) => expr_refs(*l) + expr_refs(*r),
        Expr::OfQuant(_, s, _) => set_refs(s),
        Expr::ForOf(_, s, body, _) => set_refs(s) + expr_refs(*body),
        _ => Set::empty(),
    }
}

/// The condition contains an `of them` set, which marks every declared
/// pattern as used.
pub open spec fn marks_all(e: Expr) -> bool
    decreases e,
{
    match e {
        Expr::Unary(_, inner, _) => marks_all(*inner),
        Expr::Binary(_, l, r) => marks_all(*l) || marks_all(*r),
        Expr::OfQuant(_, s, _) => s is Them,
        Expr::ForOf(_, s, body, _) => s is Them || marks_all(*body),
        _ => false,
    }
}

/// Pattern `i` of the rule is used by its condition.
pub open spec fn pattern_used(r: RuleDecl, i: int) -> bool {
    marks_all(r.condition) || (r.patterns@[i].name@.len() > 0 && expr_refs(
        r.condition,
    ).contains(r.patterns@[i].name@))
}

/// Number of unused patterns among the first `k`.
pub open spec fn unused_count(r: RuleDecl, k: int) -> int
    decreases k,
{
    if k <= 0 {
        0
    } else {
        unused_count(r, k - 1) + if pattern_used(r, k - 1) {
            0int
        } else {
            1int
        }
    }
}

/// Total unused-pattern count over the first `k` rules.
pub open spec fn total_unused(rules: Seq<RuleDecl>, k: int) -> int
    decreases k,
{
    if k <= 0 {
        0
    } else {
        total_unused(rules, k - 1) + unused_count(
            rules[k - 1],
            rules[k - 1].patterns@.len() as int,
        )
    }
}

/// Number of unused-string diagnostics among the first `k` entries.
pub open spec fn unused_diag_count(ds: Seq<Diagnostic>, k: int) -> int
    decreases k,
{
    if k <= 0 {
        0
    } else {
        unused_diag_count(ds, k - 1) + if ds[k - 1].kind == DiagKind::UnusedString {
            1int
        } else {
            0int
        }
    }
}

proof fn lemma_unused_count_prefix(ds1: Seq<Diagnostic>, ds2: Seq<Diagnostic>, k: int)
    requires
        0 <= k <= ds1.len(),
        k <= ds2.len(),
        forall|x: int| 0 <= x < k ==> ds1[x] == ds2[x],
    ensures
        unused_diag_count(ds1, k) == unused_diag_count(ds2, k),
    decreases k,
{
    if k > 0 {
        lemma_unused_count_prefix(ds1, ds2, k - 1);
    }
}

/// Appending diagnostics of other kinds does not change the unused-string
/// count.
proof fn lemma_unused_count_extend(ds1: Seq<Diagnostic>, ds2: Seq<Diagnostic>, k: int)
    requires
        ds1.len() <= k <= ds2.len(),
        forall|x: int| 0 <= x < ds1.len() ==> ds1[x] == ds2[x],
        forall|x: int| ds1.len() <= x < ds2.len() ==> (#[trigger] ds2[x]).kind
            != DiagKind::UnusedString,
    ensures
        unused_diag_count(ds2, k) == unused_diag_count(ds1, ds1.len() as int),
    decreases k,
{
    if k > ds1.len() {
        lemma_unused_count_extend(ds1, ds2, k - 1);
    } else {
        lemma_unused_count_prefix(ds1, ds2, k);
    }
}

/// Names collected in a vector, as a set.
pub open spec fn vec_names(v: Seq<Vec<u8>>) -> Set<Seq<u8>>
    decreases v.len(),
{
    if v.len() == 0 {
        Set::empty()
    } else {
        vec_names(v.drop_last()).insert(v.last()@)
    }
}

proof fn lemma_vec_names_member(v: Seq<Vec<u8>>, n: Seq<u8>)
    ensures
        vec_names(v).contains(n) <==> exists|k: int|
            0 <= k < v.len() && (#[trigger] v[k])@ == n,
    decreases v.len(),
{
    if v.len() > 0 {
        lemma_vec_names_member(v.drop_last(), n);
        if vec_names(v).contains(n) {
            if v.last()@ != n {
                let k = choose|k: int|
                    0 <= k < v.drop_last().len() && (#[trigger] v.drop_last()[k])@ == n;
                assert(v[k]@ == n);
            } else {
                assert(v[v.len() - 1]@ == n);
            }
        }
        if exists|k: int| 0 <= k < v.len() && (#[trigger] v[k])@ == n {
            let k = choose|k: int| 0 <= k < v.len() && (#[trigger] v[k])@ == n;
            if k < v.len() - 1 {
                assert(v.drop_last()[k]@ == n);
            }
        }
    }
}

/// Pattern `i` is named and repeats the name of an earlier pattern of the
/// same rule; anonymous patterns never count.
pub open spec fn is_dup_pattern(ps: Seq<PatternDecl>, i: int) -> bool {
    ps[i].name@.len() > 0 && exists|j: int| 0 <= j < i && ps[j].name@ == ps[i].name@
}

/// Number of patterns among the first `k` that repeat an earlier name.
pub open spec fn dup_pattern_count(ps: Seq<PatternDecl>, k: int) -> int
    decreases k,
{
    if k <= 0 {
        0
    } else {
        dup_pattern_count(ps, k - 1) + if is_dup_pattern(ps, k - 1) {
            1int
        } else {
            0int
        }
    }
}

/// Total duplicate-pattern count over the first `k` rules.
pub open spec fn total_dup_patterns(rules: Seq<RuleDecl>, k: int) -> int
    decreases k,
{
    if k <= 0 {
        0
    } else {
        total_dup_patterns(rules, k - 1) + dup_pattern_count(
            rules[k - 1].patterns@,
            rules[k - 1].patterns@.len() as int,
        )
    }
}

/// Number of duplicate-string diagnostics among the first `k` entries.
pub open spec fn dup_string_diag_count(ds: Seq<Diagnostic>, k: int) -> int
    decreases k,
{
    if k <= 0 {
        0
    } else {
        dup_string_diag_count(ds, k - 1) + if ds[k - 1].kind == DiagKind::DuplicateString {
            1int
        } else {
            0int
        }
    }
}

proof fn lemma_dup_string_count_prefix(ds1: Seq<Diagnostic>, ds2: Seq<Diagnostic>, k: int)
    requires
        0 <= k <= ds1.len(),
        k <= ds2.len(),
        forall|x: int| 0 <= x < k ==> ds1[x] == ds2[x],
    ensures
        dup_string_diag_count(ds1, k) == dup_string_diag_count(ds2, k),
    decreases k,
{
    if k > 0 {
        lemma_dup_string_count_prefix(ds1, ds2, k - 1);
    }
}

/// Appending diagnostics of other kinds does not change the
/// duplicate-string count.
proof fn lemma_dup_string_count_extend(ds1: Seq<Diagnostic>, ds2: Seq<Diagnostic>, k: int)
    requires
        ds1.len() <= k <= ds2.len(),
        forall|x: int| 0 <= x < ds1.len() ==> ds1[x] == ds2[x],
        forall|x: int| ds1.len() <= x < ds2.len() ==> (#[trigger] ds2[x]).kind
            != DiagKind::DuplicateString,
    ensures
        dup_string_diag_count(ds2, k) == dup_string_diag_count(ds1, ds1.len() as int),
    decreases k,
{
    if k > ds1.len() {
        lemma_dup_string_count_extend(ds1, ds2, k - 1);
    } else {
        lemma_dup_string_count_prefix(ds1, ds2, k);
    }
}

proof fn lemma_dup_count_nonneg(rules: Seq<RuleDecl>, k: int)
    ensures
        dup_count(rules, k) >= 0,
    decreases k,
{
    if k > 0 {
        lemma_dup_count_nonneg(rules, k - 1);
    }
}

/// A rule set that counts no duplicates has pairwise distinct names.
pub proof fn lemma_dup_count_zero(rules: Seq<RuleDecl>, k: int)
    requires
        0 <= k <= rules.len(),
        dup_count(rules, k) == 0,
    ensures
        forall|i: int, j: int| 0 <= i < j < k ==> rules[i].name@ != rules[j].name@,
    decreases k,
{
    if k > 0 {
        lemma_dup_count_nonneg(rules, k - 1);
        lemma_dup_count_zero(rules, k - 1);
        assert(!is_dup_rule(rules, k - 1));
        assert forall|i: int, j: int| 0 <= i < j < k implies rules[i].name@ != rules[
            j
        ].name@ by {
            if j == k - 1 {
                if rules[i].name@ == rules[j].name@ {
                    assert(is_dup_rule(rules, k - 1));
                }
            }
        }
    }
}

proof fn lemma_dup_pattern_count_nonneg(ps: Seq<PatternDecl>, k: int)
    ensures
        dup_pattern_count(ps, k) >= 0,
    decreases k,
{
    if k > 0 {
        lemma_dup_pattern_count_nonneg(ps, k - 1);
    }
}

/// A rule whose patterns count no duplicates has none.
pub proof fn lemma_dup_pattern_count_zero(ps: Seq<PatternDecl>, k: int)
    requires
        0 <= k <= ps.len(),
        dup_pattern_count(ps, k) == 0,
    ensures
        forall|i: int| 0 <= i < k ==> !is_dup_pattern(ps, i),
    decreases k,
{
    if k > 0 {
        lemma_dup_pattern_count_nonneg(ps, k - 1);
        lemma_dup_pattern_count_zero(ps, k - 1);
    }
}

proof fn lemma_total_dup_patterns_nonneg(rules: Seq<RuleDecl>, k: int)
    ensures
        total_dup_patterns(rules, k) >= 0,
    decreases k,
{
    if k > 0 {
        lemma_total_dup_patterns_nonneg(rules, k - 1);
        lemma_dup_pattern_count_nonneg(
            rules[k - 1].patterns@,
            rules[k - 1].patterns@.len() as int,
        );
    }
}

/// A rule set with no duplicate-pattern count has no duplicate pattern in
/// any rule.
pub proof fn lemma_total_dup_patterns_zero(rules: Seq<RuleDecl>, k: int)
    requires
        0 <= k <= rules.len(),
        total_dup_patterns(rules, k) == 0,
    ensures
        forall|ri: int, pi: int|
            0 <= ri < k && 0 <= pi < rules[ri].patterns@.len() ==> !(
            #[trigger] is_dup_pattern(rules[ri].patterns@, pi)),
    decreases k,
{
    if k > 0 {
        lemma_total_dup_patterns_nonneg(rules, k - 1);
        lemma_dup_pattern_count_nonneg(
            rules[k - 1].patterns@,
            rules[k - 1].patterns@.len() as int,
        );
        lemma_total_dup_patterns_zero(rules, k - 1);
        lemma_dup_pattern_count_zero(
            rules[k - 1].patterns@,
            rules[k - 1].patterns@.len() as int,
        );
    }
}

proof fn lemma_unused_count_nonneg(r: RuleDecl, k: int)
    ensures
        unused_count(r, k) >= 0,
    decreases k,
{
    if k > 0 {
        lemma_unused_count_nonneg(r, k - 1);
    }
}

/// A rule that counts no unused patterns uses every pattern.
pub proof fn lemma_unused_count_zero(r: RuleDecl, k: int)
    requires
        0 <= k <= r.patterns@.len(),
        unused_count(r, k) == 0,
    ensures
        forall|i: int| 0 <= i < k ==> #[trigger] pattern_used(r, i),
    decreases k,
{
    if k > 0 {
        lemma_unused_count_nonneg(r, k - 1);
        lemma_unused_count_zero(r, k - 1);
    }
}

proof fn lemma_total_unused_nonneg(rules: Seq<RuleDecl>, k: int)
    ensures
        total_unused(rules, k) >= 0,
    decreases k,
{
    if k > 0 {
        lemma_total_unused_nonneg(rules, k - 1);
        lemma_unused_count_nonneg(rules[k - 1], rules[k - 1].patterns@.len() as int);
    }
}

/// A rule set with no unused count uses every declared pattern.
pub proof fn lemma_total_unused_zero(rules: Seq<RuleDecl>, k: int)
    requires
        0 <= k <= rules.len(),
        total_unused(rules, k) == 0,
    ensures
        forall|ri: int, pi: int|
            0 <= ri < k && 0 <= pi < rules[ri].patterns@.len() ==> #[trigger] pattern_used(
                rules[ri],
                pi,
            ),
    decreases k,
{
    if k > 0 {
        lemma_total_unused_nonneg(rules, k - 1);
        lemma_unused_count_nonneg(rules[k - 1], rules[k - 1].patterns@.len() as int);
        lemma_total_unused_zero(rules, k - 1);
        lemma_unused_count_zero(rules[k - 1], rules[k - 1].patterns@.len() as int);
    }
}

/// Duplicate-detection idempotence: in a rule set where exactly one pair of
/// rules shares a name, exactly one rule counts as a duplicate, however many
/// distinctly-named rules surround the pair.
pub proof fn lemma_duplicate_counted_once(rules: Seq<RuleDecl>, a: int, b: int)
    requires
        0 <= a < b < rules.len(),
        rules[a].name@ == rules[b].name@,
        forall|i: int, j: int|
            0 <= i < j < rules.len() && !(i == a && j == b) ==> rules[i].name@ != rules[j].name@,
    ensures
        dup_count(rules, rules.len() as int) == 1,
{
    lemma_duplicate_counted_once_upto(rules, a, b, rules.len() as int);
}

proof fn lemma_duplicate_counted_once_upto(rules: Seq<RuleDecl>, a: int, b: int, k: int)
    requires
        0 <= a < b < rules.len(),
        rules[a].name@ == rules[b].name@,
        forall|i: int, j: int|
            0 <= i < j < rules.len() && !(i == a && j == b) ==> rules[i].name@ != rules[j].name@,
        0 <= k <= rules.len(),
    ensures
        dup_count(rules, k) == if k > b {
            1int
        } else {
            0int
        },
    decreases k,
{
    if k > 0 {
        lemma_duplicate_counted_once_upto(rules, a, b, k - 1);
        if k - 1 == b {
            assert(is_dup_rule(rules, k - 1));
        } else {
            assert(!is_dup_rule(rules, k - 1)) by {
                if is_dup_rule(rules, k - 1) {
                    let j = choose|j: int|
                        0 <= j < k - 1 && (#[trigger] rules[j].name@) == rules[k - 1].name@;
                    assert(rules[j].name@ != rules[k - 1].name@);
                }
            }
        }
    }
}

// ---------------------------------------------------------------------------
// Modifier conflicts: the specification behind the pairwise check.
// ---------------------------------------------------------------------------

/// The canonical table of mutually exclusive modifier pairs.
pub open spec fn pair_kinds(pp: int) -> (ModKind, ModKind) {
    if pp == 0 {
        (ModKind::Xor, ModKind::Nocase)
    } else if pp == 1 {
        (ModKind::Base64, ModKind::Nocase)
    } else if pp == 2 {
        (ModKind::Base64Wide, ModKind::Nocase)
    } else if pp == 3 {
        (ModKind::Base64, ModKind::Xor)
    } else if pp == 4 {
        (ModKind::Base64Wide, ModKind::Xor)
    } else if pp == 5 {
        (ModKind::Base64, ModKind::Fullword)
    } else {
        (ModKind::Base64Wide, ModKind::Fullword)
    }
}

/// Some modifier of the given kind is present.
pub open spec fn mods_have(mods: Seq<PatternMod>, k: ModKind) -> bool {
    exists|i: int| 0 <= i < mods.len() && (#[trigger] mods[i]).kind == k
}

/// Some incompatible pair is fully present, in either declaration order.
pub open spec fn has_conflict(mods: Seq<PatternMod>) -> bool {
    exists|pp: int|
        0 <= pp < 7 && mods_have(mods, (#[trigger] pair_kinds(pp)).0) && mods_have(
            mods,
            pair_kinds(pp).1,
        )
}

// ---------------------------------------------------------------------------
// Helpers.
// ---------------------------------------------------------------------------

fn vec_bytes_eq(a: &Vec<u8>, b: &Vec<u8>) -> (r: bool)
    ensures
        r <==> a@ == b@,
{
    if a.len() != b.len() {
        proof {
            assert(a@.len() != b@.len());
        }
        return false;
    }
    let n = a.len();
    let mut k: usize = 0;
    while k < n
        invariant
            k <= n,
            n == a@.len(),
            n == b@.len(),
            forall|m: int| 0 <= m < k ==> a@[m] == b@[m],
        decreases n - k,
    {
        if a[k] != b[k] {
            return false;
        }
        k += 1;
    }
    proof {
        assert(a@ =~= b@);
    }
    true
}

fn copy_bytes(a: &Vec<u8>) -> (r: Vec<u8>)
    ensures
        r@ == a@,
{
    let mut r: Vec<u8> = Vec::new();
    let n = a.len();
    let mut k: usize = 0;
    while k < n
        invariant
            k <= n,
            n == a@.len(),
            r@ == a@.subrange(0, k as int),
        decreases n - k,
    {
        r.push(a[k]);
        proof {
            assert(a@.subrange(0, k + 1) =~= a@.subrange(0, k as int) + seq![a@[k as int]]);
        }
        k += 1;
    }
    proof {
        assert(a@.subrange(0, n as int) =~= a@);
    }
    r
}

fn names_contain(refs: &Vec<Vec<u8>>, name: &Vec<u8>) -> (r: bool)
    ensures
        r <==> exists|k: int| 0 <= k < refs@.len() && (#[trigger] refs@[k])@ == name@,
{
    let n = refs.len();
    let mut k: usize = 0;
    while k < n
        invariant
            k <= n,
            n == refs@.len(),
            forall|m: int| 0 <= m < k ==> (#[trigger] refs@[m])@ != name@,
        decreases n - k,
    {
        if vec_bytes_eq(&refs[k], name) {
            return true;
        }
        k += 1;
    }
    false
}

/// Human name of a pattern modifier.
fn mod_name(k: ModKind) -> (r: &'static str)
{
    match k {
        ModKind::Nocase => "nocase",
        ModKind::Ascii => "ascii",
        ModKind::Wide => "wide",
        ModKind::Fullword => "fullword",
        ModKind::Xor => "xor",
        ModKind::Base64 => "base64",
        ModKind::Base64Wide => "base64wide",
        ModKind::PrivateMod => "private",
    }
}

proof fn lemma_vec_names_push(v: Seq<Vec<u8>>, x: Vec<u8>)
    ensures
        vec_names(v.push(x)) == vec_names(v).insert(x@),
{
    assert(v.push(x).drop_last() =~= v);
    assert(v.push(x).last() == x);
}

/// Collects the pattern names referenced by a condition: direct matches,
/// count/offset/length accessors, and `of`-set members.  `of them` marks
/// every declared pattern as used, including the anonymous one; a bare `$`
/// inside a `for .. of` body refers to the iterated set, not to the
/// anonymous declaration, so it records nothing.
fn collect_refs(e: &Expr, refs: &mut Vec<Vec<u8>>, them: &mut bool)
    ensures
        *final(them) == (*old(them) || marks_all(*e)),
        vec_names(final(refs)@) == vec_names(old(refs)@) + expr_refs(*e),
    decreases e,
{
    let ghost r0 = refs@;
    match e {
        Expr::PatternMatch(name, _) => {
            if name.len() > 0 {
                let ghost pre = refs@;
                let c = copy_bytes(name);
                refs.push(c);
                proof {
                    lemma_vec_names_push(pre, c);
                    assert(vec_names(refs@) =~= vec_names(r0) + expr_refs(*e));
                }
            } else {
                proof {
                    assert(vec_names(refs@) =~= vec_names(r0) + expr_refs(*e));
                }
            }
        },
        Expr::PatternCount(name, _) => {
            let ghost pre = refs@;
            let c = copy_bytes(name);
            refs.push(c);
            proof {
                lemma_vec_names_push(pre, c);
                assert(vec_names(refs@) =~= vec_names(r0) + expr_refs(*e));
            }
        },
        Expr::PatternOffset(name, _) => {
            let ghost pre = refs@;
            let c = copy_bytes(name);
            refs.push(c);
            proof {
                lemma_vec_names_push(pre, c);
                assert(vec_names(refs@) =~= vec_names(r0) + expr_refs(*e));
            }
        },
        Expr::PatternLength(name, _) => {
            let ghost pre = refs@;
            let c = copy_bytes(name);
            refs.push(c);
            proof {
                lemma_vec_names_push(pre, c);
                assert(vec_names(refs@) =~= vec_names(r0) + expr_refs(*e));
            }
        },
        Expr::Unary(_, inner, _) => {
            collect_refs(inner, refs, them);
        },
        Expr::Binary(_, l, r) => {
            collect_refs(l, refs, them);
            collect_refs(r, refs, them);
            proof {
                assert(vec_names(refs@) =~= vec_names(r0) + expr_refs(*e));
            }
        },
        Expr::OfQuant(_, set, _) => {
            collect_set_refs(set, refs, them);
        },
        Expr::ForOf(_, set, body, _) => {
            collect_set_refs(set, refs, them);
            collect_refs(body, refs, them);
            proof {
                assert(vec_names(refs@) =~= vec_names(r0) + expr_refs(*e));
            }
        },
        _ => {
            proof {
                assert(vec_names(refs@) =~= vec_names(r0) + expr_refs(*e));
            }
        },
    }
}

fn collect_set_refs(set: &OfSet, refs: &mut Vec<Vec<u8>>, them: &mut bool)
    ensures
        *final(them) == (*old(them) || *set is Them),
        vec_names(final(refs)@) == vec_names(old(refs)@) + set_refs(*set),
{
    let ghost r0 = refs@;
    match set {
        OfSet::Them => {
            *them = true;
            proof {
                assert(vec_names(refs@) =~= vec_names(r0) + set_refs(*set));
            }
        },
        OfSet::Patterns(list) => {
            let n = list.len();
            let mut k: usize = 0;
            while k < n
                invariant
                    k <= n,
                    n == list@.len(),
                    vec_names(refs@) == vec_names(r0) + names_of(list@, k as int),
                decreases n - k,
            {
                let ghost pre = refs@;
                let c = copy_bytes(&list[k].name);
                refs.push(c);
                proof {
                    lemma_vec_names_push(pre, c);
                    assert(vec_names(refs@) =~= vec_names(r0) + names_of(list@, k + 1));
                }
                k += 1;
            }
            proof {
                assert(vec_names(refs@) =~= vec_names(r0) + set_refs(*set));
            }
        },
        OfSet::Rules(_) => {
            proof {
                assert(vec_names(refs@) =~= vec_names(r0) + set_refs(*set));
            }
        },
    }
}

// ---------------------------------------------------------------------------
// The validator.
// ---------------------------------------------------------------------------

fn push_plain_diag(
    ds: &mut Vec<Diagnostic>,
    kind: DiagKind,
    message: Vec<u8>,
    primary: Span,
    labels: Vec<Label>,
    note: Option<Vec<u8>>,
)
    ensures
        final(ds)@ == old(ds)@.push(
            Diagnostic { kind, severity: Severity::Error, message, primary, labels, note },
        ),
{
    ds.push(Diagnostic { kind, severity: Severity::Error, message, primary, labels, note });
}

/// Intra-rule checks: duplicate pattern names, modifier validity, unused
/// patterns.  Only diagnostics of kinds other than duplicate-rule are added.
fn check_rule(r: &RuleDecl, ds: &mut Vec<Diagnostic>)
    ensures
        old(ds)@.len() <= final(ds)@.len(),
        forall|x: int| 0 <= x < old(ds)@.len() ==> old(ds)@[x] == final(ds)@[x],
        forall|x: int| old(ds)@.len() <= x < final(ds)@.len() ==> (#[trigger] final(ds)@[
            x
        ]).kind != DiagKind::DuplicateRule,
        dup_string_diag_count(final(ds)@, final(ds)@.len() as int) == dup_string_diag_count(
            old(ds)@,
            old(ds)@.len() as int,
        ) + dup_pattern_count(r.patterns@, r.patterns@.len() as int),
        unused_diag_count(final(ds)@, final(ds)@.len() as int) == unused_diag_count(
            old(ds)@,
            old(ds)@.len() as int,
        ) + unused_count(*r, r.patterns@.len() as int),
{
    let np = r.patterns.len();
    // Duplicate pattern names, anonymous patterns excluded.
    let mut i: usize = 0;
    while i < np
        invariant
            np == r.patterns@.len(),
            i <= np,
            old(ds)@.len() <= ds@.len(),
            forall|x: int| 0 <= x < old(ds)@.len() ==> old(ds)@[x] == ds@[x],
            forall|x: int| old(ds)@.len() <= x < ds@.len() ==> (#[trigger] ds@[x]).kind
                != DiagKind::DuplicateRule,
            dup_string_diag_count(ds@, ds@.len() as int) == dup_string_diag_count(
                old(ds)@,
                old(ds)@.len() as int,
            ) + dup_pattern_count(r.patterns@, i as int),
            unused_diag_count(ds@, ds@.len() as int) == unused_diag_count(
                old(ds)@,
                old(ds)@.len() as int,
            ),
        decreases np - i,
    {
        let p = &r.patterns[i];
        let ghost pre_iter = ds@;
        let ghost mut named_dup: bool = false;
        if p.name.len() > 0 {
            let mut j: usize = 0;
            let mut first: Option<Span> = None;
            while j < i
                invariant
                    np == r.patterns@.len(),
                    i < np,
                    j <= i,
                    r.patterns@[i as int].name@.len() > 0,
                    first is Some ==> is_dup_pattern(r.patterns@, i as int),
                    first is None ==> forall|m: int|
                        0 <= m < j ==> r.patterns@[m].name@ != r.patterns@[i as int].name@,
                decreases i - j,
            {
                if first.is_none() && vec_bytes_eq(&r.patterns[j].name, &r.patterns[i].name) {
                    first = Some(r.patterns[j].span);
                    proof {
                        assert(r.patterns@[j as int].name@ == r.patterns@[i as int].name@);
                        assert(is_dup_pattern(r.patterns@, i as int));
                    }
                }
                j += 1;
            }
            proof {
                if first is None {
                    assert(!is_dup_pattern(r.patterns@, i as int)) by {
                        if is_dup_pattern(r.patterns@, i as int) {
                            let m = choose|m: int|
                                0 <= m < i && (#[trigger] r.patterns@[m].name@) == r.patterns@[
                                    i as int
                                ].name@;
                            assert(r.patterns@[m].name@ != r.patterns@[i as int].name@);
                        }
                    }
                }
            }
            match first {
                Some(fsp) => {
                    proof {
                        named_dup = true;
                    }
                    let mut message: Vec<u8> = Vec::new();
                    push_str_bytes(&mut message, "duplicate string `$");
                    push_bytes(&mut message, p.name.as_slice());
                    push_str_bytes(&mut message, "`");
                    let mut t1: Vec<u8> = Vec::new();
                    push_str_bytes(&mut t1, "`$");
                    push_bytes(&mut t1, p.name.as_slice());
                    push_str_bytes(&mut t1, "` declared here for the first time");
                    let mut t2: Vec<u8> = Vec::new();
                    push_str_bytes(&mut t2, "duplicate declaration of `$");
                    push_bytes(&mut t2, p.name.as_slice());
                    push_str_bytes(&mut t2, "`");
                    let mut labels: Vec<Label> = Vec::new();
                    labels.push(Label { span: fsp, style: LabelStyle::Under, text: t1 });
                    labels.push(Label { span: p.span, style: LabelStyle::Under, text: t2 });
                    push_plain_diag(
                        ds,
                        DiagKind::DuplicateString,
                        message,
                        p.span,
                        labels,
                        None,
                    );
                    proof {
                        lemma_dup_string_count_prefix(pre_iter, ds@, pre_iter.len() as int);
                        lemma_unused_count_prefix(pre_iter, ds@, pre_iter.len() as int);
                    }
                },
                None => {},
            }
        }
        proof {
            if !named_dup {
                assert(!is_dup_pattern(r.patterns@, i as int));
            }
            assert(dup_string_diag_count(ds@, ds@.len() as int) == dup_string_diag_count(
                old(ds)@,
                old(ds)@.len() as int,
            ) + dup_pattern_count(r.patterns@, i + 1));
        }
        // Modifier checks for this pattern.
        check_modifiers(p, ds);
        i += 1;
    }
    // Unused patterns.
    let mut refs: Vec<Vec<u8>> = Vec::new();
    let mut them = false;
    collect_refs(&r.condition, &mut refs, &mut them);
    proof {
        assert(vec_names(refs@) =~= expr_refs(r.condition));
    }
    let ghost target = dup_string_diag_count(ds@, ds@.len() as int);
    let ghost base_unused = unused_diag_count(ds@, ds@.len() as int);
    let mut i2: usize = 0;
    while i2 < np
        invariant
            np == r.patterns@.len(),
            i2 <= np,
            old(ds)@.len() <= ds@.len(),
            forall|x: int| 0 <= x < old(ds)@.len() ==> old(ds)@[x] == ds@[x],
            forall|x: int| old(ds)@.len() <= x < ds@.len() ==> (#[trigger] ds@[x]).kind
                != DiagKind::DuplicateRule,
            dup_string_diag_count(ds@, ds@.len() as int) == target,
            them == marks_all(r.condition),
            vec_names(refs@) == expr_refs(r.condition),
            unused_diag_count(ds@, ds@.len() as int) == base_unused + unused_count(
                *r,
                i2 as int,
            ),
        decreases np - i2,
    {
        let p = &r.patterns[i2];
        let ghost pre_iter = ds@;
        let used = them || (p.name.len() > 0 && names_contain(&refs, &p.name));
        proof {
            lemma_vec_names_member(refs@, r.patterns@[i2 as int].name@);
            assert(used == pattern_used(*r, i2 as int));
        }
        if !used {
            let mut message: Vec<u8> = Vec::new();
            push_str_bytes(&mut message, "unused string `$");
            push_bytes(&mut message, p.name.as_slice());
            push_str_bytes(&mut message, "`");
            let mut t: Vec<u8> = Vec::new();
            push_str_bytes(&mut t, "this was not used in the condition");
            let mut labels: Vec<Label> = Vec::new();
            labels.push(Label { span: p.span, style: LabelStyle::Under, text: t });
            push_plain_diag(ds, DiagKind::UnusedString, message, p.span, labels, None);
            proof {
                lemma_dup_string_count_prefix(pre_iter, ds@, pre_iter.len() as int);
                lemma_unused_count_prefix(pre_iter, ds@, pre_iter.len() as int);
            }
        }
        i2 += 1;
    }
}

/// Returns the span of the first modifier of the given kind, if any.
fn find_mod(p: &PatternDecl, k: ModKind) -> (r: Option<Span>)
    ensures
        r is Some <==> mods_have(p.mods@, k),
{
    let n = p.mods.len();
    let mut i: usize = 0;
    while i < n
        invariant
            n == p.mods@.len(),
            i <= n,
            forall|m: int| 0 <= m < i ==> (#[trigger] p.mods@[m]).kind != k,
        decreases n - i,
    {
        if p.mods[i].kind == k {
            return Some(p.mods[i].span);
        }
        i += 1;
    }
    None
}

/// Modifier checks: repeated modifiers, incompatible pairs, and modifiers
/// that cannot apply to a hex pattern.  The combination diagnostic is raised
/// exactly when both modifiers of an incompatible pair are present, whatever
/// the order in which the two were declared.
pub fn check_modifiers(p: &PatternDecl, ds: &mut Vec<Diagnostic>)
    ensures
        old(ds)@.len() <= final(ds)@.len(),
        forall|x: int| 0 <= x < old(ds)@.len() ==> old(ds)@[x] == final(ds)@[x],
        forall|x: int| old(ds)@.len() <= x < final(ds)@.len() ==> (#[trigger] final(ds)@[
            x
        ]).kind != DiagKind::DuplicateRule,
        (exists|x: int|
            old(ds)@.len() <= x < final(ds)@.len() && (#[trigger] final(ds)@[x]).kind
                == DiagKind::InvalidModifierCombo) <==> has_conflict(p.mods@),
        dup_string_diag_count(final(ds)@, final(ds)@.len() as int) == dup_string_diag_count(
            old(ds)@,
            old(ds)@.len() as int,
        ),
        unused_diag_count(final(ds)@, final(ds)@.len() as int) == unused_diag_count(
            old(ds)@,
            old(ds)@.len() as int,
        ),
{
    let ghost base = old(ds)@.len() as int;
    let nm = p.mods.len();
    // Repeated modifiers, even with different arguments.
    let mut i: usize = 0;
    while i < nm
        invariant
            nm == p.mods@.len(),
            i <= nm,
            old(ds)@.len() <= ds@.len(),
            forall|x: int| 0 <= x < old(ds)@.len() ==> old(ds)@[x] == ds@[x],
            forall|x: int| old(ds)@.len() <= x < ds@.len() ==> (#[trigger] ds@[x]).kind
                == DiagKind::DuplicateModifier,
        decreases nm - i,
    {
        let mut j: usize = 0;
        let mut dup = false;
        while j < i
            invariant
                nm == p.mods@.len(),
                i < nm,
                j <= i,
            decreases i - j,
        {
            if p.mods[j].kind == p.mods[i].kind {
                dup = true;
            }
            j += 1;
        }
        if dup {
            let mut message: Vec<u8> = Vec::new();
            push_str_bytes(&mut message, "duplicate string modifier");
            let mut t: Vec<u8> = Vec::new();
            push_str_bytes(&mut t, "duplicate modifier");
            let mut labels: Vec<Label> = Vec::new();
            labels.push(Label { span: p.mods[i].span, style: LabelStyle::Under, text: t });
            push_plain_diag(
                ds,
                DiagKind::DuplicateModifier,
                message,
                p.mods[i].span,
                labels,
                None,
            );
        }
        i += 1;
    }
    // Mutually exclusive pairs, in the canonical table order.
    let ghost after_dups = ds@;
    let mut pair: usize = 0;
    while pair < 7
        invariant
            after_dups.len() <= ds@.len(),
            forall|x: int| 0 <= x < after_dups.len() ==> after_dups[x] == ds@[x],
            forall|x: int| base <= x < after_dups.len() ==> (#[trigger] after_dups[x]).kind
                == DiagKind::DuplicateModifier,
            base <= after_dups.len(),
            forall|x: int| after_dups.len() <= x < ds@.len() ==> (#[trigger] ds@[x]).kind
                == DiagKind::InvalidModifierCombo,
            pair <= 7,
            (exists|x: int|
                base <= x < ds@.len() && (#[trigger] ds@[x]).kind
                    == DiagKind::InvalidModifierCombo) <==> (exists|pp: int|
                0 <= pp < pair && mods_have(p.mods@, (#[trigger] pair_kinds(pp)).0)
                    && mods_have(p.mods@, pair_kinds(pp).1)),
        decreases 7 - pair,
    {
        let (a, b) = match pair {
            0 => (ModKind::Xor, ModKind::Nocase),
            1 => (ModKind::Base64, ModKind::Nocase),
            2 => (ModKind::Base64Wide, ModKind::Nocase),
            3 => (ModKind::Base64, ModKind::Xor),
            4 => (ModKind::Base64Wide, ModKind::Xor),
            5 => (ModKind::Base64, ModKind::Fullword),
            _ => (ModKind::Base64Wide, ModKind::Fullword),
        };
        proof {
            assert((a, b) == pair_kinds(pair as int));
        }
        let sa = find_mod(p, a);
        let sb = find_mod(p, b);
        match (sa, sb) {
            (Some(spa), Some(spb)) => {
                let mut message: Vec<u8> = Vec::new();
                push_str_bytes(&mut message, "invalid string modifier combination: `");
                push_str_bytes(&mut message, mod_name(a));
                push_str_bytes(&mut message, "` `");
                push_str_bytes(&mut message, mod_name(b));
                push_str_bytes(&mut message, "`");
                let mut ta: Vec<u8> = Vec::new();
                push_str_bytes(&mut ta, "`");
                push_str_bytes(&mut ta, mod_name(a));
                push_str_bytes(&mut ta, "` modifier used here");
                let mut tb: Vec<u8> = Vec::new();
                push_str_bytes(&mut tb, "`");
                push_str_bytes(&mut tb, mod_name(b));
                push_str_bytes(&mut tb, "` modifier used here");
                let mut labels: Vec<Label> = Vec::new();
                // Labels are shown in source order.
                if spa.0 <= spb.0 {
                    labels.push(Label { span: spa, style: LabelStyle::Under, text: ta });
                    labels.push(Label { span: spb, style: LabelStyle::Under, text: tb });
                } else {
                    labels.push(Label { span: spb, style: LabelStyle::Under, text: tb });
                    labels.push(Label { span: spa, style: LabelStyle::Under, text: ta });
                }
                let mut note: Vec<u8> = Vec::new();
                push_str_bytes(&mut note, "these two modifiers can't be used together");
                push_plain_diag(
                    ds,
                    DiagKind::InvalidModifierCombo,
                    message,
                    spa,
                    labels,
                    Some(note),
                );
                proof {
                    assert(ds@[ds@.len() - 1].kind == DiagKind::InvalidModifierCombo);
                    assert(mods_have(p.mods@, pair_kinds(pair as int).0) && mods_have(
                        p.mods@,
                        pair_kinds(pair as int).1,
                    ));
                }
            },
            _ => {
                proof {
                    assert(!(mods_have(p.mods@, pair_kinds(pair as int).0) && mods_have(
                        p.mods@,
                        pair_kinds(pair as int).1,
                    )));
                }
            },
        }
        pair += 1;
    }
    // Applicability: a hex pattern accepts only the `private` modifier.
    let ghost after_pairs = ds@;
    proof {
        assert((exists|x: int|
            base <= x < after_pairs.len() && (#[trigger] after_pairs[x]).kind
                == DiagKind::InvalidModifierCombo) <==> has_conflict(p.mods@));
        assert forall|x: int| base <= x < after_pairs.len() implies (#[trigger] after_pairs[
            x
        ]).kind != DiagKind::DuplicateRule by {
            if x < after_dups.len() {
                assert(after_pairs[x] == after_dups[x]);
                assert(after_dups[x].kind == DiagKind::DuplicateModifier);
            } else {
                assert(after_pairs[x].kind == DiagKind::InvalidModifierCombo);
            }
        }
    }
    let is_hex = matches!(p.kind, PatternKind::Hex(_));
    if is_hex {
        let mut i3: usize = 0;
        while i3 < nm
            invariant
                nm == p.mods@.len(),
                i3 <= nm,
                base <= after_pairs.len() <= ds@.len(),
                forall|x: int| 0 <= x < after_pairs.len() ==> after_pairs[x] == ds@[x],
                forall|x: int| 0 <= x < base ==> after_pairs[x] == old(ds)@[x],
                forall|x: int| base <= x < after_pairs.len() ==> (#[trigger] after_pairs[
                    x
                ]).kind != DiagKind::DuplicateRule,
                forall|x: int| after_pairs.len() <= x < ds@.len() ==> (#[trigger] ds@[x]).kind
                    == DiagKind::InvalidModifier,
                (exists|x: int|
                    base <= x < after_pairs.len() && (#[trigger] after_pairs[x]).kind
                        == DiagKind::InvalidModifierCombo) <==> has_conflict(p.mods@),
            decreases nm - i3,
        {
            if !(p.mods[i3].kind == ModKind::PrivateMod) {
                let mut message: Vec<u8> = Vec::new();
                push_str_bytes(&mut message, "invalid string modifier");
                let mut t: Vec<u8> = Vec::new();
                push_str_bytes(&mut t, "this modifier can't be applied to a hex string");
                let mut labels: Vec<Label> = Vec::new();
                labels.push(
                    Label { span: p.mods[i3].span, style: LabelStyle::Under, text: t },
                );
                push_plain_diag(
                    ds,
                    DiagKind::InvalidModifier,
                    message,
                    p.mods[i3].span,
                    labels,
                    None,
                );
            }
            i3 += 1;
        }
        proof {
            // Entries added by this loop are not combination diagnostics,
            // so the conflict equivalence carries over.
            if exists|x: int|
                base <= x < ds@.len() && (#[trigger] ds@[x]).kind
                    == DiagKind::InvalidModifierCombo {
                let x = choose|x: int|
                    base <= x < ds@.len() && (#[trigger] ds@[x]).kind
                        == DiagKind::InvalidModifierCombo;
                assert(x < after_pairs.len());
                assert(after_pairs[x].kind == DiagKind::InvalidModifierCombo);
            }
            assert forall|x: int| base <= x < ds@.len() implies (#[trigger] ds@[x]).kind
                != DiagKind::DuplicateRule by {
                if x < after_pairs.len() {
                    assert(ds@[x] == after_pairs[x]);
                } else {
                    assert(ds@[x].kind == DiagKind::InvalidModifier);
                }
            }
        }
    }
    proof {
        // Nothing this check adds is a duplicate-string diagnostic, so that
        // count is untouched.
        assert forall|x: int| base <= x < ds@.len() implies (#[trigger] ds@[x]).kind
            != DiagKind::DuplicateString by {
            if x < after_pairs.len() {
                assert(ds@[x] == after_pairs[x]);
                if x < after_dups.len() {
                    assert(after_pairs[x] == after_dups[x]);
                    assert(after_dups[x].kind == DiagKind::DuplicateModifier);
                } else {
                    assert(after_pairs[x].kind == DiagKind::InvalidModifierCombo);
                }
            } else {
                assert(ds@[x].kind == DiagKind::InvalidModifier);
            }
        }
        lemma_dup_string_count_extend(old(ds)@, ds@, ds@.len() as int);
        assert forall|x: int| base <= x < ds@.len() implies (#[trigger] ds@[x]).kind
            != DiagKind::UnusedString by {
            if x < after_pairs.len() {
                assert(ds@[x] == after_pairs[x]);
                if x < after_dups.len() {
                    assert(after_pairs[x] == after_dups[x]);
                    assert(after_dups[x].kind == DiagKind::DuplicateModifier);
                } else {
                    assert(after_pairs[x].kind == DiagKind::InvalidModifierCombo);
                }
            } else {
                assert(ds@[x].kind == DiagKind::InvalidModifier);
            }
        }
        lemma_unused_count_extend(old(ds)@, ds@, ds@.len() as int);
    }
}

/// Validates a parsed rule set.  Every rule that repeats an earlier rule's
/// name yields exactly one duplicate-rule diagnostic referencing both
/// declaration sites; one rule's problems never suppress the checks on its
/// siblings.
pub fn validate(sf: &SourceFile, ds: &mut Vec<Diagnostic>)
    ensures
        old(ds)@.len() <= final(ds)@.len(),
        forall|x: int| 0 <= x < old(ds)@.len() ==> old(ds)@[x] == final(ds)@[x],
        dup_diag_count(final(ds)@, final(ds)@.len() as int) == dup_diag_count(
            old(ds)@,
            old(ds)@.len() as int,
        ) + dup_count(sf.rules@, sf.rules@.len() as int),
        dup_string_diag_count(final(ds)@, final(ds)@.len() as int) == dup_string_diag_count(
            old(ds)@,
            old(ds)@.len() as int,
        ) + total_dup_patterns(sf.rules@, sf.rules@.len() as int),
        unused_diag_count(final(ds)@, final(ds)@.len() as int) == unused_diag_count(
            old(ds)@,
            old(ds)@.len() as int,
        ) + total_unused(sf.rules@, sf.rules@.len() as int),
{
    let n = sf.rules.len();
    let mut i: usize = 0;
    while i < n
        invariant
            n == sf.rules@.len(),
            i <= n,
            old(ds)@.len() <= ds@.len(),
            forall|x: int| 0 <= x < old(ds)@.len() ==> old(ds)@[x] == ds@[x],
            dup_diag_count(ds@, ds@.len() as int) == dup_diag_count(
                old(ds)@,
                old(ds)@.len() as int,
            ) + dup_count(sf.rules@, i as int),
            dup_string_diag_count(ds@, ds@.len() as int) == dup_string_diag_count(
                old(ds)@,
                old(ds)@.len() as int,
            ) + total_dup_patterns(sf.rules@, i as int),
            unused_diag_count(ds@, ds@.len() as int) == unused_diag_count(
                old(ds)@,
                old(ds)@.len() as int,
            ) + total_unused(sf.rules@, i as int),
        decreases n - i,
    {
        let r = &sf.rules[i];
        // Duplicate rule names across the whole set.
        let mut j: usize = 0;
        let mut first: Option<Span> = None;
        while j < i
            invariant
                n == sf.rules@.len(),
                i < n,
                j <= i,
                first is Some ==> is_dup_rule(sf.rules@, i as int),
                first is None ==> forall|m: int| 0 <= m < j ==> sf.rules@[m].name@ != sf.rules@[
                    i as int
                ].name@,
            decreases i - j,
        {
            if first.is_none() && vec_bytes_eq(&sf.rules[j].name, &sf.rules[i].name) {
                first = Some(sf.rules[j].name_span);
                proof {
                    assert(sf.rules@[j as int].name@ == sf.rules@[i as int].name@);
                    assert(is_dup_rule(sf.rules@, i as int));
                }
            }
            j += 1;
        }
        let ghost pre = ds@;
        match first {
            Some(fsp) => {
                let mut message: Vec<u8> = Vec::new();
                push_str_bytes(&mut message, "duplicate rule `");
                push_bytes(&mut message, r.name.as_slice());
                push_str_bytes(&mut message, "`");
                let mut t1: Vec<u8> = Vec::new();
                push_str_bytes(&mut t1, "`");
                push_bytes(&mut t1, r.name.as_slice());
                push_str_bytes(&mut t1, "` declared here for the first time");
                let mut t2: Vec<u8> = Vec::new();
                push_str_bytes(&mut t2, "duplicate declaration of `");
                push_bytes(&mut t2, r.name.as_slice());
                push_str_bytes(&mut t2, "`");
                let mut labels: Vec<Label> = Vec::new();
                labels.push(Label { span: fsp, style: LabelStyle::Under, text: t1 });
                labels.push(Label { span: r.name_span, style: LabelStyle::Under, text: t2 });
                push_plain_diag(ds, DiagKind::DuplicateRule, message, r.name_span, labels, None);
                proof {
                    lemma_dup_diag_count_prefix(pre, ds@, pre.len() as int);
                    lemma_dup_string_count_prefix(pre, ds@, pre.len() as int);
                    lemma_unused_count_prefix(pre, ds@, pre.len() as int);
                    assert(is_dup_rule(sf.rules@, i as int));
                }
            },
            None => {
                proof {
                    assert(!is_dup_rule(sf.rules@, i as int)) by {
                        if is_dup_rule(sf.rules@, i as int) {
                            let m = choose|m: int|
                                0 <= m < i && (#[trigger] sf.rules@[m].name@) == sf.rules@[
                                    i as int
                                ].name@;
                            assert(sf.rules@[m].name@ != sf.rules@[i as int].name@);
                        }
                    }
                }
            },
        }
        let ghost mid = ds@;
        check_rule(r, ds);
        proof {
            lemma_dup_diag_count_extend(mid, ds@, ds@.len() as int);
        }
        i += 1;
    }
}

} // verus!
