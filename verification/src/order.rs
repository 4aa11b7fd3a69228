//! The orders the analyses sort by: relative paths compared component by
//! component, and diagnostics by file, line and column.
//!
//! Paths are `/`-separated and relative, without `.` components or doubled
//! separators. Comparing them component by component is the same as
//! comparing their characters with `/` ranked below every other character.

use vstd::prelude::*;
use crate::diagnostic::{Diagnostic, DiagnosticView, diags_view};

verus! {

pub open spec fn path_rank(c: char) -> int {
    if c == '/' {
        -1
    } else {
        c as int
    }
}

/// `a` sorts strictly before `b` as a path.
pub open spec fn path_lt(a: Seq<char>, b: Seq<char>) -> bool
    decreases a.len(),
{
    if a.len() == 0 {
        b.len() > 0
    } else if b.len() == 0 {
        false
    } else if a[0] == b[0] {
        path_lt(a.drop_first(), b.drop_first())
    } else {
        path_rank(a[0]) < path_rank(b[0])
    }
}

pub open spec fn path_le(a: Seq<char>, b: Seq<char>) -> bool {
    a == b || path_lt(a, b)
}

pub proof fn lemma_path_lt_irreflexive(a: Seq<char>)
    ensures
        !path_lt(a, a),
    decreases a.len(),
{
    if a.len() > 0 {
        lemma_path_lt_irreflexive(a.drop_first());
    }
}

proof fn lemma_rank_injective(x: char, y: char)
    ensures
        path_rank(x) == path_rank(y) ==> x == y,
{
}

pub proof fn lemma_path_lt_transitive(a: Seq<char>, b: Seq<char>, c: Seq<char>)
    requires
        path_lt(a, b),
        path_lt(b, c),
    ensures
        path_lt(a, c),
    decreases a.len(),
{
    if a.len() > 0 && b.len() > 0 && c.len() > 0 {
        lemma_rank_injective(a[0], c[0]);
        if a[0] == b[0] && b[0] == c[0] {
            lemma_path_lt_transitive(a.drop_first(), b.drop_first(), c.drop_first());
        }
    }
}

pub proof fn lemma_path_lt_total(a: Seq<char>, b: Seq<char>)
    ensures
        a == b || path_lt(a, b) || path_lt(b, a),
    decreases a.len(),
{
    if a.len() > 0 && b.len() > 0 {
        lemma_rank_injective(a[0], b[0]);
        if a[0] == b[0] {
            lemma_path_lt_total(a.drop_first(), b.drop_first());
            if a.drop_first() == b.drop_first() {
                assert(a =~= seq![a[0]] + a.drop_first());
                assert(b =~= seq![b[0]] + b.drop_first());
            }
        }
    }
}

pub proof fn lemma_path_lt_asymmetric(a: Seq<char>, b: Seq<char>)
    requires
        path_lt(a, b),
    ensures
        !path_lt(b, a),
{
    if path_lt(b, a) {
        lemma_path_lt_transitive(a, b, a);
        lemma_path_lt_irreflexive(a);
    }
}

fn rank_lt(x: char, y: char) -> (r: bool)
    requires
        x != y,
    ensures
        r == (path_rank(x) < path_rank(y)),
{
    if x == '/' {
        true
    } else if y == '/' {
        false
    } else {
        (x as u32) < (y as u32)
    }
}

/// Whether `a` sorts strictly before `b` as a path.
pub fn path_less(a: &str, b: &str) -> (r: bool)
    ensures
        r == path_lt(a@, b@),
{
    let n = a.unicode_len();
    let m = b.unicode_len();
    let mut i: usize = 0;
    assert(a@.skip(0) =~= a@);
    assert(b@.skip(0) =~= b@);
    while i < n && i < m
        invariant
            n == a@.len(),
            m == b@.len(),
            i <= n,
            i <= m,
            path_lt(a@, b@) == path_lt(a@.skip(i as int), b@.skip(i as int)),
        decreases n - i,
    {
        let x = a.get_char(i);
        let y = b.get_char(i);
        assert(a@.skip(i as int)[0] == x);
        assert(b@.skip(i as int)[0] == y);
        if x != y {
            return rank_lt(x, y);
        }
        assert(a@.skip(i as int).drop_first() =~= a@.skip(i + 1));
        assert(b@.skip(i as int).drop_first() =~= b@.skip(i + 1));
        i = i + 1;
    }
    i == n && i < m
}

// ---- sorting paths ----

/// Insert `x` after every element that does not sort after it.
pub open spec fn insert_path(sorted: Seq<Seq<char>>, x: Seq<char>) -> Seq<Seq<char>>
    decreases sorted.len(),
{
    if sorted.len() == 0 {
        seq![x]
    } else if !path_lt(x, sorted.last()) {
        sorted.push(x)
    } else {
        insert_path(sorted.drop_last(), x).push(sorted.last())
    }
}

/// `s` sorted by path (insertion sort).
pub open spec fn sort_paths(s: Seq<Seq<char>>) -> Seq<Seq<char>>
    decreases s.len(),
{
    if s.len() == 0 {
        Seq::empty()
    } else {
        insert_path(sort_paths(s.drop_last()), s.last())
    }
}

pub open spec fn paths_sorted(s: Seq<Seq<char>>) -> bool {
    forall|i: int, j: int| 0 <= i < j < s.len() ==> path_le(#[trigger] s[i], #[trigger] s[j])
}

proof fn lemma_insert_path_view(s: Seq<Seq<char>>, x: Seq<char>, j: int)
    requires
        0 <= j <= s.len(),
        j == 0 || !path_lt(x, s[j - 1]),
        forall|t: int| j <= t < s.len() ==> path_lt(x, #[trigger] s[t]),
    ensures
        insert_path(s, x) == s.take(j) + seq![x] + s.skip(j),
    decreases s.len(),
{
    if s.len() == 0 {
        assert(s.take(j) + seq![x] + s.skip(j) =~= seq![x]);
    } else if !path_lt(x, s.last()) {
        assert(j == s.len());
        assert(s.take(j) + seq![x] + s.skip(j) =~= s.push(x));
    } else {
        lemma_insert_path_view(s.drop_last(), x, j);
        assert(s.take(j) + seq![x] + s.skip(j) =~= (s.drop_last().take(j) + seq![x]
            + s.drop_last().skip(j)).push(s.last()));
    }
}

fn insert_path_exec(v: &mut Vec<String>, x: String)
    ensures
        final(v)@.map_values(|s: String| s@) == insert_path(
            old(v)@.map_values(|s: String| s@),
            x@,
        ),
{
    let ghost vv = v@.map_values(|s: String| s@);
    let mut j = v.len();
    while j > 0 && path_less(x.as_str(), v[j - 1].as_str())
        invariant
            j <= v@.len(),
            vv == v@.map_values(|s: String| s@),
            v@ == old(v)@,
            forall|t: int| j <= t < v@.len() ==> path_lt(x@, #[trigger] vv[t]),
        decreases j,
    {
        j = j - 1;
    }
    proof {
        lemma_insert_path_view(vv, x@, j as int);
    }
    let ghost xv = x@;
    v.insert(j, x);
    assert(v@.map_values(|s: String| s@) =~= vv.take(j as int) + seq![xv] + vv.skip(j as int));
}

/// `v` sorted by path.
pub fn sort_paths_exec(v: Vec<String>) -> (r: Vec<String>)
    ensures
        r@.map_values(|s: String| s@) == sort_paths(v@.map_values(|s: String| s@)),
{
    let ghost vv = v@.map_values(|s: String| s@);
    let mut r: Vec<String> = Vec::new();
    let n = v.len();
    let mut i: usize = 0;
    assert(vv.take(0) =~= Seq::<Seq<char>>::empty());
    assert(r@.map_values(|s: String| s@) =~= Seq::<Seq<char>>::empty());
    while i < n
        invariant
            n == v@.len(),
            i <= n,
            vv == v@.map_values(|s: String| s@),
            r@.map_values(|s: String| s@) == sort_paths(vv.take(i as int)),
        decreases n - i,
    {
        assert(vv.take(i + 1).drop_last() =~= vv.take(i as int));
        assert(vv.take(i + 1).last() == v@[i as int]@);
        insert_path_exec(&mut r, v[i].clone());
        i = i + 1;
    }
    assert(vv.take(n as int) =~= vv);
    r
}

pub proof fn lemma_insert_path_sorted(s: Seq<Seq<char>>, x: Seq<char>)
    requires
        paths_sorted(s),
    ensures
        paths_sorted(insert_path(s, x)),
        insert_path(s, x).to_multiset() == s.to_multiset().insert(x),
        insert_path(s, x).len() == s.len() + 1,
    decreases s.len(),
{
    broadcast use vstd::seq_lib::group_to_multiset_ensures;
    if s.len() == 0 {
        assert(insert_path(s, x) =~= seq![x]);
        assert(seq![x] =~= Seq::<Seq<char>>::empty().push(x));
    } else if !path_lt(x, s.last()) {
        let r = s.push(x);
        assert forall|i: int, j: int| 0 <= i < j < r.len() implies path_le(
            #[trigger] r[i],
            #[trigger] r[j],
        ) by {
            if j == r.len() - 1 {
                lemma_path_lt_total(s.last(), x);
                if i < s.len() - 1 {
                    assert(path_le(s[i], s[s.len() - 1]));
                    if path_lt(s[i], s.last()) && path_lt(s.last(), x) {
                        lemma_path_lt_transitive(s[i], s.last(), x);
                    }
                }
            }
        }
    } else {
        let d = s.drop_last();
        assert forall|i: int, j: int| 0 <= i < j < d.len() implies path_le(
            #[trigger] d[i],
            #[trigger] d[j],
        ) by {
            assert(path_le(s[i], s[j]));
        }
        lemma_insert_path_sorted(d, x);
        let q = insert_path(d, x);
        let r = q.push(s.last());
        assert(q.to_multiset() =~= d.to_multiset().insert(x));
        assert(s =~= d.push(s.last()));
        assert forall|i: int, j: int| 0 <= i < j < r.len() implies path_le(
            #[trigger] r[i],
            #[trigger] r[j],
        ) by {
            if j == r.len() - 1 {
                // every element of q is x or an element of d, both before s.last()
                assert(q.to_multiset().count(q[i]) > 0);
                if q[i] == x {
                } else {
                    assert(d.to_multiset().count(q[i]) > 0);
                    let k = choose|k: int| 0 <= k < d.len() && d[k] == q[i];
                    assert(path_le(s[k], s[s.len() - 1]));
                }
            }
        }
    }
}

/// Sorting by path puts every element after the ones it does not precede,
/// and keeps exactly the elements it was given.
pub proof fn lemma_sort_paths(s: Seq<Seq<char>>)
    ensures
        paths_sorted(sort_paths(s)),
        sort_paths(s).to_multiset() == s.to_multiset(),
        sort_paths(s).len() == s.len(),
    decreases s.len(),
{
    broadcast use vstd::seq_lib::group_to_multiset_ensures;
    if s.len() > 0 {
        lemma_sort_paths(s.drop_last());
        lemma_insert_path_sorted(sort_paths(s.drop_last()), s.last());
        assert(s =~= s.drop_last().push(s.last()));
    }
}

// ---- sorting diagnostics ----

/// `None` sorts first.
pub open spec fn opt_path_lt(a: Option<Seq<char>>, b: Option<Seq<char>>) -> bool {
    match (a, b) {
        (None, Some(_)) => true,
        (Some(x), Some(y)) => path_lt(x, y),
        _ => false,
    }
}

/// `None` sorts first.
pub open spec fn opt_num_lt(a: Option<usize>, b: Option<usize>) -> bool {
    match (a, b) {
        (None, Some(_)) => true,
        (Some(x), Some(y)) => x < y,
        _ => false,
    }
}

/// `d` sorts strictly before `e`: by file, then line, then column.
pub open spec fn diag_before(d: DiagnosticView, e: DiagnosticView) -> bool {
    ||| opt_path_lt(d.file, e.file)
    ||| (d.file == e.file && opt_num_lt(d.line, e.line))
    ||| (d.file == e.file && d.line == e.line && opt_num_lt(d.column, e.column))
}

/// Insert `d` after every element that does not sort after it, so that
/// diagnostics at one place keep their order.
pub open spec fn insert_diag(sorted: Seq<DiagnosticView>, d: DiagnosticView) -> Seq<DiagnosticView>
    decreases sorted.len(),
{
    if sorted.len() == 0 {
        seq![d]
    } else if !diag_before(d, sorted.last()) {
        sorted.push(d)
    } else {
        insert_diag(sorted.drop_last(), d).push(sorted.last())
    }
}

/// `s` stably sorted by file, line and column.
pub open spec fn sort_diags(s: Seq<DiagnosticView>) -> Seq<DiagnosticView>
    decreases s.len(),
{
    if s.len() == 0 {
        Seq::empty()
    } else {
        insert_diag(sort_diags(s.drop_last()), s.last())
    }
}

pub open spec fn diags_sorted(s: Seq<DiagnosticView>) -> bool {
    forall|i: int, j: int| 0 <= i < j < s.len() ==> !diag_before(#[trigger] s[j], #[trigger] s[i])
}

fn opt_path_less(a: &Option<String>, b: &Option<String>) -> (r: bool)
    ensures
        r == opt_path_lt(crate::diagnostic::opt_str_view(*a), crate::diagnostic::opt_str_view(*b)),
{
    match (a, b) {
        (None, Some(_)) => true,
        (Some(x), Some(y)) => path_less(x.as_str(), y.as_str()),
        _ => false,
    }
}

fn opt_num_less(a: Option<usize>, b: Option<usize>) -> (r: bool)
    ensures
        r == opt_num_lt(a, b),
{
    match (a, b) {
        (None, Some(_)) => true,
        (Some(x), Some(y)) => x < y,
        _ => false,
    }
}

fn opt_str_eq(a: &Option<String>, b: &Option<String>) -> (r: bool)
    ensures
        r == (crate::diagnostic::opt_str_view(*a) == crate::diagnostic::opt_str_view(*b)),
{
    match (a, b) {
        (None, None) => true,
        (Some(x), Some(y)) => *x == *y,
        _ => false,
    }
}

/// Whether `d` sorts strictly before `e`.
pub fn diag_before_exec(d: &Diagnostic, e: &Diagnostic) -> (r: bool)
    ensures
        r == diag_before(d@, e@),
{
    if opt_path_less(&d.file, &e.file) {
        return true;
    }
    if !opt_str_eq(&d.file, &e.file) {
        return false;
    }
    if opt_num_less(d.line, e.line) {
        return true;
    }
    d.line == e.line && opt_num_less(d.column, e.column)
}

proof fn lemma_insert_diag_view(s: Seq<DiagnosticView>, x: DiagnosticView, j: int)
    requires
        0 <= j <= s.len(),
        j == 0 || !diag_before(x, s[j - 1]),
        forall|t: int| j <= t < s.len() ==> diag_before(x, #[trigger] s[t]),
    ensures
        insert_diag(s, x) == s.take(j) + seq![x] + s.skip(j),
    decreases s.len(),
{
    if s.len() == 0 {
        assert(s.take(j) + seq![x] + s.skip(j) =~= seq![x]);
    } else if !diag_before(x, s.last()) {
        assert(j == s.len());
        assert(s.take(j) + seq![x] + s.skip(j) =~= s.push(x));
    } else {
        lemma_insert_diag_view(s.drop_last(), x, j);
        assert(s.take(j) + seq![x] + s.skip(j) =~= (s.drop_last().take(j) + seq![x]
            + s.drop_last().skip(j)).push(s.last()));
    }
}

fn insert_diag_exec(v: &mut Vec<Diagnostic>, d: Diagnostic)
    ensures
        diags_view(final(v)@) == insert_diag(diags_view(old(v)@), d@),
{
    let ghost vv = diags_view(v@);
    let mut j = v.len();
    while j > 0 && diag_before_exec(&d, &v[j - 1])
        invariant
            j <= v@.len(),
            vv == diags_view(v@),
            v@ == old(v)@,
            forall|t: int| j <= t < v@.len() ==> diag_before(d@, #[trigger] vv[t]),
        decreases j,
    {
        j = j - 1;
    }
    proof {
        lemma_insert_diag_view(vv, d@, j as int);
    }
    let ghost dv = d@;
    v.insert(j, d);
    assert(diags_view(v@) =~= vv.take(j as int) + seq![dv] + vv.skip(j as int));
}

/// A copy of `v`, stably sorted by file, line and column.
pub fn sort_diagnostics(v: &Vec<Diagnostic>) -> (r: Vec<Diagnostic>)
    ensures
        diags_view(r@) == sort_diags(diags_view(v@)),
{
    let ghost vv = diags_view(v@);
    let mut r: Vec<Diagnostic> = Vec::new();
    let n = v.len();
    let mut i: usize = 0;
    assert(vv.take(0) =~= Seq::<DiagnosticView>::empty());
    assert(diags_view(r@) =~= Seq::<DiagnosticView>::empty());
    while i < n
        invariant
            n == v@.len(),
            vv == diags_view(v@),
            i <= n,
            diags_view(r@) == sort_diags(vv.take(i as int)),
        decreases n - i,
    {
        assert(vv.take(i + 1).drop_last() =~= vv.take(i as int));
        insert_diag_exec(&mut r, v[i].duplicate());
        i = i + 1;
    }
    assert(vv.take(n as int) =~= vv);
    r
}

proof fn lemma_diag_before_transitive(a: DiagnosticView, b: DiagnosticView, c: DiagnosticView)
    requires
        diag_before(a, b),
        diag_before(b, c),
    ensures
        diag_before(a, c),
{
    match (a.file, b.file, c.file) {
        (Some(x), Some(y), Some(z)) => {
            if path_lt(x, y) && path_lt(y, z) {
                lemma_path_lt_transitive(x, y, z);
            }
        },
        _ => {},
    }
}

proof fn lemma_diag_before_asymmetric(a: DiagnosticView, b: DiagnosticView)
    requires
        diag_before(a, b),
    ensures
        !diag_before(b, a),
{
    if diag_before(b, a) {
        lemma_diag_before_transitive(a, b, a);
        match a.file {
            Some(x) => lemma_path_lt_irreflexive(x),
            None => {},
        }
    }
}

/// Neither sorts before the other only when file, line and column agree.
proof fn lemma_diag_before_total(a: DiagnosticView, b: DiagnosticView)
    ensures
        diag_before(a, b) || diag_before(b, a) || (a.file == b.file && a.line == b.line
            && a.column == b.column),
{
    match (a.file, b.file) {
        (Some(x), Some(y)) => lemma_path_lt_total(x, y),
        _ => {},
    }
}

proof fn lemma_not_before_transitive(a: DiagnosticView, b: DiagnosticView, c: DiagnosticView)
    requires
        !diag_before(b, a),
        !diag_before(c, b),
    ensures
        !diag_before(c, a),
{
    lemma_diag_before_total(a, b);
    lemma_diag_before_total(b, c);
    if diag_before(c, a) {
        if diag_before(a, b) {
            lemma_diag_before_transitive(c, a, b);
        }
        if diag_before(b, c) {
            lemma_diag_before_transitive(b, c, a);
        }
    }
}

pub proof fn lemma_insert_diag_sorted(s: Seq<DiagnosticView>, x: DiagnosticView)
    requires
        diags_sorted(s),
    ensures
        diags_sorted(insert_diag(s, x)),
        insert_diag(s, x).to_multiset() == s.to_multiset().insert(x),
        insert_diag(s, x).len() == s.len() + 1,
    decreases s.len(),
{
    broadcast use vstd::seq_lib::group_to_multiset_ensures;
    if s.len() == 0 {
        assert(insert_diag(s, x) =~= seq![x]);
        assert(seq![x] =~= Seq::<DiagnosticView>::empty().push(x));
    } else if !diag_before(x, s.last()) {
        let r = s.push(x);
        assert forall|i: int, j: int| 0 <= i < j < r.len() implies !diag_before(
            #[trigger] r[j],
            #[trigger] r[i],
        ) by {
            if j == r.len() - 1 && i < s.len() - 1 {
                assert(!diag_before(s[s.len() - 1], s[i]));
                lemma_not_before_transitive(s[i], s.last(), x);
            }
        }
    } else {
        let d = s.drop_last();
        assert forall|i: int, j: int| 0 <= i < j < d.len() implies !diag_before(
            #[trigger] d[j],
            #[trigger] d[i],
        ) by {
            assert(!diag_before(s[j], s[i]));
        }
        lemma_insert_diag_sorted(d, x);
        let q = insert_diag(d, x);
        let r = q.push(s.last());
        assert(q.to_multiset() =~= d.to_multiset().insert(x));
        assert(s =~= d.push(s.last()));
        assert forall|i: int, j: int| 0 <= i < j < r.len() implies !diag_before(
            #[trigger] r[j],
            #[trigger] r[i],
        ) by {
            if j == r.len() - 1 {
                assert(q.to_multiset().count(q[i]) > 0);
                if q[i] == x {
                    lemma_diag_before_asymmetric(x, s.last());
                } else {
                    assert(d.to_multiset().count(q[i]) > 0);
                    let k = choose|k: int| 0 <= k < d.len() && d[k] == q[i];
                    assert(!diag_before(s[s.len() - 1], s[k]));
                }
            }
        }
    }
}

/// Sorting diagnostics orders them by file, line and column, and keeps
/// exactly the diagnostics it was given.
pub proof fn lemma_sort_diags(s: Seq<DiagnosticView>)
    ensures
        diags_sorted(sort_diags(s)),
        sort_diags(s).to_multiset() == s.to_multiset(),
        sort_diags(s).len() == s.len(),
    decreases s.len(),
{
    broadcast use vstd::seq_lib::group_to_multiset_ensures;
    if s.len() > 0 {
        lemma_sort_diags(s.drop_last());
        lemma_insert_diag_sorted(sort_diags(s.drop_last()), s.last());
        assert(s =~= s.drop_last().push(s.last()));
    }
}

// ---- sorting lists of paths ----

/// `a` sorts strictly before `b`, element by element, a proper prefix
/// first.
pub open spec fn list_lt(a: Seq<Seq<char>>, b: Seq<Seq<char>>) -> bool
    decreases a.len(),
{
    if a.len() == 0 {
        b.len() > 0
    } else if b.len() == 0 {
        false
    } else if a[0] == b[0] {
        list_lt(a.drop_first(), b.drop_first())
    } else {
        path_lt(a[0], b[0])
    }
}

pub open spec fn lists_view(v: Seq<Vec<String>>) -> Seq<Seq<Seq<char>>> {
    v.map_values(|l: Vec<String>| l@.map_values(|s: String| s@))
}

/// Whether `a` sorts strictly before `b` as a list of paths.
pub fn list_less(a: &Vec<String>, b: &Vec<String>) -> (r: bool)
    ensures
        r == list_lt(a@.map_values(|s: String| s@), b@.map_values(|s: String| s@)),
{
    let ghost av = a@.map_values(|s: String| s@);
    let ghost bv = b@.map_values(|s: String| s@);
    let n = a.len();
    let m = b.len();
    let mut i: usize = 0;
    assert(av.skip(0) =~= av);
    assert(bv.skip(0) =~= bv);
    while i < n && i < m
        invariant
            n == av.len(),
            m == bv.len(),
            av == a@.map_values(|s: String| s@),
            bv == b@.map_values(|s: String| s@),
            i <= n,
            i <= m,
            list_lt(av, bv) == list_lt(av.skip(i as int), bv.skip(i as int)),
        decreases n - i,
    {
        assert(av.skip(i as int)[0] == a@[i as int]@);
        assert(bv.skip(i as int)[0] == b@[i as int]@);
        if a[i] != b[i] {
            return path_less(a[i].as_str(), b[i].as_str());
        }
        assert(av.skip(i as int).drop_first() =~= av.skip(i + 1));
        assert(bv.skip(i as int).drop_first() =~= bv.skip(i + 1));
        i = i + 1;
    }
    i == n && i < m
}

pub open spec fn insert_list(sorted: Seq<Seq<Seq<char>>>, x: Seq<Seq<char>>) -> Seq<Seq<Seq<char>>>
    decreases sorted.len(),
{
    if sorted.len() == 0 {
        seq![x]
    } else if !list_lt(x, sorted.last()) {
        sorted.push(x)
    } else {
        insert_list(sorted.drop_last(), x).push(sorted.last())
    }
}

/// Lists of paths, sorted (insertion sort).
pub open spec fn sort_lists(s: Seq<Seq<Seq<char>>>) -> Seq<Seq<Seq<char>>>
    decreases s.len(),
{
    if s.len() == 0 {
        Seq::empty()
    } else {
        insert_list(sort_lists(s.drop_last()), s.last())
    }
}

proof fn lemma_insert_list_view(s: Seq<Seq<Seq<char>>>, x: Seq<Seq<char>>, j: int)
    requires
        0 <= j <= s.len(),
        j == 0 || !list_lt(x, s[j - 1]),
        forall|t: int| j <= t < s.len() ==> list_lt(x, #[trigger] s[t]),
    ensures
        insert_list(s, x) == s.take(j) + seq![x] + s.skip(j),
    decreases s.len(),
{
    if s.len() == 0 {
        assert(s.take(j) + seq![x] + s.skip(j) =~= seq![x]);
    } else if !list_lt(x, s.last()) {
        assert(j == s.len());
        assert(s.take(j) + seq![x] + s.skip(j) =~= s.push(x));
    } else {
        lemma_insert_list_view(s.drop_last(), x, j);
        assert(s.take(j) + seq![x] + s.skip(j) =~= (s.drop_last().take(j) + seq![x]
            + s.drop_last().skip(j)).push(s.last()));
    }
}

fn insert_list_exec(v: &mut Vec<Vec<String>>, x: Vec<String>)
    ensures
        lists_view(final(v)@) == insert_list(lists_view(old(v)@), x@.map_values(|s: String| s@)),
{
    let ghost vv = lists_view(v@);
    let ghost xv = x@.map_values(|s: String| s@);
    let mut j = v.len();
    while j > 0 && list_less(&x, &v[j - 1])
        invariant
            j <= v@.len(),
            vv == lists_view(v@),
            xv == x@.map_values(|s: String| s@),
            v@ == old(v)@,
            forall|t: int| j <= t < v@.len() ==> list_lt(xv, #[trigger] vv[t]),
        decreases j,
    {
        j = j - 1;
    }
    proof {
        lemma_insert_list_view(vv, xv, j as int);
    }
    v.insert(j, x);
    assert(lists_view(v@) =~= vv.take(j as int) + seq![xv] + vv.skip(j as int));
}

/// `v` sorted as lists of paths.
pub fn sort_lists_exec(v: Vec<Vec<String>>) -> (r: Vec<Vec<String>>)
    ensures
        lists_view(r@) == sort_lists(lists_view(v@)),
{
    let ghost vv = lists_view(v@);
    let mut r: Vec<Vec<String>> = Vec::new();
    let mut rest = v;
    let n = rest.len();
    let mut i: usize = 0;
    assert(vv.take(0) =~= Seq::<Seq<Seq<char>>>::empty());
    assert(lists_view(r@) =~= Seq::<Seq<Seq<char>>>::empty());
    while i < n
        invariant
            n == vv.len(),
            i <= n,
            rest@.len() == n - i,
            forall|k: int| 0 <= k < rest@.len() ==> #[trigger] lists_view(rest@)[k] == vv[i + k],
            lists_view(r@) == sort_lists(vv.take(i as int)),
        decreases n - i,
    {
        let ghost before = rest@;
        assert(lists_view(before)[0] == vv[i as int]);
        let x = rest.remove(0);
        assert(x == before[0]);
        assert(rest@ =~= before.drop_first());
        assert forall|k: int| 0 <= k < rest@.len() implies #[trigger] lists_view(rest@)[k]
            == vv[i + 1 + k] by {
            assert(lists_view(before)[k + 1] == vv[i + (k + 1)]);
        }
        assert(vv.take(i + 1).drop_last() =~= vv.take(i as int));
        insert_list_exec(&mut r, x);
        i = i + 1;
    }
    assert(vv.take(n as int) =~= vv);
    r
}

} // verus!
