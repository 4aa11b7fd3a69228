//! Requests for a file by its path relative to the project root, or by
//! that path joined to the root.

use vstd::prelude::*;
use crate::project::{
    SourceFile, answers_request, explain_report, forward_slashes, relative_request, requested_index,
    trim_leading_slashes,
};
use crate::resolve::join_path;
use crate::text::{ends_with, starts_with};

verus! {

proof fn lemma_forward_slashes_plain(s: Seq<char>)
    requires
        !s.contains('\\'),
    ensures
        forward_slashes(s) == s,
    decreases s.len(),
{
    if s.len() > 0 {
        let d = s.drop_last();
        assert(!d.contains('\\')) by {
            if d.contains('\\') {
                let i = choose|i: int| 0 <= i < d.len() && d[i] == '\\';
                assert(s[i] == '\\');
            }
        }
        lemma_forward_slashes_plain(d);
        assert(s.last() == s[s.len() - 1]);
        assert(d + seq![s.last()] =~= s);
    }
}

proof fn lemma_requested_index_same(files: Seq<SourceFile>, r1: Seq<char>, l1: Seq<char>, r2: Seq<char>, l2: Seq<char>)
    requires
        forall|j: int|
            0 <= j < files.len() ==> answers_request(#[trigger] files[j].path@, r1, l1) == answers_request(
                files[j].path@,
                r2,
                l2,
            ),
    ensures
        requested_index(files, r1, l1) == requested_index(files, r2, l2),
    decreases files.len(),
{
    if files.len() > 0 {
        assert(answers_request(files[0].path@, r1, l1) == answers_request(files[0].path@, r2, l2));
        assert forall|j: int| 0 <= j < files.drop_first().len() implies answers_request(
            #[trigger] files.drop_first()[j].path@,
            r1,
            l1,
        ) == answers_request(files.drop_first()[j].path@, r2, l2) by {
            assert(files.drop_first()[j] == files[j + 1]);
        }
        lemma_requested_index_same(files.drop_first(), r1, l1, r2, l2);
    }
}

/// Of two suffixes of one text, the shorter is a suffix of the longer.
proof fn lemma_suffix_of_suffix(a: Seq<char>, x: Seq<char>, y: Seq<char>)
    requires
        ends_with(a, x),
        ends_with(a, y),
        y.len() <= x.len(),
    ensures
        ends_with(x, y),
{
    assert(x.subrange(x.len() - y.len(), x.len() as int) =~= y) by {
        assert forall|t: int| 0 <= t < y.len() implies x.subrange(x.len() - y.len(), x.len() as int)[t] == y[t] by {
            assert(a.subrange(a.len() - x.len(), a.len() as int)[x.len() - y.len() + t] == x[x.len() - y.len() + t]);
            assert(a.subrange(a.len() - y.len(), a.len() as int)[t] == y[t]);
        }
    }
}

proof fn lemma_slash_suffix(x: Seq<char>, p: Seq<char>)
    requires
        ends_with(x, "/"@ + p),
    ensures
        ends_with(x, p),
{
    let sp = "/"@ + p;
    assert(x.subrange(x.len() - p.len(), x.len() as int) =~= p) by {
        assert forall|t: int| 0 <= t < p.len() implies x.subrange(x.len() - p.len(), x.len() as int)[t] == p[t] by {
            assert(x.subrange(x.len() - sp.len(), x.len() as int)[sp.len() - p.len() + t] == sp[sp.len() - p.len() + t]);
        }
    }
}

/// Where `a` ends with `/f` and `p` does not, `p` answers a request for
/// `a` relative `f` exactly when it answers one for `f` itself.
proof fn lemma_answers_agree(path: Seq<char>, a: Seq<char>, f: Seq<char>)
    requires
        ends_with(a, "/"@ + f),
        !ends_with(forward_slashes(path), "/"@ + f),
    ensures
        answers_request(path, f, f) == answers_request(path, a, f),
{
    reveal_strlit("/");
    let p = forward_slashes(path);
    let sp = "/"@ + p;
    let sf = "/"@ + f;
    if p == a {
        assert(ends_with(p, sf));
    }
    if ends_with(a, sp) {
        if sp.len() <= sf.len() {
            lemma_suffix_of_suffix(a, sf, sp);
            lemma_slash_suffix(sf, p);
            assert(sf.subrange(1, sf.len() as int) =~= f);
            assert(f.subrange(f.len() - p.len(), f.len() as int) =~= sf.subrange(
                sf.len() - p.len(),
                sf.len() as int,
            ));
        } else {
            lemma_suffix_of_suffix(a, sp, sf);
            assert(sp.subrange(1, sp.len() as int) =~= p);
            assert(p.subrange(p.len() - sf.len(), p.len() as int) =~= sp.subrange(
                sp.len() - sf.len(),
                sp.len() as int,
            ));
        }
    }
    if ends_with(f, sp) {
        lemma_slash_suffix(f, p);
    }
}

proof fn lemma_explain_requests_agree(files: Seq<SourceFile>, root: Seq<char>, f: Seq<char>)
    requires
        root.len() > 0,
        !root.contains('\\'),
        f.len() > 0,
        f[0] != '/',
        !f.contains('\\'),
        !starts_with(f, root),
        forall|j: int|
            0 <= j < files.len() ==> !ends_with(forward_slashes(#[trigger] files[j].path@), "/"@ + f),
    ensures
        requested_index(
            files,
            forward_slashes(join_path(root, f)),
            relative_request(root, join_path(root, f)),
        ) == requested_index(files, forward_slashes(f), relative_request(root, f)),
{
    let a = join_path(root, f);
    let slash = "/"@;
    assert(slash.len() == 1 && slash[0] == '/') by {
        reveal_strlit("/");
    }
    assert(!starts_with(f, slash)) by {
        assert(f.subrange(0, 1)[0] == f[0]);
    }
    let tail = if ends_with(root, slash) {
        f
    } else {
        slash + f
    };
    assert(a == root + tail);
    assert(!a.contains('\\')) by {
        if a.contains('\\') {
            let i = choose|i: int| 0 <= i < a.len() && a[i] == '\\';
            if i < root.len() {
                assert(root[i] == a[i]);
            } else if ends_with(root, slash) {
                assert(f[i - root.len()] == a[i]);
            } else if i == root.len() {
                assert(a[i] == '/');
            } else {
                assert(f[i - root.len() - 1] == a[i]);
            }
        }
    }
    lemma_forward_slashes_plain(root);
    lemma_forward_slashes_plain(f);
    lemma_forward_slashes_plain(a);
    assert(trim_leading_slashes(f) == f);
    assert(relative_request(root, f) == f);
    assert(starts_with(a, root)) by {
        assert(a.subrange(0, root.len() as int) =~= root);
    }
    assert(a.skip(root.len() as int) =~= tail);
    if !ends_with(root, slash) {
        assert(tail[0] == '/');
        assert(tail.drop_first() =~= f);
    }
    assert(trim_leading_slashes(tail) == f);
    assert(relative_request(root, a) == f);
    let sf = slash + f;
    assert(ends_with(a, sf)) by {
        if ends_with(root, slash) {
            assert(root.subrange(root.len() - 1, root.len() as int)[0] == root[root.len() - 1]);
            assert(a.subrange(a.len() - sf.len(), a.len() as int) =~= sf);
        } else {
            assert(a.subrange(a.len() - sf.len(), a.len() as int) =~= sf);
        }
    }
    assert forall|j: int| 0 <= j < files.len() implies answers_request(#[trigger] files[j].path@, f, f)
        == answers_request(files[j].path@, a, f) by {
        lemma_answers_agree(files[j].path@, a, f);
    }
    lemma_requested_index_same(files, f, f, a, f);
}

/// Asking to explain a line of a file by its path relative to the root, or
/// by that path joined to the root, gives the same explanations under the
/// same resolutions. The relative path is taken as written (`/`-separated,
/// not absolute, not itself starting with the root's text), and no loaded
/// file's path ends in `/` followed by it: with both `x.lua` and
/// `a/x.lua` loaded under a root ending in `a`, the joined form names
/// `a/x.lua` where the relative one names `x.lua`.
pub proof fn lemma_explain_relative_or_joined(
    files: Seq<SourceFile>,
    table: Seq<(Seq<char>, Option<Seq<char>>)>,
    root: Seq<char>,
    f: Seq<char>,
    line: usize,
)
    requires
        root.len() > 0,
        !root.contains('\\'),
        f.len() > 0,
        f[0] != '/',
        !f.contains('\\'),
        !starts_with(f, root),
        forall|j: int|
            0 <= j < files.len() ==> !ends_with(forward_slashes(#[trigger] files[j].path@), "/"@ + f),
    ensures
        explain_report(files, table, root, join_path(root, f), line) == explain_report(
            files,
            table,
            root,
            f,
            line,
        ),
{
    lemma_explain_requests_agree(files, root, f);
}

} // verus!
