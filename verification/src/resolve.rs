//! Resolution of Lua module names (`a.b.c`) to files, using
//! `package.path`-style patterns with `?` placeholders relative to a
//! project root.

use vstd::prelude::*;
use crate::text::{
    concat, ends_with, ends_with_exec, owned, replace_char, replace_char_exec, starts_with,
    starts_with_exec, strip_prefix_or_self,
};

verus! {

/// Resolves module names to files relative to `root`.
pub struct Resolver {
    root: String,
    search_path: Vec<String>,
}

pub struct ResolverView {
    pub root: Seq<char>,
    pub search_path: Seq<Seq<char>>,
}

impl View for Resolver {
    type V = ResolverView;

    closed spec fn view(&self) -> ResolverView {
        ResolverView {
            root: self.root@,
            search_path: self.search_path@.map_values(|p: String| p@),
        }
    }
}

/// `a.b.c` as the relative path `a/b/c`.
pub open spec fn slash_path(module: Seq<char>) -> Seq<char> {
    replace_char(module, '.', "/"@)
}

/// The file one search-path pattern names for `module`, without a
/// leading `./`.
pub open spec fn candidate(pattern: Seq<char>, module: Seq<char>) -> Seq<char> {
    let c = replace_char(pattern, '?', slash_path(module));
    if starts_with(c, "./"@) {
        c.skip(2)
    } else {
        c
    }
}

/// The candidate files for `module`, in search-path order.
pub open spec fn candidates(search_path: Seq<Seq<char>>, module: Seq<char>) -> Seq<Seq<char>> {
    search_path.map_values(|p: Seq<char>| candidate(p, module))
}

/// `Path::join` on `/`-separated paths: an absolute `rel` replaces `base`;
/// otherwise a separator is put between them where `base` lacks one.
pub open spec fn join_path(base: Seq<char>, rel: Seq<char>) -> Seq<char> {
    if starts_with(rel, "/"@) || base.len() == 0 {
        rel
    } else if ends_with(base, "/"@) {
        base + rel
    } else {
        base + "/"@ + rel
    }
}

/// The first candidate whose probe came back `true`.
pub open spec fn first_existing(cands: Seq<Seq<char>>, exists: Seq<bool>) -> Option<Seq<char>>
    decreases cands.len(),
{
    if cands.len() == 0 || exists.len() == 0 {
        None
    } else if exists[0] {
        Some(cands[0])
    } else {
        first_existing(cands.drop_first(), exists.drop_first())
    }
}

/// The answers in a trace of file-system probes.
pub open spec fn answers(trace: Seq<(Seq<char>, bool)>) -> Seq<bool> {
    trace.map_values(|p: (Seq<char>, bool)| p.1)
}

/// A trace of probes made in order: probe `j` asked about candidate `j`
/// joined to `root`, every probe but the last came back `false`, and the
/// probing stopped early only at a `true` answer.
pub open spec fn probed_in_order(
    root: Seq<char>,
    cands: Seq<Seq<char>>,
    trace: Seq<(Seq<char>, bool)>,
) -> bool {
    &&& trace.len() <= cands.len()
    &&& forall|j: int| 0 <= j < trace.len() ==> #[trigger] trace[j].0 == join_path(root, cands[j])
    &&& forall|j: int| 0 <= j < trace.len() - 1 ==> !(#[trigger] trace[j]).1
    &&& trace.len() < cands.len() ==> trace.len() > 0 && trace.last().1
}

/// What a resolver at `root` over `search_path` can answer for `module`:
/// the candidates are probed, each joined to `root`, in search-path order
/// up to the first file the file system confirms, and that candidate is
/// the answer (`None` when every probe failed).
pub open spec fn resolvable(
    root: Seq<char>,
    search_path: Seq<Seq<char>>,
    module: Seq<char>,
    r: Option<Seq<char>>,
) -> bool {
    exists|trace: Seq<(Seq<char>, bool)>|
        probed_in_order(root, candidates(search_path, module), trace) && r == #[trigger] first_existing(
            candidates(search_path, module),
            answers(trace),
        )
}

/// Calls `Path::is_file` on `path`: whether it names an existing regular
/// file. That answer is the file system's, so nothing is stated of it; the
/// second result only records which path was asked about.
#[verifier::external_body]
fn file_exists(path: &str) -> (r: (bool, Ghost<Seq<char>>))
    ensures
        r.1@ == path@,
{
    (std::path::Path::new(path).is_file(), Ghost(path@))
}

pub fn join_path_exec(base: &str, rel: &str) -> (r: String)
    ensures
        r@ == join_path(base@, rel@),
{
    if starts_with_exec(rel, "/") || base.unicode_len() == 0 {
        owned(rel)
    } else if ends_with_exec(base, "/") {
        concat(base, rel)
    } else {
        let mut r = concat(base, "/");
        r.append(rel);
        r
    }
}

/// The first of `cands` whose entry in `exists` is `true`.
pub fn pick_first_existing(cands: &Vec<String>, exists: &Vec<bool>) -> (r: Option<String>)
    ensures
        crate::diagnostic::opt_str_view(r) == first_existing(
            cands@.map_values(|c: String| c@),
            exists@,
        ),
{
    let ghost cv = cands@.map_values(|c: String| c@);
    let mut k: usize = 0;
    assert(cv.skip(0) =~= cv);
    assert(exists@.skip(0) =~= exists@);
    while k < cands.len() && k < exists.len()
        invariant
            k <= cands@.len(),
            k <= exists@.len(),
            cv == cands@.map_values(|c: String| c@),
            cv.len() == cands@.len(),
            first_existing(cv, exists@) == first_existing(cv.skip(k as int), exists@.skip(k as int)),
        decreases cands@.len() - k,
    {
        let ghost rest = cv.skip(k as int);
        let ghost erest = exists@.skip(k as int);
        assert(rest[0] == cands@[k as int]@);
        if exists[k] {
            return Some(cands[k].clone());
        }
        assert(rest.drop_first() =~= cv.skip(k + 1));
        assert(erest.drop_first() =~= exists@.skip(k + 1));
        k = k + 1;
    }
    assert(cv.skip(k as int).len() == 0 || exists@.skip(k as int).len() == 0);
    None
}

impl Resolver {
    pub fn new(root: String, search_path: Vec<String>) -> (r: Self)
        ensures
            r@.root == root@,
            r@.search_path == search_path@.map_values(|p: String| p@),
    {
        Resolver { root, search_path }
    }

    /// The candidate files for `module`, one per search-path pattern.
    pub fn candidates(&self, module: &str) -> (r: Vec<String>)
        ensures
            r@.map_values(|c: String| c@) == candidates(self@.search_path, module@),
    {
        let sub = replace_char_exec(module, '.', "/");
        let mut out: Vec<String> = Vec::new();
        let n = self.search_path.len();
        let mut i: usize = 0;
        while i < n
            invariant
                n == self.search_path@.len(),
                i <= n,
                sub@ == slash_path(module@),
                out@.map_values(|c: String| c@) == candidates(
                    self@.search_path.take(i as int),
                    module@,
                ),
            decreases n - i,
        {
            let filled = replace_char_exec(self.search_path[i].as_str(), '?', sub.as_str());
            let c = strip_prefix_or_self(filled.as_str(), "./");
            proof {
                reveal_strlit("./");
                assert(c@ == candidate(self.search_path@[i as int]@, module@));
            }
            let ghost before = out@;
            out.push(c);
            assert(self@.search_path.take(i + 1) =~= self@.search_path.take(i as int).push(
                self.search_path@[i as int]@,
            ));
            assert(out@.map_values(|c: String| c@) =~= before.map_values(|c: String| c@).push(
                c@,
            ));
            assert(candidates(self@.search_path.take(i + 1), module@) =~= candidates(
                self@.search_path.take(i as int),
                module@,
            ).push(candidate(self.search_path@[i as int]@, module@)));
            i = i + 1;
        }
        assert(self@.search_path.take(n as int) =~= self@.search_path);
        out
    }

    /// Resolve `module` to a file path relative to the root: the first
    /// candidate, joined to the root, that names an existing file, or
    /// `None`. Which files exist is up to the file system.
    pub fn resolve(&self, module: &str) -> (r: Option<String>)
        ensures
            resolvable(self@.root, self@.search_path, module@, crate::diagnostic::opt_str_view(r)),
    {
        let cands = self.candidates(module);
        let ghost cv = cands@.map_values(|c: String| c@);
        let mut probes: Vec<bool> = Vec::new();
        let ghost mut trace: Seq<(Seq<char>, bool)> = Seq::empty();
        let mut k: usize = 0;
        assert(answers(trace) =~= probes@);
        loop
            invariant_except_break
                trace.len() == k,
                probes@ == answers(trace),
                forall|j: int| 0 <= j < k ==> #[trigger] trace[j].0 == join_path(self@.root, cv[j]) && !trace[j].1,
            invariant
                cv == cands@.map_values(|c: String| c@),
                k <= cv.len(),
            ensures
                probed_in_order(self@.root, cv, trace),
                probes@ == answers(trace),
            decreases cv.len() - k,
        {
            if k >= cands.len() {
                assert forall|j: int| 0 <= j < trace.len() - 1 implies !(#[trigger] trace[j]).1 by {
                    assert(trace[j].0 == join_path(self@.root, cv[j]) && !trace[j].1);
                }
                break;
            }
            let full = join_path_exec(self.root.as_str(), cands[k].as_str());
            let (found, asked) = file_exists(full.as_str());
            let ghost before = trace;
            proof {
                trace = trace.push((asked@, found));
                assert forall|j: int| 0 <= j < k implies #[trigger] trace[j].0 == join_path(self@.root, cv[j])
                    && !trace[j].1 by {
                    assert(trace[j] == before[j]);
                    assert(before[j].0 == join_path(self@.root, cv[j]) && !before[j].1);
                }
            }
            probes.push(found);
            assert(answers(trace) =~= probes@);
            assert(trace[k as int].0 == join_path(self@.root, cv[k as int]));
            if found {
                assert forall|j: int| 0 <= j < trace.len() - 1 implies !(#[trigger] trace[j]).1 by {
                    assert(trace[j].0 == join_path(self@.root, cv[j]) && !trace[j].1);
                }
                break;
            }
            k = k + 1;
        }
        let r = pick_first_existing(&cands, &probes);
        assert(crate::diagnostic::opt_str_view(r) == first_existing(
            candidates(self@.search_path, module@),
            answers(trace),
        ));
        r
    }
}

/// A resolution is always one of the candidates.
pub proof fn lemma_resolution_is_a_candidate(cands: Seq<Seq<char>>, probes: Seq<bool>)
    ensures
        first_existing(cands, probes) matches Some(c) ==> cands.contains(c),
    decreases cands.len(),
{
    if cands.len() > 0 && probes.len() > 0 && !probes[0] {
        lemma_resolution_is_a_candidate(cands.drop_first(), probes.drop_first());
        if let Some(c) = first_existing(cands.drop_first(), probes.drop_first()) {
            let k = choose|k: int| 0 <= k < cands.drop_first().len() && cands.drop_first()[k] == c;
            assert(cands[k + 1] == c);
        }
    } else if cands.len() > 0 && probes.len() > 0 {
        assert(cands[0] == cands[0]);
    }
}

proof fn lemma_first_existing_index(cands: Seq<Seq<char>>, ans: Seq<bool>)
    ensures
        match first_existing(cands, ans) {
            Some(c) => exists|k: int|
                0 <= k < cands.len() && k < ans.len() && ans[k] && #[trigger] cands[k] == c
                    && forall|j: int| 0 <= j < k ==> !ans[j],
            None => forall|j: int| 0 <= j < cands.len() && j < ans.len() ==> !ans[j],
        },
    decreases cands.len(),
{
    if cands.len() > 0 && ans.len() > 0 && !ans[0] {
        lemma_first_existing_index(cands.drop_first(), ans.drop_first());
        match first_existing(cands.drop_first(), ans.drop_first()) {
            Some(c) => {
                let k = choose|k: int|
                    0 <= k < cands.drop_first().len() && k < ans.drop_first().len() && ans.drop_first()[k]
                        && #[trigger] cands.drop_first()[k] == c && forall|j: int|
                        0 <= j < k ==> !ans.drop_first()[j];
                assert(cands[k + 1] == c);
                assert forall|j: int| 0 <= j < k + 1 implies !ans[j] by {
                    if j > 0 {
                        assert(ans[j] == ans.drop_first()[j - 1]);
                    }
                }
            },
            None => {
                assert forall|j: int| 0 <= j < cands.len() && j < ans.len() implies !ans[j] by {
                    if j > 0 {
                        assert(ans[j] == ans.drop_first()[j - 1]);
                    }
                }
            },
        }
    } else if cands.len() > 0 && ans.len() > 0 {
        assert(cands[0] == cands[0]);
    }
}

/// What a resolution comes to: the first candidate whose path under the
/// root the file system confirmed, every earlier candidate's path having
/// been asked about and refused; or `None` exactly when every candidate's
/// path under the root was asked about and refused.
pub proof fn lemma_resolution_is_the_first_existing(
    root: Seq<char>,
    cands: Seq<Seq<char>>,
    trace: Seq<(Seq<char>, bool)>,
)
    requires
        probed_in_order(root, cands, trace),
    ensures
        match first_existing(cands, answers(trace)) {
            Some(c) => exists|k: int|
                0 <= k < trace.len() && #[trigger] cands[k] == c && trace[k] == (join_path(root, c), true)
                    && forall|j: int| 0 <= j < k ==> trace[j] == (join_path(root, cands[j]), false),
            None => trace.len() == cands.len() && forall|j: int|
                0 <= j < cands.len() ==> trace[j] == (join_path(root, cands[j]), false),
        },
{
    let ans = answers(trace);
    lemma_first_existing_index(cands, ans);
    assert forall|j: int| 0 <= j < trace.len() implies ans[j] == (#[trigger] trace[j]).1 by {}
    match first_existing(cands, ans) {
        Some(c) => {
            let k = choose|k: int|
                0 <= k < cands.len() && k < ans.len() && ans[k] && #[trigger] cands[k] == c
                    && forall|j: int| 0 <= j < k ==> !ans[j];
            assert(trace[k].0 == join_path(root, cands[k]));
            assert forall|j: int| 0 <= j < k implies trace[j] == (join_path(root, cands[j]), false) by {
                assert(trace[j].0 == join_path(root, cands[j]));
                assert(!ans[j]);
            }
        },
        None => {
            if trace.len() < cands.len() {
                assert(ans[trace.len() - 1]);
            }
            assert forall|j: int| 0 <= j < cands.len() implies trace[j] == (join_path(root, cands[j]), false) by {
                assert(trace[j].0 == join_path(root, cands[j]));
                assert(!ans[j]);
            }
        },
    }
}

} // verus!
