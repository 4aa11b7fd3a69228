//! Static lookup resolution for module tables and instances. The resolver is
//! deliberately conservative: any dynamic link leaves the lookup Unknown.

use vstd::prelude::*;
use vstd::set_lib::*;
use vstd::seq_lib::*;
use crate::assoc::{first_index, vget, lemma_first_index};
use crate::diagnostic::opt_str_view;
use crate::lookup::{LookupResult, LookupResultView};
use crate::shapes::{
    Bindings, BindingsView, ExportShape, Member, ShapeView, all_bindings_view,
    get_index, lemma_all_bindings_keys, lemma_members_keys, lemma_shapes_keys,
    opt_ref_view, shapes_view, strs_view,
};
use crate::text::{concat, owned};

verus! {

/// What a lookup starts from: a module table or an instance of a class module.
#[derive(Debug)]
pub enum LookupTarget {
    Module(String),
    Instance(String),
}

pub enum TargetView {
    Module(Seq<char>),
    Instance(Seq<char>),
}

impl View for LookupTarget {
    type V = TargetView;

    open spec fn view(&self) -> TargetView {
        match self {
            LookupTarget::Module(p) => TargetView::Module(p@),
            LookupTarget::Instance(p) => TargetView::Instance(p@),
        }
    }
}

/// The outcome of one lookup: the trace, the verdict, and the member kind
/// when found.
#[derive(Debug)]
pub struct LookupResolution {
    pub steps: Vec<String>,
    pub result: LookupResult,
    pub member: Option<Member>,
}

pub struct ResolutionView {
    pub steps: Seq<Seq<char>>,
    pub result: LookupResultView,
    pub member: Option<Member>,
}

impl View for LookupResolution {
    type V = ResolutionView;

    open spec fn view(&self) -> ResolutionView {
        ResolutionView {
            steps: self.steps@.map_values(|s: String| s@),
            result: self.result@,
            member: self.member,
        }
    }
}

/// The project-wide facts a lookup reads.
pub struct CtxView {
    pub shapes: Seq<(Seq<char>, ShapeView)>,
    pub bindings: Seq<(Seq<char>, BindingsView)>,
}

/// The state of a lookup walk: steps so far, the module and instance keys
/// on the current path, and the first reason the lookup became unknown.
pub struct WalkView {
    pub steps: Seq<Seq<char>>,
    pub vis_mod: Seq<Seq<char>>,
    pub vis_inst: Seq<Seq<char>>,
    pub unknown: Option<Seq<char>>,
}

pub open spec fn add_step(w: WalkView, s: Seq<char>) -> WalkView {
    WalkView { steps: w.steps.push(s), ..w }
}

/// Record `reason` unless an earlier reason is already recorded.
pub open spec fn mark_unknown(w: WalkView, reason: Seq<char>) -> WalkView {
    WalkView {
        unknown: if w.unknown is Some {
            w.unknown
        } else {
            Some(reason)
        },
        ..w
    }
}

/// The module that `name` is bound to in the file `owner`.
pub open spec fn binding_of(ctx: CtxView, owner: Seq<char>, name: Seq<char>) -> Option<Seq<char>> {
    match vget(ctx.bindings, owner) {
        Some(b) => vget(b.modules, name),
        None => None,
    }
}

pub open spec fn found_at(path: Seq<char>, kind: Member) -> Option<(Seq<char>, Member)> {
    Some((path, kind))
}

/// Table lookup of `member` on module `path`, guarding against cycles.
pub open spec fn module_lookup(
    ctx: CtxView,
    path: Seq<char>,
    member: Seq<char>,
    w: WalkView,
    fuel: nat,
) -> (WalkView, Option<(Seq<char>, Member)>)
    decreases fuel, 0nat,
{
    if fuel == 0 {
        (w, None)
    } else if w.vis_mod.contains(path) {
        (mark_unknown(w, "cycle while resolving "@ + path), None)
    } else {
        let r = module_inner(
            ctx,
            path,
            member,
            WalkView { vis_mod: w.vis_mod.push(path), ..w },
            (fuel - 1) as nat,
        );
        (WalkView { vis_mod: w.vis_mod, vis_inst: w.vis_inst, ..r.0 }, r.1)
    }
}

/// Raw table lookup, then the `setmetatable(M, { __index = P })` chain.
pub open spec fn module_inner(
    ctx: CtxView,
    path: Seq<char>,
    member: Seq<char>,
    w0: WalkView,
    fuel: nat,
) -> (WalkView, Option<(Seq<char>, Member)>)
    decreases fuel, 1nat,
{
    let w = add_step(w0, "raw table lookup: "@ + path + "."@ + member);
    match vget(ctx.shapes, path) {
        None => (mark_unknown(w, "module "@ + path + " has an unknown export shape"@), None),
        Some(shape) => match vget(shape.members, member) {
            Some(kind) => (add_step(w, "found direct member on "@ + path), found_at(path, kind)),
            None => match shape.class {
                None => (w, None),
                Some(class) => match class.metatable_name {
                    Some(meta) => {
                        let w = add_step(w, "metatable __index: "@ + meta);
                        match binding_of(ctx, path, meta) {
                            Some(target) => module_lookup(ctx, target, member, w, fuel),
                            None => (
                                mark_unknown(
                                    w,
                                    "metatable target `"@ + meta
                                        + "` is not a known module binding"@,
                                ),
                                None,
                            ),
                        }
                    },
                    None => if class.metatable_unknown {
                        (mark_unknown(w, path + " has a dynamic metatable __index"@), None)
                    } else {
                        (w, None)
                    },
                },
            },
        },
    }
}

/// Instance lookup of `member` on instances of class module `path`,
/// guarding against cycles.
pub open spec fn instance_lookup(
    ctx: CtxView,
    path: Seq<char>,
    member: Seq<char>,
    w: WalkView,
    fuel: nat,
) -> (WalkView, Option<(Seq<char>, Member)>)
    decreases fuel, 0nat,
{
    if fuel == 0 {
        (w, None)
    } else if w.vis_inst.contains(path) {
        (mark_unknown(w, "cycle while resolving "@ + path), None)
    } else {
        let r = instance_inner(
            ctx,
            path,
            member,
            WalkView { vis_inst: w.vis_inst.push(path), ..w },
            (fuel - 1) as nat,
        );
        (WalkView { vis_mod: w.vis_mod, vis_inst: w.vis_inst, ..r.0 }, r.1)
    }
}

/// Instance fields, then the parent constructor, then `__index`.
pub open spec fn instance_inner(
    ctx: CtxView,
    path: Seq<char>,
    member: Seq<char>,
    w0: WalkView,
    fuel: nat,
) -> (WalkView, Option<(Seq<char>, Member)>)
    decreases fuel, 1nat,
{
    let w = add_step(w0, "raw instance lookup: "@ + path + "."@ + member);
    match vget(ctx.shapes, path) {
        None => (mark_unknown(w, "class "@ + path + " has an unknown export shape"@), None),
        Some(shape) => match shape.class {
            None => (mark_unknown(w, path + " is not a recognized class"@), None),
            Some(class) => if class.instance_members.contains(member) {
                (add_step(w, "found instance member on "@ + path), found_at(path, Member::Value))
            } else {
                let p = match class.parent_constructor {
                    Some(parent) => {
                        let w1 = add_step(w, "constructor parent: "@ + parent + ".new()"@);
                        match binding_of(ctx, path, parent) {
                            Some(target) => instance_lookup(ctx, target, member, w1, fuel),
                            None => (
                                mark_unknown(
                                    w1,
                                    "parent constructor `"@ + parent
                                        + "` is not a known module binding"@,
                                ),
                                None,
                            ),
                        }
                    },
                    None => (w, None),
                };
                if p.1 is Some {
                    p
                } else {
                    let w2 = p.0;
                    if class.index_self {
                        module_lookup(ctx, path, member, add_step(w2, "__index: "@ + path), fuel)
                    } else {
                        match class.index_other {
                            Some(other) => {
                                let w3 = add_step(w2, "__index: "@ + other);
                                match binding_of(ctx, path, other) {
                                    Some(target) => module_lookup(ctx, target, member, w3, fuel),
                                    None => (
                                        mark_unknown(
                                            w3,
                                            "__index target `"@ + other
                                                + "` is not a known module binding"@,
                                        ),
                                        None,
                                    ),
                                }
                            },
                            None => if class.index_unknown {
                                (mark_unknown(w2, path + " has a dynamic __index"@), None)
                            } else {
                                (w2, None)
                            },
                        }
                    }
                }
            },
        },
    }
}

/// Every module path that some module binding in `bs` points at.
pub open spec fn binding_targets(bs: Seq<(Seq<char>, BindingsView)>) -> Seq<Seq<char>>
    decreases bs.len(),
{
    if bs.len() == 0 {
        Seq::empty()
    } else {
        binding_targets(bs.drop_last()) + bs.last().1.modules.map_values(
            |e: (Seq<char>, Seq<char>)| e.1,
        )
    }
}

/// The paths a lookup starting at `start` can reach.
pub open spec fn path_universe(ctx: CtxView, start: Seq<char>) -> Set<Seq<char>> {
    binding_targets(ctx.bindings).push(start).to_set()
}

/// A depth budget that no lookup from `start` can exhaust.
pub open spec fn lookup_fuel(ctx: CtxView, start: Seq<char>) -> nat {
    2 * path_universe(ctx, start).len() + 1
}

pub open spec fn empty_walk() -> WalkView {
    WalkView { steps: Seq::empty(), vis_mod: Seq::empty(), vis_inst: Seq::empty(), unknown: None }
}

/// The complete lookup of `member` from `target`.
pub open spec fn resolve_spec(ctx: CtxView, target: TargetView, member: Seq<char>) -> ResolutionView {
    let r = match target {
        TargetView::Module(p) => module_lookup(ctx, p, member, empty_walk(), lookup_fuel(ctx, p)),
        TargetView::Instance(p) => instance_lookup(
            ctx,
            p,
            member,
            empty_walk(),
            lookup_fuel(ctx, p),
        ),
    };
    ResolutionView {
        steps: r.0.steps,
        result: match r.1 {
            Some(found) => LookupResultView::Found("`"@ + member + "` resolved in "@ + found.0),
            None => match r.0.unknown {
                Some(reason) => LookupResultView::Unknown(reason),
                None => LookupResultView::NotFound,
            },
        },
        member: match r.1 {
            Some(found) => Some(found.1),
            None => None,
        },
    }
}

// ---- termination bookkeeping ----

proof fn lemma_targets_contain(bs: Seq<(Seq<char>, BindingsView)>, i: int, j: int)
    requires
        0 <= i < bs.len(),
        0 <= j < bs[i].1.modules.len(),
    ensures
        binding_targets(bs).contains(bs[i].1.modules[j].1),
    decreases bs.len(),
{
    let last = bs.last().1.modules.map_values(|e: (Seq<char>, Seq<char>)| e.1);
    if i == bs.len() - 1 {
        assert((binding_targets(bs.drop_last()) + last)[binding_targets(bs.drop_last()).len() + j]
            == bs[i].1.modules[j].1);
    } else {
        lemma_targets_contain(bs.drop_last(), i, j);
        let k = choose|k: int|
            0 <= k < binding_targets(bs.drop_last()).len() && binding_targets(bs.drop_last())[k]
                == bs[i].1.modules[j].1;
        assert((binding_targets(bs.drop_last()) + last)[k] == bs[i].1.modules[j].1);
    }
}

proof fn lemma_vget_index<V>(s: Seq<(Seq<char>, V)>, k: Seq<char>)
    ensures
        vget(s, k) matches Some(v) ==> exists|i: int| 0 <= i < s.len() && s[i] == (k, v),
{
    lemma_first_index(s.map_values(|e: (Seq<char>, V)| e.0), k);
    if let Some(i) = first_index(s.map_values(|e: (Seq<char>, V)| e.0), k) {
        assert(s[i] == (k, s[i].1));
    }
}

proof fn lemma_binding_in_universe(ctx: CtxView, owner: Seq<char>, name: Seq<char>, start: Seq<char>)
    ensures
        binding_of(ctx, owner, name) matches Some(t) ==> path_universe(ctx, start).contains(t),
{
    lemma_vget_index(ctx.bindings, owner);
    if let Some(b) = vget(ctx.bindings, owner) {
        lemma_vget_index(b.modules, name);
        if let Some(t) = vget(b.modules, name) {
            let i = choose|i: int| 0 <= i < ctx.bindings.len() && ctx.bindings[i] == (owner, b);
            let j = choose|j: int| 0 <= j < b.modules.len() && b.modules[j] == (name, t);
            lemma_targets_contain(ctx.bindings, i, j);
            let ts = binding_targets(ctx.bindings);
            let k = choose|k: int| 0 <= k < ts.len() && ts[k] == t;
            assert(ts.push(start)[k] == t);
        }
    }
}

proof fn lemma_start_in_universe(ctx: CtxView, start: Seq<char>)
    ensures
        path_universe(ctx, start).contains(start),
        path_universe(ctx, start).finite(),
{
    let ts = binding_targets(ctx.bindings);
    assert(ts.push(start)[ts.len() as int] == start);
    seq_to_set_is_finite(ts.push(start));
}

proof fn lemma_visited_bound(vs: Seq<Seq<char>>, u: Set<Seq<char>>)
    requires
        vs.no_duplicates(),
        u.finite(),
        forall|i: int| 0 <= i < vs.len() ==> u.contains(#[trigger] vs[i]),
    ensures
        vs.len() <= u.len(),
{
    vs.unique_seq_to_set();
    assert(vs.to_set().subset_of(u));
    lemma_len_subset(vs.to_set(), u);
}

/// The invariant under which the depth budget suffices.
pub open spec fn walk_ok(ctx: CtxView, start: Seq<char>, w: WalkView, fuel: nat) -> bool {
    let u = path_universe(ctx, start);
    &&& u.finite()
    &&& w.vis_mod.no_duplicates()
    &&& w.vis_inst.no_duplicates()
    &&& forall|i: int| 0 <= i < w.vis_mod.len() ==> u.contains(#[trigger] w.vis_mod[i])
    &&& forall|i: int| 0 <= i < w.vis_inst.len() ==> u.contains(#[trigger] w.vis_inst[i])
    &&& fuel + w.vis_mod.len() + w.vis_inst.len() == 2 * u.len() + 1
}

// ---- executable lookup ----

/// The mutable state of a lookup walk.
struct Walk {
    steps: Vec<String>,
    vis_mod: Vec<String>,
    vis_inst: Vec<String>,
    unknown: Option<String>,
}

impl View for Walk {
    type V = WalkView;

    closed spec fn view(&self) -> WalkView {
        WalkView {
            steps: strs_view(self.steps@),
            vis_mod: strs_view(self.vis_mod@),
            vis_inst: strs_view(self.vis_inst@),
            unknown: opt_str_view(self.unknown),
        }
    }
}

impl Walk {
    fn mark_unknown(&mut self, reason: String)
        ensures
            final(self)@ == mark_unknown(old(self)@, reason@),
    {
        if self.unknown.is_none() {
            self.unknown = Some(reason);
        }
    }

    fn add_step(&mut self, step: String)
        ensures
            final(self)@ == add_step(old(self)@, step@),
    {
        self.steps.push(step);
        assert(strs_view(self.steps@) =~= old(self)@.steps.push(step@));
    }
}

pub fn contains_str(v: &Vec<String>, s: &str) -> (r: bool)
    ensures
        r == strs_view(v@).contains(s@),
{
    let key = owned(s);
    let n = v.len();
    let mut i: usize = 0;
    while i < n
        invariant
            n == v@.len(),
            i <= n,
            key@ == s@,
            forall|j: int| 0 <= j < i ==> v@[j]@ != s@,
        decreases n - i,
    {
        if v[i] == key {
            assert(strs_view(v@)[i as int] == s@);
            return true;
        }
        i = i + 1;
    }
    proof {
        if strs_view(v@).contains(s@) {
            let j = choose|j: int| 0 <= j < strs_view(v@).len() && strs_view(v@)[j] == s@;
            assert(v@[j]@ == s@);
        }
    }
    false
}

fn cat3(a: &str, b: &str, c: &str) -> (r: String)
    ensures
        r@ == a@ + b@ + c@,
{
    let mut r = concat(a, b);
    r.append(c);
    r
}

fn cat4(a: &str, b: &str, c: &str, d: &str) -> (r: String)
    ensures
        r@ == a@ + b@ + c@ + d@,
{
    let mut r = cat3(a, b, c);
    r.append(d);
    r
}

/// Lookup over the project's export shapes and require bindings.
pub struct LookupContext<'a> {
    shapes: &'a Vec<(String, ExportShape)>,
    bindings: &'a Vec<(String, Bindings)>,
}

impl<'a> View for LookupContext<'a> {
    type V = CtxView;

    closed spec fn view(&self) -> CtxView {
        CtxView { shapes: shapes_view(self.shapes@), bindings: all_bindings_view(self.bindings@) }
    }
}

impl<'a> LookupContext<'a> {
    pub fn new(
        shapes: &'a Vec<(String, ExportShape)>,
        bindings: &'a Vec<(String, Bindings)>,
    ) -> (r: Self)
        ensures
            r@ == (CtxView { shapes: shapes_view(shapes@), bindings: all_bindings_view(bindings@) }),
    {
        LookupContext { shapes, bindings }
    }

    /// The module bound to `name` in the file `owner`.
    fn binding(&self, owner: &str, name: &str) -> (r: Option<&String>)
        ensures
            opt_ref_view(r) == binding_of(self@, owner@, name@),
    {
        proof {
            lemma_all_bindings_keys(self.bindings@);
        }
        match get_index(self.bindings, owner) {
            Some(i) => self.bindings[i].1.get_module(name),
            None => None,
        }
    }

    fn shape(&self, path: &str) -> (r: Option<&ExportShape>)
        ensures
            match r {
                Some(s) => vget(self@.shapes, path@) == Some(s@),
                None => vget(self@.shapes, path@) is None,
            },
    {
        proof {
            lemma_shapes_keys(self.shapes@);
        }
        match get_index(self.shapes, path) {
            Some(i) => Some(&self.shapes[i].1),
            None => None,
        }
    }

    /// Resolve `member` starting from `target`.
    pub fn resolve(&self, target: LookupTarget, member: &str) -> (r: LookupResolution)
        ensures
            r@ == resolve_spec(self@, target@, member@),
    {
        let mut walk = Walk {
            steps: Vec::new(),
            vis_mod: Vec::new(),
            vis_inst: Vec::new(),
            unknown: None,
        };
        assert(walk@.steps =~= Seq::<Seq<char>>::empty());
        assert(walk@.vis_mod =~= Seq::<Seq<char>>::empty());
        assert(walk@.vis_inst =~= Seq::<Seq<char>>::empty());
        let found = match target {
            LookupTarget::Module(path) => {
                let ghost fuel = lookup_fuel(self@, path@);
                proof {
                    lemma_start_in_universe(self@, path@);
                }
                self.module_lookup(&path, member, &mut walk, Ghost(path@), Ghost(fuel))
            },
            LookupTarget::Instance(path) => {
                let ghost fuel = lookup_fuel(self@, path@);
                proof {
                    lemma_start_in_universe(self@, path@);
                }
                self.instance_lookup(&path, member, &mut walk, Ghost(path@), Ghost(fuel))
            },
        };
        let (result, kind) = match found {
            Some((path, kind)) => {
                let message = cat4("`", member, "` resolved in ", path.as_str());
                (LookupResult::Found(message), Some(kind))
            },
            None => match walk.unknown {
                Some(reason) => (LookupResult::Unknown(reason), None),
                None => (LookupResult::NotFound, None),
            },
        };
        LookupResolution { steps: walk.steps, result, member: kind }
    }

    fn module_lookup(
        &self,
        path: &String,
        member: &str,
        walk: &mut Walk,
        Ghost(start): Ghost<Seq<char>>,
        Ghost(fuel): Ghost<nat>,
    ) -> (r: Option<(String, Member)>)
        requires
            walk_ok(self@, start, old(walk)@, fuel),
            path_universe(self@, start).contains(path@),
        ensures
            (final(walk)@, opt_found_view(r)) == module_lookup(
                self@,
                path@,
                member@,
                old(walk)@,
                fuel,
            ),
            final(walk)@.vis_mod == old(walk)@.vis_mod,
            final(walk)@.vis_inst == old(walk)@.vis_inst,
        decreases fuel, 0nat,
    {
        let u = Ghost(path_universe(self@, start));
        proof {
            lemma_visited_bound(old(walk)@.vis_mod, u@);
            lemma_visited_bound(old(walk)@.vis_inst, u@);
        }
        if contains_str(&walk.vis_mod, path.as_str()) {
            walk.mark_unknown(concat("cycle while resolving ", path.as_str()));
            return None;
        }
        proof {
            lemma_visited_bound(old(walk)@.vis_mod.push(path@), u@);
            assert(fuel > 0);
        }
        let ghost before = walk@;
        walk.vis_mod.push(path.clone());
        proof {
            assert(strs_view(walk.vis_mod@) =~= before.vis_mod.push(path@));
            assert forall|i: int| 0 <= i < walk@.vis_mod.len() implies u@.contains(
                #[trigger] walk@.vis_mod[i],
            ) by {
                if i < before.vis_mod.len() {
                    assert(walk@.vis_mod[i] == before.vis_mod[i]);
                }
            }
        }
        let r = self.module_inner(path, member, walk, Ghost(start), Ghost((fuel - 1) as nat));
        let ghost mid = walk.vis_mod@;
        walk.vis_mod.pop();
        proof {
            assert(strs_view(mid) =~= before.vis_mod.push(path@));
            assert(strs_view(walk.vis_mod@) =~= strs_view(mid).drop_last());
            assert(strs_view(walk.vis_mod@) =~= before.vis_mod);
        }
        r
    }

    fn module_inner(
        &self,
        path: &String,
        member: &str,
        walk: &mut Walk,
        Ghost(start): Ghost<Seq<char>>,
        Ghost(fuel): Ghost<nat>,
    ) -> (r: Option<(String, Member)>)
        requires
            walk_ok(self@, start, old(walk)@, fuel),
            path_universe(self@, start).contains(path@),
        ensures
            (final(walk)@, opt_found_view(r)) == module_inner(
                self@,
                path@,
                member@,
                old(walk)@,
                fuel,
            ),
            final(walk)@.vis_mod == old(walk)@.vis_mod,
            final(walk)@.vis_inst == old(walk)@.vis_inst,
        decreases fuel, 1nat,
    {
        walk.add_step(cat4("raw table lookup: ", path.as_str(), ".", member));
        let shape = match self.shape(path.as_str()) {
            Some(shape) => shape,
            None => {
                walk.mark_unknown(cat3("module ", path.as_str(), " has an unknown export shape"));
                return None;
            },
        };
        proof {
            lemma_members_keys(shape.members@);
        }
        if let Some(i) = get_index(&shape.members, member) {
            walk.add_step(concat("found direct member on ", path.as_str()));
            return Some((path.clone(), shape.members[i].1));
        }
        let class = match &shape.class {
            Some(class) => class,
            None => {
                return None;
            },
        };
        match &class.metatable_name {
            Some(meta) => {
                walk.add_step(concat("metatable __index: ", meta.as_str()));
                match self.binding(path.as_str(), meta.as_str()) {
                    Some(target) => {
                        proof {
                            lemma_binding_in_universe(self@, path@, meta@, start);
                        }
                        self.module_lookup(target, member, walk, Ghost(start), Ghost(fuel))
                    },
                    None => {
                        walk.mark_unknown(
                            cat3(
                                "metatable target `",
                                meta.as_str(),
                                "` is not a known module binding",
                            ),
                        );
                        None
                    },
                }
            },
            None => {
                if class.metatable_unknown {
                    walk.mark_unknown(concat(path.as_str(), " has a dynamic metatable __index"));
                }
                None
            },
        }
    }

    fn instance_lookup(
        &self,
        path: &String,
        member: &str,
        walk: &mut Walk,
        Ghost(start): Ghost<Seq<char>>,
        Ghost(fuel): Ghost<nat>,
    ) -> (r: Option<(String, Member)>)
        requires
            walk_ok(self@, start, old(walk)@, fuel),
            path_universe(self@, start).contains(path@),
        ensures
            (final(walk)@, opt_found_view(r)) == instance_lookup(
                self@,
                path@,
                member@,
                old(walk)@,
                fuel,
            ),
            final(walk)@.vis_mod == old(walk)@.vis_mod,
            final(walk)@.vis_inst == old(walk)@.vis_inst,
        decreases fuel, 0nat,
    {
        let u = Ghost(path_universe(self@, start));
        proof {
            lemma_visited_bound(old(walk)@.vis_inst, u@);
            lemma_visited_bound(old(walk)@.vis_mod, u@);
        }
        if contains_str(&walk.vis_inst, path.as_str()) {
            walk.mark_unknown(concat("cycle while resolving ", path.as_str()));
            return None;
        }
        proof {
            lemma_visited_bound(old(walk)@.vis_inst.push(path@), u@);
            assert(fuel > 0);
        }
        let ghost before = walk@;
        walk.vis_inst.push(path.clone());
        proof {
            assert(strs_view(walk.vis_inst@) =~= before.vis_inst.push(path@));
            assert forall|i: int| 0 <= i < walk@.vis_inst.len() implies u@.contains(
                #[trigger] walk@.vis_inst[i],
            ) by {
                if i < before.vis_inst.len() {
                    assert(walk@.vis_inst[i] == before.vis_inst[i]);
                }
            }
        }
        let r = self.instance_inner(path, member, walk, Ghost(start), Ghost((fuel - 1) as nat));
        let ghost mid = walk.vis_inst@;
        walk.vis_inst.pop();
        proof {
            assert(strs_view(mid) =~= before.vis_inst.push(path@));
            assert(strs_view(walk.vis_inst@) =~= strs_view(mid).drop_last());
            assert(strs_view(walk.vis_inst@) =~= before.vis_inst);
        }
        r
    }

    fn instance_inner(
        &self,
        path: &String,
        member: &str,
        walk: &mut Walk,
        Ghost(start): Ghost<Seq<char>>,
        Ghost(fuel): Ghost<nat>,
    ) -> (r: Option<(String, Member)>)
        requires
            walk_ok(self@, start, old(walk)@, fuel),
            path_universe(self@, start).contains(path@),
        ensures
            (final(walk)@, opt_found_view(r)) == instance_inner(
                self@,
                path@,
                member@,
                old(walk)@,
                fuel,
            ),
            final(walk)@.vis_mod == old(walk)@.vis_mod,
            final(walk)@.vis_inst == old(walk)@.vis_inst,
        decreases fuel, 1nat,
    {
        walk.add_step(cat4("raw instance lookup: ", path.as_str(), ".", member));
        let shape = match self.shape(path.as_str()) {
            Some(shape) => shape,
            None => {
                walk.mark_unknown(cat3("class ", path.as_str(), " has an unknown export shape"));
                return None;
            },
        };
        let class = match &shape.class {
            Some(class) => class,
            None => {
                walk.mark_unknown(concat(path.as_str(), " is not a recognized class"));
                return None;
            },
        };
        if contains_str(&class.instance_members, member) {
            walk.add_step(concat("found instance member on ", path.as_str()));
            return Some((path.clone(), Member::Value));
        }
        if let Some(parent) = &class.parent_constructor {
            walk.add_step(cat3("constructor parent: ", parent.as_str(), ".new()"));
            match self.binding(path.as_str(), parent.as_str()) {
                Some(target) => {
                    proof {
                        lemma_binding_in_universe(self@, path@, parent@, start);
                    }
                    let found = self.instance_lookup(target, member, walk, Ghost(start), Ghost(fuel));
                    if found.is_some() {
                        return found;
                    }
                },
                None => {
                    walk.mark_unknown(
                        cat3("parent constructor `", parent.as_str(), "` is not a known module binding"),
                    );
                },
            }
        }
        if class.index_self {
            walk.add_step(concat("__index: ", path.as_str()));
            self.module_lookup(path, member, walk, Ghost(start), Ghost(fuel))
        } else {
            match &class.index_other {
                Some(other) => {
                    walk.add_step(concat("__index: ", other.as_str()));
                    match self.binding(path.as_str(), other.as_str()) {
                        Some(target) => {
                            proof {
                                lemma_binding_in_universe(self@, path@, other@, start);
                            }
                            self.module_lookup(target, member, walk, Ghost(start), Ghost(fuel))
                        },
                        None => {
                            walk.mark_unknown(
                                cat3(
                                    "__index target `",
                                    other.as_str(),
                                    "` is not a known module binding",
                                ),
                            );
                            None
                        },
                    }
                },
                None => {
                    if class.index_unknown {
                        walk.mark_unknown(concat(path.as_str(), " has a dynamic __index"));
                    }
                    None
                },
            }
        }
    }
}

pub open spec fn opt_found_view(r: Option<(String, Member)>) -> Option<(Seq<char>, Member)> {
    match r {
        Some(f) => Some((f.0@, f.1)),
        None => None,
    }
}

// ---- what a lookup verdict means ----

/// `member` is held at `path` with kind `kind`: a member of the module's
/// known shape, or an instance field of its class.
pub open spec fn member_at(ctx: CtxView, path: Seq<char>, member: Seq<char>, kind: Member) -> bool {
    match vget(ctx.shapes, path) {
        Some(shape) => vget(shape.members, member) == Some(kind) || (match shape.class {
            Some(c) => c.instance_members.contains(member) && kind == Member::Value,
            None => false,
        }),
        None => false,
    }
}

proof fn lemma_module_lookup_found(ctx: CtxView, path: Seq<char>, member: Seq<char>, w: WalkView, fuel: nat)
    ensures
        module_lookup(ctx, path, member, w, fuel).1 matches Some(f) ==> member_at(ctx, f.0, member, f.1),
        w.unknown is Some ==> module_lookup(ctx, path, member, w, fuel).0.unknown is Some,
    decreases fuel, 0nat,
{
    if fuel > 0 && !w.vis_mod.contains(path) {
        lemma_module_inner_found(
            ctx,
            path,
            member,
            WalkView { vis_mod: w.vis_mod.push(path), ..w },
            (fuel - 1) as nat,
        );
    }
}

proof fn lemma_module_inner_found(ctx: CtxView, path: Seq<char>, member: Seq<char>, w0: WalkView, fuel: nat)
    ensures
        module_inner(ctx, path, member, w0, fuel).1 matches Some(f) ==> member_at(ctx, f.0, member, f.1),
        w0.unknown is Some ==> module_inner(ctx, path, member, w0, fuel).0.unknown is Some,
    decreases fuel, 1nat,
{
    let w = add_step(w0, "raw table lookup: "@ + path + "."@ + member);
    match vget(ctx.shapes, path) {
        None => {},
        Some(shape) => match vget(shape.members, member) {
            Some(kind) => {},
            None => match shape.class {
                None => {},
                Some(class) => match class.metatable_name {
                    Some(meta) => {
                        let w1 = add_step(w, "metatable __index: "@ + meta);
                        if let Some(target) = binding_of(ctx, path, meta) {
                            lemma_module_lookup_found(ctx, target, member, w1, fuel);
                        }
                    },
                    None => {},
                },
            },
        },
    }
}

proof fn lemma_instance_lookup_found(ctx: CtxView, path: Seq<char>, member: Seq<char>, w: WalkView, fuel: nat)
    ensures
        instance_lookup(ctx, path, member, w, fuel).1 matches Some(f) ==> member_at(ctx, f.0, member, f.1),
        w.unknown is Some ==> instance_lookup(ctx, path, member, w, fuel).0.unknown is Some,
    decreases fuel, 0nat,
{
    if fuel > 0 && !w.vis_inst.contains(path) {
        lemma_instance_inner_found(
            ctx,
            path,
            member,
            WalkView { vis_inst: w.vis_inst.push(path), ..w },
            (fuel - 1) as nat,
        );
    }
}

proof fn lemma_instance_inner_found(ctx: CtxView, path: Seq<char>, member: Seq<char>, w0: WalkView, fuel: nat)
    ensures
        instance_inner(ctx, path, member, w0, fuel).1 matches Some(f) ==> member_at(ctx, f.0, member, f.1),
        w0.unknown is Some ==> instance_inner(ctx, path, member, w0, fuel).0.unknown is Some,
    decreases fuel, 1nat,
{
    let w = add_step(w0, "raw instance lookup: "@ + path + "."@ + member);
    match vget(ctx.shapes, path) {
        None => {},
        Some(shape) => match shape.class {
            None => {},
            Some(class) => if class.instance_members.contains(member) {
            } else {
                match class.parent_constructor {
                    Some(parent) => {
                        let w1 = add_step(w, "constructor parent: "@ + parent + ".new()"@);
                        if let Some(target) = binding_of(ctx, path, parent) {
                            lemma_instance_lookup_found(ctx, target, member, w1, fuel);
                        }
                    },
                    None => {},
                }
                let p = match class.parent_constructor {
                    Some(parent) => {
                        let w1 = add_step(w, "constructor parent: "@ + parent + ".new()"@);
                        match binding_of(ctx, path, parent) {
                            Some(target) => instance_lookup(ctx, target, member, w1, fuel),
                            None => (
                                mark_unknown(
                                    w1,
                                    "parent constructor `"@ + parent
                                        + "` is not a known module binding"@,
                                ),
                                None,
                            ),
                        }
                    },
                    None => (w, None),
                };
                if p.1 is None {
                    let w2 = p.0;
                    if class.index_self {
                        lemma_module_lookup_found(ctx, path, member, add_step(w2, "__index: "@ + path), fuel);
                    } else {
                        match class.index_other {
                            Some(other) => {
                                let w3 = add_step(w2, "__index: "@ + other);
                                if let Some(target) = binding_of(ctx, path, other) {
                                    lemma_module_lookup_found(ctx, target, member, w3, fuel);
                                }
                            },
                            None => {},
                        }
                    }
                }
            },
        },
    }
}

/// A lookup reports a member found only where the known shapes hold it:
/// as a member of a module's export shape, or as an instance field of a
/// recognized class.
pub proof fn lemma_found_member_exists(ctx: CtxView, target: TargetView, member: Seq<char>)
    ensures
        resolve_spec(ctx, target, member).result is Found ==> exists|path: Seq<char>|
            #[trigger] member_at(ctx, path, member, resolve_spec(ctx, target, member).member->0),
{
    match target {
        TargetView::Module(p) => {
            lemma_module_lookup_found(ctx, p, member, empty_walk(), lookup_fuel(ctx, p));
            let r = module_lookup(ctx, p, member, empty_walk(), lookup_fuel(ctx, p));
            assert(resolve_spec(ctx, target, member).result is Found <==> r.1 is Some);
            if let Some(f) = r.1 {
                assert(member_at(ctx, f.0, member, f.1));
                assert(resolve_spec(ctx, target, member).member == Some(f.1));
                assert(member_at(ctx, f.0, member, resolve_spec(ctx, target, member).member->0));
            }
        },
        TargetView::Instance(p) => {
            lemma_instance_lookup_found(ctx, p, member, empty_walk(), lookup_fuel(ctx, p));
            if let Some(f) = instance_lookup(ctx, p, member, empty_walk(), lookup_fuel(ctx, p)).1 {
                assert(member_at(ctx, f.0, member, f.1));
                assert(resolve_spec(ctx, target, member).member == Some(f.1));
                assert(member_at(ctx, f.0, member, resolve_spec(ctx, target, member).member->0));
            }
        },
    }
}

/// A member held directly by a module's known shape is found at once: the
/// trace is the raw lookup and the hit.
pub proof fn lemma_direct_member_found(ctx: CtxView, path: Seq<char>, member: Seq<char>, shape: ShapeView, kind: Member)
    requires
        vget(ctx.shapes, path) == Some(shape),
        vget(shape.members, member) == Some(kind),
    ensures
        resolve_spec(ctx, TargetView::Module(path), member) == (ResolutionView {
            steps: seq!["raw table lookup: "@ + path + "."@ + member, "found direct member on "@ + path],
            result: LookupResultView::Found("`"@ + member + "` resolved in "@ + path),
            member: Some(kind),
        }),
{
    let fuel = lookup_fuel(ctx, path);
    assert(fuel >= 1);
    let w1 = WalkView { vis_mod: empty_walk().vis_mod.push(path), ..empty_walk() };
    let inner = module_inner(ctx, path, member, w1, (fuel - 1) as nat);
    assert(inner.0.steps =~= seq!["raw table lookup: "@ + path + "."@ + member, "found direct member on "@ + path]);
    assert(!empty_walk().vis_mod.contains(path));
}

/// A lookup says "not found" only when the starting shape is fully known
/// and rules the member out: a module whose known members lack it, or a
/// recognized class whose instance fields lack it.
pub proof fn lemma_not_found_is_proven(ctx: CtxView, target: TargetView, member: Seq<char>)
    ensures
        resolve_spec(ctx, target, member).result is NotFound ==> match target {
            TargetView::Module(p) => vget(ctx.shapes, p) matches Some(shape) && vget(
                shape.members,
                member,
            ) is None,
            TargetView::Instance(p) => vget(ctx.shapes, p) matches Some(shape) && shape.class matches Some(
                c,
            ) && !c.instance_members.contains(member),
        },
{
    match target {
        TargetView::Module(p) => {
            let fuel = lookup_fuel(ctx, p);
            let w1 = WalkView { vis_mod: empty_walk().vis_mod.push(p), ..empty_walk() };
            assert(!empty_walk().vis_mod.contains(p));
            let w = add_step(w1, "raw table lookup: "@ + p + "."@ + member);
            if vget(ctx.shapes, p) is None {
                assert(module_inner(ctx, p, member, w1, (fuel - 1) as nat).0.unknown is Some);
            }
        },
        TargetView::Instance(p) => {
            let fuel = lookup_fuel(ctx, p);
            let w1 = WalkView { vis_inst: empty_walk().vis_inst.push(p), ..empty_walk() };
            assert(!empty_walk().vis_inst.contains(p));
            lemma_instance_inner_found(ctx, p, member, w1, (fuel - 1) as nat);
        },
    }
}

/// A lookup names a member exactly when it reports the member found, and
/// then says where: "`member` resolved in <path>", for a path whose known
/// shape holds that member.
pub proof fn lemma_found_names_its_place(ctx: CtxView, target: TargetView, member: Seq<char>)
    ensures
        resolve_spec(ctx, target, member).member is Some <==> resolve_spec(ctx, target, member).result is Found,
        resolve_spec(ctx, target, member).result matches LookupResultView::Found(s) ==> exists|path: Seq<char>|
            s == "`"@ + member + "` resolved in "@ + path && #[trigger] member_at(
                ctx,
                path,
                member,
                resolve_spec(ctx, target, member).member->0,
            ),
{
    let r = match target {
        TargetView::Module(p) => {
            lemma_module_lookup_found(ctx, p, member, empty_walk(), lookup_fuel(ctx, p));
            module_lookup(ctx, p, member, empty_walk(), lookup_fuel(ctx, p))
        },
        TargetView::Instance(p) => {
            lemma_instance_lookup_found(ctx, p, member, empty_walk(), lookup_fuel(ctx, p));
            instance_lookup(ctx, p, member, empty_walk(), lookup_fuel(ctx, p))
        },
    };
    if let Some(f) = r.1 {
        assert(member_at(ctx, f.0, member, f.1));
        assert(resolve_spec(ctx, target, member).member->0 == f.1);
    }
}

// ---- what a lookup keeps of its trace ----

/// `b` starts with all of `a`.
pub open spec fn extends(a: Seq<Seq<char>>, b: Seq<Seq<char>>) -> bool {
    a.len() <= b.len() && forall|i: int| 0 <= i < a.len() ==> #[trigger] b[i] == a[i]
}

pub open spec fn keeps(w: WalkView, r: WalkView) -> bool {
    extends(w.steps, r.steps) && (w.unknown is Some ==> r.unknown == w.unknown)
}

/// A table lookup only adds to the trace it was given, and keeps an
/// unknown reason once one is recorded: the reason a lookup reports as
/// unknown is the first unknown link it met.
pub proof fn lemma_module_lookup_keeps(ctx: CtxView, path: Seq<char>, member: Seq<char>, w: WalkView, fuel: nat)
    ensures
        keeps(w, module_lookup(ctx, path, member, w, fuel).0),
    decreases fuel, 0nat,
{
    if fuel > 0 && !w.vis_mod.contains(path) {
        lemma_module_inner_keeps(
            ctx,
            path,
            member,
            WalkView { vis_mod: w.vis_mod.push(path), ..w },
            (fuel - 1) as nat,
        );
    }
}

proof fn lemma_module_inner_keeps(ctx: CtxView, path: Seq<char>, member: Seq<char>, w0: WalkView, fuel: nat)
    ensures
        keeps(
            add_step(w0, "raw table lookup: "@ + path + "."@ + member),
            module_inner(ctx, path, member, w0, fuel).0,
        ),
    decreases fuel, 1nat,
{
    let w = add_step(w0, "raw table lookup: "@ + path + "."@ + member);
    match vget(ctx.shapes, path) {
        None => {},
        Some(shape) => match vget(shape.members, member) {
            Some(kind) => {},
            None => match shape.class {
                None => {},
                Some(class) => match class.metatable_name {
                    Some(meta) => {
                        let w1 = add_step(w, "metatable __index: "@ + meta);
                        if let Some(target) = binding_of(ctx, path, meta) {
                            lemma_module_lookup_keeps(ctx, target, member, w1, fuel);
                        }
                    },
                    None => {},
                },
            },
        },
    }
}

/// An instance lookup only adds to the trace it was given, and keeps an
/// unknown reason once one is recorded: the reason a lookup reports as
/// unknown is the first unknown link it met.
pub proof fn lemma_instance_lookup_keeps(ctx: CtxView, path: Seq<char>, member: Seq<char>, w: WalkView, fuel: nat)
    ensures
        keeps(w, instance_lookup(ctx, path, member, w, fuel).0),
    decreases fuel, 0nat,
{
    if fuel > 0 && !w.vis_inst.contains(path) {
        lemma_instance_inner_keeps(
            ctx,
            path,
            member,
            WalkView { vis_inst: w.vis_inst.push(path), ..w },
            (fuel - 1) as nat,
        );
    }
}

proof fn lemma_instance_inner_keeps(ctx: CtxView, path: Seq<char>, member: Seq<char>, w0: WalkView, fuel: nat)
    ensures
        keeps(
            add_step(w0, "raw instance lookup: "@ + path + "."@ + member),
            instance_inner(ctx, path, member, w0, fuel).0,
        ),
    decreases fuel, 1nat,
{
    let w = add_step(w0, "raw instance lookup: "@ + path + "."@ + member);
    match vget(ctx.shapes, path) {
        None => {},
        Some(shape) => match shape.class {
            None => {},
            Some(class) => if class.instance_members.contains(member) {
            } else {
                match class.parent_constructor {
                    Some(parent) => {
                        let w1 = add_step(w, "constructor parent: "@ + parent + ".new()"@);
                        if let Some(target) = binding_of(ctx, path, parent) {
                            lemma_instance_lookup_keeps(ctx, target, member, w1, fuel);
                        }
                    },
                    None => {},
                }
                let p = match class.parent_constructor {
                    Some(parent) => {
                        let w1 = add_step(w, "constructor parent: "@ + parent + ".new()"@);
                        match binding_of(ctx, path, parent) {
                            Some(target) => instance_lookup(ctx, target, member, w1, fuel),
                            None => (
                                mark_unknown(
                                    w1,
                                    "parent constructor `"@ + parent
                                        + "` is not a known module binding"@,
                                ),
                                None,
                            ),
                        }
                    },
                    None => (w, None),
                };
                assert(keeps(w, p.0));
                if p.1 is None {
                    let w2 = p.0;
                    if class.index_self {
                        lemma_module_lookup_keeps(ctx, path, member, add_step(w2, "__index: "@ + path), fuel);
                    } else {
                        match class.index_other {
                            Some(other) => {
                                let w3 = add_step(w2, "__index: "@ + other);
                                if let Some(target) = binding_of(ctx, path, other) {
                                    lemma_module_lookup_keeps(ctx, target, member, w3, fuel);
                                }
                            },
                            None => {},
                        }
                    }
                }
            },
        },
    }
}

/// A lookup's trace opens with the raw lookup it starts from
/// (`raw table lookup: p.member` on a module, `raw instance lookup:
/// p.member` on an instance).
pub proof fn lemma_lookup_trace_opens_with_raw_lookup(ctx: CtxView, target: TargetView, member: Seq<char>)
    ensures
        resolve_spec(ctx, target, member).steps.len() > 0,
        resolve_spec(ctx, target, member).steps[0] == match target {
            TargetView::Module(p) => "raw table lookup: "@ + p + "."@ + member,
            TargetView::Instance(p) => "raw instance lookup: "@ + p + "."@ + member,
        },
{
    match target {
        TargetView::Module(p) => {
            let w = WalkView { vis_mod: empty_walk().vis_mod.push(p), ..empty_walk() };
            lemma_module_inner_keeps(ctx, p, member, w, (lookup_fuel(ctx, p) - 1) as nat);
            assert(add_step(w, "raw table lookup: "@ + p + "."@ + member).steps[0]
                == "raw table lookup: "@ + p + "."@ + member);
        },
        TargetView::Instance(p) => {
            let w = WalkView { vis_inst: empty_walk().vis_inst.push(p), ..empty_walk() };
            lemma_instance_inner_keeps(ctx, p, member, w, (lookup_fuel(ctx, p) - 1) as nat);
            assert(add_step(w, "raw instance lookup: "@ + p + "."@ + member).steps[0]
                == "raw instance lookup: "@ + p + "."@ + member);
        },
    }
}

/// A module whose metatable `__index` leads straight back to itself is a
/// cycle: looking up a member it does not hold reports
/// `cycle while resolving <path>` as unknown, and finds nothing.
pub proof fn lemma_cycle_back_is_unknown(ctx: CtxView, p: Seq<char>, member: Seq<char>, meta: Seq<char>)
    requires
        vget(ctx.shapes, p) is Some,
        vget(vget(ctx.shapes, p)->0.members, member) is None,
        vget(ctx.shapes, p)->0.class is Some,
        vget(ctx.shapes, p)->0.class->0.metatable_name == Some(meta),
        binding_of(ctx, p, meta) == Some(p),
    ensures
        resolve_spec(ctx, TargetView::Module(p), member).result == LookupResultView::Unknown(
            "cycle while resolving "@ + p,
        ),
        resolve_spec(ctx, TargetView::Module(p), member).member is None,
{
    let u = binding_targets(ctx.bindings).push(p);
    vstd::seq_lib::seq_to_set_is_finite(u);
    assert(u.to_set().contains(p)) by {
        assert(u[u.len() - 1] == p);
    }
    if u.to_set().len() == 0 {
        u.to_set().lemma_len0_is_empty();
        assert(false);
    }
    let f = lookup_fuel(ctx, p);
    assert(f >= 3);
    let w0 = empty_walk();
    let w1 = WalkView { vis_mod: w0.vis_mod.push(p), ..w0 };
    let w = add_step(w1, "raw table lookup: "@ + p + "."@ + member);
    let w2 = add_step(w, "metatable __index: "@ + meta);
    assert(w2.vis_mod.contains(p)) by {
        assert(w2.vis_mod[0] == p);
    }
    assert(w2.unknown is None);
    let back = module_lookup(ctx, p, member, w2, (f - 1) as nat);
    assert(back.1 is None);
    assert(back.0.unknown == Some("cycle while resolving "@ + p));
    assert(module_inner(ctx, p, member, w1, (f - 1) as nat) == back);
    assert(!w0.vis_mod.contains(p));
}

} // verus!
