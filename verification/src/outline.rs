//! Class outlines of Lua files: which methods a file declares, how it wires
//! `__index` and `setmetatable`, which fields its constructor sets on
//! `self`, and which parent constructor it calls.
//!
//! The outline reads a file's top-level statements as the parser prints
//! them (each text as printed, surrounding whitespace and comments
//! included), together with the file's source text.

use vstd::prelude::*;
use crate::diagnostic::opt_str_view;
use crate::shapes::strs_view;
use crate::classes::contains_str;
use crate::parse::lua_parse;
use crate::text::{
    contains_text, contains_text_exec, ends_with, ends_with_exec, first_occurrence,
    first_occurrence_exec, owned, starts_with, starts_with_exec, strip_all_suffixes,
    strip_all_suffixes_exec, trim, trim_exec, lemma_find_from_bounds, concat, char_str, suffix_from,
};

verus! {

/// A top-level statement of a file, as far as an outline reads it.
pub enum TopStatement {
    /// `function a.b.c(...)` or `function a.b:c(...)`: the printed dotted
    /// names, the printed method name after `:`, the line of the first
    /// name, and the number of parameters.
    FunctionDeclaration {
        names: Vec<String>,
        method: Option<String>,
        line: Option<usize>,
        arity: usize,
    },
    /// `v1, v2 = e1, e2`: the printed targets and the printed values.
    Assignment { vars: Vec<String>, exprs: Vec<String> },
    /// A call statement, printed whole.
    Call { text: String },
    Other,
}

/// A method found in a file.
#[derive(Debug)]
pub struct MethodInfo {
    pub name: String,
    pub is_constructor: bool,
    pub arity: usize,
    pub line: Option<usize>,
}

pub struct MethodView {
    pub name: Seq<char>,
    pub is_constructor: bool,
    pub arity: usize,
    pub line: Option<usize>,
}

impl View for MethodInfo {
    type V = MethodView;

    open spec fn view(&self) -> MethodView {
        MethodView {
            name: self.name@,
            is_constructor: self.is_constructor,
            arity: self.arity,
            line: self.line,
        }
    }
}

/// The outline of one file.
#[derive(Debug)]
pub struct ClassStructure {
    pub name: String,
    pub file: String,
    pub metatable_name: Option<String>,
    pub parent_constructor: Option<String>,
    pub index_self: bool,
    pub index_other: Option<String>,
    pub instance_members: Vec<String>,
    pub methods: Vec<MethodInfo>,
    pub direct_fields: Vec<String>,
}

pub struct ClassView {
    pub name: Seq<char>,
    pub file: Seq<char>,
    pub metatable_name: Option<Seq<char>>,
    pub parent_constructor: Option<Seq<char>>,
    pub index_self: bool,
    pub index_other: Option<Seq<char>>,
    pub instance_members: Seq<Seq<char>>,
    pub methods: Seq<MethodView>,
    pub direct_fields: Seq<Seq<char>>,
}

pub open spec fn methods_view(v: Seq<MethodInfo>) -> Seq<MethodView> {
    v.map_values(|m: MethodInfo| m@)
}

impl View for ClassStructure {
    type V = ClassView;

    open spec fn view(&self) -> ClassView {
        ClassView {
            name: self.name@,
            file: self.file@,
            metatable_name: opt_str_view(self.metatable_name),
            parent_constructor: opt_str_view(self.parent_constructor),
            index_self: self.index_self,
            index_other: opt_str_view(self.index_other),
            instance_members: strs_view(self.instance_members@),
            methods: methods_view(self.methods@),
            direct_fields: strs_view(self.direct_fields@),
        }
    }
}

pub open spec fn opt_class_view(r: Option<ClassStructure>) -> Option<ClassView> {
    match r {
        Some(c) => Some(c@),
        None => None,
    }
}

pub open spec fn new_word() -> Seq<char> {
    seq!['n', 'e', 'w']
}

pub open spec fn index_word() -> Seq<char> {
    seq!['_', '_', 'i', 'n', 'd', 'e', 'x']
}

pub open spec fn index_suffix() -> Seq<char> {
    seq!['.'] + index_word()
}

pub open spec fn setmetatable_word() -> Seq<char> {
    seq!['s', 'e', 't', 'm', 'e', 't', 'a', 't', 'a', 'b', 'l', 'e']
}

pub open spec fn self_word() -> Seq<char> {
    seq!['s', 'e', 'l', 'f']
}

pub open spec fn self_prefix() -> Seq<char> {
    self_word().push('.')
}

pub open spec fn new_call() -> Seq<char> {
    seq!['.', 'n', 'e', 'w', '(']
}

/// The method a declaration adds: after `:` the method name; otherwise the
/// last of at least two dotted names, a constructor when it is `new`.
pub open spec fn declared_method(
    names: Seq<Seq<char>>,
    method: Option<Seq<char>>,
    line: Option<usize>,
    arity: usize,
) -> Option<MethodView> {
    let name = match method {
        Some(m) => trim(m),
        None => if names.len() >= 2 {
            trim(names.last())
        } else {
            Seq::empty()
        },
    };
    let ctor = method is None && names.len() >= 2 && name == new_word();
    if name.len() > 0 {
        Some(MethodView { name, is_constructor: ctor, arity, line })
    } else {
        None
    }
}

/// `str::split('.').nth(1)`: the text between the first and the second dot.
pub open spec fn second_piece(s: Seq<char>) -> Option<Seq<char>> {
    match first_occurrence(s, seq!['.']) {
        None => None,
        Some(i) => {
            let rest = s.skip(i + 1);
            match first_occurrence(rest, seq!['.']) {
                None => Some(rest),
                Some(j) => Some(rest.take(j)),
            }
        },
    }
}

pub open spec fn is_closer(c: char) -> bool {
    c == '}' || c == ')' || c == ';' || c == ' '
}

/// `s` without the characters `}`, `)`, `;` and space.
pub open spec fn drop_closers(s: Seq<char>) -> Seq<char>
    decreases s.len(),
{
    if s.len() == 0 {
        s
    } else {
        drop_closers(s.drop_last()) + (if is_closer(s.last()) {
            Seq::empty()
        } else {
            seq![s.last()]
        })
    }
}

pub open spec fn is_call_separator(c: char) -> bool {
    c == ' ' || c == '=' || c == '('
}

/// The text after the last space, `=` or `(` (all of `s` if there is none).
pub open spec fn last_piece(s: Seq<char>) -> Seq<char>
    decreases s.len(),
{
    if s.len() == 0 {
        s
    } else if is_call_separator(s.last()) {
        Seq::empty()
    } else {
        last_piece(s.drop_last()).push(s.last())
    }
}

/// The parent named by `setmetatable(X, { __index = Parent })`: the text
/// after the first `=` that follows the first `__index`, without closing
/// brackets, semicolons and spaces.
pub open spec fn metatable_target(call: Seq<char>) -> Option<Seq<char>> {
    if contains_text(call, setmetatable_word()) {
        match first_occurrence(call, index_word()) {
            Some(pos) => {
                let after = call.skip(pos + 7);
                match first_occurrence(after, seq!['=']) {
                    Some(e) => {
                        let t = trim(drop_closers(after.skip(e + 1)));
                        if t.len() > 0 {
                            Some(t)
                        } else {
                            None
                        }
                    },
                    None => None,
                }
            },
            None => None,
        }
    } else {
        None
    }
}

/// What the statement scan has found so far.
pub struct ScanView {
    pub index_self: bool,
    pub index_other: Option<Seq<char>>,
    pub metatable_name: Option<Seq<char>>,
    pub methods: Seq<MethodView>,
    pub direct_fields: Seq<Seq<char>>,
}

pub open spec fn empty_scan() -> ScanView {
    ScanView {
        index_self: false,
        index_other: None,
        metatable_name: None,
        methods: Seq::empty(),
        direct_fields: Seq::empty(),
    }
}

/// One assignment target and its value: `X.__index = X` marks the class as
/// its own index, `X.__index = Y` names another; `X.f = ...` adds the field
/// `f` once.
pub open spec fn assign_var_step(st: ScanView, var: Seq<char>, value: Seq<char>) -> ScanView {
    let clean = trim(var);
    if ends_with(clean, index_suffix()) {
        let owner = trim(strip_all_suffixes(clean, index_suffix()));
        let target = trim(value);
        if target == owner {
            ScanView { index_self: true, ..st }
        } else if target.len() > 0 {
            ScanView { index_other: Some(target), ..st }
        } else {
            st
        }
    } else {
        match second_piece(clean) {
            Some(f) => if f != index_word() && !st.direct_fields.contains(f) {
                ScanView { direct_fields: st.direct_fields.push(f), ..st }
            } else {
                st
            },
            None => st,
        }
    }
}

/// The first `n` targets of an assignment, each with the value at its
/// position (empty where there is none).
pub open spec fn assign_fold(st: ScanView, vars: Seq<Seq<char>>, exprs: Seq<Seq<char>>, n: nat) -> ScanView
    decreases n,
{
    if n == 0 {
        st
    } else {
        let k = n - 1;
        assign_var_step(
            assign_fold(st, vars, exprs, k as nat),
            vars[k],
            if k < exprs.len() {
                exprs[k]
            } else {
                Seq::empty()
            },
        )
    }
}

pub open spec fn statement_step(st: ScanView, s: TopStatement) -> ScanView {
    match s {
        TopStatement::FunctionDeclaration { names, method, line, arity } => match declared_method(
            strs_view(names@),
            opt_str_view(method),
            line,
            arity,
        ) {
            Some(m) => ScanView { methods: st.methods.push(m), ..st },
            None => st,
        },
        TopStatement::Assignment { vars, exprs } => assign_fold(
            st,
            strs_view(vars@),
            strs_view(exprs@),
            vars@.len(),
        ),
        TopStatement::Call { text } => match metatable_target(text@) {
            Some(t) => ScanView { metatable_name: Some(t), ..st },
            None => st,
        },
        TopStatement::Other => st,
    }
}

pub open spec fn scan_statements(s: Seq<TopStatement>) -> ScanView
    decreases s.len(),
{
    if s.len() == 0 {
        empty_scan()
    } else {
        statement_step(scan_statements(s.drop_last()), s.last())
    }
}

/// The pieces of `s` between newlines.
pub open spec fn line_pieces(s: Seq<char>) -> Seq<Seq<char>>
    decreases s.len(),
{
    if s.len() == 0 {
        seq![Seq::empty()]
    } else {
        let p = line_pieces(s.drop_last());
        if s.last() == '\n' {
            p.push(Seq::empty())
        } else {
            p.update(p.len() - 1, p.last().push(s.last()))
        }
    }
}

/// `str::lines`, each line possibly keeping the carriage return of a
/// `\r\n` ending (the scan trims every line, so this changes nothing).
pub open spec fn source_lines(s: Seq<char>) -> Seq<Seq<char>> {
    let p = line_pieces(s);
    if p.last().len() == 0 {
        p.drop_last()
    } else {
        p
    }
}

/// What the constructor scan has found so far.
pub struct CtorView {
    pub members: Seq<Seq<char>>,
    pub parent: Option<Seq<char>>,
}

/// One source line: `self.f = ...` adds the member `f` once; a call
/// `P.new(` other than the class's own names `P` as the parent constructor.
pub open spec fn line_step(st: CtorView, line: Seq<char>, class_name: Seq<char>) -> CtorView {
    let t = trim(line);
    let st1 = if starts_with(t, self_prefix()) {
        match first_occurrence(t, seq!['=']) {
            Some(e) => {
                let f = trim(t.subrange(5, e));
                if !st.members.contains(f) && f.len() > 0 {
                    CtorView { members: st.members.push(f), ..st }
                } else {
                    st
                }
            },
            None => st,
        }
    } else {
        st
    };
    if contains_text(t, new_call()) && !contains_text(t, class_name + new_call()) {
        match first_occurrence(t, new_call()) {
            Some(d) => {
                let parent = trim(last_piece(t.take(d)));
                if parent.len() > 0 && parent != self_word() {
                    CtorView { parent: Some(parent), ..st1 }
                } else {
                    st1
                }
            },
            None => st1,
        }
    } else {
        st1
    }
}

pub open spec fn scan_lines(st: CtorView, lines: Seq<Seq<char>>, class_name: Seq<char>) -> CtorView
    decreases lines.len(),
{
    if lines.len() == 0 {
        st
    } else {
        line_step(scan_lines(st, lines.drop_last(), class_name), lines.last(), class_name)
    }
}

pub open spec fn empty_ctor() -> CtorView {
    CtorView { members: Seq::empty(), parent: None }
}

pub open spec fn has_constructor(methods: Seq<MethodView>) -> bool {
    exists|i: int| 0 <= i < methods.len() && #[trigger] methods[i].is_constructor
}

/// The outline of a file named `class_name`, or `None` when it shows no
/// class: no method, no constructor member, no `setmetatable` parent and
/// no `X.__index = X`.
pub open spec fn class_outline(
    class_name: Seq<char>,
    file: Seq<char>,
    stmts: Seq<TopStatement>,
    source: Seq<char>,
) -> Option<ClassView> {
    let scan = scan_statements(stmts);
    let ctor = if has_constructor(scan.methods) {
        scan_lines(empty_ctor(), source_lines(source), class_name)
    } else {
        empty_ctor()
    };
    if scan.methods.len() > 0 || ctor.members.len() > 0 || scan.metatable_name is Some
        || scan.index_self {
        Some(
            ClassView {
                name: class_name,
                file,
                metatable_name: scan.metatable_name,
                parent_constructor: ctor.parent,
                index_self: scan.index_self,
                index_other: scan.index_other,
                instance_members: ctor.members,
                methods: scan.methods,
                direct_fields: scan.direct_fields,
            },
        )
    } else {
        None
    }
}

fn second_piece_exec(s: &str) -> (r: Option<String>)
    ensures
        opt_str_view(r) == second_piece(s@),
{
    proof {
        reveal_strlit(".");
        assert("."@ =~= seq!['.']);
    }
    match first_occurrence_exec(s, ".") {
        None => None,
        Some(i) => {
            proof {
                lemma_find_from_bounds(s@, seq!['.'], 0);
            }
            let n = s.unicode_len();
            let rest = s.substring_char(i + 1, n);
            assert(rest@ =~= s@.skip(i + 1));
            match first_occurrence_exec(rest, ".") {
                None => Some(owned(rest)),
                Some(j) => {
                    proof {
                        lemma_find_from_bounds(rest@, seq!['.'], 0);
                    }
                    let piece = owned(rest.substring_char(0, j));
                    assert(piece@ =~= rest@.take(j as int));
                    Some(piece)
                },
            }
        },
    }
}

fn drop_closers_exec(s: &str) -> (r: String)
    ensures
        r@ == drop_closers(s@),
{
    let n = s.unicode_len();
    let mut r = String::new();
    let mut i: usize = 0;
    while i < n
        invariant
            n == s@.len(),
            i <= n,
            r@ == drop_closers(s@.take(i as int)),
        decreases n - i,
    {
        let c = s.get_char(i);
        assert(s@.take(i + 1).drop_last() =~= s@.take(i as int));
        if !(c == '}' || c == ')' || c == ';' || c == ' ') {
            r.append(char_str(s, i));
        }
        proof {
            assert(r@ =~= drop_closers(s@.take(i + 1)));
        }
        i = i + 1;
    }
    assert(s@.take(n as int) =~= s@);
    r
}

fn last_piece_exec(s: &str) -> (r: String)
    ensures
        r@ == last_piece(s@),
{
    let n = s.unicode_len();
    let mut k: usize = n;
    assert(s@.take(n as int) =~= s@);
    assert(s@.subrange(n as int, n as int) =~= Seq::<char>::empty());
    loop
        invariant
            n == s@.len(),
            k <= n,
            last_piece(s@) == last_piece(s@.take(k as int)) + s@.subrange(k as int, n as int),
        ensures
            k == 0 || is_call_separator(s@[k - 1]),
        decreases k,
    {
        if k == 0 {
            break;
        }
        let c = s.get_char(k - 1);
        if c == ' ' || c == '=' || c == '(' {
            break;
        }
        let ghost t = s@.take(k as int);
        assert(t.drop_last() =~= s@.take(k - 1));
        assert(s@.subrange(k - 1, n as int) =~= seq![s@[k - 1]] + s@.subrange(k as int, n as int));
        assert(last_piece(t) == last_piece(s@.take(k - 1)).push(s@[k - 1]));
        assert(last_piece(s@.take(k - 1)).push(s@[k - 1]) + s@.subrange(k as int, n as int)
            =~= last_piece(s@.take(k - 1)) + s@.subrange(k - 1, n as int));
        k = k - 1;
    }
    let r = owned(s.substring_char(k, n));
    proof {
        if k > 0 {
            assert(s@.take(k as int).last() == s@[k - 1]);
        }
        assert(last_piece(s@.take(k as int)) =~= Seq::<char>::empty());
        assert(r@ =~= last_piece(s@));
    }
    r
}

fn metatable_target_exec(call: &str) -> (r: Option<String>)
    ensures
        opt_str_view(r) == metatable_target(call@),
{
    proof {
        reveal_strlit("setmetatable");
        reveal_strlit("__index");
        reveal_strlit("=");
        assert("setmetatable"@ =~= setmetatable_word());
        assert("__index"@ =~= index_word());
        assert("="@ =~= seq!['=']);
    }
    if !contains_text_exec(call, "setmetatable") {
        return None;
    }
    match first_occurrence_exec(call, "__index") {
        None => None,
        Some(pos) => {
            proof {
                lemma_find_from_bounds(call@, index_word(), 0);
            }
            let n = call.unicode_len();
            let after = call.substring_char(pos + 7, n);
            assert(after@ =~= call@.skip(pos + 7));
            match first_occurrence_exec(after, "=") {
                None => None,
                Some(e) => {
                    proof {
                        lemma_find_from_bounds(after@, seq!['='], 0);
                    }
                    let m = after.unicode_len();
                    let tail = after.substring_char(e + 1, m);
                    assert(tail@ =~= after@.skip(e + 1));
                    let t = trim_exec(drop_closers_exec(tail).as_str());
                    if t.unicode_len() > 0 {
                        Some(t)
                    } else {
                        None
                    }
                },
            }
        },
    }
}

pub open spec fn opt_method_view(r: Option<MethodInfo>) -> Option<MethodView> {
    match r {
        Some(m) => Some(m@),
        None => None,
    }
}

fn declared_method_exec(
    names: &Vec<String>,
    method: &Option<String>,
    line: Option<usize>,
    arity: usize,
) -> (r: Option<MethodInfo>)
    ensures
        opt_method_view(r) == declared_method(strs_view(names@), opt_str_view(*method), line, arity),
{
    proof {
        reveal_strlit("new");
        assert("new"@ =~= new_word());
    }
    let (name, ctor) = match method {
        Some(m) => (trim_exec(m.as_str()), false),
        None => {
            if names.len() >= 2 {
                let n = trim_exec(names[names.len() - 1].as_str());
                assert(strs_view(names@).last() == names@[names.len() - 1]@);
                let is_new = n == owned("new");
                (n, is_new)
            } else {
                (String::new(), false)
            }
        },
    };
    if name.unicode_len() > 0 {
        Some(MethodInfo { name, is_constructor: ctor, arity, line })
    } else {
        None
    }
}

struct Scan {
    index_self: bool,
    index_other: Option<String>,
    metatable_name: Option<String>,
    methods: Vec<MethodInfo>,
    direct_fields: Vec<String>,
}

impl View for Scan {
    type V = ScanView;

    closed spec fn view(&self) -> ScanView {
        ScanView {
            index_self: self.index_self,
            index_other: opt_str_view(self.index_other),
            metatable_name: opt_str_view(self.metatable_name),
            methods: methods_view(self.methods@),
            direct_fields: strs_view(self.direct_fields@),
        }
    }
}

impl Scan {
    fn var_step(&mut self, var: &str, value: &str)
        ensures
            final(self)@ == assign_var_step(old(self)@, var@, value@),
    {
        proof {
            reveal_strlit(".__index");
            reveal_strlit("__index");
            assert(".__index"@ =~= index_suffix());
            assert("__index"@ =~= index_word());
        }
        let clean = trim_exec(var);
        if ends_with_exec(clean.as_str(), ".__index") {
            let owner = trim_exec(strip_all_suffixes_exec(clean.as_str(), ".__index").as_str());
            let target = trim_exec(value);
            if target == owner {
                self.index_self = true;
            } else if target.unicode_len() > 0 {
                self.index_other = Some(target);
            }
        } else {
            match second_piece_exec(clean.as_str()) {
                Some(f) => {
                    if !(f == owned("__index")) && !contains_str(&self.direct_fields, f.as_str()) {
                        self.direct_fields.push(f);
                        assert(strs_view(self.direct_fields@) =~= old(self)@.direct_fields.push(f@));
                    }
                },
                None => {},
            }
        }
    }

    fn assignment_step(&mut self, vars: &Vec<String>, exprs: &Vec<String>)
        ensures
            final(self)@ == assign_fold(
                old(self)@,
                strs_view(vars@),
                strs_view(exprs@),
                vars@.len(),
            ),
    {
        let ghost start = self@;
        let mut i: usize = 0;
        while i < vars.len()
            invariant
                i <= vars@.len(),
                self@ == assign_fold(start, strs_view(vars@), strs_view(exprs@), i as nat),
            decreases vars@.len() - i,
        {
            proof {
                reveal_strlit("");
            }
            let value: &str = if i < exprs.len() {
                exprs[i].as_str()
            } else {
                ""
            };
            assert(value@ == (if i < strs_view(exprs@).len() {
                strs_view(exprs@)[i as int]
            } else {
                Seq::<char>::empty()
            }));
            self.var_step(vars[i].as_str(), value);
            i = i + 1;
        }
    }

    fn statement_step(&mut self, st: &TopStatement)
        ensures
            final(self)@ == statement_step(old(self)@, *st),
    {
        match st {
            TopStatement::FunctionDeclaration { names, method, line, arity } => {
                match declared_method_exec(names, method, *line, *arity) {
                    Some(m) => {
                        self.methods.push(m);
                        assert(methods_view(self.methods@) =~= old(self)@.methods.push(m@));
                    },
                    None => {},
                }
            },
            TopStatement::Assignment { vars, exprs } => {
                self.assignment_step(vars, exprs);
            },
            TopStatement::Call { text } => {
                match metatable_target_exec(text.as_str()) {
                    Some(t) => {
                        self.metatable_name = Some(t);
                    },
                    None => {},
                }
            },
            TopStatement::Other => {},
        }
    }
}

fn scan_statements_exec(stmts: &Vec<TopStatement>) -> (r: Scan)
    ensures
        r@ == scan_statements(stmts@),
{
    let mut scan = Scan {
        index_self: false,
        index_other: None,
        metatable_name: None,
        methods: Vec::new(),
        direct_fields: Vec::new(),
    };
    assert(methods_view(scan.methods@) =~= Seq::<MethodView>::empty());
    assert(strs_view(scan.direct_fields@) =~= Seq::<Seq<char>>::empty());
    assert(scan@ == empty_scan());
    let n = stmts.len();
    let mut i: usize = 0;
    while i < n
        invariant
            n == stmts@.len(),
            i <= n,
            scan@ == scan_statements(stmts@.take(i as int)),
        decreases n - i,
    {
        assert(stmts@.take(i + 1).drop_last() =~= stmts@.take(i as int));
        scan.statement_step(&stmts[i]);
        i = i + 1;
    }
    assert(stmts@.take(n as int) =~= stmts@);
    scan
}

pub proof fn lemma_line_pieces_nonempty(s: Seq<char>)
    ensures
        line_pieces(s).len() >= 1,
    decreases s.len(),
{
    if s.len() > 0 {
        lemma_line_pieces_nonempty(s.drop_last());
    }
}

struct CtorScan {
    members: Vec<String>,
    parent: Option<String>,
}

impl View for CtorScan {
    type V = CtorView;

    closed spec fn view(&self) -> CtorView {
        CtorView { members: strs_view(self.members@), parent: opt_str_view(self.parent) }
    }
}

impl CtorScan {
    fn line_step(&mut self, line: &str, class_name: &str)
        ensures
            final(self)@ == line_step(old(self)@, line@, class_name@),
    {
        proof {
            reveal_strlit("self.");
            reveal_strlit("self");
            reveal_strlit("=");
            reveal_strlit(".new(");
            assert("self."@ =~= self_prefix());
            assert("self"@ =~= self_word());
            assert("="@ =~= seq!['=']);
            assert(".new("@ =~= new_call());
        }
        let t = trim_exec(line);
        let ts = t.as_str();
        if starts_with_exec(ts, "self.") {
            match first_occurrence_exec(ts, "=") {
                Some(e) => {
                    proof {
                        lemma_find_from_bounds(ts@, seq!['='], 0);
                        assert(ts@.subrange(e as int, e + 1)[0] == '=');
                        if e < 5 {
                            assert(ts@.subrange(0, 5)[e as int] == self_prefix()[e as int]);
                        }
                    }
                    let f = trim_exec(ts.substring_char(5, e));
                    if f.unicode_len() > 0 && !contains_str(&self.members, f.as_str()) {
                        self.members.push(f);
                        assert(strs_view(self.members@) =~= old(self)@.members.push(f@));
                    }
                },
                None => {},
            }
        }
        let own_call = concat(class_name, ".new(");
        if contains_text_exec(ts, ".new(") && !contains_text_exec(ts, own_call.as_str()) {
            match first_occurrence_exec(ts, ".new(") {
                Some(d) => {
                    proof {
                        lemma_find_from_bounds(ts@, new_call(), 0);
                    }
                    let before = ts.substring_char(0, d);
                    assert(before@ =~= ts@.take(d as int));
                    let parent = trim_exec(last_piece_exec(before).as_str());
                    if parent.unicode_len() > 0 && !(parent == owned("self")) {
                        self.parent = Some(parent);
                    }
                },
                None => {},
            }
        }
    }

    fn scan_source(&mut self, source: &str, class_name: &str)
        ensures
            final(self)@ == scan_lines(old(self)@, source_lines(source@), class_name@),
    {
        let ghost start_state = self@;
        let n = source.unicode_len();
        let mut start: usize = 0;
        let mut i: usize = 0;
        assert(source@.take(0) =~= Seq::<char>::empty());
        assert(source@.subrange(0, 0) =~= Seq::<char>::empty());
        assert(line_pieces(source@.take(0)).drop_last() =~= Seq::<Seq<char>>::empty());
        while i < n
            invariant
                n == source@.len(),
                start <= i <= n,
                line_pieces(source@.take(i as int)).len() >= 1,
                line_pieces(source@.take(i as int)).last() == source@.subrange(start as int, i as int),
                self@ == scan_lines(
                    start_state,
                    line_pieces(source@.take(i as int)).drop_last(),
                    class_name@,
                ),
            decreases n - i,
        {
            let ghost p = line_pieces(source@.take(i as int));
            let c = source.get_char(i);
            assert(source@.take(i + 1).drop_last() =~= source@.take(i as int));
            assert(source@.take(i + 1).last() == c);
            if c == '\n' {
                let line = source.substring_char(start, i);
                self.line_step(line, class_name);
                proof {
                    let q = line_pieces(source@.take(i + 1));
                    assert(q == p.push(Seq::<char>::empty()));
                    assert(q.drop_last() =~= p);
                    assert(p.drop_last().push(p.last()) =~= p);
                    assert(source@.subrange(i + 1, i + 1) =~= Seq::<char>::empty());
                }
                start = i + 1;
            } else {
                proof {
                    let q = line_pieces(source@.take(i + 1));
                    assert(q == p.update(p.len() - 1, p.last().push(c)));
                    assert(q.drop_last() =~= p.drop_last());
                    assert(source@.subrange(start as int, i + 1) =~= source@.subrange(
                        start as int,
                        i as int,
                    ).push(c));
                    lemma_line_pieces_nonempty(source@.take(i + 1));
                }
            }
            i = i + 1;
        }
        assert(source@.take(n as int) =~= source@);
        if start < n {
            let line = source.substring_char(start, n);
            self.line_step(line, class_name);
            proof {
                let p = line_pieces(source@);
                assert(p.drop_last().push(p.last()) =~= p);
            }
        } else {
            assert(source@.subrange(start as int, n as int) =~= Seq::<char>::empty());
        }
    }
}

/// The outline of one parsed file whose class is named `class_name`.
pub fn inspect_file(
    class_name: &str,
    file: &str,
    statements: &Vec<TopStatement>,
    source: &str,
) -> (r: Option<ClassStructure>)
    ensures
        opt_class_view(r) == class_outline(class_name@, file@, statements@, source@),
{
    let scan = scan_statements_exec(statements);
    let mut has_ctor = false;
    let mut i: usize = 0;
    while i < scan.methods.len()
        invariant
            i <= scan.methods@.len(),
            has_ctor == exists|j: int| 0 <= j < i && #[trigger] scan.methods@[j].is_constructor,
        decreases scan.methods@.len() - i,
    {
        if scan.methods[i].is_constructor {
            has_ctor = true;
        }
        i = i + 1;
    }
    proof {
        if has_ctor {
            let j = choose|j: int| 0 <= j < i && #[trigger] scan.methods@[j].is_constructor;
            assert(methods_view(scan.methods@)[j].is_constructor);
        } else {
            assert forall|j: int| 0 <= j < methods_view(scan.methods@).len() implies !(
            #[trigger] methods_view(scan.methods@)[j]).is_constructor by {
                assert(!scan.methods@[j].is_constructor);
            }
        }
    }
    let mut ctor = CtorScan { members: Vec::new(), parent: None };
    assert(strs_view(ctor.members@) =~= Seq::<Seq<char>>::empty());
    if has_ctor {
        ctor.scan_source(source, class_name);
    }
    if scan.methods.len() > 0 || ctor.members.len() > 0 || scan.metatable_name.is_some()
        || scan.index_self {
        Some(
            ClassStructure {
                name: owned(class_name),
                file: owned(file),
                metatable_name: scan.metatable_name,
                parent_constructor: ctor.parent,
                index_self: scan.index_self,
                index_other: scan.index_other,
                instance_members: ctor.members,
                methods: scan.methods,
                direct_fields: scan.direct_fields,
            },
        )
    } else {
        None
    }
}

/// `char::is_lowercase` on the given character.
pub uninterp spec fn lowercase_property(c: char) -> bool;

/// Calls `char::is_lowercase`, which tells whether `c` has the Unicode
/// `Lowercase` property. Its documentation fixes the answer for ASCII
/// (exactly `a` to `z`); beyond ASCII the answer is Unicode's table, which
/// is left to the name `lowercase_property`.
#[verifier::external_body]
fn char_is_lowercase(c: char) -> (r: bool)
    ensures
        r == lowercase_property(c),
        c < '\u{80}' ==> (r <==> ('a' <= c && c <= 'z')),
{
    c.is_lowercase()
}

pub open spec fn upper_letters() -> Seq<char> {
    seq![
        'A', 'B', 'C', 'D', 'E', 'F', 'G', 'H', 'I', 'J', 'K', 'L', 'M',
        'N', 'O', 'P', 'Q', 'R', 'S', 'T', 'U', 'V', 'W', 'X', 'Y', 'Z',
    ]
}

/// The display name of a file stem: an ASCII lowercase first letter
/// becomes uppercase.
pub open spec fn display_name(stem: Seq<char>) -> Seq<char> {
    if stem.len() > 0 && 'a' <= stem[0] && stem[0] <= 'z' {
        seq![upper_letters()[stem[0] as int - 'a' as int]] + stem.skip(1)
    } else {
        stem
    }
}

/// Stems whose first character is a lowercase letter outside ASCII: the
/// capitalisation splits that character's bytes, and the scan stops there.
pub open spec fn unnameable(stem: Seq<char>) -> bool {
    stem.len() > 0 && stem[0] >= '\u{80}' && lowercase_property(stem[0])
}

/// The class name shown for a file: its stem capitalised, `Class` when
/// the file has no stem.
pub open spec fn class_name_of(stem: Option<Seq<char>>) -> Option<Seq<char>> {
    match stem {
        None => Some(seq!['C', 'l', 'a', 's', 's']),
        Some(s) => if unnameable(s) {
            None
        } else {
            Some(display_name(s))
        },
    }
}

/// The class name for a file stem, `None` where the stem cannot be
/// capitalised (see `unnameable`).
pub fn class_display_name(stem: &Option<String>) -> (r: Option<String>)
    ensures
        opt_str_view(r) == class_name_of(opt_str_view(*stem)),
{
    let capitals = "ABCDEFGHIJKLMNOPQRSTUVWXYZ";
    proof {
        reveal_strlit("Class");
        reveal_strlit("ABCDEFGHIJKLMNOPQRSTUVWXYZ");
        assert("Class"@ =~= seq!['C', 'l', 'a', 's', 's']);
        assert(capitals@ =~= upper_letters());
    }
    match stem {
        None => Some(owned("Class")),
        Some(s) => {
            let n = s.unicode_len();
            if n == 0 {
                return Some(owned(s.as_str()));
            }
            let c = s.get_char(0);
            if !char_is_lowercase(c) {
                return Some(owned(s.as_str()));
            }
            if c >= '\u{80}' {
                return None;
            }
            let k: u32 = (c as u32) - 97;
            let first = char_str(capitals, k as usize);
            let rest = suffix_from(s.as_str(), 1);
            let r = concat(first, rest.as_str());
            assert(r@ =~= display_name(s@));
            Some(r)
        },
    }
}

/// A file to outline: its stem (absent when the path has none), its path
/// relative to the workspace, and its text.
pub struct ClassSource {
    pub stem: Option<String>,
    pub file: String,
    pub source: String,
}

pub open spec fn classes_view(v: Seq<ClassStructure>) -> Seq<ClassView> {
    v.map_values(|c: ClassStructure| c@)
}

/// Whether the file's text parses and its stem cannot be capitalised.
pub open spec fn unnameable_source(f: ClassSource) -> bool {
    lua_parse(f.source@) is Ok && class_name_of(opt_str_view(f.stem)) is None
}

/// The outlines, in order, of the files that parse and show a class.
pub open spec fn outlines(files: Seq<ClassSource>) -> Seq<ClassView>
    decreases files.len(),
{
    if files.len() == 0 {
        Seq::empty()
    } else {
        let prev = outlines(files.drop_last());
        let f = files.last();
        match lua_parse(f.source@) {
            Ok(p) => match class_name_of(opt_str_view(f.stem)) {
                Some(name) => match class_outline(name, f.file@, p.1, f.source@) {
                    Some(c) => prev.push(c),
                    None => prev,
                },
                None => prev,
            },
            Err(_) => prev,
        }
    }
}

pub open spec fn some_unnameable(files: Seq<ClassSource>) -> bool {
    exists|i: int| 0 <= i < files.len() && #[trigger] unnameable_source(files[i])
}

/// The class outlines of a workspace's files: files that do not parse are
/// left out; `None` when a parsed file's stem cannot be capitalised.
pub fn inspect_classes(files: &Vec<ClassSource>) -> (r: Option<Vec<ClassStructure>>)
    ensures
        match r {
            Some(v) => !some_unnameable(files@) && classes_view(v@) == outlines(files@),
            None => some_unnameable(files@),
        },
{
    let mut out: Vec<ClassStructure> = Vec::new();
    let n = files.len();
    let mut i: usize = 0;
    while i < n
        invariant
            n == files@.len(),
            i <= n,
            !some_unnameable(files@.take(i as int)),
            classes_view(out@) == outlines(files@.take(i as int)),
        decreases n - i,
    {
        let f = &files[i];
        assert(files@.take(i + 1).drop_last() =~= files@.take(i as int));
        assert(files@.take(i + 1).last() == *f);
        match crate::parse::parse_source(f.source.as_str()) {
            Err(_) => {},
            Ok(p) => {
                match class_display_name(&f.stem) {
                    None => {
                        assert(unnameable_source(files@[i as int]));
                        return None;
                    },
                    Some(name) => {
                        match inspect_file(name.as_str(), f.file.as_str(), &p.1, f.source.as_str()) {
                            Some(c) => {
                                let ghost before = out@;
                                let ghost cv = c@;
                                out.push(c);
                                assert(classes_view(out@) =~= classes_view(before).push(cv));
                            },
                            None => {},
                        }
                    },
                }
            },
        }
        proof {
            assert forall|j: int| 0 <= j < i + 1 implies !#[trigger] unnameable_source(
                files@.take(i + 1)[j],
            ) by {
                if j < i {
                    assert(files@.take(i + 1)[j] == files@.take(i as int)[j]);
                }
            }
        }
        i = i + 1;
    }
    assert(files@.take(n as int) =~= files@);
    Some(out)
}

// ---- what every outline keeps ----

pub open spec fn scan_ok(st: ScanView) -> bool {
    &&& st.direct_fields.no_duplicates()
    &&& !st.direct_fields.contains(index_word())
}

pub open spec fn ctor_ok(st: CtorView) -> bool {
    &&& st.members.no_duplicates()
    &&& forall|i: int| 0 <= i < st.members.len() ==> #[trigger] st.members[i].len() > 0
}

proof fn lemma_assign_fold_ok(st: ScanView, vars: Seq<Seq<char>>, exprs: Seq<Seq<char>>, n: nat)
    requires
        scan_ok(st),
    ensures
        scan_ok(assign_fold(st, vars, exprs, n)),
    decreases n,
{
    if n > 0 {
        lemma_assign_fold_ok(st, vars, exprs, (n - 1) as nat);
    }
}

proof fn lemma_scan_statements_ok(s: Seq<TopStatement>)
    ensures
        scan_ok(scan_statements(s)),
    decreases s.len(),
{
    if s.len() > 0 {
        lemma_scan_statements_ok(s.drop_last());
        let st = scan_statements(s.drop_last());
        match s.last() {
            TopStatement::Assignment { vars, exprs } => {
                lemma_assign_fold_ok(st, strs_view(vars@), strs_view(exprs@), vars@.len());
            },
            _ => {},
        }
    }
}

proof fn lemma_scan_lines_ok(st: CtorView, lines: Seq<Seq<char>>, class_name: Seq<char>)
    requires
        ctor_ok(st),
    ensures
        ctor_ok(scan_lines(st, lines, class_name)),
    decreases lines.len(),
{
    if lines.len() > 0 {
        lemma_scan_lines_ok(st, lines.drop_last(), class_name);
        let prev = scan_lines(st, lines.drop_last(), class_name);
        let next = line_step(prev, lines.last(), class_name);
        assert forall|i: int| 0 <= i < next.members.len() implies #[trigger] next.members[i].len() > 0 by {
            if i < prev.members.len() {
                assert(next.members[i] == prev.members[i]);
            }
        }
    }
}

/// An outline names each direct field once and never `__index`, and each
/// instance member once and never empty.
pub proof fn lemma_outline_lists_are_distinct(
    class_name: Seq<char>,
    file: Seq<char>,
    stmts: Seq<TopStatement>,
    source: Seq<char>,
)
    ensures
        class_outline(class_name, file, stmts, source) matches Some(c) ==> {
            &&& c.direct_fields.no_duplicates()
            &&& !c.direct_fields.contains(index_word())
            &&& c.instance_members.no_duplicates()
            &&& forall|i: int|
                0 <= i < c.instance_members.len() ==> #[trigger] c.instance_members[i].len() > 0
        },
{
    lemma_scan_statements_ok(stmts);
    let scan = scan_statements(stmts);
    if has_constructor(scan.methods) {
        lemma_scan_lines_ok(empty_ctor(), source_lines(source), class_name);
    }
}

/// A file shows a class exactly when it declares a method, its constructor
/// sets a member, a top-level `setmetatable` names a parent, or it makes
/// itself its own `__index`; and only files with a method have members.
pub proof fn lemma_outline_needs_class_shape(
    class_name: Seq<char>,
    file: Seq<char>,
    stmts: Seq<TopStatement>,
    source: Seq<char>,
)
    ensures
        class_outline(class_name, file, stmts, source) is Some <==> {
            let scan = scan_statements(stmts);
            scan.methods.len() > 0 || scan.metatable_name is Some || scan.index_self
        },
        class_outline(class_name, file, stmts, source) matches Some(c) ==> (
        c.instance_members.len() > 0 ==> c.methods.len() > 0),
{
}

} // verus!
