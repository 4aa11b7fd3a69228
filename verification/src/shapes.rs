//! Module export shapes and require bindings: the facts that member lookup
//! and the checks read.

use vstd::prelude::*;
use crate::assoc::{first_index, keys_of, vget, find_key, lemma_first_index};
use crate::diagnostic::opt_str_view;

verus! {

/// What kind of value a module member is.
#[derive(Debug, Clone, Copy, PartialEq, Eq, Structural)]
pub enum Member {
    /// A function with known return arity.
    Function { arity: usize, returns_instance: bool },
    /// A non-function value, or a function of unknown arity.
    Value,
}

/// The statically-known object model attached to one exported table.
#[derive(Debug)]
pub struct ClassInfo {
    pub index_self: bool,
    pub index_other: Option<String>,
    pub index_unknown: bool,
    pub metatable_name: Option<String>,
    pub metatable_unknown: bool,
    /// Names assigned through `self.name = ...` in the constructor, each once.
    pub instance_members: Vec<String>,
    pub parent_constructor: Option<String>,
}

pub struct ClassView {
    pub index_self: bool,
    pub index_other: Option<Seq<char>>,
    pub index_unknown: bool,
    pub metatable_name: Option<Seq<char>>,
    pub metatable_unknown: bool,
    pub instance_members: Seq<Seq<char>>,
    pub parent_constructor: Option<Seq<char>>,
}

pub open spec fn strs_view(v: Seq<String>) -> Seq<Seq<char>> {
    v.map_values(|s: String| s@)
}

impl View for ClassInfo {
    type V = ClassView;

    open spec fn view(&self) -> ClassView {
        ClassView {
            index_self: self.index_self,
            index_other: opt_str_view(self.index_other),
            index_unknown: self.index_unknown,
            metatable_name: opt_str_view(self.metatable_name),
            metatable_unknown: self.metatable_unknown,
            instance_members: strs_view(self.instance_members@),
            parent_constructor: opt_str_view(self.parent_constructor),
        }
    }
}

/// What a module exports. Members are flat: a member that is itself a
/// table is `Member::Value`.
#[derive(Debug)]
pub struct ExportShape {
    /// Member name to kind; each name once, in first-definition order.
    pub members: Vec<(String, Member)>,
    /// Static class/metatable facts recognized for this exported table.
    pub class: Option<ClassInfo>,
}

pub struct ShapeView {
    pub members: Seq<(Seq<char>, Member)>,
    pub class: Option<ClassView>,
}

pub open spec fn members_view(v: Seq<(String, Member)>) -> Seq<(Seq<char>, Member)> {
    v.map_values(|e: (String, Member)| (e.0@, e.1))
}

pub open spec fn opt_class_view(c: Option<ClassInfo>) -> Option<ClassView> {
    match c {
        Some(c) => Some(c@),
        None => None,
    }
}

impl View for ExportShape {
    type V = ShapeView;

    open spec fn view(&self) -> ShapeView {
        ShapeView { members: members_view(self.members@), class: opt_class_view(self.class) }
    }
}

/// Local names bound to modules (`local m = require("m")`) and to instances
/// (`local o = Class.new()`), each mapped to a module path. Scope-blind: the
/// last binding in document order wins.
#[derive(Debug)]
pub struct Bindings {
    pub modules: Vec<(String, String)>,
    pub instances: Vec<(String, String)>,
}

pub struct BindingsView {
    pub modules: Seq<(Seq<char>, Seq<char>)>,
    pub instances: Seq<(Seq<char>, Seq<char>)>,
}

pub open spec fn pairs_view(v: Seq<(String, String)>) -> Seq<(Seq<char>, Seq<char>)> {
    v.map_values(|e: (String, String)| (e.0@, e.1@))
}

impl View for Bindings {
    type V = BindingsView;

    open spec fn view(&self) -> BindingsView {
        BindingsView { modules: pairs_view(self.modules@), instances: pairs_view(self.instances@) }
    }
}

pub open spec fn opt_ref_view(o: Option<&String>) -> Option<Seq<char>> {
    match o {
        Some(s) => Some(s@),
        None => None,
    }
}

/// Export shapes by module path.
pub open spec fn shapes_view(v: Seq<(String, ExportShape)>) -> Seq<(Seq<char>, ShapeView)> {
    v.map_values(|e: (String, ExportShape)| (e.0@, e.1@))
}

/// Bindings by module path.
pub open spec fn all_bindings_view(v: Seq<(String, Bindings)>) -> Seq<(Seq<char>, BindingsView)> {
    v.map_values(|e: (String, Bindings)| (e.0@, e.1@))
}

pub proof fn lemma_pairs_keys(s: Seq<(String, String)>)
    ensures
        pairs_view(s).map_values(|e: (Seq<char>, Seq<char>)| e.0) =~= keys_of(s),
{
}

pub proof fn lemma_members_keys(s: Seq<(String, Member)>)
    ensures
        members_view(s).map_values(|e: (Seq<char>, Member)| e.0) =~= keys_of(s),
{
}

pub proof fn lemma_shapes_keys(s: Seq<(String, ExportShape)>)
    ensures
        shapes_view(s).map_values(|e: (Seq<char>, ShapeView)| e.0) =~= keys_of(s),
{
}

pub proof fn lemma_all_bindings_keys(s: Seq<(String, Bindings)>)
    ensures
        all_bindings_view(s).map_values(|e: (Seq<char>, BindingsView)| e.0) =~= keys_of(s),
{
}

/// Look a key up in an association list whose values are viewed.
pub fn get_index<V>(v: &Vec<(String, V)>, k: &str) -> (r: Option<usize>)
    ensures
        match r {
            Some(i) => first_index(keys_of(v@), k@) == Some(i as int) && i < v@.len(),
            None => first_index(keys_of(v@), k@) is None,
        },
{
    let r = find_key(v, k);
    proof {
        lemma_first_index(keys_of(v@), k@);
    }
    r
}

impl Bindings {
    /// The module bound to `name`, if any.
    pub fn get_module(&self, name: &str) -> (r: Option<&String>)
        ensures
            opt_ref_view(r) == vget(self@.modules, name@),
    {
        proof {
            lemma_pairs_keys(self.modules@);
        }
        match get_index(&self.modules, name) {
            Some(i) => Some(&self.modules[i].1),
            None => None,
        }
    }

    /// The class of the instance bound to `name`, if any.
    pub fn get_instance(&self, name: &str) -> (r: Option<&String>)
        ensures
            opt_ref_view(r) == vget(self@.instances, name@),
    {
        proof {
            lemma_pairs_keys(self.instances@);
        }
        match get_index(&self.instances, name) {
            Some(i) => Some(&self.instances[i].1),
            None => None,
        }
    }
}

} // verus!
