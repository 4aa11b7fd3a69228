use std::io::Write;
use std::path::Path;

use aster_analysis::diagnostic::{Diagnostic, DiagnosticKind};
use aster_analysis::exports::module_export_exec;
use aster_analysis::lookup::LookupResult;
use aster_analysis::performance::check_performance;
use aster_analysis::project::{
    AnalysisOptions, LoadFailure, SourceFile, analyze, check, explain, load_source,
};
use aster_analysis::require_sites::{RequireCall, extract_requires};
use aster_analysis::resolve::Resolver;
use aster_analysis::workspace::graph_outline;
use aster_analysis::render::{check_output, explain_output, graph_output};
use aster_analysis::shapes::{ExportShape, Member};
use aster_analysis::syntax::Chunk;

fn chunk(source: &str) -> Chunk {
    match load_source("snippet.lua".to_string(), Ok(source.to_string())).syntax {
        Ok(c) => c,
        Err(_) => panic!("source should parse"),
    }
}

// ---- projects on disk ----

fn create_file(root: &Path, relative: &str, contents: &str) {
    let parts: Vec<&str> = relative.split('/').collect();
    let mut dir = root.to_path_buf();
    for part in &parts[..parts.len() - 1] {
        let next = dir.join(part);
        if !next.is_dir() {
            tempfile::Builder::new()
                .prefix(part)
                .rand_bytes(0)
                .keep(true)
                .tempdir_in(&dir)
                .expect("directory");
        }
        dir = next;
    }
    let mut file = tempfile::Builder::new()
        .prefix(parts[parts.len() - 1])
        .rand_bytes(0)
        .keep(true)
        .tempfile_in(&dir)
        .expect("file");
    file.write_all(contents.as_bytes()).expect("contents");
}

/// A project on disk, and its files parsed, in path order.
fn project(files: &[(&str, &str)]) -> (tempfile::TempDir, String, Vec<SourceFile>) {
    let dir = tempfile::tempdir().expect("temporary project");
    let mut sorted: Vec<(&str, &str)> = files.to_vec();
    sorted.sort_by(|a, b| Path::new(a.0).cmp(Path::new(b.0)));
    let mut loaded = Vec::new();
    for (relative, contents) in sorted {
        create_file(dir.path(), relative, contents);
        loaded.push(load_source(relative.to_string(), Ok(contents.to_string())));
    }
    let root = dir.path().to_str().expect("utf-8 path").to_string();
    (dir, root, loaded)
}

fn check_project(files: &[(&str, &str)]) -> Vec<Diagnostic> {
    let (_dir, root, loaded) = project(files);
    check(&AnalysisOptions::new(&root), &loaded)
}

fn member(shape: &ExportShape, name: &str) -> Member {
    shape.members.iter().find(|(n, _)| n == name).map(|(_, m)| *m).expect("member")
}

// ---- fixtures ----

const CLASS_ENTITY: &str = "local Entity = {}
Entity.__index = Entity

function Entity.new(name)
  local self = {}
  self.name = name
  return setmetatable(self, Entity)
end

function Entity:describe()
  return self.name
end

return Entity
";

const CLASS_PLAYER: &str = "local Entity = require(\"entity\")

local Player = {}
Player.__index = Player
setmetatable(Player, { __index = Entity })

function Player.new(name)
  local self = Entity.new(name)
  self.score = 0
  return setmetatable(self, Player)
end

function Player:getScore()
  return self.score
end

return Player
";

const CLASS_MAIN: &str = "local Player = require(\"player\")

local player = Player.new(\"hero\")


print(player.describe)

print(player.missing)
print(mystery.member)
";

fn class_fixture() -> Vec<(&'static str, &'static str)> {
    vec![("entity.lua", CLASS_ENTITY), ("player.lua", CLASS_PLAYER), ("main.lua", CLASS_MAIN)]
}

const RETURNS_FLAGGED: &str = "local function three() return 1, 2, 3 end
local function one() return 1 end
local function none() end
-- call sites
local a = three()
local b, c = three()
local d, e = one()
local f = none()

local function outer()
  local function inner() return 1, 2 end
  local x, y = inner()
  return x
end
local p, q = outer()
print(a, b, c, d, e, f, p, q)
";

// ---- resolution ----

fn resolver_fixture() -> (tempfile::TempDir, Resolver) {
    let dir = tempfile::tempdir().expect("temporary project");
    create_file(dir.path(), "player.lua", "return {}\n");
    create_file(dir.path(), "lib/util.lua", "return {}\n");
    create_file(dir.path(), "pkg/init.lua", "return {}\n");
    let root = dir.path().to_str().expect("utf-8 path").to_string();
    let resolver = Resolver::new(root, vec!["./?.lua".to_string(), "./?/init.lua".to_string()]);
    (dir, resolver)
}

#[test]
fn resolves_top_level_module() {
    let (_dir, resolver) = resolver_fixture();
    assert_eq!(resolver.resolve("player"), Some("player.lua".to_string()));
}

#[test]
fn resolves_nested_module_with_dots() {
    let (_dir, resolver) = resolver_fixture();
    assert_eq!(resolver.resolve("lib.util"), Some("lib/util.lua".to_string()));
}

#[test]
fn resolves_init_lua_pattern() {
    let (_dir, resolver) = resolver_fixture();
    assert_eq!(resolver.resolve("pkg"), Some("pkg/init.lua".to_string()));
}

#[test]
fn returns_none_for_unknown_module() {
    let (_dir, resolver) = resolver_fixture();
    assert_eq!(resolver.resolve("ghost"), None);
}

#[test]
fn candidates_follow_the_search_path() {
    let resolver = Resolver::new(
        "root".to_string(),
        vec!["./?.lua".to_string(), "lib/?/init.lua".to_string(), "/abs/?.lua".to_string()],
    );
    assert_eq!(
        resolver.candidates("a.b"),
        vec!["a/b.lua".to_string(), "lib/a/b/init.lua".to_string(), "/abs/a/b.lua".to_string()]
    );
}

// ---- checks over whole projects ----

#[test]
fn returns_flagged_fixture_reports_discards_and_nil_padding() {
    let diagnostics = check_project(&[("flagged.lua", RETURNS_FLAGGED)]);
    assert_eq!(diagnostics.len(), 5, "diagnostics: {diagnostics:?}");
    assert!(diagnostics.iter().all(|d| d.kind == DiagnosticKind::MultiReturnInfo));
    assert!(diagnostics.iter().all(|d| d.file == Some("flagged.lua".to_string())));

    assert_eq!(diagnostics[0].line, Some(5));
    assert_eq!(diagnostics[0].message, "`three()` returns 3 values; 1 bound, 2 discarded");
    assert_eq!(diagnostics[1].line, Some(6));
    assert_eq!(diagnostics[1].message, "`three()` returns 3 values; 2 bound, 1 discarded");
    assert_eq!(diagnostics[2].line, Some(7));
    assert_eq!(diagnostics[2].message, "`one()` returns 1 value; 2 bound, 1 variable will be nil");
    assert_eq!(diagnostics[3].line, Some(8));
    assert_eq!(diagnostics[3].message, "`none()` returns 0 values; 1 bound, 1 variable will be nil");
    assert_eq!(diagnostics[4].line, Some(15));
    assert_eq!(diagnostics[4].message, "`outer()` returns 1 value; 2 bound, 1 variable will be nil");
}

#[test]
fn cross_clean_fixture_stays_silent() {
    let diagnostics = check_project(&[
        (
            "player.lua",
            "local M = {}\nfunction M.move(dx, dy) return dx, dy end\nfunction M.name() return \"p\" end\nreturn M\n",
        ),
        (
            "main.lua",
            "local player = require(\"player\")\nlocal x, y = player.move(1, 2)\nlocal n = player.name()\nprint(x, y, n)\n",
        ),
    ]);
    assert_eq!(diagnostics, vec![], "diagnostics: {diagnostics:?}");
}

#[test]
fn cross_flagged_fixture_reports_unknown_members() {
    let diagnostics = check_project(&[
        (
            "player.lua",
            "local M = {}\nfunction M.move(dx, dy) return dx, dy end\nfunction M:jump() return 1 end\nreturn M\n",
        ),
        (
            "main.lua",
            "local player = require(\"player\")\n\nprint(player.nope)\nprint(player.missing)\n\n\n\nlocal moved = player.move(1, 2)\n\n\nlocal jumped = player:move()\nprint(moved, jumped)\n",
        ),
    ]);
    let kinds_and_lines: Vec<(DiagnosticKind, Option<usize>)> =
        diagnostics.iter().map(|d| (d.kind, d.line)).collect();
    assert_eq!(
        kinds_and_lines,
        vec![
            (DiagnosticKind::UnknownMember, Some(3)),
            (DiagnosticKind::UnknownMember, Some(4)),
            (DiagnosticKind::MultiReturnInfo, Some(8)),
            (DiagnosticKind::MultiReturnInfo, Some(11)),
        ],
        "diagnostics: {diagnostics:?}"
    );
    assert!(diagnostics.iter().all(|d| d.file == Some("main.lua".to_string())));
    assert_eq!(diagnostics[0].message, "unknown member `nope` on module binding `player`");
    assert_eq!(diagnostics[1].message, "unknown member `missing` on module binding `player`");
    assert_eq!(diagnostics[2].message, "`player.move()` returns 2 values; 1 bound, 1 discarded");
    assert_eq!(diagnostics[3].message, "`player:move()` returns 2 values; 1 bound, 1 discarded");
}

#[test]
fn class_fixture_resolves_instance_and_inherited_members() {
    let diagnostics = check_project(&class_fixture());
    assert_eq!(diagnostics.len(), 1, "diagnostics: {diagnostics:?}");
    assert_eq!(diagnostics[0].kind, DiagnosticKind::UnknownMember);
    assert_eq!(diagnostics[0].line, Some(8));
    assert_eq!(diagnostics[0].message, "unknown member `missing` on instance `player`");
}

#[test]
fn sequence_flagged_fixture_produces_expected_diagnostics() {
    let diagnostics = check_project(&[(
        "flagged.lua",
        "local t = {1, 2, 3}\nprint(t[0])\nlocal s = {}\ns[1] = 1\ns[2] = 2\ns[4] = 4\nprint(#s)\nlocal v = {10, 20}\nlocal w = {}\nfor i = 0, #v do print(v[i]) end\nfor j = 1, #v - 1 do print(v[j]) end\nfor k, x in ipairs(w) do print(k, x) end\n\n\nprint(w[0])\n",
    )]);
    let kinds_and_lines: Vec<(DiagnosticKind, Option<usize>)> =
        diagnostics.iter().map(|d| (d.kind, d.line)).collect();
    assert_eq!(
        kinds_and_lines,
        vec![
            (DiagnosticKind::ZeroIndexAccess, Some(2)),
            (DiagnosticKind::SparseArray, Some(6)),
            (DiagnosticKind::AmbiguousLength, Some(7)),
            (DiagnosticKind::OffByOneLoop, Some(10)),
            (DiagnosticKind::OffByOneLoop, Some(11)),
            (DiagnosticKind::ZeroIndexAccess, Some(15)),
        ],
        "diagnostics: {diagnostics:?}"
    );
    assert!(diagnostics.iter().all(|d| d.file == Some("flagged.lua".to_string())));
    assert_eq!(diagnostics[0].message, "zero-based index `t[0]` on sequence-like table `t`");
    assert_eq!(diagnostics[1].message, "sparse array `s`: key 4 leaves a hole after key 2");
    assert_eq!(diagnostics[3].message, "loop `for i = 0, #v` starts at 0; Lua sequences start at 1");
    assert_eq!(diagnostics[4].message, "loop `for j = 1, #v - 1` skips the last element");
    assert_eq!(diagnostics[5].message, "zero-based index `w[0]` on sequence-like table `w`");
}

#[test]
fn performance_flagged_fixture_reports_inefficiencies() {
    let diagnostics = check_project(&[(
        "main.lua",
        "local parts = {}\nfor i = 1, 10 do\n  local r = math.sqrt(i)\n  local pair = {}\n  local s = \"n\" .. i\n  print(r, pair, s, parts)\nend\n",
    )]);
    let kinds_and_lines: Vec<(DiagnosticKind, Option<usize>)> =
        diagnostics.iter().map(|d| (d.kind, d.line)).collect();
    assert_eq!(
        kinds_and_lines,
        vec![
            (DiagnosticKind::GlobalInLoop, Some(3)),
            (DiagnosticKind::TableAllocationInLoop, Some(4)),
            (DiagnosticKind::StringConcatInLoop, Some(5)),
        ],
        "diagnostics: {diagnostics:?}"
    );
    assert!(diagnostics.iter().all(|d| d.file == Some("main.lua".to_string())));
    assert!(diagnostics[0].message.contains("repeated global lookup `math.sqrt`"));
    assert!(diagnostics[1].message.contains("table constructor `{}`"));
    assert!(diagnostics[2].message.contains("string concatenation `..`"));
}

#[test]
fn performance_clean_fixture_stays_silent() {
    let diagnostics = check_project(&[(
        "main.lua",
        "local sqrt = math.sqrt\nlocal parts = {}\nfor i = 1, 10 do\n  parts[#parts + 1] = sqrt(i)\nend\nprint(table.concat(parts, \",\"))\n",
    )]);
    assert_eq!(diagnostics, vec![], "diagnostics: {diagnostics:?}");
}

// ---- the member inspector ----

#[test]
fn explain_reports_the_inheritance_walk() {
    let (_dir, root, loaded) = project(&class_fixture());
    let explanations = explain(&AnalysisOptions::new(&root), &loaded, "main.lua", 6);
    assert_eq!(explanations.len(), 1, "explanations: {explanations:?}");
    assert_eq!(explanations[0].expression, "player.describe");
    assert_eq!(explanations[0].start_column, 7);
    assert_eq!(explanations[0].end_column, 22);
    assert!(matches!(explanations[0].result, LookupResult::Found(_)));
    assert!(explanations[0].steps.iter().any(|step| step == "constructor parent: Entity.new()"));
    assert!(explanations[0].steps.iter().any(|step| step == "found direct member on entity.lua"));
}

#[test]
fn explain_keeps_unknown_member_accesses_inspectable() {
    let (_dir, root, loaded) = project(&class_fixture());
    let explanations = explain(&AnalysisOptions::new(&root), &loaded, "main.lua", 9);
    assert_eq!(explanations.len(), 1, "explanations: {explanations:?}");
    assert_eq!(explanations[0].expression, "mystery.member");
    assert!(matches!(explanations[0].result, LookupResult::Unknown(_)));
    assert!(explanations[0].steps.iter().any(|step| step.contains("no known class binding")));
}

#[test]
fn explain_reports_members_inside_the_exported_class_file() {
    let (_dir, root, loaded) = project(&class_fixture());

    let class_member = explain(&AnalysisOptions::new(&root), &loaded, "player.lua", 4);
    assert_eq!(class_member.len(), 1, "explanations: {class_member:?}");
    assert_eq!(class_member[0].expression, "Player.__index");
    assert!(!class_member[0].steps.is_empty());

    let self_member = explain(&AnalysisOptions::new(&root), &loaded, "player.lua", 14);
    assert_eq!(self_member.len(), 1, "explanations: {self_member:?}");
    assert_eq!(self_member[0].expression, "self.score");
    assert!(matches!(self_member[0].result, LookupResult::Found(_)));
}

#[test]
fn explain_accepts_a_path_under_the_root() {
    let (_dir, root, loaded) = project(&class_fixture());
    let full = format!("{root}/main.lua");
    let explanations = explain(&AnalysisOptions::new(&root), &loaded, &full, 6);
    assert_eq!(explanations.len(), 1, "explanations: {explanations:?}");
    let unknown_file = explain(&AnalysisOptions::new(&root), &loaded, "nowhere.lua", 6);
    assert!(unknown_file.is_empty());
}

// ---- the require graph ----

#[test]
fn clean_fixture_has_expected_graph_and_no_diagnostics() {
    let (_dir, root, loaded) = project(&[
        ("main.lua", "local network = require(\"network\")\nlocal player = require(\"player\")\nreturn {}\n"),
        ("network.lua", "local util = require(\"lib.util\")\nreturn {}\n"),
        ("player.lua", "local inventory = require(\"inventory\")\nlocal save = require(\"save\")\nreturn {}\n"),
        ("inventory.lua", "local config = require(\"config\")\nreturn {}\n"),
        ("lib/util.lua", "return {}\n"),
        ("save.lua", "local pkg = require(\"pkg\")\nreturn {}\n"),
        ("config.lua", "return {}\n"),
        ("pkg/init.lua", "return {}\n"),
    ]);
    let result = analyze(&AnalysisOptions::new(&root), &loaded);
    assert!(result.diagnostics.is_empty(), "unexpected diagnostics: {:?}", result.diagnostics);
    let modules = result.graph.modules();
    for expected in [
        "main.lua",
        "network.lua",
        "player.lua",
        "inventory.lua",
        "lib/util.lua",
        "save.lua",
        "config.lua",
        "pkg/init.lua",
    ] {
        assert!(modules.contains(&expected.to_string()), "missing {expected}");
    }
    assert_eq!(
        result.graph.dependencies("main.lua"),
        vec!["network.lua".to_string(), "player.lua".to_string()]
    );
    assert_eq!(result.graph.entry_points(), vec!["main.lua".to_string()]);
}

#[test]
fn cycle_fixture_reports_circular_dependency() {
    let (_dir, root, loaded) = project(&[
        ("main.lua", "local a = require(\"a\")\n"),
        ("a.lua", "local b = require(\"b\")\nreturn {}\n"),
        ("b.lua", "local a = require(\"a\")\nreturn {}\n"),
    ]);
    let result = analyze(&AnalysisOptions::new(&root), &loaded);
    let cycles: Vec<&Diagnostic> = result
        .diagnostics
        .iter()
        .filter(|d| d.kind == DiagnosticKind::CircularDependency)
        .collect();
    assert_eq!(cycles.len(), 1, "diagnostics: {:?}", result.diagnostics);
    assert_eq!(cycles[0].message, "circular dependency: a.lua -> b.lua -> a.lua");
    assert_eq!(cycles[0].file, None);
}

#[test]
fn dynamic_fixture_flags_dynamic_require() {
    let (_dir, root, loaded) = project(&[("main.lua", "local name = \"x\"\nlocal m = require(name)\n")]);
    let result = analyze(&AnalysisOptions::new(&root), &loaded);
    let dynamic: Vec<&Diagnostic> = result
        .diagnostics
        .iter()
        .filter(|d| d.kind == DiagnosticKind::DynamicRequire)
        .collect();
    assert_eq!(dynamic.len(), 1, "diagnostics: {:?}", result.diagnostics);
    assert_eq!(dynamic[0].file, Some("main.lua".to_string()));
    assert_eq!(dynamic[0].line, Some(2));
    assert_eq!(dynamic[0].column, Some(11));
    assert_eq!(dynamic[0].message, "dynamic require with non-literal argument");
}

#[test]
fn unresolved_fixture_flags_unresolved_require() {
    let (_dir, root, loaded) = project(&[("main.lua", "local g = require(\"ghost\")\n")]);
    let result = analyze(&AnalysisOptions::new(&root), &loaded);
    assert_eq!(result.diagnostics.len(), 1, "diagnostics: {:?}", result.diagnostics);
    assert_eq!(result.diagnostics[0].kind, DiagnosticKind::UnresolvedRequire);
    assert_eq!(result.diagnostics[0].file, Some("main.lua".to_string()));
    assert_eq!(result.diagnostics[0].message, "unresolved require 'ghost'");
}

#[test]
fn unused_fixture_flags_orphan_but_not_entry_points() {
    let (_dir, root, loaded) = project(&[
        ("main.lua", "return {}\n"),
        ("pkg/init.lua", "return {}\n"),
        ("orphan.lua", "return {}\n"),
    ]);
    let result = analyze(&AnalysisOptions::new(&root), &loaded);
    let unused: Vec<&Diagnostic> = result
        .diagnostics
        .iter()
        .filter(|d| d.kind == DiagnosticKind::UnusedModule)
        .collect();
    assert_eq!(unused.len(), 1, "diagnostics: {:?}", result.diagnostics);
    assert_eq!(unused[0].file, Some("orphan.lua".to_string()));
}

#[test]
fn bad_fixture_reports_parse_error_but_keeps_module() {
    let (_dir, root, loaded) = project(&[("main.lua", "local = = =\n")]);
    assert!(loaded[0].syntax.is_err());
    let result = analyze(&AnalysisOptions::new(&root), &loaded);
    assert!(result.diagnostics.iter().any(|d| d.kind == DiagnosticKind::ParseError
        && d.file == Some("main.lua".to_string())));
    assert_eq!(result.graph.modules(), vec!["main.lua".to_string()]);
}

#[test]
fn unreadable_file_is_reported_and_kept() {
    let files = vec![SourceFile {
        path: "locked.lua".to_string(),
        syntax: Err(LoadFailure::Unreadable("permission denied".to_string())),
    }];
    let result = analyze(&AnalysisOptions::new("nowhere"), &files);
    assert_eq!(result.diagnostics[0].kind, DiagnosticKind::IoError);
    assert_eq!(result.diagnostics[0].message, "cannot read file: permission denied");
    assert_eq!(result.diagnostics[0].file, Some("locked.lua".to_string()));
    let checked = check(&AnalysisOptions::new("nowhere"), &files);
    assert_eq!(checked.len(), 1);
}

// ---- requires ----

#[test]
fn extracts_parenthesized_string_require() {
    let result = extract_requires("local p = require(\"player\")").expect("source parses");
    assert_eq!(
        result.static_requires,
        vec![RequireCall { name: "player".to_string(), line: 1, column: 11 }]
    );
    assert!(result.dynamic_requires.is_empty());
}

#[test]
fn extracts_bare_string_require() {
    let result = extract_requires("require \"network\"").expect("source parses");
    assert_eq!(result.static_requires[0].name, "network");
    assert_eq!((result.static_requires[0].line, result.static_requires[0].column), (1, 1));
}

#[test]
fn extracts_long_bracket_require() {
    let result = extract_requires("require[[save]]").expect("source parses");
    assert_eq!(result.static_requires[0].name, "save");
}

#[test]
fn flags_dynamic_require() {
    let result = extract_requires("local m = \"x\"\nrequire(m)").expect("source parses");
    assert!(result.static_requires.is_empty());
    assert_eq!(result.dynamic_requires, vec![(2, 1)]);
}

#[test]
fn ignores_non_require_calls() {
    let result = extract_requires("print(\"x\")\nfoo.require(\"y\")").expect("source parses");
    assert!(result.static_requires.is_empty());
    assert!(result.dynamic_requires.is_empty());
}

#[test]
fn ignores_chained_calls_after_require() {
    let result = extract_requires("require(\"a\").setup({})").expect("source parses");
    assert_eq!(result.static_requires.len(), 1);
    assert_eq!(result.static_requires[0].name, "a");
    assert!(result.dynamic_requires.is_empty());
}

// ---- export shapes ----

fn export(source: &str) -> Option<ExportShape> {
    module_export_exec(&chunk(source))
}

#[test]
fn table_builder_pattern() {
    let shape = export("local M = {}\nfunction M.f() return 1 end\nM.x = 5\nreturn M\n").unwrap();
    assert_eq!(member(&shape, "f"), Member::Function { arity: 1, returns_instance: false });
    assert_eq!(member(&shape, "x"), Member::Value);
    assert_eq!(shape.members.len(), 2);
}

#[test]
fn direct_table_return() {
    let shape = export("return { f = function() return 1, 2 end, x = 1 }\n").unwrap();
    assert_eq!(member(&shape, "f"), Member::Function { arity: 2, returns_instance: false });
    assert_eq!(member(&shape, "x"), Member::Value);
}

#[test]
fn method_definition() {
    let shape = export("local M = {}\nfunction M:f() return 1 end\nreturn M\n").unwrap();
    assert_eq!(member(&shape, "f"), Member::Function { arity: 1, returns_instance: false });
}

#[test]
fn string_keyed_constructor_field() {
    let shape = export("return { [\"f\"] = function() end }\n").unwrap();
    assert_eq!(member(&shape, "f"), Member::Function { arity: 0, returns_instance: false });
}

#[test]
fn no_return_is_none() {
    assert!(export("local M = {}\n").is_none());
}

#[test]
fn conditional_return_is_none() {
    assert!(export("local M = {}\nif x then return M end\nreturn M\n").is_none());
}

#[test]
fn unknown_arity_member_becomes_value() {
    let shape =
        export("local M = {}\nfunction M.f() if c then return 1 end return 1, 2 end\nreturn M\n").unwrap();
    assert_eq!(member(&shape, "f"), Member::Value);
}

#[test]
fn non_table_return_is_none() {
    assert!(export("return 5\n").is_none());
}

#[test]
fn wholesale_rebinding_is_none() {
    assert!(export("local M = {}\nM = 5\nreturn M\n").is_none());
}

#[test]
fn bracket_keyed_assignment_makes_shape_unknown() {
    assert!(export("local M = {}\nM[\"x\"] = 5\nreturn M\n").is_none());
}

#[test]
fn recognizes_class_constructor_and_metatable_facts() {
    let shape = export(
        "local Parent = require('parent')\nlocal M = {}\nM.__index = M\nsetmetatable(M, { __index = Parent })\nfunction M.new()\n  local self = Parent.new()\n  self.score = 0\n  return setmetatable(self, M)\nend\nreturn M\n",
    )
    .unwrap();
    let class = shape.class.as_ref().unwrap();
    assert!(class.index_self);
    assert_eq!(class.metatable_name.as_deref(), Some("Parent"));
    assert_eq!(class.parent_constructor.as_deref(), Some("Parent"));
    assert!(class.instance_members.contains(&"score".to_string()));
    assert!(matches!(member(&shape, "new"), Member::Function { returns_instance: true, .. }));
}

// ---- performance heuristics ----

fn performance(source: &str) -> Vec<Diagnostic> {
    check_performance("main.lua", &chunk(source))
}

#[test]
fn later_local_does_not_hide_earlier_global() {
    let found = performance("for i = 1, 2 do math.sqrt(i) end\nlocal math = {}\n");
    assert_eq!(found.len(), 1);
    assert_eq!(found[0].kind, DiagnosticKind::GlobalInLoop);
}

#[test]
fn local_visible_before_loop_hides_global() {
    let found = performance("local math = math\nfor i = 1, 2 do math.sqrt(i) end\n");
    assert!(found.is_empty(), "diagnostics: {found:?}");
}

#[test]
fn generic_for_iterator_is_not_repeated_loop_work() {
    let found = performance("for item in pairs(items) do print(item) end\n");
    assert!(found.is_empty(), "diagnostics: {found:?}");
}

#[test]
fn nested_function_body_is_not_part_of_enclosing_loop_execution() {
    let found = performance("for i = 1, 2 do\n  local f = function() return math.sqrt(i) end\nend\n");
    assert!(found.is_empty(), "diagnostics: {found:?}");
}

#[test]
fn builtin_call_in_loop_is_reported_with_its_position() {
    let found = performance("while true do\n  local t = type(x)\nend\n");
    assert_eq!(found.len(), 1, "diagnostics: {found:?}");
    assert_eq!(found[0].line, Some(2));
    assert_eq!(found[0].column, Some(13));
    assert_eq!(
        found[0].message,
        "repeated global call `type()` in loop; consider caching `local type = type` outside the loop"
    );
}

#[test]
fn graph_outline_lists_modules_edges_and_cycles() {
    let (_dir, root, loaded) = project(&[
        ("a.lua", "local b = require(\"b\")\nreturn {}\n"),
        ("b.lua", "local a = require(\"a\")\nreturn {}\n"),
        ("main.lua", "local a = require(\"a\")\n"),
    ]);
    let result = analyze(&AnalysisOptions::new(&root), &loaded);
    let outline = graph_outline(&result);
    assert_eq!(outline.modules, vec!["a.lua".to_string(), "b.lua".to_string(), "main.lua".to_string()]);
    assert_eq!(
        outline.edges,
        vec![
            ("a.lua".to_string(), "b.lua".to_string()),
            ("b.lua".to_string(), "a.lua".to_string()),
            ("main.lua".to_string(), "a.lua".to_string()),
        ]
    );
    assert_eq!(outline.entry_points, vec!["main.lua".to_string()]);
    assert_eq!(outline.cycles, vec![vec!["circular dependency: a.lua -> b.lua -> a.lua".to_string()]]);
}

// ---- what the analyzer prints ----

const CLEAN_GRAPH: [(&str, &str); 8] = [
    ("main.lua", "local network = require(\"network\")\nlocal player = require(\"player\")\nreturn {}\n"),
    ("network.lua", "local util = require(\"lib.util\")\nreturn {}\n"),
    ("player.lua", "local inventory = require(\"inventory\")\nlocal save = require(\"save\")\nreturn {}\n"),
    ("inventory.lua", "local config = require(\"config\")\nreturn {}\n"),
    ("lib/util.lua", "return {}\n"),
    ("save.lua", "local pkg = require(\"pkg\")\nreturn {}\n"),
    ("config.lua", "return {}\n"),
    ("pkg/init.lua", "return {}\n"),
];

#[test]
fn check_text_reports_no_issues_when_clean() {
    let (_dir, root, loaded) = project(&CLEAN_GRAPH);
    let diagnostics = check(&AnalysisOptions::new(&root), &loaded);
    assert_eq!(check_output(&diagnostics), "No issues found.\n");
}

#[test]
fn check_json_reports_sequence_fixture() {
    let diagnostics = check_project(&[(
        "flagged.lua",
        "local t = {1, 2, 3}\nprint(t[0])\nlocal s = {}\ns[1] = 1\ns[2] = 2\ns[4] = 4\nprint(#s)\nlocal v = {10, 20}\nlocal w = {}\nfor i = 0, #v do print(v[i]) end\nfor j = 1, #v - 1 do print(v[j]) end\nfor k, x in ipairs(w) do print(k, x) end\n\n\nprint(w[0])\n",
    )]);
    let kinds: Vec<&str> = diagnostics.iter().map(|d| d.kind.snake_name()).collect();
    assert_eq!(
        kinds,
        vec![
            "zero_index_access",
            "sparse_array",
            "ambiguous_length",
            "off_by_one_loop",
            "off_by_one_loop",
            "zero_index_access",
        ]
    );
}

#[test]
fn check_json_reports_returns_fixture() {
    let diagnostics = check_project(&[("flagged.lua", RETURNS_FLAGGED)]);
    assert_eq!(diagnostics.len(), 5);
    assert!(diagnostics.iter().all(|d| d.kind.snake_name() == "multi_return_info"));
}

#[test]
fn explain_prints_inherited_lookup_trace() {
    let (_dir, root, loaded) = project(&class_fixture());
    let explanations = explain(&AnalysisOptions::new(&root), &loaded, "main.lua", 6);
    let text = explain_output(&explanations, 6);
    assert!(text.contains("player.describe"), "output: {text}");
    assert!(text.contains("constructor parent: Entity.new()"), "output: {text}");
    assert!(text.contains("resolved in entity.lua"), "output: {text}");
    let none = explain(&AnalysisOptions::new(&root), &loaded, "main.lua", 1);
    assert_eq!(explain_output(&none, 1), "No known member accesses on line 1.\n");
}

#[test]
fn graph_text_draws_the_tree_then_the_diagnostics() {
    let (_dir, root, loaded) = project(&[
        ("main.lua", "local a = require(\"a\")\nlocal g = require(\"ghost\")\n"),
        ("a.lua", "return {}\n"),
    ]);
    let result = analyze(&AnalysisOptions::new(&root), &loaded);
    assert_eq!(
        graph_output(&result.graph, &result.diagnostics),
        "└── main.lua\n    └── a.lua\n\nDiagnostics:\n  [UnresolvedRequire] main.lua:2:11: unresolved require 'ghost'\n"
    );
}

#[test]
fn loading_keeps_the_read_error_or_the_first_parse_error() {
    let unreadable = load_source("a.lua".to_string(), Err("permission denied".to_string()));
    assert_eq!(unreadable.path, "a.lua");
    assert!(matches!(unreadable.syntax, Err(LoadFailure::Unreadable(ref e)) if e == "permission denied"));
    let broken = load_source("b.lua".to_string(), Ok("local = 1".to_string()));
    match broken.syntax {
        Err(LoadFailure::Unparsable(Some(message))) => assert!(!message.is_empty()),
        _ => panic!("a parse error was expected"),
    }
    let fine = load_source("c.lua".to_string(), Ok("return {}".to_string()));
    assert!(fine.syntax.is_ok());
    assert!(extract_requires("local = require(").is_err());
}

#[test]
fn module_requiring_only_itself_is_unused() {
    let (_dir, root, loaded) = project(&[
        ("main.lua", "print(1)\n"),
        ("lonely.lua", "local me = require(\"lonely\")\nreturn {}\n"),
    ]);
    let result = analyze(&AnalysisOptions::new(&root), &loaded);
    let unused: Vec<&Diagnostic> =
        result.diagnostics.iter().filter(|d| d.kind == DiagnosticKind::UnusedModule).collect();
    assert_eq!(unused.len(), 1, "diagnostics: {:?}", result.diagnostics);
    assert_eq!(unused[0].file, Some("lonely.lua".to_string()));
    assert_eq!(unused[0].message, "module is never required");
    assert_eq!(result.graph.entry_points(), vec!["main.lua".to_string()]);
}

// ---- promises kept across the analysis ----

#[test]
fn failed_file_gets_exactly_one_diagnostic() {
    let (_dir, root, mut loaded) = project(&[
        ("good.lua", "local t = {}\nprint(t[0])\nreturn t\n"),
        ("broken.lua", "local = = 1\n"),
    ]);
    loaded.push(load_source("gone.lua".to_string(), Err("permission denied".to_string())));
    let report = check(&AnalysisOptions::new(&root), &loaded);
    for failed in ["broken.lua", "gone.lua"] {
        let naming: Vec<&Diagnostic> =
            report.iter().filter(|d| d.file.as_deref() == Some(failed)).collect();
        assert_eq!(naming.len(), 1, "report: {report:?}");
        assert_eq!(naming[0].line, None);
        assert_eq!(naming[0].column, None);
    }
    let gone: Vec<&Diagnostic> =
        report.iter().filter(|d| d.file.as_deref() == Some("gone.lua")).collect();
    assert_eq!(gone[0].kind, DiagnosticKind::IoError);
    assert_eq!(gone[0].message, "cannot read file: permission denied");
    let broken: Vec<&Diagnostic> =
        report.iter().filter(|d| d.file.as_deref() == Some("broken.lua")).collect();
    assert_eq!(broken[0].kind, DiagnosticKind::ParseError);
}

#[test]
fn zero_index_without_sequence_intent_is_not_reported() {
    let report = check_project(&[("plain.lua", "local t = {}\nprint(t[0])\nreturn t\n")]);
    assert!(
        report.iter().all(|d| d.kind != DiagnosticKind::ZeroIndexAccess),
        "report: {report:?}"
    );
}

#[test]
fn builder_names_a_reassigned_member_once() {
    let shape = export("local M = {}\nM.x = 1\nM.x = 2\nfunction M.x() end\nreturn M\n").unwrap();
    assert_eq!(shape.members.len(), 1);
    assert_eq!(shape.members[0].0, "x");
}

#[test]
fn builder_index_assignment_adds_no_member() {
    let shape = export("local M = {}\nM.__index = M\nfunction M.new() return setmetatable({}, M) end\nreturn M\n").unwrap();
    assert!(shape.members.iter().all(|(n, _)| n != "__index"));
    assert!(shape.class.expect("class facts").index_self);
}

#[test]
fn builder_rejections() {
    assert!(export("local M = {}\nM = {}\nreturn M\n").is_none());
    assert!(export("local M = 1\nreturn M\n").is_none());
    assert!(export("local M = {}\nlocal M = {}\nreturn M\n").is_none());
    assert!(export("local M = {}\nM.a.b = 1\nreturn M\n").is_none());
    assert!(export("local M = {}\nM[1] = 1\nreturn M\n").is_none());
    assert!(export("M = {}\nreturn M\n").is_none());
}

#[test]
fn explain_by_relative_or_joined_path_agrees() {
    let (_dir, root, loaded) = project(&class_fixture());
    let options = AnalysisOptions::new(&root);
    let relative = explain(&options, &loaded, "main.lua", 6);
    let joined = explain(&options, &loaded, &format!("{root}/main.lua"), 6);
    assert_eq!(relative.len(), 1);
    assert_eq!(relative, joined);
}
