use aster_analysis::outline::{ClassSource, ClassStructure, class_display_name, inspect_classes};

fn source(stem: Option<&str>, file: &str, text: &str) -> ClassSource {
    ClassSource { stem: stem.map(|s| s.to_string()), file: file.to_string(), source: text.to_string() }
}

fn outline(class_name: &str, text: &str) -> Option<ClassStructure> {
    inspect_classes(&vec![source(Some(class_name), "src/file.lua", text)])
        .expect("the stem can be named")
        .into_iter()
        .next()
}

const PLAYER: &str = "local Player = {}\n\
Player.__index = Player\n\
Player.kind = \"player\"\n\
\n\
function Player.new(name)\n\
  local self = setmetatable({}, Player)\n\
  self.name = name\n\
  self.hp = 100\n\
  self.name = name\n\
  return self\n\
end\n\
\n\
function Player:greet()\n\
  return \"hi \" .. self.name\n\
end\n\
\n\
return Player\n";

const ENEMY: &str = "local Entity = require(\"entity\")\n\
local Enemy = {}\n\
setmetatable(Enemy, { __index = Entity })\n\
Enemy.__index = Enemy\n\
\n\
function Enemy.new(x)\n\
  local self = Entity.new(x)\n\
  self.damage = 5\n\
  return setmetatable(self, Enemy)\n\
end\n\
\n\
return Enemy\n";

#[test]
fn class_with_constructor_and_method_is_outlined() {
    let c = outline("Player", PLAYER).expect("a class");
    assert_eq!(c.name, "Player");
    assert_eq!(c.file, "src/file.lua");
    assert!(c.index_self);
    assert_eq!(c.index_other, None);
    assert_eq!(c.metatable_name, None);
    assert_eq!(c.parent_constructor, None);
    assert_eq!(c.direct_fields, vec!["kind".to_string()]);
    assert_eq!(c.instance_members, vec!["name".to_string(), "hp".to_string()]);
    assert_eq!(c.methods.len(), 2);
    assert_eq!(c.methods[0].name, "new");
    assert!(c.methods[0].is_constructor);
    assert_eq!(c.methods[0].arity, 1);
    assert_eq!(c.methods[0].line, Some(5));
    assert_eq!(c.methods[1].name, "greet");
    assert!(!c.methods[1].is_constructor);
    assert_eq!(c.methods[1].arity, 0);
    assert_eq!(c.methods[1].line, Some(13));
}

#[test]
fn derived_class_names_its_parent() {
    let c = outline("Enemy", ENEMY).expect("a class");
    assert_eq!(c.metatable_name, Some("Entity".to_string()));
    assert_eq!(c.parent_constructor, Some("Entity".to_string()));
    assert!(c.index_self);
    assert_eq!(c.instance_members, vec!["damage".to_string()]);
    assert!(c.direct_fields.is_empty());
    assert_eq!(c.methods.len(), 1);
    assert!(c.methods[0].is_constructor);
}

#[test]
fn plain_module_without_class_shape_is_skipped() {
    let text = "local M = {}\nfunction helper()\n  return 1\nend\nreturn M\n";
    assert!(outline("M", text).is_none());
}

#[test]
fn module_functions_count_as_methods() {
    let text = "local M = {}\nM.version = 1\nM.version = 2\nfunction M.run(a, b, ...)\nend\nreturn M\n";
    let c = outline("M", text).expect("methods make a class");
    assert_eq!(c.direct_fields, vec!["version".to_string()]);
    assert_eq!(c.methods.len(), 1);
    assert_eq!(c.methods[0].name, "run");
    assert_eq!(c.methods[0].arity, 3);
    assert!(!c.index_self);
}

#[test]
fn index_pointing_elsewhere_is_recorded() {
    let text = "local Foo = {}\nFoo.__index = Base\nreturn Foo\n";
    let c = outline("Foo", text);
    assert!(c.is_none(), "an __index alone does not make a class");
    let text = "local Foo = {}\nFoo.__index = Base\nfunction Foo:go() end\nreturn Foo\n";
    let c = outline("Foo", text).expect("a class");
    assert_eq!(c.index_other, Some("Base".to_string()));
    assert!(!c.index_self);
}

#[test]
fn method_named_new_after_colon_is_not_a_constructor() {
    let text = "local A = {}\nfunction A:new()\n  self.x = 1\nend\nreturn A\n";
    let c = outline("A", text).expect("a class");
    assert!(!c.methods[0].is_constructor);
    assert!(c.instance_members.is_empty());
}

#[test]
fn setmetatable_alone_makes_a_class() {
    let text = "local B = {}\nsetmetatable(B, {__index = Base});\nreturn B\n";
    let c = outline("B", text).expect("a class");
    assert_eq!(c.metatable_name, Some("Base".to_string()));
    assert!(c.methods.is_empty());
}

#[test]
fn display_names_capitalise_ascii_stems() {
    assert_eq!(class_display_name(&Some("player".to_string())), Some("Player".to_string()));
    assert_eq!(class_display_name(&Some("Player".to_string())), Some("Player".to_string()));
    assert_eq!(class_display_name(&Some("9lives".to_string())), Some("9lives".to_string()));
    assert_eq!(class_display_name(&Some(String::new())), Some(String::new()));
    assert_eq!(class_display_name(&None), Some("Class".to_string()));
    assert_eq!(class_display_name(&Some("Élan".to_string())), Some("Élan".to_string()));
    assert_eq!(class_display_name(&Some("élan".to_string())), None);
}

#[test]
fn workspace_outlines_keep_file_order_and_skip_plain_files() {
    let files = vec![
        source(Some("player"), "player.lua", PLAYER),
        source(Some("util"), "util.lua", "return {}\n"),
        source(Some("enemy"), "enemies/enemy.lua", ENEMY),
    ];
    let classes = inspect_classes(&files).expect("all stems can be named");
    assert_eq!(classes.len(), 2);
    assert_eq!(classes[0].name, "Player");
    assert_eq!(classes[0].file, "player.lua");
    assert_eq!(classes[1].name, "Enemy");
    assert_eq!(classes[1].file, "enemies/enemy.lua");
}

#[test]
fn own_constructor_calls_are_not_parents() {
    let text = "local Node = {}\nfunction Node.new()\n  local child = Node.new()\n  return child\nend\nreturn Node\n";
    let c = outline("Node", text).expect("a class");
    assert_eq!(c.parent_constructor, None);
}

#[test]
fn unnameable_stem_stops_the_scan() {
    let files = vec![source(Some("player"), "player.lua", PLAYER), source(Some("ëlf"), "ëlf.lua", PLAYER)];
    assert!(inspect_classes(&files).is_none());
}

#[test]
fn files_that_do_not_parse_are_left_out() {
    let files = vec![
        source(Some("broken"), "broken.lua", "function (\n"),
        source(Some("élan"), "élan.lua", "local = 1"),
        source(Some("player"), "player.lua", PLAYER),
    ];
    let classes = inspect_classes(&files).expect("only parsed files need a name");
    assert_eq!(classes.len(), 1);
    assert_eq!(classes[0].name, "Player");
}
