use aster_analysis::diagnostic::{Diagnostic, DiagnosticKind};
use aster_analysis::lookup::{LookupExplanation, LookupResult};
use aster_analysis::workspace::{
    RecentProject, TreeEntry, diagnostic_dto, directory_listing, explanation_dto,
    explanations_at_column, forget_recent, git_branch, is_hidden_entry, lua_path_setting,
    missing_runtime_message, name_less, pin_recent, probe_version, record_opened, recent_entry,
    relative_path_valid, run_outcome, runtime_candidates, snippet_report, valid_project_name,
    validate_lua_snippet, workspace_info, plan_new_project, known_runtimes, runtime_info,
    check_editor_size,
};

#[test]
fn project_names_cannot_escape_the_selected_parent() {
    assert!(valid_project_name("hello-lua"));
    assert!(!valid_project_name(""));
    assert!(!valid_project_name("../outside"));
    assert!(!valid_project_name("nested/project"));
    assert!(!valid_project_name("C:\\absolute"));
}

#[test]
fn project_names_are_trimmed_and_single() {
    assert!(valid_project_name("  game  "));
    assert!(valid_project_name("game/"));
    assert!(!valid_project_name("   "));
    assert!(!valid_project_name("."));
    assert!(!valid_project_name("/root"));
    assert!(!valid_project_name("a\\b"));
}

#[test]
fn relative_paths_stay_inside_the_workspace() {
    assert!(relative_path_valid("src/main.lua"));
    assert!(relative_path_valid("src/./main.lua"));
    assert!(!relative_path_valid(""));
    assert!(!relative_path_valid("../main.lua"));
    assert!(!relative_path_valid("src/../../main.lua"));
    assert!(!relative_path_valid("/etc/passwd"));
    assert!(!relative_path_valid("./main.lua"));
    assert!(!relative_path_valid("D:main.lua"));
}

#[test]
fn runtime_candidates_include_generic_commands() {
    assert!(runtime_candidates("lua54").1.contains(&"lua"));
    assert!(runtime_candidates("lua51").1.contains(&"lua"));
    assert_eq!(runtime_candidates("luajit21").0, "LuaJIT 2.1");
}

#[test]
fn unknown_runtimes_fall_back_to_lua_54() {
    let (label, commands) = runtime_candidates("something");
    assert_eq!(label, "Lua 5.4");
    assert_eq!(commands, vec!["lua5.4", "lua54", "lua"]);
    assert_eq!(runtime_candidates("lua53").1, vec!["lua5.3", "lua53", "lua"]);
}

#[test]
fn diagnostic_records_flatten_kind_and_file() {
    let record = diagnostic_dto(
        Diagnostic::new(DiagnosticKind::GlobalInLoop, "cache it").at("src\\main.lua".to_string(), 2, 3),
    );
    assert_eq!(record.kind, "globalinloop");
    assert!(record.suggestion);
    assert_eq!(record.file, "src/main.lua");
    assert_eq!(record.line, Some(2));
    assert_eq!(record.message, "cache it");
    let bare = diagnostic_dto(Diagnostic::new(DiagnosticKind::CircularDependency, "loop"));
    assert_eq!(bare.file, "");
    assert!(!bare.suggestion);
}

fn explanation(start: usize, end: usize, result: LookupResult) -> LookupExplanation {
    LookupExplanation {
        expression: "a.b".to_string(),
        line: 1,
        column: end,
        start_column: start,
        end_column: end,
        steps: vec!["raw table lookup: a.lua.b".to_string()],
        result,
    }
}

#[test]
fn explanation_records_describe_the_result() {
    let found = explanation_dto(explanation(1, 4, LookupResult::Found("x".to_string())));
    assert_eq!(found.result, "Resolved: x");
    assert_eq!(found.steps.len(), 1);
    assert_eq!(explanation_dto(explanation(1, 4, LookupResult::NotFound)).result, "Not found");
    assert_eq!(
        explanation_dto(explanation(1, 4, LookupResult::Unknown("why".to_string()))).result,
        "Unknown: why"
    );
}

#[test]
fn cursor_picks_the_accesses_it_touches() {
    let all = vec![
        explanation(1, 4, LookupResult::NotFound),
        explanation(10, 14, LookupResult::NotFound),
    ];
    let picked = explanations_at_column(all, 5);
    assert_eq!(picked.len(), 1);
    assert_eq!(picked[0].start_column, 1);
    let all = vec![explanation(1, 4, LookupResult::NotFound), explanation(10, 14, LookupResult::NotFound)];
    assert!(explanations_at_column(all, 7).is_empty());
}

#[test]
fn git_heads_name_their_branch() {
    assert_eq!(git_branch("ref: refs/heads/main\n"), Some("main".to_string()));
    assert_eq!(git_branch("ref: refs/heads/feature/x"), Some("feature/x".to_string()));
    assert_eq!(git_branch("4f2a9c0d"), None);
    assert_eq!(git_branch(""), None);
}

#[test]
fn hidden_entries_are_git_build_and_packages() {
    assert!(is_hidden_entry(".git"));
    assert!(is_hidden_entry(".gitignore"));
    assert!(is_hidden_entry("target"));
    assert!(is_hidden_entry("node_modules"));
    assert!(!is_hidden_entry("src"));
    assert!(!is_hidden_entry("targets"));
    assert!(is_hidden_entry(".github"));
    assert!(!is_hidden_entry(".gi"));
}

fn recent(path: &str, pinned: bool, last_opened: u64) -> RecentProject {
    RecentProject {
        name: path.to_string(),
        path: path.to_string(),
        last_opened,
        pinned,
        git_branch: None,
        exists: true,
    }
}

#[test]
fn opening_a_project_moves_it_first_and_keeps_its_pin() {
    let mut recents = vec![recent("a", false, 1), recent("b", true, 2), recent("c", false, 3)];
    record_opened(&mut recents, recent("b", false, 10));
    let paths: Vec<&str> = recents.iter().map(|r| r.path.as_str()).collect();
    assert_eq!(paths, vec!["b", "a", "c"]);
    assert!(recents[0].pinned);
    assert_eq!(recents[0].last_opened, 10);

    record_opened(&mut recents, recent("d", true, 11));
    assert_eq!(recents[0].path, "d");
    assert!(!recents[0].pinned, "a new entry starts unpinned");
    assert_eq!(recents.len(), 4);
}

#[test]
fn pinning_and_forgetting_recent_projects() {
    let mut recents = vec![recent("a", false, 1), recent("b", false, 2), recent("a", false, 3)];
    pin_recent(&mut recents, "a", true);
    assert!(recents[0].pinned);
    assert!(!recents[2].pinned, "only the first entry for a path is pinned");
    pin_recent(&mut recents, "zzz", true);
    assert_eq!(recents.len(), 3);
    forget_recent(&mut recents, "a");
    assert_eq!(recents.len(), 1);
    assert_eq!(recents[0].path, "b");
}

#[test]
fn fresh_recent_entries_describe_the_opened_folder() {
    let r = recent_entry("C:\\games\\rpg", Some("rpg".to_string()), 42, Some("ref: refs/heads/dev\n".to_string()));
    assert_eq!(r.name, "rpg");
    assert_eq!(r.path, "C:/games/rpg");
    assert_eq!(r.last_opened, 42);
    assert!(!r.pinned);
    assert_eq!(r.git_branch, Some("dev".to_string()));
    assert!(r.exists);
    let r = recent_entry("/", None, 0, None);
    assert_eq!(r.name, "project");
    assert_eq!(r.git_branch, None);
    let (name, root) = workspace_info("D:\\work", None);
    assert_eq!(name, "workspace");
    assert_eq!(root, "D:/work");
}

fn entry(name: &str, is_dir: bool) -> TreeEntry {
    TreeEntry { name: name.to_string(), is_dir, size: 7 }
}

#[test]
fn directory_listing_puts_folders_first_and_hides_noise() {
    let entries = vec![
        entry("b.lua", false),
        entry("target", true),
        entry("src", true),
        entry("a.lua", false),
        entry(".git", true),
        entry("assets", true),
        entry("B.lua", false),
    ];
    let listed = directory_listing(&entries);
    let names: Vec<(&str, bool)> = listed.iter().map(|e| (e.name.as_str(), e.is_dir)).collect();
    assert_eq!(
        names,
        vec![("assets", true), ("src", true), ("B.lua", false), ("a.lua", false), ("b.lua", false)]
    );
    assert!(name_less("abc", "abd"));
    assert!(name_less("ab", "abc"));
    assert!(!name_less("abc", "abc"));
    assert!(name_less("Z", "a"));
}

#[test]
fn missing_runtime_messages_list_the_commands() {
    assert_eq!(
        missing_runtime_message("lua53"),
        "Lua 5.3 was not found. Install it and make one of these commands available: lua5.3, lua53, lua"
    );
    assert_eq!(
        missing_runtime_message("luajit21"),
        "LuaJIT 2.1 was not found. Install it and make one of these commands available: luajit"
    );
}

#[test]
fn lua_path_points_at_the_project() {
    assert_eq!(lua_path_setting("/p", "/"), "/p/?.lua;/p/?/init.lua;;");
    assert_eq!(lua_path_setting("C:\\p", "\\"), "C:\\p\\?.lua;C:\\p\\?\\init.lua;;");
}

#[test]
fn run_outcomes_report_stderr_or_the_exit_status() {
    let ok = run_outcome(true, "exit status: 0", "hi\n".to_string(), "  \n".to_string());
    assert!(ok.success);
    assert_eq!(ok.output, "hi\n");
    assert_eq!(ok.error, None);
    let failed = run_outcome(false, "exit status: 1", String::new(), String::new());
    assert_eq!(failed.error, Some("Lua exited with exit status: 1".to_string()));
    let noisy = run_outcome(true, "exit status: 0", String::new(), "warning\n".to_string());
    assert_eq!(noisy.error, Some("warning\n".to_string()));
}

#[test]
fn probes_accept_only_the_wanted_runtime() {
    assert_eq!(
        probe_version("lua54", true, "Lua 5.4.6  Copyright (C) 1994-2023 Lua.org, PUC-Rio\n", ""),
        Some("Lua 5.4.6  Copyright (C) 1994-2023 Lua.org, PUC-Rio".to_string())
    );
    assert_eq!(probe_version("lua51", true, "", "Lua 5.1.5  Copyright\n"), Some("Lua 5.1.5  Copyright".to_string()));
    assert_eq!(probe_version("lua53", true, "Lua 5.4.6\n", ""), None);
    assert_eq!(probe_version("lua54", false, "Lua 5.4.6\n", ""), None);
}

#[test]
fn snippets_are_parsed_not_run() {
    let blank = validate_lua_snippet("   \n ");
    assert!(blank.success);
    assert_eq!(blank.output, "Nothing to validate.");
    let good = validate_lua_snippet("\nlocal x = 1\nprint(x)\n\n");
    assert!(good.success);
    assert_eq!(good.output, "Syntax is valid.\n[Parsed 2 source lines; code was not executed]");
    assert_eq!(good.error, None);
    let bad = validate_lua_snippet("local = 1");
    assert!(!bad.success);
    assert_eq!(bad.output, "");
    assert!(bad.error.as_deref().unwrap_or("").starts_with("Syntax error:\n"));
    let reported = snippet_report("x(", Some(vec!["first".to_string(), "second".to_string()]));
    assert_eq!(reported.error, Some("Syntax error:\nfirst\nsecond".to_string()));
}

#[test]
fn new_projects_get_a_starter_file_and_settings() {
    let plan = plan_new_project("  space game ", "lua53".to_string()).expect("a plain name");
    assert_eq!(plan.folder, "space game");
    assert_eq!(plan.main_source, "print(\"Hello from Aster!\")\n");
    assert_eq!(plan.runtime, "lua53");
    assert_eq!(plan.entry, "main.lua");
    let refused = plan_new_project("../elsewhere", "lua54".to_string());
    assert_eq!(refused.err(), Some("project name must be a single folder name".to_string()));
    assert!(plan_new_project("   ", "lua54".to_string()).is_err());
}

#[test]
fn runtimes_are_listed_with_their_labels() {
    assert_eq!(known_runtimes(), vec!["lua54", "luajit21", "lua53", "lua51"]);
    let found = runtime_info("luajit21", Some(("luajit".to_string(), "LuaJIT 2.1.0".to_string())));
    assert_eq!(found.label, "LuaJIT 2.1");
    assert!(found.available);
    assert_eq!(found.executable, Some("luajit".to_string()));
    assert_eq!(found.version, Some("LuaJIT 2.1.0".to_string()));
    let missing = runtime_info("lua51", None);
    assert_eq!(missing.id, "lua51");
    assert_eq!(missing.label, "Lua 5.1");
    assert!(!missing.available);
    assert_eq!(missing.executable, None);
}

#[test]
fn editor_opens_files_up_to_two_mebibytes() {
    assert!(check_editor_size(0).is_ok());
    assert!(check_editor_size(2 * 1024 * 1024).is_ok());
    assert_eq!(
        check_editor_size(2 * 1024 * 1024 + 1).err(),
        Some("file is larger than Aster's 2 MB editor limit".to_string())
    );
}

#[test]
fn forgetting_a_just_opened_project_restores_the_rest() {
    let base = || vec![recent("a", false, 1), recent("b", true, 2), recent("c", false, 3)];
    let mut opened = base();
    record_opened(&mut opened, recent("b", false, 9));
    forget_recent(&mut opened, "b");
    let mut forgotten = base();
    forget_recent(&mut forgotten, "b");
    let left: Vec<&str> = opened.iter().map(|r| r.path.as_str()).collect();
    let right: Vec<&str> = forgotten.iter().map(|r| r.path.as_str()).collect();
    assert_eq!(left, right);
    assert_eq!(left, vec!["a", "c"]);
}
