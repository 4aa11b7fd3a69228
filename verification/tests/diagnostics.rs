use aster_analysis::diagnostic::{Diagnostic, DiagnosticKind};
use aster_analysis::order::sort_diagnostics;
use aster_analysis::lookup::{LookupExplanation, LookupResult};
use aster_analysis::render::{diagnostic_line, explanation_lines};

#[test]
fn builders_attach_location() {
    let diagnostic =
        Diagnostic::new(DiagnosticKind::UnusedModule, "never required").in_file("orphan.lua".to_string());
    assert_eq!(diagnostic.file, Some("orphan.lua".to_string()));
    assert_eq!(diagnostic.line, None);

    let diagnostic = Diagnostic::new(DiagnosticKind::UnresolvedRequire, "unresolved require 'ghost'")
        .at("main.lua".to_string(), 1, 15);
    assert_eq!(diagnostic.file, Some("main.lua".to_string()));
    assert_eq!(diagnostic.line, Some(1));
    assert_eq!(diagnostic.column, Some(15));
}

#[test]
fn kind_names_follow_the_variants() {
    assert_eq!(DiagnosticKind::ZeroIndexAccess.snake_name(), "zero_index_access");
    assert_eq!(DiagnosticKind::MultiReturnInfo.snake_name(), "multi_return_info");
    assert_eq!(DiagnosticKind::TableAllocationInLoop.variant_name(), "TableAllocationInLoop");
    assert!(DiagnosticKind::GlobalInLoop.is_suggestion());
    assert!(!DiagnosticKind::UnknownMember.is_suggestion());
}

#[test]
fn diagnostics_sort_by_file_line_and_column_keeping_ties_in_order() {
    let a = Diagnostic::new(DiagnosticKind::UnusedModule, "first").in_file("b.lua".to_string());
    let b = Diagnostic::new(DiagnosticKind::ParseError, "second").at("a.lua".to_string(), 3, 1);
    let c = Diagnostic::new(DiagnosticKind::CircularDependency, "third");
    let d = Diagnostic::new(DiagnosticKind::ParseError, "fourth").at("a.lua".to_string(), 1, 9);
    let e = Diagnostic::new(DiagnosticKind::SparseArray, "fifth").at("a.lua".to_string(), 1, 9);
    let sorted = sort_diagnostics(&vec![a, b, c, d, e]);
    let messages: Vec<&str> = sorted.iter().map(|d| d.message.as_str()).collect();
    assert_eq!(messages, vec!["third", "fourth", "fifth", "second", "first"]);
}

#[test]
fn diagnostic_lines_show_kind_location_and_message() {
    let d = Diagnostic::new(DiagnosticKind::ZeroIndexAccess, "index 0").at("main.lua".to_string(), 3, 7);
    assert_eq!(diagnostic_line(&d), "  [ZeroIndexAccess] main.lua:3:7: index 0");
    let d = Diagnostic::new(DiagnosticKind::UnusedModule, "never required").in_file("lib.lua".to_string());
    assert_eq!(diagnostic_line(&d), "  [UnusedModule] lib.lua: never required");
    let d = Diagnostic::new(DiagnosticKind::CircularDependency, "a -> a");
    assert_eq!(diagnostic_line(&d), "  [CircularDependency] a -> a");
}

#[test]
fn explanation_lines_trace_the_lookup() {
    let x = LookupExplanation {
        expression: "player.describe".to_string(),
        line: 6,
        column: 8,
        start_column: 1,
        end_column: 15,
        steps: vec!["first".to_string(), "second".to_string()],
        result: LookupResult::Found("resolved in entity.lua".to_string()),
    };
    assert_eq!(
        explanation_lines(&x),
        vec![
            "player.describe (6:8)".to_string(),
            "  ↓ first".to_string(),
            "  ↓ second".to_string(),
            "  = resolved in entity.lua".to_string(),
        ]
    );
    let missing = LookupExplanation { result: LookupResult::NotFound, steps: vec![], ..x };
    assert_eq!(explanation_lines(&missing)[1], "  = member not found");
}
