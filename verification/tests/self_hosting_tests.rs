use sovereign::self_hosting::{SelfHostingCompiler, SelfHostingStats, count_lines};

#[test]
fn test_statistics_calculation() {
    let stats = SelfHostingStats {
        stdlib_lines: 100,
        ast_lines: 200,
        lexer_lines: 300,
        parser_lines: 400,
        codegen_lines: 500,
        compiler_lines: 100,
    };
    assert_eq!(stats.total(), 1600);
}

#[test]
fn checked_total_reports_overflow() {
    let stats = SelfHostingStats {
        stdlib_lines: usize::MAX,
        ast_lines: 1,
        lexer_lines: 0,
        parser_lines: 0,
        codegen_lines: 0,
        compiler_lines: 0,
    };
    assert_eq!(stats.checked_total(), None);
    let small = SelfHostingStats {
        stdlib_lines: 1,
        ast_lines: 2,
        lexer_lines: 3,
        parser_lines: 4,
        codegen_lines: 5,
        compiler_lines: 6,
    };
    assert_eq!(small.checked_total(), Some(21));
}

#[test]
fn lines_are_counted_as_str_lines_does() {
    assert_eq!(count_lines(""), 0);
    assert_eq!(count_lines("a"), 1);
    assert_eq!(count_lines("a\n"), 1);
    assert_eq!(count_lines("a\nb"), 2);
    assert_eq!(count_lines("a\n\nb\n"), 3);
}

fn sample() -> SelfHostingCompiler {
    SelfHostingCompiler::new(
        "std\n".to_string(),
        "ast1\nast2\n".to_string(),
        "lex".to_string(),
        "p1\np2\np3".to_string(),
        "".to_string(),
        "main\n".to_string(),
    )
}

#[test]
fn statistics_count_each_component() {
    let s = sample().statistics();
    assert_eq!(
        (s.stdlib_lines, s.ast_lines, s.lexer_lines, s.parser_lines, s.codegen_lines, s.compiler_lines),
        (1, 2, 1, 3, 0, 1)
    );
    assert_eq!(s.total(), 8);
}

#[test]
fn sources_are_concatenated_in_build_order() {
    let text = sample().concatenate_sources();
    assert!(text.starts_with("// === Self-Hosted Sovereign Compiler ===\n\n// Phase 1: Standard Library Extensions\nstd\n"));
    let lex = text.find("// Phase 2: Lexer\nlex").unwrap();
    let parse = text.find("// Phase 3: Parser\np1").unwrap();
    assert!(lex < parse);
    assert!(text.ends_with("// Main Compiler Entry Point\nmain\n"));
}

#[test]
fn docs_list_the_line_counts() {
    let html = sample().docs_html().unwrap();
    assert!(html.contains("8"));
}
