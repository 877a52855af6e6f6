use sovereign::ast::{BinOp, Block, Expr, Program, Stmt, Type};
use sovereign::blockchain::{check_contract_safety, AbiEntry, AbiParam, EvmCompiler};
use sovereign::cache::{parse_manifest, sha256_of, CompileCache};
use sovereign::closures::analyze_closure;
use sovereign::codegen::{compile_to_object, lower_program, machine_options, CodegenError, OptChoice};
use sovereign::cross_compile::{first_output_line, native_for_lowercase_triple, wasm_linker_candidates, CrossTarget};
use sovereign::driver::{compile_source, import_path_of, run_analysis, CompileError};
use sovereign::generics::{make_concrete_name, monomorphize};
use sovereign::http::{
    curl_get_args, get_methods, parse_curl_output, parse_powershell_output, parse_u32, parse_url,
    powershell_download_script, wget_response, FetchMethod,
};
use sovereign::lto::{bitcode_path, lto_plan_for_triple, LtoConfig};
use sovereign::safety::SafetyAnalyzer;
use sovereign::stdlib_c::generate_platform_c;
use sovereign::semantic::block_always_returns;
use sovereign::testing::build_test_program;
use sovereign::text::trim;
use sovereign::web::{parse_page, GeneratedWeb, HtmlNode, StyleRule, WebGenerator, WebPage, WASM_LOADER};

fn lines_of(src: &str) -> Vec<String> {
    src.lines().map(|l| l.to_string()).collect()
}

fn compile(src: &str) -> Program {
    match compile_source(src, lines_of(src)) {
        Ok(p) => p,
        Err(_) => panic!("does not compile"),
    }
}

fn diagnostics(src: &str) -> (Vec<String>, Vec<String>) {
    let report = run_analysis(&compile(src));
    let mut errors = report.safety_errors.clone();
    errors.extend(report.errors.iter().cloned());
    let mut warnings = report.safety_warnings.clone();
    warnings.extend(report.warnings.iter().cloned());
    (errors, warnings)
}

// ── Front end ───────────────────────────────────────────────────────────

#[test]
fn lex_error_is_reported() {
    assert!(matches!(compile_source("set x = 1 ` 2", lines_of("set x = 1 ` 2")), Err(CompileError::Lex(_))));
}

#[test]
fn parse_error_is_reported() {
    assert!(matches!(compile_source("set = 1", lines_of("set = 1")), Err(CompileError::Parse(_))));
}

#[test]
fn simple_program_parses_to_its_statements() {
    let p = compile("set x = 1\nprint x");
    assert_eq!(p.statements.len(), 2);
    assert!(matches!(&p.statements[0], Stmt::VarDecl { name, .. } if name == "x"));
    assert!(matches!(&p.statements[1], Stmt::Print(Expr::Identifier(n)) if n == "x"));
}

#[test]
fn import_lines_name_their_file() {
    assert_eq!(import_path_of("  import \"lib/util.sov\"  "), Some("lib/util.sov".to_string()));
    assert_eq!(import_path_of("import util.sov"), Some("util.sov".to_string()));
    assert_eq!(import_path_of("set x = 1"), None);
    assert_eq!(import_path_of("importx"), None);
}

// ── Analyses ────────────────────────────────────────────────────────────

#[test]
fn redeclaration_is_an_error() {
    let (errors, _) = diagnostics("set x = 1\nset x = 2\nprint x");
    assert!(errors.iter().any(|e| e.contains("'x' already declared in this scope")), "{:?}", errors);
}

#[test]
fn unused_variable_is_warned() {
    let (_, warnings) = diagnostics("task f() -> void {\n set y = 1\n}");
    assert!(warnings.iter().any(|w| w.contains("unused variable 'y'")), "{:?}", warnings);
}

#[test]
fn freeing_once_is_fine() {
    let (errors, _) = diagnostics("set buf = alloc(64, 1)\nfree buf");
    assert!(errors.is_empty(), "{:?}", errors);
}

#[test]
fn leak_is_warned_at_scope_exit() {
    let (_, warnings) = diagnostics("task f() -> void {\n set buf = alloc(8, 1)\n}");
    assert!(warnings.iter().any(|w| w.contains("Possible memory leak: 'buf'")), "{:?}", warnings);
}

#[test]
fn program_without_generics_is_unchanged_by_monomorphization() {
    let p = compile("set a = 1\nprint a\nprint a");
    let m = monomorphize(&p);
    assert_eq!(m.statements.len(), p.statements.len());
}

#[test]
fn concrete_names_carry_their_type_arguments() {
    assert_eq!(make_concrete_name("Box", &vec![Type::Int]), "Box_int");
    assert_eq!(make_concrete_name("Pair", &vec![Type::Int, Type::Bool]), "Pair_int_bool");
}

#[test]
fn test_program_has_runner_and_tasks() {
    let p = compile("set a = 1\ntest \"one\" {\n print a\n}\ntest \"two\" {\n print a\n}");
    let t = build_test_program(&p);
    assert_eq!(t.statements.len(), 1 + 2 * 2 + 2);
    assert!(matches!(&t.statements[0], Stmt::VarDecl { name, .. } if name == "a"));
}

#[test]
fn closure_captures_what_it_reads_from_the_scope() {
    let body = Expr::BinaryOp {
        left: Box::new(Expr::Identifier("x".to_string())),
        op: sovereign::ast::BinOp::Add,
        right: Box::new(Expr::Identifier("n".to_string())),
    };
    let scope = vec![("n".to_string(), Type::Int), ("m".to_string(), Type::Bool)];
    let info = analyze_closure(&vec!["x".to_string()], &body, &scope, 7);
    assert_eq!(info.fn_name, "__closure_7");
    assert_eq!(info.env_struct_name, "__env_7");
    assert_eq!(info.captures.len(), 1);
    assert_eq!(info.captures[0].0, "n");
}

#[test]
fn contract_without_calls_passes_the_checks() {
    let p = Program {
        statements: vec![Stmt::TaskDecl {
            name: "deposit".to_string(),
            type_params: vec![],
            constraints: vec![],
            params: vec![],
            return_type: Type::Void,
            body: Block { statements: vec![], tail_expr: None },
            is_inline: false,
            is_async: false,
        }],
    };
    assert!(check_contract_safety(&p).is_empty());
}

fn task(name: &str, params: Vec<(String, Type)>, body: Vec<Stmt>) -> Stmt {
    Stmt::TaskDecl {
        name: name.to_string(),
        type_params: vec![],
        constraints: vec![],
        params,
        return_type: Type::Void,
        body: Block { statements: body, tail_expr: None },
        is_inline: false,
        is_async: false,
    }
}

fn call_stmt(f: &str, arg: &str) -> Stmt {
    Stmt::ExprStmt(Expr::Call {
        func: Box::new(Expr::Identifier(f.to_string())),
        args: vec![Expr::Identifier(arg.to_string())],
        named: vec![],
    })
}

#[test]
fn call_before_state_change_is_reentrancy() {
    let p = Program {
        statements: vec![task(
            "withdraw",
            vec![("amount".to_string(), Type::Int)],
            vec![
                call_stmt("send", "amount"),
                Stmt::Assign { name: "balance".to_string(), value: Expr::Integer(0) },
            ],
        )],
    };
    let errs = check_contract_safety(&p);
    assert_eq!(
        errs,
        vec!["Potential reentrancy in 'withdraw': external call before state change.\n  Sovereign blocks this. Move state changes before external calls.".to_string()]
    );
}

#[test]
fn state_change_before_call_is_accepted() {
    let p = Program {
        statements: vec![task(
            "withdraw",
            vec![("amount".to_string(), Type::Int)],
            vec![
                Stmt::Assign { name: "balance".to_string(), value: Expr::Integer(0) },
                call_stmt("send", "amount"),
                Stmt::Assign { name: "amount".to_string(), value: Expr::Integer(1) },
            ],
        )],
    };
    assert!(check_contract_safety(&p).is_empty());
}

#[test]
fn local_variable_after_call_is_no_state_change() {
    let p = Program {
        statements: vec![task(
            "pay",
            vec![],
            vec![
                Stmt::VarDecl { name: "n".to_string(), ty: None, value: Expr::Integer(0), sensitive: false },
                call_stmt("send", "n"),
                Stmt::CompoundAssign { name: "n".to_string(), op: BinOp::Add, value: Expr::Integer(1) },
            ],
        )],
    };
    assert!(check_contract_safety(&p).is_empty());
}

#[test]
fn block_timestamp_in_a_condition_is_reported() {
    let cond = Expr::BinaryOp {
        left: Box::new(Expr::FieldAccess {
            object: Box::new(Expr::Identifier("block".to_string())),
            field: "timestamp".to_string(),
        }),
        op: BinOp::Gt,
        right: Box::new(Expr::Identifier("deadline".to_string())),
    };
    let p = Program {
        statements: vec![task(
            "claim",
            vec![],
            vec![Stmt::Check { condition: cond, then_block: Block { statements: vec![], tail_expr: None }, else_block: None }],
        )],
    };
    assert_eq!(
        check_contract_safety(&p),
        vec!["Timestamp dependence in 'claim': block.timestamp can be manipulated by miners.".to_string()]
    );
}

#[test]
fn contract_header_and_abi() {
    let mut c = EvmCompiler::new();
    c.emit_contract_header();
    assert_eq!(c.bytecode, vec![0x60, 0x00, 0x35, 0x60, 0xe0, 0x1c]);
    c.abi.push(AbiEntry {
        name: "get".to_string(),
        inputs: vec![AbiParam { name: "k".to_string(), ty: "uint256".to_string() }],
        outputs: vec![],
    });
    assert_eq!(
        c.generate_abi(),
        "[{\"name\":\"get\",\"type\":\"function\",\"inputs\":[{\"name\":\"k\",\"type\":\"uint256\"}],\"outputs\":[]}]"
    );
}

// ── Cache ───────────────────────────────────────────────────────────────

#[test]
fn content_hashes_are_sha256() {
    assert_eq!(sha256_of(""), "e3b0c44298fc1c149afbf4c8996fb92427ae41e4649b934ca495991b7852b855");
    assert_eq!(sha256_of("abc"), "ba7816bf8f01cfea414140de5dae2223b00361a396177a9cb410ff61f20015ad");
    assert_eq!(sha256_of("set x = 1"), "70b6c7aca4b87ef5a673133e27134192ac3b9f1b40500fc4ec01a060cdb063a7");
    // Two blocks after padding.
    assert_eq!(sha256_of(&"a".repeat(100)), "2816597888e4a0d3a36b82b83316ab32680eb8f00f8cd3b904d681246d285a0e");
}

#[test]
fn recorded_compilation_is_reused_for_the_same_source() {
    let mut c = CompileCache::new();
    c.record_at("main.sov", "set x = 1", "main.o", 42);
    assert!(c.is_dirty());
    assert_eq!(c.cached_object("main.sov", "set x = 1"), Some("main.o".to_string()));
}

#[test]
fn changed_source_is_not_reused() {
    let mut c = CompileCache::new();
    c.record_at("main.sov", "set x = 1", "main.o", 42);
    assert_eq!(c.cached_object("main.sov", "set x = 2"), None);
    assert_eq!(c.cached_object("other.sov", "set x = 1"), None);
}

#[test]
fn recording_again_replaces_the_entry() {
    let mut c = CompileCache::new();
    c.record_at("a.sov", "1", "a1.o", 1);
    c.record_at("b.sov", "2", "b.o", 2);
    c.record_at("a.sov", "3", "a2.o", 3);
    assert_eq!(c.entry_count(), 2);
    assert_eq!(c.object_paths(), vec!["a2.o".to_string(), "b.o".to_string()]);
    assert_eq!(c.cached_object("a.sov", "1"), None);
    assert_eq!(c.cached_object("a.sov", "3"), Some("a2.o".to_string()));
}

#[test]
fn manifest_lists_entries_in_order() {
    let mut c = CompileCache::new();
    c.record_at("a\"b.sov", "x", "out\\a.o", 7);
    let json = c.manifest_json();
    let expected = format!(
        "{{\n  \"compiler\": \"sovereign-1.0.0\",\n  \"entries\": {{\n    \"a\\\"b.sov\": {{\"hash\":\"{}\",\"obj\":\"out\\\\a.o\",\"ts\":7,\"ver\":\"sovereign-1.0.0\"}}\n  }}\n}}\n",
        sha256_of("x")
    );
    assert_eq!(json, expected);
}

#[test]
fn manifest_entry_on_separate_lines_is_read() {
    let json = "{\n  \"entries\": {\n    \"main.sov\": {\n      \"hash\":\"abc\",\n      \"obj\":\"main.o\",\n      \"ts\":12,\n      \"ver\":\"sovereign-1.0.0\"\n    }\n  }\n}\n";
    let entries = parse_manifest(json);
    assert_eq!(entries.len(), 1);
    assert_eq!(entries[0].0, "main.sov");
    assert_eq!(entries[0].1.source_hash, "abc");
    assert_eq!(entries[0].1.obj_path, "main.o");
    assert_eq!(entries[0].1.timestamp, 12);
}

#[test]
fn manifest_as_saved_reads_back_entry_by_entry() {
    let mut c = CompileCache::new();
    c.record_at("main.sov", "x", "main.o", 1);
    c.record_at("dir\\util \"q\".sov", "y", "util.o", 2);
    let back = parse_manifest(&c.manifest_json());
    assert_eq!(back.len(), 2);
    assert_eq!(back[0].0, "main.sov");
    assert_eq!(back[0].1.obj_path, "main.o");
    assert_eq!(back[0].1.timestamp, 1);
    assert_eq!(back[1].0, "dir\\util \"q\".sov");
    assert_eq!(back[1].1.obj_path, "util.o");
    assert_eq!(back[1].1.timestamp, 2);
}

#[test]
fn one_line_manifest_entry_is_read_under_its_path() {
    let json = "{\n  \"compiler\": \"sovereign-1.0.0\",\n  \"entries\": {\n    \"a.sov\": {\"hash\":\"00ff\",\"obj\":\"a.obj\",\"ts\":7,\"ver\":\"sovereign-1.0.0\"}\n  }\n}\n";
    let back = parse_manifest(json);
    assert_eq!(back.len(), 1);
    assert_eq!(back[0].0, "a.sov");
    assert_eq!(back[0].1.source_hash, "00ff");
    assert_eq!(back[0].1.obj_path, "a.obj");
    assert_eq!(back[0].1.timestamp, 7);
    assert_eq!(back[0].1.compiler_ver, "sovereign-1.0.0");
}

// ── Targets ─────────────────────────────────────────────────────────────

#[test]
fn targets_by_name_and_alias() {
    let t = CrossTarget::from_name("linux").unwrap();
    assert_eq!(t.name, "linux-x64");
    assert_eq!(t.triple, "x86_64-unknown-linux-gnu");
    assert_eq!(t.features, "+sse4.2,+avx2");
    assert_eq!(t.link_args, vec!["-lm", "-lpthread", "-ldl"]);
    let w = CrossTarget::from_name("windows").unwrap();
    assert_eq!(w.linker, "link.exe");
    assert_eq!(w.obj_ext, "obj");
    assert_eq!(CrossTarget::from_name("macos").unwrap().cpu, "apple-m1");
    assert_eq!(CrossTarget::from_name("wasm").unwrap().exe_ext, "wasm");
    assert_eq!(CrossTarget::from_name("linux-arm64").unwrap().linker, "aarch64-linux-gnu-gcc");
    assert_eq!(CrossTarget::from_name("macos-x64").unwrap().triple, "x86_64-apple-macosx10.15.0");
    assert!(CrossTarget::from_name("solaris").is_none());
}

#[test]
fn native_target_follows_the_triple() {
    assert_eq!(native_for_lowercase_triple("x86_64-pc-windows-msvc").name, "windows-x64");
    assert_eq!(native_for_lowercase_triple("aarch64-apple-darwin").name, "macos-arm64");
    assert_eq!(native_for_lowercase_triple("x86_64-apple-darwin").name, "macos-x64");
    assert_eq!(native_for_lowercase_triple("aarch64-unknown-linux-gnu").name, "linux-arm64");
    assert_eq!(native_for_lowercase_triple("x86_64-unknown-linux-gnu").name, "linux-x64");
    assert_eq!(sovereign::cross_compile::native_for_triple("X86_64-PC-WINDOWS-MSVC").name, "windows-x64");
}

#[test]
fn link_command_lines() {
    let extra = vec!["rt.o".to_string()];
    let unix = CrossTarget::from_name("linux").unwrap().link("main.o", "main", &extra);
    assert!(!unix.msvc);
    assert_eq!(unix.program, "cc");
    assert_eq!(unix.args, vec!["main.o", "rt.o", "-o", "main", "-lm", "-lpthread", "-ldl"]);
    let win = CrossTarget::from_name("windows").unwrap().link("main.obj", "main.exe", &extra);
    assert!(win.msvc);
    assert_eq!(
        win.args,
        vec![
            "/nologo", "/subsystem:console", "/opt:ref", "/opt:icf", "libcmt.lib", "libucrt.lib", "kernel32.lib",
            "/out:main.exe", "main.obj", "rt.o"
        ]
    );
}

#[test]
fn wasm_linker_lookup() {
    assert_eq!(wasm_linker_candidates(), vec!["wasm-ld", "wasm-ld-18", "wasm-ld-17", "lld"]);
    assert_eq!(first_output_line("  /usr/bin/wasm-ld \r\n/other\n"), Some("/usr/bin/wasm-ld".to_string()));
    assert_eq!(first_output_line("\n/usr/bin/lld\n"), None);
    assert_eq!(first_output_line(""), None);
}

#[test]
fn lto_defaults_and_paths() {
    let c = LtoConfig::default();
    assert!(c.enabled && c.thin);
    assert_eq!(c.cache_dir, ".sov_lto_cache");
    assert_eq!(bitcode_path("out/main.obj"), "out/main.bc");
    assert_eq!(bitcode_path("a.obj.obj"), "a.bc");
    assert_eq!(bitcode_path("main.o"), "main.o.bc");
}

#[test]
fn lto_command_lines() {
    let objs = vec!["a.o".to_string(), "b.o".to_string()];
    let unix = lto_plan_for_triple("x86_64-unknown-linux-gnu", &objs, "app", true, false);
    assert!(!unix.windows);
    assert_eq!(unix.args, vec!["-flto", "-Oz", "-o", "app", "-Wl,--strip-all", "-Wl,--gc-sections", "-lm", "a.o", "b.o"]);
    let win = lto_plan_for_triple("x86_64-pc-windows-msvc", &objs, "app.exe", false, true);
    assert!(win.windows);
    assert_eq!(win.args[1], "/out:app.exe");
    assert_eq!(win.args.len(), 14);
}

// ── HTTP ────────────────────────────────────────────────────────────────

#[test]
fn urls_split_into_host_and_path() {
    assert_eq!(parse_url("https://pkg.example.com/a/b"), Ok(("pkg.example.com".to_string(), "/a/b".to_string())));
    assert_eq!(parse_url("http://host"), Ok(("host".to_string(), "/".to_string())));
    assert_eq!(parse_url("https://https://x/y"), Ok(("x".to_string(), "/y".to_string())));
}

#[test]
fn numbers_parse_as_str_parse_does() {
    assert_eq!(parse_u32("200"), Some(200));
    assert_eq!(parse_u32("+7"), Some(7));
    assert_eq!(parse_u32("-7"), None);
    assert_eq!(parse_u32("+"), None);
    assert_eq!(parse_u32(""), None);
    assert_eq!(parse_u32("4294967295"), Some(4294967295));
    assert_eq!(parse_u32("4294967296"), None);
    assert_eq!(parse_u32("12a"), None);
}

#[test]
fn curl_output_has_the_status_last() {
    let r = parse_curl_output("hello\nworld\n404");
    assert_eq!(r.status, 404);
    assert_eq!(r.body, "hello\nworld");
    let bad = parse_curl_output("no status");
    assert_eq!(bad.status, 0);
    assert_eq!(bad.body, "");
}

#[test]
fn powershell_output_has_a_marker() {
    let r = parse_powershell_output("200\r\n---BODY---\r\n{\"ok\":true}\r\n", true, "").unwrap();
    assert_eq!(r.status, 200);
    assert_eq!(r.body, "{\"ok\":true}");
    assert_eq!(parse_powershell_output("x", false, "denied").err(), Some("denied".to_string()));
}

#[test]
fn download_order_and_commands() {
    assert!(matches!(get_methods(false).as_slice(), [FetchMethod::Curl, FetchMethod::Wget]));
    assert!(matches!(get_methods(true).as_slice(), [FetchMethod::WinHttp, FetchMethod::Curl, FetchMethod::PowerShell]));
    assert_eq!(curl_get_args("u"), vec!["-s", "-w", "\n%{http_code}", "--max-time", "30", "u"]);
    assert_eq!(powershell_download_script("u", "d"), "Invoke-WebRequest -Uri 'u' -OutFile 'd' -UseBasicParsing");
    assert_eq!(wget_response(true, "b".to_string()).status, 200);
    assert_eq!(wget_response(false, "b".to_string()).status, 0);
}

// ── Web ─────────────────────────────────────────────────────────────────

fn page() -> WebPage {
    WebPage {
        title: "A & B".to_string(),
        styles: vec![StyleRule {
            selector: ".btn".to_string(),
            properties: vec![("padding".to_string(), "8px".to_string()), ("color".to_string(), "red".to_string())],
        }],
        body: vec![HtmlNode::Element {
            tag: "div".to_string(),
            attrs: vec![("class".to_string(), "c<1>".to_string())],
            children: vec![
                HtmlNode::Text("hi \"you\"".to_string()),
                HtmlNode::Interpolated("count".to_string()),
                HtmlNode::Element {
                    tag: "br".to_string(),
                    attrs: vec![],
                    children: vec![],
                    events: vec![("click".to_string(), "go".to_string())],
                },
            ],
            events: vec![],
        }],
        scripts: vec![],
    }
}

#[test]
fn page_is_rendered_to_html_and_css() {
    let mut g = WebGenerator::new();
    let GeneratedWeb { html, css } = g.generate(&page());
    assert_eq!(css, "*{box-sizing:border-box;margin:0;padding:0}\n.btn{padding:8px;color:red}\n");
    let expected_body = "<div class=\"c&lt;1&gt;\">\n    hi &quot;you&quot;\n    <span data-sov-bind=\"count\"></span>\n    <br data-sov-on-click=\"go\" />\n</div>\n";
    let expected = format!(
        "<!DOCTYPE html>\n<html lang=\"en\">\n<head>\n<meta charset=\"UTF-8\">\n<meta name=\"viewport\" content=\"width=device-width, initial-scale=1.0\">\n<title>A &amp; B</title>\n<link rel=\"stylesheet\" href=\"app.css\">\n</head>\n<body>\n{}\n<script>\n{}\n</script>\n</body>\n</html>",
        expected_body, WASM_LOADER
    );
    assert_eq!(html, expected);
}

#[test]
fn empty_page_is_read() {
    let p = parse_page("page \"x\" {}").unwrap();
    assert_eq!(p.title, "x");
    assert!(p.styles.is_empty() && p.body.is_empty() && p.scripts.is_empty());
    assert!(parse_page("div { }").is_none());
    assert!(parse_page("page \"x\" { div { }").is_none());
}

#[test]
fn documented_page_is_read() {
    let src = "page \"My App\" {\n    style {\n        body { background: \"#0d1117\", color: \"white\" }\n        .btn { padding: \"8px 16px\", border_radius: \"6px\" }\n    }\n    div class=\"container\" {\n        h1 { \"Hello from Sovereign\" }\n        p  { \"Built with zero JavaScript\" }\n        button class=\"btn\" onclick=handleClick {\n            \"Click me\"\n        }\n    }\n}\n\ntask handleClick() {\n    dom_set_text(\"output\", \"Button clicked!\")\n}\n";
    let p = parse_page(src).unwrap();
    assert_eq!(p.title, "My App");
    let sels: Vec<&str> = p.styles.iter().map(|r| r.selector.as_str()).collect();
    assert_eq!(sels, vec!["body", ".btn"]);
    assert_eq!(p.styles[0].properties, vec![("background".to_string(), "#0d1117".to_string()), ("color".to_string(), "white".to_string())]);
    assert_eq!(p.styles[1].properties[1], ("border_radius".to_string(), "6px".to_string()));
    assert_eq!(p.scripts, vec!["handleClick".to_string()]);
    assert_eq!(p.body.len(), 1);
    match &p.body[0] {
        HtmlNode::Element { tag, attrs, children, events } => {
            assert_eq!(tag, "div");
            assert_eq!(attrs, &vec![("class".to_string(), "container".to_string())]);
            assert!(events.is_empty());
            assert_eq!(children.len(), 3);
            match &children[2] {
                HtmlNode::Element { tag, attrs, children, events } => {
                    assert_eq!(tag, "button");
                    assert_eq!(attrs, &vec![("class".to_string(), "btn".to_string())]);
                    assert_eq!(events, &vec![("click".to_string(), "handleClick".to_string())]);
                    assert!(matches!(&children[0], HtmlNode::Text(t) if t == "Click me"));
                }
                _ => panic!("button expected"),
            }
            assert!(matches!(&children[0], HtmlNode::Element { tag, .. } if tag == "h1"));
            assert!(matches!(&children[1], HtmlNode::Element { tag, .. } if tag == "p"));
        }
        _ => panic!("div expected"),
    }
}

#[test]
fn platform_runtime_is_c() {
    let c = generate_platform_c();
    assert!(c.contains("void platform_sleep(int ms)"));
    assert!(c.contains("uint64_t sov_get_canary(void)"));
}

#[test]
fn trim_removes_unicode_whitespace() {
    assert_eq!(trim("\u{3000}\t a b \u{a0}\n"), "a b");
    assert_eq!(trim("   "), "");
}

#[test]
fn generic_task_gets_a_concrete_copy_per_use() {
    let src = "task ident[T](x: T) -> T {\n return x\n}\nprint ident(5)\nprint ident(\"s\")\nprint ident(7)";
    let p = compile(src);
    // the generic declaration is gone; the two prints stay, renamed, then
    // one copy per distinct argument type
    assert_eq!(p.statements.len(), 3 + 2);
    match &p.statements[0] {
        Stmt::Print(Expr::Call { func, .. }) => assert!(matches!(&**func, Expr::Identifier(n) if n == "ident_int")),
        _ => panic!("first statement should be the renamed call"),
    }
    match &p.statements[1] {
        Stmt::Print(Expr::Call { func, .. }) => assert!(matches!(&**func, Expr::Identifier(n) if n == "ident_string")),
        _ => panic!("second statement should be the renamed call"),
    }
    let names: Vec<String> = p.statements[3..]
        .iter()
        .map(|s| match s {
            Stmt::TaskDecl { name, type_params, return_type, .. } => {
                assert!(type_params.is_empty());
                assert!(!matches!(return_type, Type::Generic(_)));
                name.clone()
            }
            _ => panic!("expected a concrete task"),
        })
        .collect();
    assert_eq!(names, vec!["ident_int".to_string(), "ident_string".to_string()]);
}

#[test]
fn inference_fills_declared_types() {
    let mut p = compile("set a = \"x\"\nset b = 2.5\nset c = a");
    sovereign::infer::infer(&mut p);
    let tys: Vec<bool> = p
        .statements
        .iter()
        .map(|s| matches!(s, Stmt::VarDecl { ty: Some(_), .. }))
        .collect();
    assert_eq!(tys, vec![true, true, true]);
    assert!(matches!(&p.statements[0], Stmt::VarDecl { ty: Some(Type::String), .. }));
    assert!(matches!(&p.statements[1], Stmt::VarDecl { ty: Some(Type::Float), .. }));
    assert!(matches!(&p.statements[2], Stmt::VarDecl { ty: Some(Type::String), .. }));
}

#[test]
fn interpolated_string_splits_text_and_holes() {
    match sovereign::parser::parse_interpolated_string("Hi {name}!") {
        Expr::InterpolatedString(parts) => {
            assert_eq!(parts.len(), 3);
            assert!(matches!(&parts[0], sovereign::ast::StringPart::Literal(s) if s == "Hi "));
            assert!(matches!(&parts[1], sovereign::ast::StringPart::Interpolated(Expr::Identifier(n)) if n == "name"));
            assert!(matches!(&parts[2], sovereign::ast::StringPart::Literal(s) if s == "!"));
        },
        _ => panic!("not an interpolated string"),
    }
}

#[test]
fn doubled_braces_stand_for_single_braces() {
    match sovereign::parser::parse_interpolated_string("{{x}}") {
        Expr::InterpolatedString(parts) => {
            assert_eq!(parts.len(), 1);
            assert!(matches!(&parts[0], sovereign::ast::StringPart::Literal(s) if s == "{x}"));
        },
        _ => panic!("not an interpolated string"),
    }
}

#[test]
fn hole_names_are_trimmed() {
    match sovereign::parser::parse_interpolated_string("{ a }") {
        Expr::InterpolatedString(parts) => {
            assert_eq!(parts.len(), 1);
            assert!(matches!(&parts[0], sovereign::ast::StringPart::Interpolated(Expr::Identifier(n)) if n == "a"));
        },
        _ => panic!("not an interpolated string"),
    }
}

#[test]
fn blocks_that_return_on_every_path() {
    let ret = Block { statements: vec![Stmt::Return(None)], tail_expr: None };
    assert!(block_always_returns(&ret));
    let empty = Block { statements: vec![], tail_expr: None };
    assert!(!block_always_returns(&empty));
    let both = Block {
        statements: vec![Stmt::Check {
            condition: Expr::Boolean(true),
            then_block: Block { statements: vec![Stmt::Return(None)], tail_expr: None },
            else_block: Some(Block { statements: vec![Stmt::Return(None)], tail_expr: None }),
        }],
        tail_expr: None,
    };
    assert!(block_always_returns(&both));
    let one = Block {
        statements: vec![Stmt::Check {
            condition: Expr::Boolean(true),
            then_block: Block { statements: vec![Stmt::Return(None)], tail_expr: None },
            else_block: None,
        }],
        tail_expr: None,
    };
    assert!(!block_always_returns(&one));
}

#[test]
fn array_elements_take_the_first_known_type() {
    let program = Program {
        statements: vec![
            Stmt::VarDecl {
                name: "a".to_string(),
                ty: None,
                value: Expr::Array(vec![Expr::Identifier("q".to_string()), Expr::StringLiteral("s".to_string())]),
                sensitive: false,
            },
            Stmt::ExprStmt(Expr::BinaryOp {
                left: Box::new(Expr::Index {
                    array: Box::new(Expr::Identifier("a".to_string())),
                    index: Box::new(Expr::Integer(0)),
                }),
                op: sovereign::ast::BinOp::Lt,
                right: Box::new(Expr::Integer(1)),
            }),
        ],
    };
    let mut analyzer = sovereign::semantic::Analyzer::new();
    let errors = analyzer.analyze(&program).unwrap_err();
    assert_eq!(errors, vec!["'q' is not defined".to_string(), "Cannot compare String with Int".to_string()]);
}

#[test]
fn logical_operators_want_booleans() {
    let program = Program {
        statements: vec![Stmt::ExprStmt(Expr::BinaryOp {
            left: Box::new(Expr::Integer(1)),
            op: sovereign::ast::BinOp::And,
            right: Box::new(Expr::Boolean(true)),
        })],
    };
    let mut analyzer = sovereign::semantic::Analyzer::new();
    let errors = analyzer.analyze(&program).unwrap_err();
    assert_eq!(errors, vec!["'And' needs bool, got Int".to_string()]);
}

#[test]
fn closure_captures_each_variable_once() {
    let body = Expr::BinaryOp {
        left: Box::new(Expr::Identifier("n".to_string())),
        op: sovereign::ast::BinOp::Mul,
        right: Box::new(Expr::Identifier("n".to_string())),
    };
    let scope = vec![("n".to_string(), Type::Int)];
    let info = analyze_closure(&vec![], &body, &scope, 1);
    assert_eq!(info.captures.len(), 1);
    assert_eq!(info.captures[0].0, "n");
}

#[test]
fn test_tasks_announce_themselves_and_the_runner_calls_them() {
    let p = Program {
        statements: vec![Stmt::TestDecl {
            name: "adds up".to_string(),
            body: Block { statements: vec![Stmt::Print(Expr::Integer(1))], tail_expr: None },
        }],
    };
    let t = build_test_program(&p);
    assert_eq!(t.statements.len(), 4);
    match &t.statements[0] {
        Stmt::TaskDecl { name, body, params, .. } => {
            assert_eq!(name, "__test_adds_up");
            assert!(params.is_empty());
            assert_eq!(body.statements.len(), 3);
            assert!(matches!(&body.statements[0], Stmt::PrintFmt { format, .. } if format == "  running: adds up\n"));
            assert!(matches!(&body.statements[1], Stmt::Print(Expr::Integer(1))));
            assert!(matches!(&body.statements[2], Stmt::PrintFmt { format, .. } if format == "  PASS: adds up\n"));
        },
        _ => panic!("not a task"),
    }
    assert!(matches!(&t.statements[1], Stmt::PrintFmt { format, .. } if format == "Sovereign Tests — 1 test(s)\n"));
    match &t.statements[2] {
        Stmt::ExprStmt(Expr::Call { func, args, .. }) => {
            assert!(matches!(func.as_ref(), Expr::Identifier(n) if n == "__test_adds_up"));
            assert!(args.is_empty());
        },
        _ => panic!("not a call"),
    }
    assert!(matches!(&t.statements[3], Stmt::PrintFmt { format, .. } if format == "All tests passed.\n"));
}

#[test]
fn reading_a_moved_string_is_reported() {
    let program = Program {
        statements: vec![
            Stmt::VarDecl { name: "s".to_string(), ty: None, value: Expr::StringLiteral("a".to_string()), sensitive: false },
            Stmt::VarDecl { name: "t".to_string(), ty: None, value: Expr::Identifier("s".to_string()), sensitive: false },
            Stmt::Print(Expr::Identifier("s".to_string())),
            Stmt::Print(Expr::Identifier("t".to_string())),
        ],
    };
    let mut analyzer = sovereign::semantic::Analyzer::new();
    let errors = analyzer.analyze(&program).unwrap_err();
    assert_eq!(errors, vec!["'s' was moved".to_string()]);
}

// ── Memory safety ───────────────────────────────────────────────────────

fn fopen_decl(name: &str) -> Stmt {
    Stmt::VarDecl {
        name: name.to_string(),
        ty: None,
        value: Expr::Call {
            func: Box::new(Expr::Identifier("fopen".to_string())),
            args: vec![Expr::StringLiteral("f".to_string()), Expr::StringLiteral("r".to_string())],
            named: vec![],
        },
        sensitive: false,
    }
}

#[test]
fn reading_an_unassigned_variable_is_warned() {
    let mut a = SafetyAnalyzer::new();
    let p = Program { statements: vec![Stmt::Print(Expr::Identifier("y".to_string()))] };
    assert!(a.analyze(&p).is_ok());
    assert!(a.warnings.iter().any(|w| w.contains("'y'") && w.contains("before it is assigned")));
}

#[test]
fn unchecked_deref_of_maybe_null_pointer_is_a_warning() {
    let mut a = SafetyAnalyzer::new();
    let p = Program {
        statements: vec![fopen_decl("p"), Stmt::ExprStmt(Expr::Deref(Box::new(Expr::Identifier("p".to_string()))))],
    };
    assert_eq!(a.analyze(&p), Ok(()));
    assert!(a.warnings.iter().any(|w| w.contains("'p'")));
}

#[test]
fn equal_null_check_does_not_make_the_pointer_safe() {
    let mut a = SafetyAnalyzer::new();
    let p = Program {
        statements: vec![
            Stmt::VarDecl {
                name: "p".to_string(),
                ty: None,
                value: Expr::Call { func: Box::new(Expr::Identifier("fopen".to_string())), args: vec![], named: vec![] },
                sensitive: false,
            },
            Stmt::Check {
                condition: Expr::BinaryOp {
                    left: Box::new(Expr::Identifier("p".to_string())),
                    op: BinOp::Eq,
                    right: Box::new(Expr::Null),
                },
                then_block: Block {
                    statements: vec![Stmt::ExprStmt(Expr::Deref(Box::new(Expr::Identifier("p".to_string()))))],
                    tail_expr: None,
                },
                else_block: None,
            },
        ],
    };
    assert!(matches!(a.analyze(&p), Err(errs) if errs.iter().any(|e| e.to_lowercase().contains("null dereference"))));
}

#[test]
fn not_null_check_makes_the_pointer_safe() {
    let mut a = SafetyAnalyzer::new();
    let p = Program {
        statements: vec![
            fopen_decl("p"),
            Stmt::Check {
                condition: Expr::BinaryOp {
                    left: Box::new(Expr::Identifier("p".to_string())),
                    op: BinOp::Neq,
                    right: Box::new(Expr::Null),
                },
                then_block: Block {
                    statements: vec![Stmt::ExprStmt(Expr::Deref(Box::new(Expr::Identifier("p".to_string()))))],
                    tail_expr: None,
                },
                else_block: None,
            },
        ],
    };
    assert_eq!(a.analyze(&p), Ok(()));
    assert!(!a.warnings.iter().any(|w| w.to_lowercase().contains("null dereference")));
}

#[test]
fn css_rule_given_twice_is_written_once() {
    let r = || StyleRule { selector: "p".to_string(), properties: vec![("color".to_string(), "red".to_string())] };
    let twice = WebPage { title: "t".to_string(), styles: vec![r(), r()], body: vec![], scripts: vec![] };
    let once = WebPage { title: "t".to_string(), styles: vec![r()], body: vec![], scripts: vec![] };
    let a = WebGenerator::new().generate(&twice);
    let b = WebGenerator::new().generate(&once);
    assert_eq!(a.css, b.css);
    assert_eq!(a.css.matches("color").count(), 1);
}

#[test]
fn blank_source_is_an_empty_program() {
    assert!(compile("").statements.is_empty());
    assert!(compile("\n\n\n").statements.is_empty());
}

#[test]
fn simple_statements_parse_to_their_trees() {
    let p = compile("break\ncontinue\nprint 5\n");
    assert_eq!(p.statements.len(), 3);
    assert!(matches!(p.statements[0], Stmt::Break));
    assert!(matches!(p.statements[1], Stmt::Continue));
    assert!(matches!(p.statements[2], Stmt::Print(Expr::Integer(5))));
}

#[test]
fn task_with_a_call_and_no_return_is_reported() {
    let (errors, _) = diagnostics("task helper() -> int {\n    return 1\n}\ntask f() -> int {\n    print helper()\n}\n");
    assert!(errors.iter().any(|e| e == "Task 'f': not all code paths return a value"));
    assert!(!errors.iter().any(|e| e == "Task 'helper': not all code paths return a value"));
}

// ── Native code ─────────────────────────────────────────────────────────

#[test]
fn declaration_and_print_lower_to_llvm() {
    let p = compile("set x = 1 + 2\nprint x\n");
    let text = lower_program(&p, "x86_64-unknown-linux-gnu").unwrap();
    let expected = "target triple = \"x86_64-unknown-linux-gnu\"\n\
declare i32 @printf(i8*, ...)\n\
@.fmt.d = private unnamed_addr constant [4 x i8] c\"%d\\0A\\00\"\n\
@.fmt.s = private unnamed_addr constant [4 x i8] c\"%s\\0A\\00\"\n\
define i32 @main() {\n\
entry:\n\
\x20 %v0 = alloca i32\n\
\x20 %r0 = add nsw i32 1, 2\n\
\x20 store i32 %r0, i32* %v0\n\
\x20 %r1 = load i32, i32* %v0\n\
\x20 call i32 (i8*, ...) @printf(i8* getelementptr inbounds ([4 x i8], [4 x i8]* @.fmt.d, i32 0, i32 0), i32 %r1)\n\
\x20 ret i32 0\n\
}\n";
    assert_eq!(text, expected);
}

#[test]
fn tasks_become_functions_and_strings_constants() {
    let p = compile("task add(a: int, b: int) -> int {\n    return a + b\n}\nprint \"hi\"\nprint add(2, 3)\n");
    let text = lower_program(&p, "t").unwrap();
    assert!(text.contains("@.str.0 = private unnamed_addr constant [3 x i8] c\"hi\\00\"\n"));
    assert!(text.contains("define i32 @add(i32 %p0, i32 %p1) {\nentry:\n  %v0 = alloca i32\n  %v1 = alloca i32\n  store i32 %p0, i32* %v0\n  store i32 %p1, i32* %v1\n  %r0 = load i32, i32* %v0\n  %r1 = load i32, i32* %v1\n  %r2 = add nsw i32 %r0, %r1\n  ret i32 %r2\n}\n"));
    assert!(text.contains("  %r0 = call i32 @add(i32 2, i32 3)\n"));
}

#[test]
fn override_drops_nsw_and_purge_wipes_the_slot() {
    let p = compile("set k = 7\noverride {\n    k = k * 2\n}\npurge k\n");
    let text = lower_program(&p, "t").unwrap();
    assert!(text.contains("  %r1 = mul i32 %r0, 2\n"));
    assert!(text.contains("  store volatile i32 0, i32* %v0\n"));
}

#[test]
fn loops_and_checks_branch_between_labels() {
    let p = compile("set i = 0\nloop i < 3 {\n    i += 1\n}\ncheck i == 3 {\n    print 1\n} else {\n    print 0\n}\n");
    let text = lower_program(&p, "t").unwrap();
    assert!(text.contains("  br label %L0\nL0:\n"));
    assert!(text.contains(", label %L1, label %L2\nL1:\n"));
    assert!(text.contains("  br label %L0\nL2:\n"));
    assert!(text.contains("label %L3, label %L4\nL3:\n"));
}

#[test]
fn uncovered_constructs_are_refused() {
    let p = compile("set s = \"text\"\n");
    assert!(matches!(lower_program(&p, "t"), Err(CodegenError::Unsupported)));
    let p = compile("print y\n");
    assert!(matches!(lower_program(&p, "t"), Err(CodegenError::Unsupported)));
}

#[test]
fn machine_options_follow_the_build_flags() {
    let o = machine_options(true, false, "znver3", "+avx2");
    assert_eq!((o.cpu.as_str(), o.features.as_str(), o.opt), ("znver3", "+avx2", OptChoice::Default));
    let o = machine_options(false, true, "znver3", "+avx2");
    assert_eq!((o.cpu.as_str(), o.features.as_str(), o.opt), ("generic", "", OptChoice::Aggressive));
}

#[test]
fn native_object_code_is_produced() {
    let p = compile("set x = 40 + 2\nprint x\n");
    let target = CrossTarget::native();
    let bytes = compile_to_object(&p, &target, inkwell::OptimizationLevel::Default).unwrap();
    assert!(bytes.len() > 4);
}

#[test]
fn counted_loops_step_a_slot() {
    let p = compile("loop i from 1 to 3 {\n    print i\n}\n");
    let text = lower_program(&p, "t").unwrap();
    assert!(text.contains("  store i32 1, i32* %v0\n  br label %L0\nL0:\n  %r0 = load i32, i32* %v0\n  %c0 = icmp sle i32 %r0, 3\n  br i1 %c0, label %L1, label %L2\nL1:\n"));
    assert!(text.contains("  br label %L3\nL3:\n  %r2 = load i32, i32* %v0\n  %n2 = add i32 %r2, 1\n  store i32 %n2, i32* %v0\n  br label %L0\nL2:\n"));
    let p = compile("loop 2 times {\n    print 7\n}\n");
    let text = lower_program(&p, "t").unwrap();
    assert!(text.contains("  %c0 = icmp ult i32 %r0, 2\n"));
}

#[test]
fn substitution_of_an_absent_parameter_is_the_identity_and_repeats_change_nothing() {
    let t = Type::Array(Box::new(Type::Generic("T".to_string())));
    let same = t.substitute("U", &Type::Int);
    assert!(matches!(&same, Type::Array(b) if matches!(&**b, Type::Generic(n) if n == "T")));
    let once = t.substitute("T", &Type::Int);
    let twice = once.substitute("T", &Type::Int);
    assert!(matches!(&once, Type::Array(b) if matches!(**b, Type::Int)));
    assert!(matches!(&twice, Type::Array(b) if matches!(**b, Type::Int)));
}

#[test]
fn external_functions_are_declared_and_called() {
    let p = compile("extern task labs(int) -> int\nprint labs(3)\n");
    let text = lower_program(&p, "t").unwrap();
    assert!(text.contains("@.fmt.s = private unnamed_addr constant [4 x i8] c\"%s\\0A\\00\"\ndeclare i32 @labs(i32)\n"));
    assert!(text.contains("  %r0 = call i32 @labs(i32 3)\n"));
}
