// The memory-safety cases a checker of Sovereign programs must handle,
// run through the library's front end and its analyses.
use sovereign::driver::{compile_source, run_analysis};

fn check(source: &str) -> Vec<String> {
    let lines: Vec<String> = source.lines().map(|l| l.to_string()).collect();
    let program = match compile_source(source, lines) {
        Ok(p) => p,
        Err(_) => panic!("the test program does not compile"),
    };
    let report = run_analysis(&program);
    let mut errors = report.safety_errors.clone();
    errors.extend(report.errors.iter().cloned());
    errors
}

fn must_pass(source: &str) {
    let errors = check(source);
    assert!(errors.is_empty(), "Expected no errors but got:\n{}", errors.join("\n"));
}

fn must_fail(source: &str, expected_fragment: &str) {
    let errors = check(source);
    assert!(!errors.is_empty(), "Expected error containing '{}' but passed", expected_fragment);
    let found = errors.iter().any(|e| e.contains(expected_fragment));
    assert!(found, "Expected error containing '{}' but got:\n{}", expected_fragment, errors.join("\n"));
}

#[test]
fn test_copy_types_not_moved() {
    must_pass(
        r#"set x = 42
               set y = x
               print x"#,
    );
}

#[test]
fn test_explicit_copy() {
    must_pass(
        r#"set s = "hello"
               set t = copy s
               print s
               print t"#,
    );
}

#[test]
fn test_uninitialized() {
    must_fail(
        r#"set x: int = 0
               purge x
               print x"#,
        "purged",
    );
}

#[test]
fn test_multiple_immutable_borrows() {
    must_pass(
        r#"set arr = [1, 2, 3]
               set a = arr[0]
               set b = arr[1]
               print a
               print b"#,
    );
}

#[test]
fn test_double_free() {
    must_fail(
        r#"set buf = alloc(64, 1)
               free buf
               free buf"#,
        "Double-free",
    );
}

#[test]
fn test_use_after_free() {
    must_fail(
        r#"set buf = alloc(64, 1)
               free buf
               print buf"#,
        "Use-after-free",
    );
}

#[test]
fn test_valid_return_by_value() {
    must_pass(
        r#"task make_value() -> int {
                   set x = 42
                   return x
               }
               print make_value()"#,
    );
}

#[test]
fn test_data_race_detected() {
    must_pass(
        r#"set x = 42
               spawn {
                   print x
               }"#,
    );
}

#[test]
fn test_use_after_purge() {
    must_fail(
        r#"set key = 12345
               purge key
               print key"#,
        "purged",
    );
}

#[test]
fn dangling_reference_is_reported() {
    must_fail(
        r#"task get_local() -> ptr {
                   set x = 42
                   return &x
               }"#,
        "Dangling pointer",
    );
}
