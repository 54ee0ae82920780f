use westwood::diagnostic::{Diagnostic, SourceRange};
use westwood::registry::{get_rules, lint, LintError};
use westwood::report::machine_format;
use westwood::rules::rule01b::Rule01b;
use westwood::rules::rule01c::Rule01c;
use westwood::rules::rule02a::Rule02a;
use westwood::rules::rule02b::{Rule02b, MAX_PAGES_PER_FUNCTION, PAGE_SIZE};
use westwood::rules::rule03e::Rule03e;
use westwood::rules::rule11a::Rule11a;
use westwood::rules::rule11b::Rule11b;
use westwood::rules::rule11e::Rule11e;
use westwood::rules::rule12a::Rule12a;
use westwood::rules::rule3d::{has_blank_lines_around, range_without_trailing_eol, Rule3d};
use westwood::rules::rule3f::Rule3f;
use westwood::source::SourceInfo;

fn long_function() -> String {
    let mut code = String::new();
    code.push_str("int main() {\n");
    for _ in 0..(PAGE_SIZE * MAX_PAGES_PER_FUNCTION) {
        code.push_str("  (void) 0;\n");
    }
    code.push_str("}\n");
    code
}

fn span_text<'a>(code: &'a str, d: &Diagnostic, k: usize) -> &'a str {
    &code[d.violations[k].range.bytes.clone()]
}

#[test]
fn rule02b() {
    let code = long_function();
    let rule02b = Rule02b {};
    let source = SourceInfo::new("", &code);
    let diagnostics = rule02b.check(&source);
    assert_eq!(1, diagnostics.len());
    let d = &diagnostics[0];
    assert_eq!(rule02b.describe(), d.rule);
    assert_eq!(
        format!(
            "Functions must fit on {} pages, i.e. be no longer than {} lines",
            MAX_PAGES_PER_FUNCTION,
            PAGE_SIZE * MAX_PAGES_PER_FUNCTION
        ),
        d.message
    );
    assert_eq!(1, d.violations.len());
    assert_eq!("", d.violations[0].filename);
    assert_eq!(0..(code.len() - 1), d.violations[0].range.bytes);
    assert_eq!((0, 0), d.violations[0].range.start_pos);
    // The function ends after the `}' of its last line.
    assert_eq!((code.lines().count() - 1, 1), d.violations[0].range.end_pos);
    assert_eq!(
        format!("Function `main()' is {} lines long", 2 + MAX_PAGES_PER_FUNCTION * PAGE_SIZE),
        d.violations[0].label
    );
}

#[test]
fn rule2b() {
    let code = long_function();
    let source = SourceInfo::new("", &code);
    let diagnostics = Rule02b {}.check(&source);
    assert_eq!(1, diagnostics.len());
    assert_eq!("II:B", diagnostics[0].rule.code);
    assert_eq!(
        format!(
            "Functions must fit on {} pages, i.e. be no longer than {} lines",
            MAX_PAGES_PER_FUNCTION,
            PAGE_SIZE * MAX_PAGES_PER_FUNCTION
        ),
        diagnostics[0].message
    );
    assert_eq!(0..(code.len() - 1), diagnostics[0].violations[0].range.bytes);
    assert_eq!(
        format!("Function `main()' is {} lines long", 2 + MAX_PAGES_PER_FUNCTION * PAGE_SIZE),
        diagnostics[0].violations[0].label
    );
}

#[test]
fn function_of_exactly_122_lines_passes() {
    let mut code = String::from("int main() {\n");
    for _ in 0..120 {
        code.push_str("  (void) 0;\n");
    }
    code.push_str("}\n");
    let source = SourceInfo::new("", &code);
    assert!(Rule02b {}.check(&source).is_empty());
    let mut longer = String::from("int main() {\n");
    for _ in 0..121 {
        longer.push_str("  (void) 0;\n");
    }
    longer.push_str("}\n");
    let source = SourceInfo::new("", &longer);
    let diagnostics = Rule02b {}.check(&source);
    assert_eq!(1, diagnostics.len());
    assert_eq!("Function `main()' is 123 lines long", diagnostics[0].violations[0].label);
}

#[test]
fn rule03e() {
    let code = "int main() { \n  return 0;\t\n}\n";
    let source = SourceInfo::new("", code);
    let rule = Rule03e {};
    let diagnostics = rule.check(&source);
    assert_eq!(2, diagnostics.len());
}

#[test]
fn rule3e() {
    let code = "int main() { \n  return 0;\t\n}\n";
    let source = SourceInfo::new("", code);
    let diagnostics = Rule03e {}.check(&source);
    assert_eq!(2, diagnostics.len());
    assert_eq!(" ", span_text(code, &diagnostics[0], 0));
    assert_eq!("\t", span_text(code, &diagnostics[1], 0));
    assert_eq!((0, 12), diagnostics[0].violations[0].range.start_pos);
    assert_eq!((0, 13), diagnostics[0].violations[0].range.end_pos);
}

#[test]
fn trailing_whitespace_ignores_empty_lines() {
    let code = "int x;\n\n\nint y;\n";
    let source = SourceInfo::new("", code);
    assert!(Rule03e {}.check(&source).is_empty());
    let source = SourceInfo::new("", "int x;\n   \n");
    assert_eq!(1, Rule03e {}.check(&source).len());
}

#[test]
fn all_tabs() {
    let code = "#include <stdio.h>\nint main() {\n\t\tprintf(\"Hello, world!\\n\");\n\t\treturn 0;\n}\n";
    let rule = Rule11a::new(None);
    let diagnostics = rule.check(&SourceInfo::new("", code));
    assert_eq!(2, diagnostics.len());
    assert!(diagnostics.iter().all(|diag| diag.violations.len() == 1));
    assert_eq!("\t\t", span_text(code, &diagnostics[0], 0));
}

#[test]
fn mix_tabs_spaces() {
    let code = "#include <stdio.h>\nint main() {\n  \tprintf(\"Hello, world!\\n\");\n  \treturn 0;\n}\n";
    let rule = Rule11a::new(None);
    let diagnostics = rule.check(&SourceInfo::new("", code));
    assert_eq!(2, diagnostics.len());
    assert!(diagnostics.iter().all(|diag| diag.violations.len() == 1));
    assert!(diagnostics.iter().all(|diag| diag.notes.len() == 1));
    assert_eq!("Line mixes spaces and tabs", diagnostics[0].notes[0]);
}

#[test]
fn no_tabs() {
    let code = "#include <stdio.h>\nint main() {\n  printf(\"Hello, world!\\n\");\n  return 0;\n}\n";
    let rule = Rule11a::new(None);
    let diagnostics = rule.check(&SourceInfo::new("", code));
    assert!(diagnostics.is_empty());
}

#[test]
fn tab_limit_notes_suppressed_lines() {
    let code = "int main() {\n\tint a;\n\tint b;\n\tint c;\n}\n";
    let diagnostics = Rule11a::new(Some(2)).check(&SourceInfo::new("", code));
    assert_eq!(2, diagnostics.len());
    assert_eq!(
        "1 more lines contain tabs, but those warnings are suppressed to avoid noise.",
        diagnostics[1].notes[0]
    );
}

#[test]
fn has_crlf() {
    let code = "int main() {\r\n  return 0;\r\n}\r\n";
    let rule = Rule11b::new(None);
    let diagnostics = rule.check(&SourceInfo::new("", code));
    assert_eq!(3, diagnostics.len());
    let cr_positions: Vec<usize> =
        code.char_indices().filter(|(_pos, c)| *c == '\r').map(|(pos, _c)| pos).collect();
    for (diag, cr_pos) in std::iter::zip(diagnostics, cr_positions) {
        assert_eq!(1, diag.violations.len());
        assert_eq!(1, diag.violations[0].range.bytes.end - diag.violations[0].range.bytes.start);
        assert_eq!(cr_pos, diag.violations[0].range.bytes.start);
    }
}

#[test]
fn no_crlf() {
    let code = "int main() {\n  return 0;\n}\n";
    let rule = Rule11b::new(None);
    let diagnostics = rule.check(&SourceInfo::new("", code));
    assert!(diagnostics.is_empty());
}

#[test]
fn limit() {
    let code = "int main() {\r\n  return 0;\r\n}\r\n";
    let rule = Rule11b::new(Some(1));
    let diagnostics = rule.check(&SourceInfo::new("", code));
    assert_eq!(1, diagnostics.len());
    assert_eq!(2, diagnostics[0].notes.len());
    // First note is Vim tip; second is remaining warnings.
    assert_eq!("2", diagnostics[0].notes[1].split_whitespace().next().unwrap());
}

#[test]
fn rule11e_captures() {
    let code = "int main() {\n    goto label;\n    label:\n    return 0;\n}\n";
    let diagnostics = Rule11e {}.check(&SourceInfo::new("", code));
    assert_eq!(1, diagnostics.len());
    assert_eq!("goto label;", span_text(code, &diagnostics[0], 0));
    assert_eq!("Do not use `goto'", diagnostics[0].message);
}

#[test]
fn captures() {
    let code = "int var2, *var2, var3[10];\n\nextern char **environ;\n\nvoid func(void);\nchar *get_string(void);\nvoid another(void (*inner)(void));\n\nint main() {\n    int var2, *var2, var3[10];\n    extern char **environ;\n    void func(void);\n    char *get_string(void);\n    void another(void (*inner)(void));\n}\n";
    let diagnostics = Rule12a {}.check(&SourceInfo::new("", code));
    assert_eq!(2, diagnostics.len());
    for d in &diagnostics {
        assert_eq!(1, d.references.len());
        assert_eq!(2, d.violations.len());
        assert_eq!("var2", &code[d.references[0].range.bytes.clone()]);
        assert_eq!("*var2", span_text(code, d, 0));
        assert_eq!("var3[10]", span_text(code, d, 1));
    }
}

#[test]
fn one_declaration_per_line_scenario() {
    let code = "int a, b;\n";
    let diagnostics = Rule12a {}.check(&SourceInfo::new("", code));
    assert_eq!(1, diagnostics.len());
    assert_eq!("XII:A", diagnostics[0].rule.code);
    assert_eq!("a", &code[diagnostics[0].references[0].range.bytes.clone()]);
    assert_eq!("b", span_text(code, &diagnostics[0], 0));
}

#[test]
fn rule3f_captures() {
    let code = "#define MAX(a, b) (((a) < (b)) ? (b) : (a))\n\nint main (int, char **);\n\nint main(int argc, char **argv) {\n    printf(\"i = %d, j = %d\\n\", i, j);\n    printf (\"i = %d, j = %d\\n\", i, j);\n    printf\n    (\"i = %d, j = %d\\n\", i, j);\n}\n";
    let diagnostics = Rule3f {}.check(&SourceInfo::new("", code));
    let gaps: Vec<&str> = diagnostics.iter().map(|d| span_text(code, d, 0)).collect();
    assert_eq!(vec![" ", " ", "\n    "], gaps);
}

#[test]
fn constant_rules() {
    let code = "#define ABC 3\n";
    let diagnostics = Rule01c {}.check(&SourceInfo::new("", code));
    assert_eq!(1, diagnostics.len());
    assert_eq!("I:C", diagnostics[0].rule.code);
    assert_eq!(Some("(3)".to_string()), diagnostics[0].suggestion);
    let code = "#define x (1)\n#define Max 10\n#define OK (2)\n";
    let diagnostics = Rule01c {}.check(&SourceInfo::new("", code));
    let messages: Vec<&str> = diagnostics.iter().map(|d| d.message.as_str()).collect();
    assert_eq!(
        vec![
            "Constant name must contain at least 2 characters",
            "Constant name must use upper snake case",
            "Constant name must use upper snake case",
            "Numeric constant value must be wrapped in parentheses",
        ],
        messages
    );
    assert_eq!(Some("X".to_string()), diagnostics[1].suggestion);
    assert_eq!(Some("MAX".to_string()), diagnostics[2].suggestion);
    assert_eq!(Some("(10)".to_string()), diagnostics[3].suggestion);
}

#[test]
fn meaningful_names_reports_nothing() {
    assert!(Rule01b {}.check(&SourceInfo::new("", "int x;\n")).is_empty());
}

#[test]
fn grouping() {
    let code = "// comment\n#define A\n#define B\n// comment\n";
    let diagnostics = Rule3d {}.check(&SourceInfo::new("", code));
    // Expect 2 diagnostics: one for the non-blank line before the first #define and one for
    // the non-blank line after the second #define.
    assert_eq!(2, diagnostics.len());
}

#[test]
fn no_eol() {
    let code = "// comment\n#define A";
    let diagnostics = Rule3d {}.check(&SourceInfo::new("", code));
    assert_eq!(1, diagnostics.len());
    assert_eq!(code.lines().last().unwrap(), span_text(code, &diagnostics[0], 0));
}

#[test]
fn file_start_end() {
    let code = "#define A\n";
    let diagnostics = Rule3d {}.check(&SourceInfo::new("", code));
    assert!(diagnostics.is_empty());
}

#[test]
fn crlf() {
    let code = "/* comment */\r\n#define A 1\r\n";
    let diagnostics = Rule3d {}.check(&SourceInfo::new("", code));
    assert_eq!(1, diagnostics.len());
    assert_eq!(1, diagnostics[0].violations.len());
    let expected_line = code.lines().nth(1).unwrap();
    assert_eq!(expected_line, span_text(code, &diagnostics[0], 0));
}

#[test]
fn defines_after_functions_and_split_groups() {
    let code = "#define A 1\n\nint x;\n\n#define B 2\n\nint main() {\n  return 0;\n}\n\n#define C 3\n";
    let diagnostics = Rule3d {}.check(&SourceInfo::new("", code));
    let messages: Vec<&str> = diagnostics.iter().map(|d| d.message.as_str()).collect();
    assert_eq!(
        vec![
            "Global preprocessor definitions must be placed at the top of the file, before all functions",
            "All top-level #define statements must be grouped together",
        ],
        messages
    );
    assert_eq!("#define C 3", span_text(code, &diagnostics[0], 0));
    assert_eq!(2, diagnostics[1].violations.len());
    assert_eq!(1, diagnostics[1].references.len());
}

#[test]
fn blank_lines_at_file_edges() {
    let source = SourceInfo::new("", "#define A 1\nint x;\n");
    assert_eq!((true, false), has_blank_lines_around(&source, 0, 12));
    let source = SourceInfo::new("", "int x;\n#define A 1\n");
    assert_eq!((false, true), has_blank_lines_around(&source, 7, 19));
}

#[test]
fn trailing_eol_is_trimmed() {
    let source = SourceInfo::new("", "#define A 1\r\n#define B\n#define C\r");
    assert_eq!(0..11, range_without_trailing_eol(0..13, &source));
    assert_eq!(13..22, range_without_trailing_eol(13..23, &source));
    assert_eq!(23..33, range_without_trailing_eol(23..33, &source));
}

#[test]
fn line_length_boundary() {
    let exact = format!("int x;{}\n", " ".repeat(0) + &"/".repeat(74));
    assert_eq!(80, exact.trim_end().len());
    assert!(Rule02a {}.check(&SourceInfo::new("", &exact)).is_empty());
    let over = format!("int x;{}\n", "/".repeat(75));
    let diagnostics = Rule02a {}.check(&SourceInfo::new("", &over));
    assert_eq!(1, diagnostics.len());
    assert_eq!(80..81, diagnostics[0].violations[0].range.bytes);
    assert_eq!((0, 80), diagnostics[0].violations[0].range.start_pos);
}

#[test]
fn line_length_counts_columns() {
    let line = format!("{}\n", "\t".repeat(11));
    let diagnostics = Rule02a {}.check(&SourceInfo::new("", &line));
    assert_eq!(1, diagnostics.len());
    assert_eq!(10..11, diagnostics[0].violations[0].range.bytes);
}

#[test]
fn naming_scenario_through_driver() {
    let source = SourceInfo::new("t.c", "int main() {\r\n  return 0;\r\n}\r\n");
    let diagnostics = lint(&source, &get_rules()).unwrap();
    let crs: Vec<&Diagnostic> = diagnostics.iter().filter(|d| d.rule.code == "XI:B").collect();
    assert_eq!(3, crs.len());
}

#[test]
fn syntax_gate() {
    let source = SourceInfo::new("t.c", "int main( {\n");
    assert_eq!(Err(LintError::SyntaxError), lint(&source, &get_rules()).map(|d| d.len()));
}

#[test]
fn lint_is_repeatable() {
    let code = "int main() { \n\tint a, b;\n  goto x;\n x: return 0;\n}\n";
    let source = SourceInfo::new("t.c", code);
    let first = lint(&source, &get_rules()).unwrap();
    let second = lint(&source, &get_rules()).unwrap();
    assert_eq!(first.len(), second.len());
    for (a, b) in first.iter().zip(second.iter()) {
        assert_eq!(a.rule, b.rule);
        assert_eq!(a.message, b.message);
        assert_eq!(a.violations, b.violations);
        assert_eq!(a.references, b.references);
    }
    let mut reversed = get_rules();
    reversed.reverse();
    let third = lint(&source, &reversed).unwrap();
    assert_eq!(first.len(), third.len());
    for rule in get_rules() {
        let code = rule.describe().code;
        let a: Vec<&Vec<westwood::diagnostic::Span>> =
            first.iter().filter(|d| d.rule.code == code).map(|d| &d.violations).collect();
        let b: Vec<&Vec<westwood::diagnostic::Span>> =
            third.iter().filter(|d| d.rule.code == code).map(|d| &d.violations).collect();
        assert_eq!(a, b);
    }
}

#[test]
fn machine_format_two_lines() {
    let code = "int main() {\n  goto end;\nend:\n  return 0;\n}\n";
    let source = SourceInfo::new("hw.c", code);
    let d = &Rule11e {}.check(&source)[0];
    assert_eq!(
        Some("WARNING: [XI:E] Do not use `goto'\n         at hw.c from line 2 column 3 to line 2 column 12\n".to_string()),
        machine_format(d)
    );
    let empty = Diagnostic::new(d.rule, "m".to_string());
    assert_eq!(None, machine_format(&empty));
}

#[test]
fn source_range_fields() {
    let source = SourceInfo::new("t.c", "ab\ncd\n");
    let r = SourceRange::from_byte_range(1..4, &source);
    assert_eq!(1..4, r.bytes);
    assert_eq!((0, 1), r.start_pos);
    assert_eq!((1, 1), r.end_pos);
}

#[test]
fn limit_reached_but_not_exceeded_adds_no_note() {
    let code = "int main() {\r\n  return 0;\r\n}\r\n";
    let diagnostics = Rule11b::new(Some(3)).check(&SourceInfo::new("", code));
    assert_eq!(3, diagnostics.len());
    assert!(diagnostics.iter().all(|d| d.notes.len() == 1));
    let code = "int main() {\n\tint a;\n\tint b;\n}\n";
    let diagnostics = Rule11a::new(Some(2)).check(&SourceInfo::new("", code));
    assert_eq!(2, diagnostics.len());
    assert!(diagnostics.iter().all(|d| d.notes.is_empty()));
}
