use westwood::diagnostic::Diagnostic;
use westwood::rules::rule02a::{get_indentation, Rule02a};
use westwood::rules::rule03a::Rule03a;
use westwood::rules::rule1a::Rule1a;
use westwood::rules::rule1d::Rule1d;
use westwood::rules::rule3b::Rule3b;
use westwood::rules::rule3c::Rule3c;
use westwood::source::SourceInfo;

fn texts<'a>(code: &'a str, diagnostics: &[Diagnostic]) -> Vec<&'a str> {
    diagnostics.iter().map(|d| &code[d.violations[0].range.bytes.clone()]).collect()
}

#[test]
fn guess_lower_snake_case() {
    let tests: Vec<(&str, &str)> = vec![
        ("MYSTR", "mystr"),
        ("myStr", "my_str"),
        ("MY_STR", "my_str"),
        ("thisIsAStruct", "this_is_astruct"),
    ];
    for (input, expected) in tests {
        assert_eq!(expected, westwood::rules::rule1a::guess_lower_snake_case(input));
    }
}

#[test]
fn rule1a() {
    let code = "int Name;\nint *Name;\nint *Name[];\nint Name[];\ntypedef struct MyStructure {\n    char Character;\n} MyType;\ntypedef union MyUnion {\n    char Character;\n    struct {\n        char *(FuncPtr)(int Arg);\n    } AnonStruct;\n} MyType;\n";
    let diagnostics = Rule1a {}.check(&SourceInfo::new("", code));
    let mut names = texts(code, &diagnostics);
    names.sort();
    let mut expected = vec![
        "Name", "Name", "Name", "Name", "MyStructure", "Character", "MyType", "MyUnion", "Character",
        "FuncPtr", "Arg", "AnonStruct", "MyType",
    ];
    expected.sort();
    assert_eq!(expected, names);
}

#[test]
fn naming_scenario() {
    let code = "int Name;\n";
    let diagnostics = Rule1a {}.check(&SourceInfo::new("", code));
    assert_eq!(1, diagnostics.len());
    assert_eq!("I:A", diagnostics[0].rule.code);
    assert_eq!(4..8, diagnostics[0].violations[0].range.bytes);
    assert_eq!("Variable names must be in lower snake case.", diagnostics[0].message);
    assert_eq!(Some("name".to_string()), diagnostics[0].suggestion);
}

#[test]
fn rule1d() {
    let code = "int an_int;\nvoid *a_g_ptr = NULL;\n\nstruct my_struct function_with_params(int *x, char y);\n\nchar *foo() {\n    return NULL;\n}\n\nint g_int = 1;\nchar g_char_array[10];\n";
    let diagnostics = Rule1d {}.check(&SourceInfo::new("", code));
    let prefix: Vec<&str> = diagnostics
        .iter()
        .filter(|d| d.message == "Global variables must be prefixed with `g_'")
        .map(|d| &code[d.violations[0].range.bytes.clone()])
        .collect();
    assert_eq!(vec!["an_int", "a_g_ptr"], prefix);
    let late: Vec<&str> = diagnostics
        .iter()
        .filter(|d| d.message == "All top-level declarations must come before function definitions")
        .map(|d| &code[d.violations[0].range.bytes.clone()])
        .collect();
    assert_eq!(vec!["int g_int = 1;", "char g_char_array[10];"], late);
}

#[test]
fn rule03a_captures() {
    let code = "int main() {\n    switch (x) {\n    }\n    switch(x){\n    }\n    if (x) {\n    }\n    if(x){\n    }\n    for (x;x;x) {\n    }\n    for(x;x;x){\n    }\n    while (x) {\n    }\n    while(x){\n    }\n    do {\n    } while (0);\n    do{\n    }while(0);\n}\n";
    let diagnostics = Rule03a {}.check(&SourceInfo::new("", code));
    let spans = texts(code, &diagnostics);
    assert_eq!(
        vec!["){", "switch(", "){", "if(", "){", "for(", "){", "while(", "do{", "while("],
        spans
    );
}

#[test]
fn binary_op_captures() {
    let code = "int main() {\n    int a = 1+2;\n    int b = 1 +2;\n    int c = 1+ 2;\n    int d = 1 + 2;\n    int e = 1\n        + 2;\n}\n";
    let diagnostics = Rule3b {}.check(&SourceInfo::new("", code));
    let messages: Vec<&str> = diagnostics.iter().map(|d| d.message.as_str()).collect();
    assert_eq!(
        vec![
            "Expected a single space on each side of binary operator",
            "Expected a single space after binary operator",
            "Expected a single space before binary operator",
        ],
        messages
    );
}

#[test]
fn unary_op_captures() {
    let code = "int main() {\n    int x = - 1;\n    int *p = & x;\n    int * q = p;\n    return !x;\n}\n";
    let diagnostics = Rule3b {}.check(&SourceInfo::new("", code));
    assert_eq!(vec![" ", " ", " "], texts(code, &diagnostics));
    assert!(diagnostics.iter().all(|d| d.message == "Expected no space after unary operator"));
}

#[test]
fn field_op_captures() {
    let code = "int main() {\n    a.b = 1;\n    a .b = 1;\n    a-> b = 1;\n    a . b = 1;\n}\n";
    let diagnostics = Rule3b {}.check(&SourceInfo::new("", code));
    let messages: Vec<&str> = diagnostics.iter().map(|d| d.message.as_str()).collect();
    assert_eq!(
        vec![
            "Expected no space before field access operator",
            "Expected no space after field access operator",
            "Expected no space around field access operator",
        ],
        messages
    );
}

#[test]
fn array_subscript_captures() {
    let code = "int a [10];\nint b[10];\nint main() {\n    return b [1] + b[2];\n}\n";
    let diagnostics = Rule3b {}.check(&SourceInfo::new("", code));
    let subscripts: Vec<&Diagnostic> =
        diagnostics.iter().filter(|d| d.message == "Expected no space before array subscript").collect();
    assert_eq!(2, subscripts.len());
}

#[test]
fn rule3c_captures() {
    let code = "int main() {\n    f(a,b, c);\n    for (int i = 0;i < n; i++) {}\n    int x,y;\n}\n";
    let diagnostics = Rule3c {}.check(&SourceInfo::new("", code));
    assert_eq!(vec![",", ";", ","], texts(code, &diagnostics));
}

#[test]
fn test_rule02a_captures() {
    let code = "int main() {\n  if (a &&\n  b) {\n    return 1;\n  }\n}\n";
    let diagnostics = Rule02a {}.check(&SourceInfo::new("", code));
    assert_eq!(1, diagnostics.len());
    assert_eq!("  ", &code[diagnostics[0].violations[0].range.bytes.clone()]);
    assert_eq!(1, diagnostics[0].references.len());
}

fn wrap_in_main(inner: &str) -> String {
    let mut code = String::new();
    code.push_str("int main() {\n");
    for line in inner.lines() {
        code.push_str("  ");
        code.push_str(line);
        code.push('\n');
    }
    code.push_str("}\n");
    code
}

#[test]
fn test_rule02a_diagnostics() {
    let rule = Rule02a {};
    let cases: Vec<(&str, usize, Vec<usize>)> = vec![
        ("int x = 0;", 0, vec![]),
        ("int x =\n  0;", 0, vec![]),
        ("int x =\n0;", 1, vec![2]),
        ("for (int i = 0; i < n; i++) {}", 0, vec![]),
        ("for (int i = 0;\ni < n;\ni++) {}", 1, vec![3]),
        ("for (int i = 0;\n  i < n;\n  i++) {}", 0, vec![]),
        ("if (my_condition() == true) {\n  data->\n    el->other = false;\n}", 0, vec![]),
        ("if (my_condition()\n    == true) {\n  data->\n    el->other = false;\n}", 0, vec![]),
        ("#define MAX(a, b) \\\n((a) < (b) ? (a) : (b))", 1, vec![2]),
        ("#define MAX(a, b) \\\n  ((a) < (b) ? (a) : (b))", 0, vec![]),
    ];
    for (inner, ndiag, nlabels) in cases {
        let code = wrap_in_main(inner);
        let source = SourceInfo::new("", &code);
        let diagnostics = rule.check(&source);
        assert_eq!(ndiag, diagnostics.len(), "{code}");
        let counts: Vec<usize> =
            diagnostics.iter().map(|d| d.violations.len() + d.references.len()).collect();
        assert_eq!(nlabels, counts, "{code}");
    }
}

#[test]
fn indentation_of_a_line() {
    assert_eq!(" \t", get_indentation(" \tint x;"));
    assert_eq!("", get_indentation("x"));
    assert_eq!("  ", get_indentation("  "));
}

#[test]
fn snake_case_guess_looks_at_previous_character() {
    assert_eq!("a_b", westwood::rules::rule1a::guess_lower_snake_case("a_B"));
    assert_eq!("a1b", westwood::rules::rule1a::guess_lower_snake_case("a1B"));
    assert_eq!("my_str", westwood::rules::rule1a::guess_lower_snake_case("my_str"));
    assert_eq!("x_yz", westwood::rules::rule1a::guess_lower_snake_case("xYZ"));
}
