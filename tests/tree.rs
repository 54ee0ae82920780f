
use westwood::source::SourceInfo;
use westwood::syntax::SyntaxTree;

fn nodes_of(tree: &SyntaxTree, kind: &str) -> Vec<usize> {
    (0..tree.nodes.len()).filter(|&i| tree.nodes[i].kind == kind).collect()
}

fn text_of<'a>(code: &'a str, tree: &SyntaxTree, i: usize) -> &'a str {
    &code[tree.nodes[i].start..tree.nodes[i].end]
}

#[test]
fn function_definition_name() {
    let tests = [
        ("int main() {}", "main"),
        ("void **(*ptrptrptr)(char a[])", "ptrptrptr"),
        ("char *strcpy(char *dst, const char *src)", "strcpy"),
        ("char *strdup(const char *src)", "strdup"),
        ("void free(void *ptr)", "free"),
    ];
    for (code, expected_name) in tests {
        let source = SourceInfo::new("t.c", code);
        let tree = &source.tree;
        for f in nodes_of(tree, "function_definition") {
            let name = tree.function_definition_name(f).unwrap();
            assert_eq!(expected_name, text_of(code, tree, name));
            assert_eq!(expected_name, source.node_text(name));
        }
    }
    let code = "char *strcpy(char *dst, const char *src) { return dst; }";
    let source = SourceInfo::new("t.c", code);
    let f = nodes_of(&source.tree, "function_definition")[0];
    let name = source.tree.function_definition_name(f).unwrap();
    assert_eq!("strcpy", source.node_text(name));
    // A parenthesized declarator breaks the chain of `declarator' fields.
    let source = SourceInfo::new("t.c", "void **(*ptrptrptr)(char a[]) {}");
    let f = nodes_of(&source.tree, "function_definition")[0];
    assert_eq!(None, source.tree.function_definition_name(f));
}

#[test]
fn test_has_ancestor() {
    let code = "int a;\nint b = 0;\nint func() {\n    int c;\n    if (a == b) {\n        int d;\n        return d;\n    }\n}\n";
    let source = SourceInfo::new("t.c", code);
    let tree = &source.tree;
    let mut infunc = Vec::new();
    let mut outfunc = Vec::new();
    let mut inif = Vec::new();
    for i in nodes_of(tree, "identifier") {
        let name = text_of(code, tree, i).to_string();
        if tree.has_ancestor(i, "function_definition") {
            infunc.push(name.clone());
        } else {
            outfunc.push(name.clone());
        }
        if tree.has_ancestor(i, "if_statement") {
            inif.push(name);
        }
    }
    assert_eq!(vec!["a", "b"], outfunc);
    assert_eq!(vec!["func", "c", "a", "b", "d", "d"], infunc);
    assert_eq!(vec!["a", "b", "d", "d"], inif);
}

#[test]
fn test_has_parent() {
    let code = "int a = 0;\n\nint main() {\n    return 0;\n}\n";
    let source = SourceInfo::new("t.c", code);
    let tree = &source.tree;
    let toplevel: Vec<&str> = (0..tree.nodes.len())
        .filter(|&i| tree.nodes[i].named && tree.has_parent(i, "translation_unit"))
        .map(|i| tree.nodes[i].kind.as_str())
        .collect();
    assert_eq!(vec!["declaration", "function_definition"], toplevel);
    let numbers: Vec<usize> = nodes_of(tree, "number_literal")
        .into_iter()
        .filter(|&i| !tree.has_parent(i, "return_statement"))
        .collect();
    assert_eq!(1, numbers.len());
    assert_eq!(8, tree.nodes[numbers[0]].start);
    let names: Vec<&str> = nodes_of(tree, "identifier")
        .into_iter()
        .filter(|&i| tree.has_parent(i, "function_declarator"))
        .map(|i| text_of(code, tree, i))
        .collect();
    assert_eq!(vec!["main"], names);
}

#[test]
fn is_function_declaration() {
    let function_declarations =
        "int main(void);\nchar *get_string(void);\nvoid nested_declaration(void (*inner)(void));\n";
    let non_function_declarations = "int not_a_function;\nchar *string;\n";

    let source = SourceInfo::new("t.c", function_declarations);
    let declarations = nodes_of(&source.tree, "declaration");
    assert_eq!(3, declarations.len());
    for d in declarations {
        println!("matched {}", text_of(function_declarations, &source.tree, d));
        assert!(westwood::rules::rule12a::is_function_declaration(&source.tree, d));
    }

    let source = SourceInfo::new("t.c", non_function_declarations);
    let declarations = nodes_of(&source.tree, "declaration");
    assert_eq!(2, declarations.len());
    for d in declarations {
        println!("matched {}", text_of(non_function_declarations, &source.tree, d));
        assert!(!westwood::rules::rule12a::is_function_declaration(&source.tree, d));
    }
}

#[test]
fn syntax_errors_are_recorded() {
    assert!(!SourceInfo::new("t.c", "int x;\n").tree.has_error());
    assert!(SourceInfo::new("t.c", "int x = ;\n").tree.has_error());
    assert!(SourceInfo::new("t.c", "int main() {\n").tree.has_error());
}

#[test]
fn document_order_and_links() {
    let code = "int a, b;\n";
    let source = SourceInfo::new("t.c", code);
    let tree = &source.tree;
    assert_eq!("translation_unit", tree.nodes[0].kind);
    assert!(tree.nodes[0].parent.is_none());
    let decl = nodes_of(tree, "declaration")[0];
    let kids: Vec<&str> = tree.children(decl).into_iter().map(|c| text_of(code, tree, c)).collect();
    assert_eq!(vec!["int", "a", ",", "b", ";"], kids);
    let first = tree.child_by_field(decl, "declarator").unwrap();
    assert_eq!("a", text_of(code, tree, first));
}
