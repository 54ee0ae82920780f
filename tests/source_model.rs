use westwood::collapse::collapse_ranges;
use std::cmp::Ordering;
use westwood::diagnostic::{Diagnostic, RuleDescription, SourceRange, Span};
use westwood::registry::get_rules;
use westwood::lines::LinesWithPosition;
use westwood::source::SourceInfo;


#[test]
fn source_range_with_pos_from() {
    let code = "int main() {\n    return 0;\n} /* main() */\n";
    let source = SourceInfo::new("test.c", code);
    let tests = vec![
        (0..3, (0, 0), (0, 3)),   // "int"
        (0..12, (0, 0), (0, 12)), // first line without newline
        (0..13, (0, 0), (1, 0)),  // first line with newline
    ];
    for (byte_range, expected_start, expected_end) in tests.into_iter() {
        let source_range = SourceRange::from_byte_range(byte_range, &source);
        assert_eq!(source_range.start_pos, expected_start);
        assert_eq!(source_range.end_pos, expected_end);
    }
}

#[test]
fn positions_use_display_columns() {
    let code = "\tab\n😵x\n";
    let source = SourceInfo::new("t.c", code);
    // After the tab: 8 columns.
    assert_eq!(SourceRange::from_byte_range(1..2, &source).start_pos, (0, 8));
    // After the wide character (4 bytes): 2 columns.
    assert_eq!(SourceRange::from_byte_range(8..9, &source).start_pos, (1, 2));
    // The end of a text that ends in a newline is the start of the next row.
    assert_eq!(SourceRange::from_byte_range(10..10, &source).start_pos, (2, 0));
}

#[test]
fn indent_width() {
    let tests = [
        ("a", 0),
        (" a", 1),
        ("  a", 2),
        ("\ta", 8),
        (" \t a", 10),
        (" ", 1),
        ("\t", 8),
    ];
    for (line, expected_indent) in tests {
        assert_eq!(expected_indent, westwood::text::indent_width(line));
    }
}

#[test]
fn line_width() {
    let tests = [
        ("", 0),
        ("\t", 8),
        ("\t\t", 16),
        ("\tint x;", 14),
        ("static void read_line(const char *restrict, char *restrict, size_t);", 68),
        (
            "static void read_line(const char *restrict prompt, char *restrict buffer, size_t buffer_size);",
            94,
        ),
        ("int 😵 = 5;", 11),
    ];
    for (line, expected) in tests {
        assert_eq!(expected, westwood::text::line_width(line));
    }
    assert_eq!(3, westwood::text::line_width("a\u{301}bc"));
}

#[test]
fn lines_with_position() {
    let index = LinesWithPosition::from("ab\n\ncd");
    let spans: Vec<(usize, usize)> = index.lines.iter().map(|l| (l.start, l.end)).collect();
    assert_eq!(vec![(0, 2), (3, 3), (4, 6)], spans);
    assert_eq!(vec![0, 1, 2, 3, 4, 5, 6], index.offsets);
    assert!(LinesWithPosition::from("").lines.is_empty());
    assert_eq!(1, LinesWithPosition::from("x\n").lines.len());
    let wide = LinesWithPosition::from("é\n");
    assert_eq!(vec![0, 2, 3], wide.offsets);
}

#[test]
fn range_collapser() {
    let code = "#define A 1\n#define B 2\n\n#define C 1\n#define D 2\n";
    let source = SourceInfo::new("t.c", code);
    let tree = &source.tree;
    let defines: Vec<(usize, usize)> = (0..tree.nodes.len())
        .filter(|&i| tree.nodes[i].kind == "preproc_def")
        .map(|i| (tree.nodes[i].start, tree.nodes[i].end))
        .collect();
    assert_eq!(4, defines.len());
    let groups = collapse_ranges(&defines);
    assert_eq!(2, groups.len());
    assert_eq!(defines[0].0, groups[0].0);
    assert_eq!(defines[1].1, groups[0].1);
    assert_eq!(defines[2].0, groups[1].0);
    assert_eq!(defines[3].1, groups[1].1);
}

#[test]
fn collapse_merges_adjacent_ranges() {
    let ranges = vec![(1, 2), (2, 3), (3, 5), (6, 7), (8, 9), (9, 10)];
    assert_eq!(vec![(1, 5), (6, 7), (8, 10)], collapse_ranges(&ranges));
    assert!(collapse_ranges(&Vec::new()).is_empty());
}

#[test]
fn column_round_trip() {
    let code = "ab\tc\n😵d\n";
    let index = LinesWithPosition::from(code);
    let source = SourceInfo::new("t.c", code);
    for b in [0usize, 1, 2, 3, 4, 5, 9, 10, 11] {
        let pos = SourceRange::from_byte_range(b..b, &source).start_pos;
        assert_eq!(b, index.byte_at_column(pos.0, pos.1), "byte {b}");
    }
    // A row past the last line maps to the end of the text.
    assert_eq!(code.len(), index.byte_at_column(5, 0));
    // Column 9 lies inside the tab: the first place that reaches it is after the tab.
    assert_eq!(3, index.byte_at_column(0, 9));
}

#[test]
fn diagnostic_builders() {
    let source = SourceInfo::new("f.c", "int a;\nint b;\n");
    let rule = RuleDescription {
        group_number: 12,
        letter: 'A',
        code: "XII:A",
        name: "MultipleDefinitions",
        description: "at most one variable may be defined on a single line",
    };
    let d = Diagnostic::new(rule, "message".to_string())
        .with_violation_parts("f.c", SourceRange::from_byte_range(4..5, &source), "first".to_string())
        .with_violation(Span::new("f.c", SourceRange::from_byte_range(11..12, &source), "second".to_string()))
        .with_reference_parts("f.c", SourceRange::from_byte_range(0..3, &source), "type".to_string())
        .with_suggestion("int a, b;".to_string())
        .with_note("note".to_string());
    assert_eq!(2, d.violations.len());
    assert_eq!("first", d.violations[0].label);
    assert_eq!((1, 4), d.violations[1].range.start_pos);
    assert_eq!(1, d.references.len());
    assert_eq!("f.c", d.references[0].filename);
    assert_eq!(Some("int a, b;".to_string()), d.suggestion);
    assert_eq!(vec!["note".to_string()], d.notes);
    let d = d.with_violations(Vec::new()).with_references(Vec::new());
    assert!(d.violations.is_empty() && d.references.is_empty());
    assert_eq!("message", d.message);
}

#[test]
fn rule_descriptions_order() {
    let rules = get_rules();
    for pair in rules.windows(2) {
        assert_eq!(Ordering::Less, pair[0].describe().cmp(&pair[1].describe()));
    }
    let first = rules[0].describe();
    assert_eq!(Ordering::Equal, first.cmp(&first));
    assert_eq!(Ordering::Greater, rules[3].describe().cmp(&rules[1].describe()));
}

#[test]
fn end_of_text_after_newline() {
    let code = "ab\ncd\n";
    let source = SourceInfo::new("t.c", code);
    let r = SourceRange::from_byte_range(0..code.len(), &source);
    assert_eq!((0, 0), r.start_pos);
    assert_eq!((2, 0), r.end_pos);
    assert_eq!(80, westwood::text::line_width(&"x".repeat(80)));
    assert_eq!(0, westwood::text::indent_width("\r"));
}
