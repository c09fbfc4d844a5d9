use contracts::syntax_tree::{build_syntax_tree, Line, SyntaxTree};

#[test]
fn test_syntax_tree() {
    let tree = SyntaxTree {
        lines: vec![Line {
            command: "InitBfr".to_string(),
            args: vec!["00000001".to_string(), "00000000".to_string()],
        }],
    };
    assert_eq!(tree.lines[0].command, "InitBfr".to_owned());
    assert_eq!(tree.lines[0].args[0], "00000001".to_owned());
    assert_eq!(tree.lines[0].args[1], "00000000".to_owned());
}

#[test]
fn test_syntax_tree_parse() {
    let mut tree = build_syntax_tree();
    let source = "InitBfr 0x00000001 0x00000000 ; Initialize a buffer".to_owned();
    tree.create(source);
    assert_eq!(tree.lines.len(), 1);
    assert_eq!(tree.lines[0].args[0], "00000001".to_owned());
    assert_eq!(tree.lines[0].args[1], "00000000".to_owned());
}

#[test]
fn decoding_discards_a_trailing_comment() {
    let mut tree = build_syntax_tree();
    tree.create("InitBfr 0x00000001 0x00000000 ; comment".to_string());
    assert_eq!(tree.lines.len(), 1);
    assert_eq!(tree.lines[0].command, "InitBfr");
    assert_eq!(tree.lines[0].args, vec!["00000001".to_string(), "00000000".to_string()]);
}

#[test]
fn comment_lines_count_and_blank_lines_do_not() {
    let mut tree = build_syntax_tree();
    tree.create("; header\n\n   \nExit 0x5\n;;\nJmp 1".to_string());
    assert_eq!(tree.lines.len(), 4);
    assert_eq!(tree.lines[0].command, "NEXT");
    assert!(tree.lines[0].args.is_empty());
    assert_eq!(tree.lines[1].command, "Exit");
    assert_eq!(tree.lines[1].args, vec!["5".to_string()]);
    assert_eq!(tree.lines[2].command, "NEXT");
    assert_eq!(tree.lines[3].command, "Jmp");
}

#[test]
fn repeated_spaces_make_no_tokens() {
    let mut tree = build_syntax_tree();
    tree.create("  Add   a  b c   err  ".to_string());
    assert_eq!(tree.lines.len(), 1);
    assert_eq!(tree.lines[0].command, "Add");
    assert_eq!(tree.lines[0].args.len(), 4);
    assert_eq!(tree.lines[0].args[3], "err");
}

#[test]
fn create_appends_to_existing_lines() {
    let mut tree = build_syntax_tree();
    tree.create("Exit 1".to_string());
    tree.create("Exit 2\nExit 3".to_string());
    assert_eq!(tree.lines.len(), 3);
    assert_eq!(tree.lines[2].args[0], "3");
}
