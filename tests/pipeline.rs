use alang::pipeline::{is_bytecode_name, strip_line_comments_preserve_len};

#[test]
fn comment_becomes_spaces_of_the_same_length() {
    let src = "x = 1 // one\ny = 2";
    let out = strip_line_comments_preserve_len(src);
    assert_eq!(out, "x = 1       \ny = 2");
    assert_eq!(out.len(), src.len());
}

#[test]
fn comment_at_end_without_newline() {
    assert_eq!(strip_line_comments_preserve_len("a//b"), "a   ");
    assert_eq!(strip_line_comments_preserve_len("//"), "  ");
}

#[test]
fn single_slash_is_kept() {
    assert_eq!(strip_line_comments_preserve_len("a / b /"), "a / b /");
    assert_eq!(strip_line_comments_preserve_len(""), "");
}

#[test]
fn slashes_inside_a_comment_do_not_restart_it() {
    assert_eq!(strip_line_comments_preserve_len("// a // b\nc"), "         \nc");
}

#[test]
fn bytecode_names_are_recognised_in_any_case() {
    assert!(is_bytecode_name("prog.a.byte"));
    assert!(is_bytecode_name("PROG.A.Byte"));
    assert!(is_bytecode_name(".a.byte"));
    assert!(!is_bytecode_name("prog.a"));
    assert!(!is_bytecode_name("a.byte"));
    assert!(!is_bytecode_name("prog.a.bytes"));
}
