use ded::addr::{Addr, Arity};
use ded::compile::{addr, num_bound, regex_bound, substitute, toplevelparser, ParseError};
use ded::editor::Editor;

#[test]
fn parse_num_bound() {
    assert!(num_bound("33 abc").unwrap().1.matches(33, "Whatever"));
    assert!(!num_bound("33 abc").unwrap().1.matches(32, "Whatever"));
}

#[test]
fn parse_regex_bound() {
    assert!(regex_bound("\\_hi_ abc").unwrap().1.matches(9000, "hi there"));
    assert!(!regex_bound("\\_hi_ abc").unwrap().1.matches(9000, "goodbye"));
}

#[test]
fn parse_no_addr() {
    let parse_result = addr("abc").unwrap();
    assert_eq!(parse_result.0, "abc");
    assert!(parse_result.1.start.is_none());
    assert!(parse_result.1.end.is_none());
}

#[test]
fn parse_one_addr() {
    let result = addr("/wot/ abc").unwrap();
    assert_eq!(result.0, "abc");
    let addr_to_test: Addr = result.1;
    let start_bound = addr_to_test.start.unwrap();
    assert!(start_bound.matches(3, "wot is this"));
    assert!(!start_bound.matches(3, "not is this"));
    assert!(addr_to_test.end.is_none());
}

#[test]
fn parse_two_addr() {
    let parse_result = addr("33,/wot/ abc").unwrap();
    assert_eq!(parse_result.0, "abc");
    let addr_to_test: Addr = parse_result.1;
    let start_bound = addr_to_test.start.unwrap();
    let end_bound = addr_to_test.end.unwrap();
    assert!(start_bound.matches(33, "Whatever"));
    assert!(!start_bound.matches(32, "Whatever"));
    assert!(end_bound.matches(3, "wot is this"));
    assert!(!end_bound.matches(3, "not is this"));
}

#[test]
fn one_substitute_cmd() {
    let mut parsed = substitute(":this:that:g").unwrap();
    assert_eq!(parsed.0, "");
    let subst = &mut parsed.1;
    let hold_space = &mut "whatever dude".to_string();
    let pattern_space = &mut "this is great".to_string();
    subst.execute(4, hold_space, pattern_space);
    assert_eq!(pattern_space, "that is great");
    assert_eq!(hold_space, "whatever dude");
}

#[test]
fn compile_g() {
    let mut cmd = toplevelparser("1G").unwrap();
    let mut pattern_space = "this".to_string();
    let mut hold_space = "that".to_string();
    cmd.execute(1, &mut hold_space, &mut pattern_space);
    assert_eq!(pattern_space, "this\nthat");
}

#[test]
fn unknown_action_is_a_parse_error() {
    assert_eq!(toplevelparser("q").unwrap_err(), ParseError::Syntax { pos: 0 });
}

#[test]
fn unknown_action_processes_no_lines() {
    let parsed = toplevelparser("q");
    assert!(parsed.is_err());
    let mut fed = 0;
    if let Ok(cmd) = parsed {
        let mut editor = Editor::new(cmd);
        editor.feed("x".to_string());
        fed += 1;
    }
    assert_eq!(fed, 0);
}

#[test]
fn empty_program_is_a_parse_error() {
    assert_eq!(toplevelparser("").unwrap_err(), ParseError::Syntax { pos: 0 });
}

#[test]
fn bad_regex_in_substitution() {
    assert_eq!(
        toplevelparser("s/(/x/").unwrap_err(),
        ParseError::BadRegex { pattern: "(".to_string() }
    );
}

#[test]
fn bad_regex_in_bound() {
    assert_eq!(
        toplevelparser("/[a/G").unwrap_err(),
        ParseError::BadRegex { pattern: "[a".to_string() }
    );
}

#[test]
fn unterminated_substitution() {
    assert_eq!(toplevelparser("s/x/y").unwrap_err(), ParseError::Syntax { pos: 5 });
}

#[test]
fn unterminated_regex_bound() {
    assert_eq!(regex_bound("/abc").unwrap_err(), ParseError::Syntax { pos: 4 });
}

#[test]
fn unmatched_open_brace() {
    assert_eq!(toplevelparser("{G").unwrap_err(), ParseError::Syntax { pos: 2 });
}

#[test]
fn unmatched_close_brace() {
    assert_eq!(toplevelparser("G}").unwrap_err(), ParseError::Syntax { pos: 1 });
}

#[test]
fn missing_second_bound() {
    assert_eq!(toplevelparser("1,G").unwrap_err(), ParseError::Syntax { pos: 2 });
}

#[test]
fn line_number_too_large() {
    assert_eq!(
        num_bound("99999999999999999999 x").unwrap_err(),
        ParseError::Syntax { pos: 0 }
    );
    let (rest, b) = num_bound("18446744073709551615x").unwrap();
    assert_eq!(rest, "x");
    assert!(b.matches(u64::MAX, ""));
}

#[test]
fn address_arities() {
    assert_eq!(addr("G").unwrap().1.arity(), Arity::Zero);
    assert_eq!(addr(" 7 G").unwrap().1.arity(), Arity::One);
    let (rest, a) = addr("\t/a/,3\n s/x/y/").unwrap();
    assert_eq!(a.arity(), Arity::Two);
    assert_eq!(rest, "s/x/y/");
}

#[test]
fn semicolons_and_blocks() {
    let mut cmd = toplevelparser("s/a/b/g; 2{s/b/c/;G} ").unwrap();
    let mut hold = "H".to_string();
    let mut ps = "aa\n".to_string();
    cmd.execute(1, &mut hold, &mut ps);
    assert_eq!(ps, "bb\n");
    let mut ps = "aa\n".to_string();
    cmd.execute(2, &mut hold, &mut ps);
    assert_eq!(ps, "cc\n\nH");
    assert_eq!(hold, "H");
}

#[test]
fn custom_delimiters() {
    let mut cmd = toplevelparser("\\#b#s|b|/|").unwrap();
    let mut hold = String::new();
    let mut ps = "abc".to_string();
    cmd.execute(1, &mut hold, &mut ps);
    assert_eq!(ps, "a/c");
    let mut ps = "xyz".to_string();
    cmd.execute(2, &mut hold, &mut ps);
    assert_eq!(ps, "xyz");
}

#[test]
fn modifier_is_read_and_ignored() {
    let (rest, mut cmd) = substitute("/o/0/g;G").unwrap();
    assert_eq!(rest, ";G");
    let mut hold = String::new();
    let mut ps = "foo".to_string();
    cmd.execute(1, &mut hold, &mut ps);
    assert_eq!(ps, "f00");
    let (rest, _) = substitute("/o/0/;G").unwrap();
    assert_eq!(rest, ";G");
}

#[test]
fn end_to_end_range() {
    let cmd = toplevelparser("2,4s/x/y/").unwrap();
    let mut editor = Editor::new(cmd);
    let mut out = Vec::new();
    for _ in 0..5 {
        out.push(editor.feed("x".to_string()));
    }
    assert_eq!(out, vec!["x\n", "y\n", "y\n", "y\n", "x\n"]);
    assert_eq!(editor.next_line(), 6);
}

#[test]
fn line_terminator_kept_once() {
    let cmd = toplevelparser("s/a/b/").unwrap();
    let mut editor = Editor::new(cmd);
    assert_eq!(editor.feed("a\n".to_string()), "b\n");
    assert_eq!(editor.feed("a".to_string()), "b\n");
    assert_eq!(editor.feed(String::new()), "\n");
}

#[test]
fn hold_space_starts_empty() {
    let cmd = toplevelparser("G").unwrap();
    let mut editor = Editor::new(cmd);
    assert_eq!(editor.feed("a\n".to_string()), "a\n\n");
}
