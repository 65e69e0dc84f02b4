use ded::addr::{Addr, Bound, NumBound};
use ded::functions::{Append, AppendHold, MoreSedCmds, SedCmd, Subst};
use ded::pattern::Pattern;

fn subst(find: &str, replace: &str) -> Subst {
    Subst::new(Pattern::new(find).unwrap(), replace.to_string())
}

#[test]
fn substitute_replaces_every_match() {
    let s = subst("cat", "dog");
    let mut hold = "h".to_string();
    let mut ps = "cat cat".to_string();
    s.execute(1, &mut hold, &mut ps);
    assert_eq!(ps, "dog dog");
    assert_eq!(hold, "h");
    let mut ps = "none".to_string();
    s.execute(2, &mut hold, &mut ps);
    assert_eq!(ps, "none");
}

#[test]
fn substitute_replacement_is_literal() {
    let s = subst("(a)(b)", "$2$1");
    let mut hold = String::new();
    let mut ps = "abab".to_string();
    s.execute(1, &mut hold, &mut ps);
    assert_eq!(ps, "$2$1$2$1");
}

#[test]
fn append_hold_appends_newline_and_hold() {
    let mut hold = "bar".to_string();
    let mut ps = "foo".to_string();
    AppendHold {}.execute(1, &mut hold, &mut ps);
    assert_eq!(ps, "foo\nbar");
    assert_eq!(hold, "bar");
}

#[test]
fn append_text() {
    let a = Append::new("!".to_string());
    let mut hold = String::new();
    let mut ps = "hi".to_string();
    a.execute(1, &mut hold, &mut ps);
    assert_eq!(ps, "hi!");
}

#[test]
fn sequence_sees_earlier_edits() {
    let mut block = MoreSedCmds {
        cmds: vec![
            (Addr::new0(), SedCmd::Subst(subst("a", "b"))),
            (Addr::new0(), SedCmd::Subst(subst("b", "c"))),
        ],
    };
    let mut hold = String::new();
    let mut ps = "a".to_string();
    block.execute(1, &mut hold, &mut ps);
    assert_eq!(ps, "c");
}

#[test]
fn sequence_address_sees_earlier_edits() {
    let mut cmd = SedCmd::More(MoreSedCmds {
        cmds: vec![
            (Addr::new0(), SedCmd::Subst(subst("x", "y"))),
            (
                Addr::new1(Bound::Regex(ded::addr::RegexBound {
                    regex: Pattern::new("y").unwrap(),
                })),
                SedCmd::AppendHold(AppendHold {}),
            ),
            (Addr::new1(Bound::Num(NumBound { num: 9 })), SedCmd::Append(Append::new("?".to_string()))),
        ],
    });
    let mut hold = "H".to_string();
    let mut ps = "x".to_string();
    cmd.execute(1, &mut hold, &mut ps);
    assert_eq!(ps, "y\nH");
}
