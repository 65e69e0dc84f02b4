use ded::addr::{Addr, AddrState, Bound, NumBound, RegexBound};
use ded::pattern::Pattern;

fn num(n: u64) -> Bound {
    Bound::Num(NumBound { num: n })
}

fn re(p: &str) -> Bound {
    Bound::Regex(RegexBound { regex: Pattern::new(p).unwrap() })
}

#[test]
fn zero_arity_always_matches() {
    let mut a = Addr::new0();
    for n in [7u64, 1, 1, 0, u64::MAX, 3] {
        assert!(a.matches(n, "anything".to_string()));
        assert!(a.matches(n, String::new()));
    }
    assert_eq!(a.state(), AddrState::Unborn);
}

#[test]
fn one_arity_number_is_stateless() {
    let mut a = Addr::new1(num(5));
    let lines = [1u64, 5, 2, 5, 9, 5, 4];
    for n in lines {
        assert_eq!(a.matches(n, "x".to_string()), n == 5);
    }
    assert_eq!(a.state(), AddrState::Unborn);
}

#[test]
fn one_arity_regex_fires_on_every_match() {
    let mut a = Addr::new1(re("^a"));
    assert!(a.matches(1, "abc".to_string()));
    assert!(!a.matches(2, "bca".to_string()));
    assert!(a.matches(3, "a".to_string()));
}

#[test]
fn two_arity_range_never_reopens() {
    let mut a = Addr::new2(num(2), num(4));
    assert!(!a.matches(1, "l".to_string()));
    assert_eq!(a.state(), AddrState::Unborn);
    assert!(a.matches(2, "l".to_string()));
    assert_eq!(a.state(), AddrState::Open);
    assert!(a.matches(3, "l".to_string()));
    assert_eq!(a.state(), AddrState::Open);
    assert!(a.matches(4, "l".to_string()));
    assert_eq!(a.state(), AddrState::Closed);
    assert!(!a.matches(5, "l".to_string()));
    assert!(!a.matches(6, "l".to_string()));
    assert!(!a.matches(2, "l".to_string()));
    assert_eq!(a.state(), AddrState::Closed);
}

#[test]
fn regex_range_includes_both_ends() {
    let mut a = Addr::new2(re("start"), re("end"));
    let lines = ["a", "start here", "middle", "the end", "start again", "z"];
    let got: Vec<bool> = lines
        .iter()
        .enumerate()
        .map(|(i, l)| a.matches(i as u64 + 1, l.to_string()))
        .collect();
    assert_eq!(got, vec![false, true, true, true, false, false]);
}

#[test]
fn regex_bound_equality_by_source() {
    let a = RegexBound { regex: Pattern::new("a+").unwrap() };
    let b = RegexBound { regex: Pattern::new("a+").unwrap() };
    let c = RegexBound { regex: Pattern::new("b").unwrap() };
    assert!(a == b);
    assert!(a != c);
    assert_eq!(NumBound { num: 3 }, NumBound { num: 3 });
}

#[test]
fn pattern_compile_and_match() {
    assert!(Pattern::new("(").is_none());
    let p = Pattern::new("b.d").unwrap();
    assert_eq!(p.as_str(), "b.d");
    assert!(p.is_match("abcde"));
    assert!(!p.is_match("abde"));
}
