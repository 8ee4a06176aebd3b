use fst_clip::checker::{
    DenseChecker, DenseVisitor, OnceChecker, OnceVisitor, SparseChecker, SparseVisitor,
    VarChecker, VarInfo,
};
use fst_clip::filter::SignalFilter;
use fst_clip::find::{find_value_callback, Error, MatchInfo, RegexHexMatcher, RegexMatcher, ValuePattern};
use fst_clip::matcher::{ExactMatcher, ValueMatcher};
use fst_clip::search::find_value;
use fst_clip::types::{Handle, Hier, Scope, ValueChange, Var};
use fst_clip::vars::var_names;
use std::collections::HashMap;

fn h(n: u32) -> Handle {
    Handle::new(n).unwrap()
}

fn scope(name: &str) -> Hier {
    Hier::Scope(Scope { ty: 0, name: name.to_string(), component: String::new() })
}

fn var(name: &str, handle: u32, alias: bool) -> Hier {
    Hier::Var(Var { ty: 5, direction: 0, length: 1, name: name.to_string(), handle: h(handle), alias })
}

fn change(time: u64, handle: u32, value: &str) -> ValueChange {
    ValueChange { time, handle: h(handle), value: value.as_bytes().to_vec(), var_len: false }
}

fn hierarchy() -> Vec<Hier> {
    vec![
        scope("top"),
        var("a", 1, false),
        scope("sub"),
        var("b", 2, false),
        var("b_alias", 2, true),
        Hier::Upscope,
        Hier::Upscope,
        var("c", 3, false),
    ]
}

#[test]
fn qualified_names_follow_scopes() {
    let names = var_names(&hierarchy());
    let got: Vec<(&str, usize)> = names.iter().map(|(n, i)| (n.as_str(), *i)).collect();
    assert_eq!(
        got,
        vec![("top.a", 1), ("top.sub.b", 3), ("top.sub.b_alias", 4), ("c", 7)]
    );
}

#[test]
fn var_info_collects_names() {
    match VarInfo::new(&hierarchy(), None) {
        VarInfo::Dense(v) => assert_eq!(v, vec!["top.a", "top.sub.b", "c"]),
        VarInfo::Sparse(_) => panic!("expected all signals"),
    }
    let re = SignalFilter::new("sub").unwrap();
    match VarInfo::new(&hierarchy(), Some(re)) {
        VarInfo::Sparse(m) => {
            assert_eq!(m.len(), 1);
            assert_eq!(m.get(&2).map(|s| s.as_str()), Some("top.sub.b"));
        }
        VarInfo::Dense(_) => panic!("expected selected signals"),
    }
}

#[test]
fn checkers_report_names() {
    let mut dense = DenseChecker::new(vec!["x".to_string(), "y".to_string()]);
    assert_eq!(dense.num_vars(), 2);
    assert_eq!(dense.check(h(2)).as_deref(), Some("y"));
    assert_eq!(dense.check(h(2)).as_deref(), Some("y"));
    assert_eq!(dense.check(h(3)), None);
    let mut map = HashMap::new();
    map.insert(5u32, "five".to_string());
    let mut sparse = SparseChecker::new(map.clone());
    assert_eq!(sparse.check(h(5)).as_deref(), Some("five"));
    assert_eq!(sparse.check(h(4)), None);
    let mut once: OnceChecker<SparseVisitor, SparseChecker> = OnceChecker::new(map);
    assert_eq!(once.check(h(5)).as_deref(), Some("five"));
    assert_eq!(once.check(h(5)), None);
}

#[test]
fn dense_visitor_marks_bits() {
    let mut v = DenseVisitor::new(10);
    assert!(v.has_room(h(16)));
    assert!(!v.has_room(h(17)));
    assert!(v.visit(h(9)));
    assert!(!v.visit(h(9)));
    assert!(v.visit(h(10)));
    assert!(v.visit(h(1)));
    let mut s = SparseVisitor::new(0);
    assert!(s.visit(h(100)));
    assert!(!s.visit(h(100)));
    let mut once: OnceChecker<DenseVisitor, DenseChecker> = OnceChecker::new(vec!["p".to_string()]);
    assert!(once.accepts_handle(h(8)));
    assert!(!once.accepts_handle(h(9)));
    assert_eq!(once.check(h(1)).as_deref(), Some("p"));
    assert_eq!(once.check(h(1)), None);
}

#[test]
fn match_info_reads_values() {
    match MatchInfo::new("a3", true, false) {
        Ok(MatchInfo::Exact(v)) => assert_eq!(v, b"10100011".to_vec()),
        _ => panic!("expected an exact value"),
    }
    match MatchInfo::new("F", true, false) {
        Ok(MatchInfo::Exact(v)) => assert_eq!(v, b"1111".to_vec()),
        _ => panic!("expected an exact value"),
    }
    assert_eq!(MatchInfo::new("0110", false, false).ok().map(|m| matches!(m, MatchInfo::Exact(v) if v == b"0110".to_vec())), Some(true));
    assert!(matches!(MatchInfo::new("g1", true, false), Err(Error::InvalidHex(s)) if s == "g1"));
    assert!(matches!(MatchInfo::new("012", false, false), Err(Error::InvalidBin(s)) if s == "012"));
    assert!(matches!(MatchInfo::new("(", false, true), Err(Error::Regex(_))));
    assert!(matches!(MatchInfo::new("1+0", false, true), Ok(MatchInfo::Regex(_, false))));
}

#[test]
fn regex_matchers() {
    let bin = RegexMatcher::new(ValuePattern::new("^1+0$").unwrap());
    assert!(bin.is_match(b"1110"));
    assert!(!bin.is_match(b"1101"));
    let hex = RegexHexMatcher::new(ValuePattern::new("^1f$").unwrap());
    assert!(hex.is_match(b"11111"));
    assert!(hex.is_match(b"00011111"));
    assert!(!hex.is_match(b"000011111"));
    assert!(!hex.is_match(b"1111"));
    let hx = RegexHexMatcher::new(ValuePattern::new("^a$").unwrap());
    assert!(hx.is_match(b"1010"));
    assert!(hx.is_match(b"x0x0"));
}

#[test]
fn callback_checks_value_then_signal() {
    let m = ExactMatcher::new(b"1".to_vec());
    let mut c = DenseChecker::new(vec!["s".to_string()]);
    assert_eq!(find_value_callback(&m, &mut c, h(1), b"01").as_deref(), Some("s"));
    assert_eq!(find_value_callback(&m, &mut c, h(1), b"10"), None);
    assert_eq!(find_value_callback(&m, &mut c, h(2), b"1"), None);
}

#[test]
fn find_value_first_or_all() {
    let events = vec![
        change(0, 1, "0"),
        change(1, 1, "1"),
        change(2, 2, "1"),
        change(3, 1, "1"),
        change(4, 3, "1"),
    ];
    let vars = || VarInfo::Dense(vec!["a".to_string(), "b".to_string()]);
    let all = find_value(&events, MatchInfo::new("1", false, false).ok().unwrap(), vars(), true);
    let got: Vec<(u64, &str, usize)> = all.iter().map(|x| (x.time, x.name.as_str(), x.event)).collect();
    assert_eq!(got, vec![(1, "a", 1), (2, "b", 2), (3, "a", 3)]);
    let first = find_value(&events, MatchInfo::new("1", false, false).ok().unwrap(), vars(), false);
    let got: Vec<(u64, &str)> = first.iter().map(|x| (x.time, x.name.as_str())).collect();
    assert_eq!(got, vec![(1, "a"), (2, "b")]);
    assert_eq!(first[0].value, b"1".to_vec());
}
