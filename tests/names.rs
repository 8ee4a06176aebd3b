use fst_clip::clip::Reader;
use fst_clip::info::{
    attr_names, file_type_name, scope_type_name, timescale_str, var_dir_name, var_type_name,
    AttrInfo, Metadata, PackType, ScopeInfo, VarInfo,
};
use fst_clip::matcher::{ExactMatcher, ValueMatcher};
use fst_clip::info::{Attrs, NoAliasesVars, Scopes, Variables};
use fst_clip::types::{Attr, Handle, Hier, Scope, Var};

#[test]
fn exact_matcher_pads_with_zeros() {
    let m = ExactMatcher::new(b"101".to_vec());
    assert!(m.is_match(b"101"));
    assert!(m.is_match(b"00101"));
    assert!(!m.is_match(b"10101"));
    assert!(!m.is_match(b"01"));
    let z = ExactMatcher::new(b"0001".to_vec());
    assert!(z.is_match(b"1"));
    assert!(!z.is_match(b""));
    assert!(ExactMatcher::new(Vec::new()).is_match(b"000"));
}

#[test]
fn code_names() {
    assert_eq!(scope_type_name(0), Some("VcdModule"));
    assert_eq!(scope_type_name(21), Some("VhdlPackage"));
    assert_eq!(scope_type_name(22), None);
    assert_eq!(var_type_name(16), Some("VcdWire"));
    assert_eq!(var_dir_name(3), Some("Inout"));
    assert_eq!(var_dir_name(6), None);
    assert_eq!(attr_names(2, 14), Some(("Enum", "Reg")));
    assert_eq!(attr_names(3, 3), Some(("Pack", "TaggedPacked")));
    assert_eq!(attr_names(1, 4), None);
    assert_eq!(attr_names(4, 0), None);
    assert_eq!(file_type_name(2), "Verilog/VHDL");
    assert_eq!(file_type_name(7), "Unknown");
}

#[test]
fn timescale_units() {
    assert_eq!(timescale_str(-9), Some("1ns"));
    assert_eq!(timescale_str(-21), Some("1zs"));
    assert_eq!(timescale_str(2), Some("100s"));
    assert_eq!(timescale_str(3), None);
    assert_eq!(timescale_str(-22), None);
}

#[test]
fn pack_type_codes() {
    assert_eq!(PackType::Zlib.to_code(), 0);
    assert_eq!(PackType::FastLz.to_code(), 1);
    assert_eq!(PackType::Lz4.to_code(), 2);
}

#[test]
fn infos_describe_entries() {
    let s = Scope { ty: 12, name: "arch".to_string(), component: "c".to_string() };
    let i = ScopeInfo::new(&s).unwrap();
    assert_eq!(i.ty, "VhdlArchitecture");
    assert_eq!(i.name, "arch");
    assert!(ScopeInfo::new(&Scope { ty: 99, name: String::new(), component: String::new() }).is_none());
    let a = Attr { ty: 0, subtype: 4, name: "src".to_string(), arg: 1, arg_from_name: 2 };
    let ai = AttrInfo::new(&a).unwrap();
    assert_eq!((ai.ty, ai.subtype, ai.arg, ai.arg_from_name), ("Misc", "SourceStem", 1, 2));
    let v = Var {
        ty: 23,
        direction: 2,
        length: 8,
        name: "q".to_string(),
        handle: Handle::new(4).unwrap(),
        alias: true,
    };
    let vi = VarInfo::new("top.q", &v, "top.p").unwrap();
    assert_eq!((vi.handle, vi.ty, vi.direction, vi.length), (4, "SvLogic", "Output", 8));
    assert_eq!(vi.alias_of, "top.p");
}

#[test]
fn metadata_names_codes() {
    let r = Reader {
        hiers: Vec::new(),
        events: Vec::new(),
        start_time: 5,
        end_time: 50,
        var_count: 3,
        alias_count: 1,
        scope_count: 2,
        timescale: -12,
        timezero: 0,
        file_type: 1,
        date: " today \n".to_string(),
        version: "\tv 1  ".to_string(),
    };
    let m = Metadata::new(&r);
    assert_eq!(m.file_type, "VHDL");
    assert_eq!(m.date, "today");
    assert_eq!(m.version, "v 1");
    assert_eq!(m.timescale, "1ps");
    assert_eq!((m.start_time, m.end_time, m.num_vars, m.num_aliases), (5, 50, 3, 1));
}

#[test]
fn handle_is_non_zero() {
    assert!(Handle::new(0).is_none());
    assert_eq!(Handle::new(7).unwrap().get(), 7);
}

fn listing_reader(hiers: Vec<Hier>) -> Reader {
    Reader {
        hiers,
        events: Vec::new(),
        start_time: 0,
        end_time: 0,
        var_count: 0,
        alias_count: 0,
        scope_count: 0,
        timescale: 0,
        timezero: 0,
        file_type: 0,
        date: String::new(),
        version: String::new(),
    }
}

fn lvar(name: &str, handle: u32, alias: bool) -> Hier {
    Hier::Var(Var {
        ty: 16,
        direction: 1,
        length: 1,
        name: name.to_string(),
        handle: Handle::new(handle).unwrap(),
        alias,
    })
}

#[test]
fn variables_name_their_aliases() {
    let hiers = vec![
        Hier::Scope(Scope { ty: 0, name: "top".to_string(), component: String::new() }),
        lvar("clk", 1, false),
        lvar("clk2", 1, true),
        Hier::Upscope,
    ];
    let vs = Variables::new(&listing_reader(hiers.clone()), false).unwrap();
    let got: Vec<(&str, &str, &str)> =
        vs.vars().iter().map(|v| (v.name.as_str(), v.ty, v.alias_of.as_str())).collect();
    assert_eq!(got, vec![("top.clk", "VcdWire", ""), ("top.clk2", "VcdWire", "top.clk")]);
    let na = NoAliasesVars::new(&listing_reader(hiers)).unwrap();
    assert_eq!(na.0.vars().len(), 1);
    assert!(Variables::new(&listing_reader(vec![lvar("a", 2, true)]), false).is_none());
    assert!(Variables::new(&listing_reader(vec![lvar("a", 2, false), lvar("b", 2, false)]), false).is_none());
}

#[test]
fn scopes_and_attrs_listed() {
    let hiers = vec![
        Hier::AttrBegin(Attr { ty: 1, subtype: 2, name: "arr".to_string(), arg: 4, arg_from_name: 0 }),
        Hier::AttrEnd,
        Hier::Scope(Scope { ty: 1, name: "t".to_string(), component: "c".to_string() }),
        Hier::Upscope,
    ];
    let s = Scopes::new(&listing_reader(hiers.clone())).unwrap();
    assert_eq!(s.scopes().len(), 1);
    assert_eq!(s.scopes()[0].ty, "VcdTask");
    let a = Attrs::new(&listing_reader(hiers)).unwrap();
    assert_eq!((a.attrs()[0].ty, a.attrs()[0].subtype, a.attrs()[0].arg), ("Array", "Packed", 4));
    let bad = vec![Hier::Scope(Scope { ty: 40, name: String::new(), component: String::new() })];
    assert!(Scopes::new(&listing_reader(bad)).is_none());
}

#[test]
fn trim_strips_both_ends() {
    assert_eq!(fst_clip::text::trim("  a b \u{3000}"), "a b");
    assert_eq!(fst_clip::text::trim(" \t "), "");
    assert_eq!(fst_clip::text::trim("x"), "x");
}
