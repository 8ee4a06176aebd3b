use fst_clip::clip::{clip, get_start_end, select_mask, Mask, Reader};
use fst_clip::error::Error;
use fst_clip::filter::SignalFilter;
use fst_clip::hiers::build;
use fst_clip::types::{Attr, Handle, Hier, Scope, ValueChange, Var};
use fst_clip::vcd::VcdWriter;
use fst_clip::writer::{Entry, Writer};
use std::collections::HashMap;

fn scope(name: &str) -> Hier {
    Hier::Scope(Scope { ty: 0, name: name.to_string(), component: String::new() })
}

fn var(name: &str, handle: u32, alias: bool) -> Hier {
    Hier::Var(Var {
        ty: 5,
        direction: 0,
        length: 1,
        name: name.to_string(),
        handle: Handle::new(handle).unwrap(),
        alias,
    })
}

fn change(time: u64, handle: u32, value: &str) -> ValueChange {
    ValueChange {
        time,
        handle: Handle::new(handle).unwrap(),
        value: value.as_bytes().to_vec(),
        var_len: false,
    }
}

fn reader(hiers: Vec<Hier>, events: Vec<ValueChange>, var_count: u64, alias_count: u64) -> Reader {
    Reader {
        hiers,
        events,
        start_time: 0,
        end_time: 100,
        var_count,
        alias_count,
        scope_count: 0,
        timescale: -9,
        timezero: 0,
        file_type: 0,
        date: String::new(),
        version: String::new(),
    }
}

fn vc(handle: u32, value: &str) -> Entry {
    Entry::ValueChange { handle, value: value.as_bytes().to_vec() }
}

fn scope_entry(name: &str) -> Entry {
    Entry::Scope { ty: 0, name: name.to_string(), component: String::new() }
}

fn var_entry(name: &str, handle: u32) -> Entry {
    Entry::Var { ty: 5, direction: 0, length: 1, name: name.to_string(), handle }
}

fn clock_trace() -> Reader {
    let mut events = Vec::new();
    let mut t = 0;
    while t <= 100 {
        events.push(change(t, 1, if (t / 10) % 2 == 0 { "0" } else { "1" }));
        t += 10;
    }
    reader(vec![scope("top"), var("clk", 1, false), Hier::Upscope], events, 1, 0)
}

#[test]
fn clock_clip_forward_fills_and_ends_at_window_end() {
    let w = clip(&clock_trace(), Some(15), Some(25), None, false, Writer::create(true)).unwrap();
    let expected = vec![
        scope_entry("top"),
        var_entry("clk", 1),
        Entry::Upscope,
        vc(1, "1"),
        Entry::TimeChange(5),
        vc(1, "0"),
        Entry::TimeChange(10),
    ];
    assert_eq!(w.entries(), &expected);
}

#[test]
fn end_time_written_without_event_at_end() {
    let w = clip(&clock_trace(), Some(20), Some(25), None, false, Writer::create(true)).unwrap();
    assert_eq!(w.entries().last(), Some(&Entry::TimeChange(5)));
}

#[test]
fn no_extra_time_step_when_event_at_end() {
    let w = clip(&clock_trace(), Some(10), Some(20), None, false, Writer::create(true)).unwrap();
    let expected = vec![
        scope_entry("top"),
        var_entry("clk", 1),
        Entry::Upscope,
        vc(1, "0"),
        vc(1, "1"),
        Entry::TimeChange(10),
        vc(1, "0"),
    ];
    assert_eq!(w.entries(), &expected);
}

fn cpu_mem_trace() -> Reader {
    reader(
        vec![
            scope("top"),
            scope("cpu"),
            var("pc", 1, false),
            var("ir", 2, false),
            Hier::Upscope,
            scope("mem"),
            var("addr", 3, false),
            Hier::Upscope,
            Hier::Upscope,
        ],
        vec![change(0, 1, "0"), change(0, 3, "1"), change(5, 2, "1")],
        3,
        0,
    )
}

#[test]
fn filter_materializes_only_matching_scopes() {
    let re = SignalFilter::new("^top\\.cpu\\.").unwrap();
    let w = clip(&cpu_mem_trace(), None, None, Some(re), false, Writer::create(true)).unwrap();
    let expected = vec![
        scope_entry("top"),
        scope_entry("cpu"),
        var_entry("pc", 1),
        var_entry("ir", 2),
        Entry::Upscope,
        Entry::Upscope,
        vc(1, "0"),
        Entry::TimeChange(5),
        vc(2, "1"),
        Entry::TimeChange(100),
    ];
    assert_eq!(w.entries(), &expected);
}

#[test]
fn filter_matches_qualified_name() {
    let re = SignalFilter::new("mem\\.addr$").unwrap();
    let w = clip(&cpu_mem_trace(), Some(0), Some(0), Some(re), false, Writer::create(true)).unwrap();
    let expected = vec![
        scope_entry("top"),
        scope_entry("mem"),
        var_entry("addr", 1),
        Entry::Upscope,
        Entry::Upscope,
        vc(1, "1"),
    ];
    assert_eq!(w.entries(), &expected);
}

#[test]
fn alias_shares_output_handle() {
    let hiers = vec![
        scope("top"),
        var("a", 1, false),
        var("b", 2, false),
        var("a_alias", 1, true),
        Hier::Upscope,
    ];
    let mut w = Writer::create(true);
    let map = build(&hiers, &mut w, None, false).unwrap();
    assert_eq!(map.get(&1), Some(&1));
    assert_eq!(map.get(&2), Some(&2));
    assert_eq!(w.entries()[3], var_entry("a_alias", 1));
}

#[test]
fn attributes_kept_or_stripped() {
    let attr = Hier::AttrBegin(Attr { ty: 0, subtype: 0, name: "note".to_string(), arg: 7, arg_from_name: 0 });
    let hiers = vec![attr, Hier::AttrEnd, scope("top"), var("a", 1, false), Hier::Upscope];
    let mut kept = Writer::create(true);
    build(&hiers, &mut kept, None, false).unwrap();
    assert_eq!(kept.entries().len(), 5);
    assert_eq!(
        kept.entries()[0],
        Entry::AttrBegin { ty: 0, subtype: 0, name: "note".to_string(), arg: 7 }
    );
    let mut stripped = Writer::create(true);
    build(&hiers, &mut stripped, None, true).unwrap();
    assert_eq!(stripped.entries().len(), 3);
}

#[test]
fn unbalanced_hierarchy_is_rejected() {
    let mut w = Writer::create(true);
    assert_eq!(build(&vec![Hier::Upscope], &mut w, None, false), Err(Error::UnbalancedScopes));
    let mut w2 = Writer::create(true);
    assert_eq!(build(&vec![scope("top")], &mut w2, None, false), Err(Error::UnbalancedScopes));
}

#[test]
fn window_errors() {
    assert_eq!(get_start_end(0, 100, Some(101), None), Err(Error::InvalidStartTime(101)));
    assert_eq!(get_start_end(10, 100, None, Some(5)), Err(Error::InvalidEndTime(5)));
    assert_eq!(get_start_end(0, 100, Some(60), Some(50)), Err(Error::InvalidTimeRange(60, 50)));
    assert_eq!(get_start_end(0, 100, None, None), Ok((0, 100)));
    assert_eq!(get_start_end(0, 100, Some(20), None), Ok((20, 100)));
}

#[test]
fn mask_choice() {
    assert_eq!(select_mask(3, 4, 1), Ok(Mask::All));
    assert_eq!(select_mask(2, 4, 1), Ok(Mask::Mapped));
    assert_eq!(select_mask(0, 4, 1), Err(Error::NoMatchingSignals));
    assert_eq!(select_mask(0, 0, 0), Err(Error::NoMatchingSignals));
    assert_eq!(select_mask(1, 0, 0), Ok(Mask::All));
}

#[test]
fn no_matching_signals_is_an_error() {
    let re = SignalFilter::new("nothing").unwrap();
    let r = clip(&cpu_mem_trace(), None, None, Some(re), false, Writer::create(true));
    assert!(matches!(r, Err(Error::NoMatchingSignals)));
}

#[test]
fn invalid_regex_is_an_error() {
    assert!(matches!(SignalFilter::new("(unclosed"), Err(Error::InvalidRegex(_))));
    let f = SignalFilter::new("a.c").unwrap();
    assert!(f.is_match("xabcx"));
    assert!(!f.is_match("ac"));
    assert_eq!(f.as_str(), "a.c");
}

#[test]
fn reclip_of_full_window_keeps_changes() {
    let first = clip(&clock_trace(), Some(15), Some(45), None, false, Writer::create(true)).unwrap();
    let mut events = Vec::new();
    let mut t = 0;
    for e in first.entries() {
        match e {
            Entry::TimeChange(x) => t = *x,
            Entry::ValueChange { handle, value } => events.push(ValueChange {
                time: t,
                handle: Handle::new(*handle).unwrap(),
                value: value.clone(),
                var_len: false,
            }),
            _ => {}
        }
    }
    let mut src = reader(vec![scope("top"), var("clk", 1, false), Hier::Upscope], events, 1, 0);
    src.end_time = 30;
    let second = clip(&src, Some(0), Some(30), None, false, Writer::create(true)).unwrap();
    assert_eq!(second.entries(), first.entries());
}

#[test]
fn unmapped_events_are_ignored() {
    let mut w = Writer::create(true);
    w.create_var(5, 0, 1, "a", None).unwrap();
    let mut map = HashMap::new();
    map.insert(1u32, 1u32);
    let mut vw = VcdWriter::new(w, 0, 10, map);
    vw.write(&vec![change(0, 2, "1"), change(3, 1, "1")]);
    let w = vw.into_writer();
    assert_eq!(
        w.entries(),
        &vec![var_entry("a", 1), Entry::TimeChange(3), vc(1, "1"), Entry::TimeChange(10)]
    );
}

#[test]
fn create_var_alias_checks() {
    let mut w = Writer::create(false);
    let a = w.create_var(5, 0, 1, "a", None).unwrap();
    assert_eq!(a.get(), 1);
    assert_eq!(w.create_var(5, 0, 1, "b", Some(a)).unwrap().get(), 1);
    assert_eq!(
        w.create_var(5, 0, 1, "c", Handle::new(9)),
        Err(Error::InvalidAlias)
    );
    assert_eq!(w.create_var(5, 0, 1, "d", None).unwrap().get(), 2);
}

#[test]
fn clip_copies_trace_metadata() {
    let mut src = clock_trace();
    src.date = "Mon".to_string();
    src.version = "sim 1".to_string();
    src.file_type = 1;
    src.timescale = -12;
    let writer = Writer::create(false).pack_type(1).repack_on_close(true).parallel_mode(true);
    let w = clip(&src, Some(30), None, None, true, writer).unwrap();
    assert_eq!(w.get_date(), "Mon");
    assert_eq!(w.get_version(), "sim 1");
    assert_eq!(w.get_file_type(), 1);
    assert_eq!(w.get_timescale(), -12);
    assert_eq!(w.get_timezero(), 30);
    assert_eq!(w.get_pack_type(), 1);
    assert!(w.get_repack_on_close());
    assert!(w.get_parallel_mode());
    assert!(!w.get_use_compressed_hier());
}

#[test]
fn empty_source_has_no_matching_signals() {
    let src = reader(Vec::new(), Vec::new(), 0, 0);
    let r = clip(&src, None, None, None, false, Writer::create(true));
    assert!(matches!(r, Err(Error::NoMatchingSignals)));
}

#[test]
fn held_values_written_without_event_in_window() {
    let src = reader(
        vec![scope("top"), var("clk", 1, false), Hier::Upscope],
        vec![change(0, 1, "1")],
        1,
        0,
    );
    let w = clip(&src, Some(5), Some(10), None, false, Writer::create(true)).unwrap();
    let expected = vec![
        scope_entry("top"),
        var_entry("clk", 1),
        Entry::Upscope,
        vc(1, "1"),
        Entry::TimeChange(5),
    ];
    assert_eq!(w.entries(), &expected);
}

#[test]
fn held_values_written_when_first_change_is_after_window() {
    let src = reader(
        vec![scope("top"), var("clk", 1, false), Hier::Upscope],
        vec![change(0, 1, "1"), change(50, 1, "0")],
        1,
        0,
    );
    let w = clip(&src, Some(5), Some(10), None, false, Writer::create(true)).unwrap();
    assert_eq!(w.entries()[3..].to_vec(), vec![vc(1, "1"), Entry::TimeChange(5)]);
}
