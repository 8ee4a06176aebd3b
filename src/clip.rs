//! A whole clip: the time window, the hierarchy pass, the choice of the
//! signals to read, and the value change pass.
use crate::error::Error;
use crate::filter::SignalFilter;
use crate::hiers::{build, build_result, pattern_of};
use crate::types::{Hier, ValueChange};
use crate::vcd::{events_view, fill_output, fill_start, VcdWriter};
use crate::writer::{Record, Writer};
use vstd::prelude::*;

verus! {

/// The window `[start, end]` of a clip of a source spanning
/// `[source_start, source_end]`; a bound not given is the source's own.
pub open spec fn clip_window(
    source_start: u64,
    source_end: u64,
    start: Option<u64>,
    end: Option<u64>,
) -> Result<(u64, u64), Error> {
    match start {
        Some(t) if t < source_start || t > source_end => Err(Error::InvalidStartTime(t)),
        _ => match end {
            Some(t) if t < source_start || t > source_end => Err(Error::InvalidEndTime(t)),
            _ => {
                let s = match start {
                    Some(t) => t,
                    None => source_start,
                };
                let e = match end {
                    Some(t) => t,
                    None => source_end,
                };
                if s > e {
                    Err(Error::InvalidTimeRange(s, e))
                } else {
                    Ok((s, e))
                }
            },
        },
    }
}

/// Returns the window of a clip: each requested bound must lie in the
/// source's range, and the start may not follow the end.
pub fn get_start_end(source_start: u64, source_end: u64, start: Option<u64>, end: Option<u64>) -> (r:
    Result<(u64, u64), Error>)
    ensures
        r == clip_window(source_start, source_end, start, end),
{
    let s = match start {
        Some(t) => {
            if t < source_start || t > source_end {
                return Err(Error::InvalidStartTime(t));
            }
            t
        },
        None => source_start,
    };
    let e = match end {
        Some(t) => {
            if t < source_start || t > source_end {
                return Err(Error::InvalidEndTime(t));
            }
            t
        },
        None => source_end,
    };
    if s > e {
        return Err(Error::InvalidTimeRange(s, e));
    }
    Ok((s, e))
}

/// Which signals the source must deliver value changes for.
#[derive(Clone, Copy, Debug, PartialEq, Eq)]
pub enum Mask {
    /// All signals: the map covers every signal that is no alias.
    All,
    /// Only the signals that the map holds.
    Mapped,
}

/// The mask for a map of `mapped` signals, in a source of `var_count`
/// variables of which `alias_count` are aliases.
pub open spec fn mask_for(mapped: nat, var_count: u64, alias_count: u64) -> Result<Mask, Error> {
    if mapped == 0 {
        Err(Error::NoMatchingSignals)
    } else if mapped < var_count - alias_count {
        Ok(Mask::Mapped)
    } else {
        Ok(Mask::All)
    }
}

/// Chooses the signals to read: none selected is an error; all of them
/// where the map covers every signal that is no alias, else those of the
/// map.
pub fn select_mask(mapped: usize, var_count: u64, alias_count: u64) -> (r: Result<Mask, Error>)
    ensures
        r == mask_for(mapped as nat, var_count, alias_count),
{
    if mapped == 0 {
        Err(Error::NoMatchingSignals)
    } else if alias_count <= var_count && (mapped as u64) < var_count - alias_count {
        Ok(Mask::Mapped)
    } else {
        Ok(Mask::All)
    }
}

/// A source trace: its hierarchy, its value changes in the order of
/// delivery, and what it states of itself.
pub struct Reader {
    pub hiers: Vec<Hier>,
    pub events: Vec<ValueChange>,
    pub start_time: u64,
    pub end_time: u64,
    pub var_count: u64,
    pub alias_count: u64,
    pub scope_count: u64,
    pub timescale: i32,
    pub timezero: i64,
    pub file_type: u32,
    pub date: String,
    pub version: String,
}

/// What a clip of `src` writes into an empty trace, or why it fails.
pub open spec fn clip_result(src: Reader, start: Option<u64>, end: Option<u64>, pattern: Option<Seq<char>>, strip_attrs: bool) -> Result<Seq<Record>, Error> {
    match clip_window(src.start_time, src.end_time, start, end) {
        Err(e) => Err(e),
        Ok((s, e)) => {
            let b = build_result(pattern, strip_attrs, 0, src.hiers@);
            match b.err {
                Some(err) => Err(err),
                None => match mask_for(b.handles.dom().len(), src.var_count, src.alias_count) {
                    Err(err) => Err(err),
                    Ok(_) => Ok(b.out + fill_output(b.handles, s, e, fill_start(s), events_view(src.events@))),
                },
            }
        },
    }
}

/// Clips `src` to the window from `start` to `end` (the source's own bounds
/// where not given), keeping the variables that `re` selects and the
/// attributes unless `strip_attrs`; writes the result into `writer`, which
/// must be empty, with the date, version, file type and timescale of `src`
/// and the window's start as time zero.
pub fn clip(
    src: &Reader,
    start: Option<u64>,
    end: Option<u64>,
    re: Option<SignalFilter>,
    strip_attrs: bool,
    writer: Writer,
) -> (r: Result<Writer, Error>)
    requires
        writer.records() == Seq::<Record>::empty(),
        writer.num_vars() == 0,
    ensures
        match clip_result(*src, start, end, pattern_of(re), strip_attrs) {
            Ok(out) => r matches Ok(w) && {
                &&& w.records() == out
                &&& w.spec_date() == src.date@
                &&& w.spec_version() == src.version@
                &&& w.spec_file_type() == src.file_type
                &&& w.spec_timescale() == src.timescale
                &&& w.spec_timezero() == clip_window(src.start_time, src.end_time, start, end)->Ok_0.0 as i64
                &&& w.spec_pack_type() == writer.spec_pack_type()
                &&& w.spec_parallel_mode() == writer.spec_parallel_mode()
                &&& w.spec_repack_on_close() == writer.spec_repack_on_close()
                &&& w.spec_use_compressed_hier() == writer.spec_use_compressed_hier()
            },
            Err(e) => r == Err::<Writer, Error>(e),
        },
{
    let ghost pattern = pattern_of(re);
    let (s, e) = match get_start_end(src.start_time, src.end_time, start, end) {
        Ok(w) => w,
        Err(err) => return Err(err),
    };
    let mut writer = writer.date(src.date.as_str()).version(src.version.as_str()).file_type(
        src.file_type,
    ).timescale(src.timescale).timezero(#[verifier::truncate] (s as i64));
    let handles = match build(&src.hiers, &mut writer, re, strip_attrs) {
        Ok(h) => h,
        Err(err) => return Err(err),
    };
    let ghost b = build_result(pattern, strip_attrs, 0, src.hiers@);
    assert(Seq::<Record>::empty() + b.out =~= b.out);
    proof {
        crate::laws::lemma_map_targets_nonzero(pattern, strip_attrs, 0, src.hiers@);
    }
    match select_mask(handles.len(), src.var_count, src.alias_count) {
        Ok(_) => {},
        Err(err) => return Err(err),
    }
    let mut vw = VcdWriter::new(writer, s, e, handles);
    vw.write(&src.events);
    Ok(vw.into_writer())
}

} // verus!
