//! The sink of a clip: a trace under construction, kept as the sequence of
//! the declarations and events written to it.
use crate::error::Error;
use crate::types::{AttrType, Handle, ScopeType, VarDir, VarType};
use vstd::prelude::*;

verus! {

/// Packing method of the value change data of a written trace.
pub type WriterPackType = u32;

/// One declaration or event written to a [`Writer`].
#[derive(Clone, Debug, PartialEq, Eq)]
pub enum Entry {
    Scope { ty: ScopeType, name: String, component: String },
    Upscope,
    Var { ty: VarType, direction: VarDir, length: u32, name: String, handle: u32 },
    AttrBegin { ty: AttrType, subtype: i32, name: String, arg: u64 },
    AttrEnd,
    TimeChange(u64),
    ValueChange { handle: u32, value: Vec<u8> },
    VarLenValueChange { handle: u32, value: Vec<u8> },
}

/// The mathematical value of an [`Entry`].
pub enum Record {
    Scope { ty: ScopeType, name: Seq<char>, component: Seq<char> },
    Upscope,
    Var { ty: VarType, direction: VarDir, length: u32, name: Seq<char>, handle: u32 },
    AttrBegin { ty: AttrType, subtype: i32, name: Seq<char>, arg: u64 },
    AttrEnd,
    TimeChange(u64),
    ValueChange { handle: u32, value: Seq<u8>, var_len: bool },
}

impl View for Entry {
    type V = Record;

    open spec fn view(&self) -> Record {
        match self {
            Entry::Scope { ty, name, component } => Record::Scope {
                ty: *ty,
                name: name@,
                component: component@,
            },
            Entry::Upscope => Record::Upscope,
            Entry::Var { ty, direction, length, name, handle } => Record::Var {
                ty: *ty,
                direction: *direction,
                length: *length,
                name: name@,
                handle: *handle,
            },
            Entry::AttrBegin { ty, subtype, name, arg } => Record::AttrBegin {
                ty: *ty,
                subtype: *subtype,
                name: name@,
                arg: *arg,
            },
            Entry::AttrEnd => Record::AttrEnd,
            Entry::TimeChange(t) => Record::TimeChange(*t),
            Entry::ValueChange { handle, value } => Record::ValueChange {
                handle: *handle,
                value: value@,
                var_len: false,
            },
            Entry::VarLenValueChange { handle, value } => Record::ValueChange {
                handle: *handle,
                value: value@,
                var_len: true,
            },
        }
    }
}

/// A trace being written.
///
/// Handles of variables are given out in declaration order, starting at 1;
/// a variable declared as an alias gets the handle it aliases.
pub struct Writer {
    entries: Vec<Entry>,
    num_vars: u32,
    use_compressed_hier: bool,
    comment: String,
    date: String,
    version: String,
    file_type: u32,
    pack_type: WriterPackType,
    parallel_mode: bool,
    repack_on_close: bool,
    timescale: i32,
    timezero: i64,
}

impl Writer {
    /// What has been written so far, in order.
    pub closed spec fn records(&self) -> Seq<Record> {
        self.entries@.map_values(|e: Entry| e@)
    }

    /// How many handles have been given out.
    pub closed spec fn num_vars(&self) -> u32 {
        self.num_vars
    }

    /// The comment set.
    pub open spec fn spec_comment(&self) -> Seq<char> {
        self.header().0
    }

    /// The date set.
    pub open spec fn spec_date(&self) -> Seq<char> {
        self.header().1
    }

    /// The version set.
    pub open spec fn spec_version(&self) -> Seq<char> {
        self.header().2
    }

    /// The file type set.
    pub open spec fn spec_file_type(&self) -> u32 {
        self.header().3
    }

    /// The pack type set.
    pub open spec fn spec_pack_type(&self) -> WriterPackType {
        self.header().4
    }

    /// The parallel mode set.
    pub open spec fn spec_parallel_mode(&self) -> bool {
        self.header().5
    }

    /// The repack on close set.
    pub open spec fn spec_repack_on_close(&self) -> bool {
        self.header().6
    }

    /// The timescale set.
    pub open spec fn spec_timescale(&self) -> i32 {
        self.header().7
    }

    /// Everything set of the trace but its entries.
    pub closed spec fn header(&self) -> (Seq<char>, Seq<char>, Seq<char>, u32, WriterPackType, bool, bool, i32, i64, bool) {
        (
            self.comment@,
            self.date@,
            self.version@,
            self.file_type,
            self.pack_type,
            self.parallel_mode,
            self.repack_on_close,
            self.timescale,
            self.timezero,
            self.use_compressed_hier,
        )
    }

    /// The source time that time zero stands for.
    pub open spec fn spec_timezero(&self) -> i64 {
        self.header().8
    }

    /// Whether the hierarchy is written compressed.
    pub open spec fn spec_use_compressed_hier(&self) -> bool {
        self.header().9
    }

    /// Creates an empty trace.
    pub fn create(use_compressed_hier: bool) -> (r: Writer)
        ensures
            r.records() == Seq::<Record>::empty(),
            r.num_vars() == 0,
            r.spec_use_compressed_hier() == use_compressed_hier,
    {
        let w = Writer {
            entries: Vec::new(),
            num_vars: 0,
            use_compressed_hier,
            comment: String::new(),
            date: String::new(),
            version: String::new(),
            file_type: 0,
            pack_type: 0,
            parallel_mode: false,
            repack_on_close: false,
            timescale: 0,
            timezero: 0,
        };
        assert(w.records() =~= Seq::<Record>::empty());
        w
    }

    /// Sets the comment.
    pub fn comment(self, comment: &str) -> (r: Writer)
        ensures
            r.records() == self.records(),
            r.num_vars() == self.num_vars(),
            r.header() == (
                comment@,
                self.header().1,
                self.header().2,
                self.header().3,
                self.header().4,
                self.header().5,
                self.header().6,
                self.header().7,
                self.header().8,
                self.header().9,
            ),
    {
        Writer { comment: comment.to_owned(), ..self }
    }

    /// Sets the date.
    pub fn date(self, date: &str) -> (r: Writer)
        ensures
            r.records() == self.records(),
            r.num_vars() == self.num_vars(),
            r.header() == (
                self.header().0,
                date@,
                self.header().2,
                self.header().3,
                self.header().4,
                self.header().5,
                self.header().6,
                self.header().7,
                self.header().8,
                self.header().9,
            ),
    {
        Writer { date: date.to_owned(), ..self }
    }

    /// Sets the version of the writing tool.
    pub fn version(self, version: &str) -> (r: Writer)
        ensures
            r.records() == self.records(),
            r.num_vars() == self.num_vars(),
            r.header() == (
                self.header().0,
                self.header().1,
                version@,
                self.header().3,
                self.header().4,
                self.header().5,
                self.header().6,
                self.header().7,
                self.header().8,
                self.header().9,
            ),
    {
        Writer { version: version.to_owned(), ..self }
    }

    /// Sets the file type.
    pub fn file_type(self, file_type: u32) -> (r: Writer)
        ensures
            r.records() == self.records(),
            r.num_vars() == self.num_vars(),
            r.header() == (
                self.header().0,
                self.header().1,
                self.header().2,
                file_type,
                self.header().4,
                self.header().5,
                self.header().6,
                self.header().7,
                self.header().8,
                self.header().9,
            ),
    {
        Writer { file_type, ..self }
    }

    /// Sets the packing method of the value change data.
    pub fn pack_type(self, pack_type: WriterPackType) -> (r: Writer)
        ensures
            r.records() == self.records(),
            r.num_vars() == self.num_vars(),
            r.header() == (
                self.header().0,
                self.header().1,
                self.header().2,
                self.header().3,
                pack_type,
                self.header().5,
                self.header().6,
                self.header().7,
                self.header().8,
                self.header().9,
            ),
    {
        Writer { pack_type, ..self }
    }

    /// Sets whether blocks are written in parallel.
    pub fn parallel_mode(self, parallel_mode: bool) -> (r: Writer)
        ensures
            r.records() == self.records(),
            r.num_vars() == self.num_vars(),
            r.header() == (
                self.header().0,
                self.header().1,
                self.header().2,
                self.header().3,
                self.header().4,
                parallel_mode,
                self.header().6,
                self.header().7,
                self.header().8,
                self.header().9,
            ),
    {
        Writer { parallel_mode, ..self }
    }

    /// Sets whether the trace is repacked on close.
    pub fn repack_on_close(self, repack_on_close: bool) -> (r: Writer)
        ensures
            r.records() == self.records(),
            r.num_vars() == self.num_vars(),
            r.header() == (
                self.header().0,
                self.header().1,
                self.header().2,
                self.header().3,
                self.header().4,
                self.header().5,
                repack_on_close,
                self.header().7,
                self.header().8,
                self.header().9,
            ),
    {
        Writer { repack_on_close, ..self }
    }

    /// Sets the timescale exponent: time unit is 10 to that power of a second.
    pub fn timescale(self, timescale: i32) -> (r: Writer)
        ensures
            r.records() == self.records(),
            r.num_vars() == self.num_vars(),
            r.header() == (
                self.header().0,
                self.header().1,
                self.header().2,
                self.header().3,
                self.header().4,
                self.header().5,
                self.header().6,
                timescale,
                self.header().8,
                self.header().9,
            ),
    {
        Writer { timescale, ..self }
    }

    /// Returns the comment set.
    pub fn get_comment(&self) -> (r: &str)
        ensures
            r@ == self.spec_comment(),
    {
        self.comment.as_str()
    }

    /// Returns the date set.
    pub fn get_date(&self) -> (r: &str)
        ensures
            r@ == self.spec_date(),
    {
        self.date.as_str()
    }

    /// Returns the version set.
    pub fn get_version(&self) -> (r: &str)
        ensures
            r@ == self.spec_version(),
    {
        self.version.as_str()
    }

    /// Returns the file type set.
    pub fn get_file_type(&self) -> (r: u32)
        ensures
            r == self.spec_file_type(),
    {
        self.file_type
    }

    /// Returns the pack type set.
    pub fn get_pack_type(&self) -> (r: WriterPackType)
        ensures
            r == self.spec_pack_type(),
    {
        self.pack_type
    }

    /// Returns the parallel mode set.
    pub fn get_parallel_mode(&self) -> (r: bool)
        ensures
            r == self.spec_parallel_mode(),
    {
        self.parallel_mode
    }

    /// Returns the repack on close set.
    pub fn get_repack_on_close(&self) -> (r: bool)
        ensures
            r == self.spec_repack_on_close(),
    {
        self.repack_on_close
    }

    /// Returns the timescale set.
    pub fn get_timescale(&self) -> (r: i32)
        ensures
            r == self.spec_timescale(),
    {
        self.timescale
    }

    /// Returns the source time that time zero stands for.
    pub fn get_timezero(&self) -> (r: i64)
        ensures
            r == self.spec_timezero(),
    {
        self.timezero
    }

    /// Returns whether the hierarchy is written compressed.
    pub fn get_use_compressed_hier(&self) -> (r: bool)
        ensures
            r == self.spec_use_compressed_hier(),
    {
        self.use_compressed_hier
    }

    /// Returns how many handles have been given out.
    pub fn var_count(&self) -> (r: u32)
        ensures
            r == self.num_vars(),
    {
        self.num_vars
    }

    /// Sets the time of the source that the output's time zero stands for.
    pub fn timezero(self, timezero: i64) -> (r: Writer)
        ensures
            r.records() == self.records(),
            r.num_vars() == self.num_vars(),
            r.header() == (
                self.header().0,
                self.header().1,
                self.header().2,
                self.header().3,
                self.header().4,
                self.header().5,
                self.header().6,
                self.header().7,
                timezero,
                self.header().9,
            ),
    {
        Writer { timezero, ..self }
    }

    fn push(&mut self, e: Entry)
        ensures
            final(self).records() == old(self).records().push(e@),
            final(self).num_vars() == old(self).num_vars(),
            final(self).header() == old(self).header(),
    {
        self.entries.push(e);
        assert(self.records() =~= old(self).records().push(e@));
    }

    /// The entries written so far, in order.
    pub fn entries(&self) -> (r: &Vec<Entry>)
        ensures
            r@.map_values(|e: Entry| e@) == self.records(),
    {
        &self.entries
    }

    /// Opens a scope.
    pub fn set_scope(&mut self, ty: ScopeType, name: &str, component: &str)
        ensures
            final(self).records() == old(self).records().push(
                Record::Scope { ty, name: name@, component: component@ },
            ),
            final(self).num_vars() == old(self).num_vars(),
            final(self).header() == old(self).header(),
    {
        self.push(Entry::Scope { ty, name: name.to_owned(), component: component.to_owned() });
    }

    /// Closes the innermost open scope.
    pub fn set_upscope(&mut self)
        ensures
            final(self).records() == old(self).records().push(Record::Upscope),
            final(self).num_vars() == old(self).num_vars(),
            final(self).header() == old(self).header(),
    {
        self.push(Entry::Upscope);
    }

    /// Opens an attribute.
    pub fn set_attr_begin(&mut self, ty: AttrType, sub_ty: i32, name: &str, arg: u64)
        ensures
            final(self).records() == old(self).records().push(
                Record::AttrBegin { ty, subtype: sub_ty, name: name@, arg },
            ),
            final(self).num_vars() == old(self).num_vars(),
            final(self).header() == old(self).header(),
    {
        self.push(Entry::AttrBegin { ty, subtype: sub_ty, name: name.to_owned(), arg });
    }

    /// Closes the innermost open attribute.
    pub fn set_attr_end(&mut self)
        ensures
            final(self).records() == old(self).records().push(Record::AttrEnd),
            final(self).num_vars() == old(self).num_vars(),
            final(self).header() == old(self).header(),
    {
        self.push(Entry::AttrEnd);
    }

    /// Declares a variable and returns its handle: `alias` when given, which
    /// must be a handle already given out, else the next free handle.
    pub fn create_var(
        &mut self,
        ty: VarType,
        dir: VarDir,
        len: u32,
        name: &str,
        alias: Option<Handle>,
    ) -> (r: Result<Handle, Error>)
        ensures
            match alias {
                Some(a) => if a.id() <= old(self).num_vars() {
                    &&& r == Ok::<Handle, Error>(a)
                    &&& final(self).num_vars() == old(self).num_vars()
                } else {
                    r == Err::<Handle, Error>(Error::InvalidAlias)
                },
                None => if old(self).num_vars() < u32::MAX {
                    &&& r matches Ok(h) && h.id() == old(self).num_vars() + 1
                    &&& final(self).num_vars() == old(self).num_vars() + 1
                } else {
                    r == Err::<Handle, Error>(Error::TooManyVars)
                },
            },
            r matches Ok(h) ==> final(self).records() == old(self).records().push(
                Record::Var { ty, direction: dir, length: len, name: name@, handle: h.id() },
            ),
            r is Err ==> *final(self) == *old(self),
            final(self).header() == old(self).header(),
    {
        let h = match alias {
            Some(a) => {
                if a.get() > self.num_vars {
                    return Err(Error::InvalidAlias);
                }
                a
            },
            None => {
                if self.num_vars == u32::MAX {
                    return Err(Error::TooManyVars);
                }
                self.num_vars = self.num_vars + 1;
                match Handle::new(self.num_vars) {
                    Some(h) => h,
                    None => return Err(Error::TooManyVars),
                }
            },
        };
        self.push(
            Entry::Var { ty, direction: dir, length: len, name: name.to_owned(), handle: h.get() },
        );
        Ok(h)
    }

    /// Emits a change of a fixed-length value.
    pub fn emit_value_change(&mut self, handle: Handle, value: &Vec<u8>)
        ensures
            final(self).records() == old(self).records().push(
                Record::ValueChange { handle: handle.id(), value: value@, var_len: false },
            ),
            final(self).num_vars() == old(self).num_vars(),
            final(self).header() == old(self).header(),
    {
        let v = value.clone();
        assert(v@ == value@);
        self.push(Entry::ValueChange { handle: handle.get(), value: v });
    }

    /// Emits a change of a variable-length value.
    pub fn emit_var_len_value_change(&mut self, handle: Handle, value: &Vec<u8>)
        ensures
            final(self).records() == old(self).records().push(
                Record::ValueChange { handle: handle.id(), value: value@, var_len: true },
            ),
            final(self).num_vars() == old(self).num_vars(),
            final(self).header() == old(self).header(),
    {
        let v = value.clone();
        assert(v@ == value@);
        self.push(Entry::VarLenValueChange { handle: handle.get(), value: v });
    }

    /// Moves the time of the following value changes to `time`.
    pub fn emit_time_change(&mut self, time: u64)
        ensures
            final(self).records() == old(self).records().push(Record::TimeChange(time)),
            final(self).num_vars() == old(self).num_vars(),
            final(self).header() == old(self).header(),
    {
        self.push(Entry::TimeChange(time));
    }
}

} // verus!
