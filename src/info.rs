//! Names of the numeric codes of a trace, and the summaries that list its
//! metadata, scopes, variables and attributes.
use crate::clip::Reader;
use crate::types::{Attr, Hier, Scope, Var};
use crate::text::{trim, trimmed};
use crate::vars::{var_name_at, var_names, var_positions};
use crate::writer::WriterPackType;
use std::collections::HashMap;
use vstd::prelude::*;

verus! {

broadcast use vstd::std_specs::hash::group_hash_axioms;

/// The text of an optional name.
pub open spec fn str_view(r: Option<&'static str>) -> Option<Seq<char>> {
    match r {
        Some(s) => Some(s@),
        None => None,
    }
}

/// The name of a scope type, if the code is one.
pub open spec fn scope_type_name_spec(code: u32) -> Option<Seq<char>> {
    if code == 0 {
        Some("VcdModule"@)
    } else if code == 1 {
        Some("VcdTask"@)
    } else if code == 2 {
        Some("VcdFunction"@)
    } else if code == 3 {
        Some("VcdBegin"@)
    } else if code == 4 {
        Some("VcdFork"@)
    } else if code == 5 {
        Some("VcdGenerate"@)
    } else if code == 6 {
        Some("VcdStruct"@)
    } else if code == 7 {
        Some("VcdUnion"@)
    } else if code == 8 {
        Some("VcdClass"@)
    } else if code == 9 {
        Some("VcdInterface"@)
    } else if code == 10 {
        Some("VcdPackage"@)
    } else if code == 11 {
        Some("VcdProgram"@)
    } else if code == 12 {
        Some("VhdlArchitecture"@)
    } else if code == 13 {
        Some("VhdlProcedure"@)
    } else if code == 14 {
        Some("VhdlFunction"@)
    } else if code == 15 {
        Some("VhdlRecord"@)
    } else if code == 16 {
        Some("VhdlProcess"@)
    } else if code == 17 {
        Some("VhdlBlock"@)
    } else if code == 18 {
        Some("VhdlForGenerate"@)
    } else if code == 19 {
        Some("VhdlIfGenerate"@)
    } else if code == 20 {
        Some("VhdlGenerate"@)
    } else if code == 21 {
        Some("VhdlPackage"@)
    } else {
        None
    }
}

/// Returns the name of a scope type; `None` for an unknown code.
pub fn scope_type_name(code: u32) -> (r: Option<&'static str>)
    ensures
        str_view(r) == scope_type_name_spec(code),
{
    match code {
        0 => Some("VcdModule"),
        1 => Some("VcdTask"),
        2 => Some("VcdFunction"),
        3 => Some("VcdBegin"),
        4 => Some("VcdFork"),
        5 => Some("VcdGenerate"),
        6 => Some("VcdStruct"),
        7 => Some("VcdUnion"),
        8 => Some("VcdClass"),
        9 => Some("VcdInterface"),
        10 => Some("VcdPackage"),
        11 => Some("VcdProgram"),
        12 => Some("VhdlArchitecture"),
        13 => Some("VhdlProcedure"),
        14 => Some("VhdlFunction"),
        15 => Some("VhdlRecord"),
        16 => Some("VhdlProcess"),
        17 => Some("VhdlBlock"),
        18 => Some("VhdlForGenerate"),
        19 => Some("VhdlIfGenerate"),
        20 => Some("VhdlGenerate"),
        21 => Some("VhdlPackage"),
        _ => None,
    }
}

/// The name of a variable type, if the code is one.
pub open spec fn var_type_name_spec(code: u32) -> Option<Seq<char>> {
    if code == 0 {
        Some("VcdEvent"@)
    } else if code == 1 {
        Some("VcdInteger"@)
    } else if code == 2 {
        Some("VcdParameter"@)
    } else if code == 3 {
        Some("VcdReal"@)
    } else if code == 4 {
        Some("VcdRealParameter"@)
    } else if code == 5 {
        Some("VcdReg"@)
    } else if code == 6 {
        Some("VcdSupply0"@)
    } else if code == 7 {
        Some("VcdSupply1"@)
    } else if code == 8 {
        Some("VcdTime"@)
    } else if code == 9 {
        Some("VcdTri"@)
    } else if code == 10 {
        Some("VcdTriand"@)
    } else if code == 11 {
        Some("VcdTrior"@)
    } else if code == 12 {
        Some("VcdTrireg"@)
    } else if code == 13 {
        Some("VcdTri0"@)
    } else if code == 14 {
        Some("VcdTri1"@)
    } else if code == 15 {
        Some("VcdWand"@)
    } else if code == 16 {
        Some("VcdWire"@)
    } else if code == 17 {
        Some("VcdWor"@)
    } else if code == 18 {
        Some("VcdPort"@)
    } else if code == 19 {
        Some("VcdSparray"@)
    } else if code == 20 {
        Some("VcdRealtime"@)
    } else if code == 21 {
        Some("GenString"@)
    } else if code == 22 {
        Some("SvBit"@)
    } else if code == 23 {
        Some("SvLogic"@)
    } else if code == 24 {
        Some("SvInt"@)
    } else if code == 25 {
        Some("SvShortint"@)
    } else if code == 26 {
        Some("SvLongint"@)
    } else if code == 27 {
        Some("SvByte"@)
    } else if code == 28 {
        Some("SvEnum"@)
    } else if code == 29 {
        Some("SvShortreal"@)
    } else {
        None
    }
}

/// Returns the name of a variable type; `None` for an unknown code.
pub fn var_type_name(code: u32) -> (r: Option<&'static str>)
    ensures
        str_view(r) == var_type_name_spec(code),
{
    match code {
        0 => Some("VcdEvent"),
        1 => Some("VcdInteger"),
        2 => Some("VcdParameter"),
        3 => Some("VcdReal"),
        4 => Some("VcdRealParameter"),
        5 => Some("VcdReg"),
        6 => Some("VcdSupply0"),
        7 => Some("VcdSupply1"),
        8 => Some("VcdTime"),
        9 => Some("VcdTri"),
        10 => Some("VcdTriand"),
        11 => Some("VcdTrior"),
        12 => Some("VcdTrireg"),
        13 => Some("VcdTri0"),
        14 => Some("VcdTri1"),
        15 => Some("VcdWand"),
        16 => Some("VcdWire"),
        17 => Some("VcdWor"),
        18 => Some("VcdPort"),
        19 => Some("VcdSparray"),
        20 => Some("VcdRealtime"),
        21 => Some("GenString"),
        22 => Some("SvBit"),
        23 => Some("SvLogic"),
        24 => Some("SvInt"),
        25 => Some("SvShortint"),
        26 => Some("SvLongint"),
        27 => Some("SvByte"),
        28 => Some("SvEnum"),
        29 => Some("SvShortreal"),
        _ => None,
    }
}

/// The name of a variable direction, if the code is one.
pub open spec fn var_dir_name_spec(code: u32) -> Option<Seq<char>> {
    if code == 0 {
        Some("Implicit"@)
    } else if code == 1 {
        Some("Input"@)
    } else if code == 2 {
        Some("Output"@)
    } else if code == 3 {
        Some("Inout"@)
    } else if code == 4 {
        Some("Buffer"@)
    } else if code == 5 {
        Some("Linkage"@)
    } else {
        None
    }
}

/// Returns the name of a variable direction; `None` for an unknown code.
pub fn var_dir_name(code: u32) -> (r: Option<&'static str>)
    ensures
        str_view(r) == var_dir_name_spec(code),
{
    match code {
        0 => Some("Implicit"),
        1 => Some("Input"),
        2 => Some("Output"),
        3 => Some("Inout"),
        4 => Some("Buffer"),
        5 => Some("Linkage"),
        _ => None,
    }
}

/// The name of a subtype of a miscellaneous attribute, if the code is one.
pub open spec fn misc_type_name_spec(code: u32) -> Option<Seq<char>> {
    if code == 0 {
        Some("Comment"@)
    } else if code == 1 {
        Some("EnvVar"@)
    } else if code == 2 {
        Some("SupVar"@)
    } else if code == 3 {
        Some("PathName"@)
    } else if code == 4 {
        Some("SourceStem"@)
    } else if code == 5 {
        Some("SourceIStem"@)
    } else if code == 6 {
        Some("ValueList"@)
    } else if code == 7 {
        Some("EnumTable"@)
    } else if code == 8 {
        Some("Unknown"@)
    } else {
        None
    }
}

/// Returns the name of a subtype of a miscellaneous attribute; `None` for an unknown code.
pub fn misc_type_name(code: u32) -> (r: Option<&'static str>)
    ensures
        str_view(r) == misc_type_name_spec(code),
{
    match code {
        0 => Some("Comment"),
        1 => Some("EnvVar"),
        2 => Some("SupVar"),
        3 => Some("PathName"),
        4 => Some("SourceStem"),
        5 => Some("SourceIStem"),
        6 => Some("ValueList"),
        7 => Some("EnumTable"),
        8 => Some("Unknown"),
        _ => None,
    }
}

/// The name of a subtype of an array attribute, if the code is one.
pub open spec fn array_type_name_spec(code: u32) -> Option<Seq<char>> {
    if code == 0 {
        Some("None"@)
    } else if code == 1 {
        Some("Unpacked"@)
    } else if code == 2 {
        Some("Packed"@)
    } else if code == 3 {
        Some("Sparse"@)
    } else {
        None
    }
}

/// Returns the name of a subtype of an array attribute; `None` for an unknown code.
pub fn array_type_name(code: u32) -> (r: Option<&'static str>)
    ensures
        str_view(r) == array_type_name_spec(code),
{
    match code {
        0 => Some("None"),
        1 => Some("Unpacked"),
        2 => Some("Packed"),
        3 => Some("Sparse"),
        _ => None,
    }
}

/// The name of a subtype of an enumeration attribute, if the code is one.
pub open spec fn enum_value_type_name_spec(code: u32) -> Option<Seq<char>> {
    if code == 0 {
        Some("SvInteger"@)
    } else if code == 1 {
        Some("SvBit"@)
    } else if code == 2 {
        Some("SvLogic"@)
    } else if code == 3 {
        Some("SvInt"@)
    } else if code == 4 {
        Some("SvShortint"@)
    } else if code == 5 {
        Some("SvLongint"@)
    } else if code == 6 {
        Some("SvByte"@)
    } else if code == 7 {
        Some("SvUnsignedInteger"@)
    } else if code == 8 {
        Some("SvUnsignedBit"@)
    } else if code == 9 {
        Some("SvUnsignedLogic"@)
    } else if code == 10 {
        Some("SvUnsignedInt"@)
    } else if code == 11 {
        Some("SvUnsignedShortint"@)
    } else if code == 12 {
        Some("SvUnsignedLongint"@)
    } else if code == 13 {
        Some("SvUnsignedByte"@)
    } else if code == 14 {
        Some("Reg"@)
    } else if code == 15 {
        Some("Time"@)
    } else {
        None
    }
}

/// Returns the name of a subtype of an enumeration attribute; `None` for an unknown code.
pub fn enum_value_type_name(code: u32) -> (r: Option<&'static str>)
    ensures
        str_view(r) == enum_value_type_name_spec(code),
{
    match code {
        0 => Some("SvInteger"),
        1 => Some("SvBit"),
        2 => Some("SvLogic"),
        3 => Some("SvInt"),
        4 => Some("SvShortint"),
        5 => Some("SvLongint"),
        6 => Some("SvByte"),
        7 => Some("SvUnsignedInteger"),
        8 => Some("SvUnsignedBit"),
        9 => Some("SvUnsignedLogic"),
        10 => Some("SvUnsignedInt"),
        11 => Some("SvUnsignedShortint"),
        12 => Some("SvUnsignedLongint"),
        13 => Some("SvUnsignedByte"),
        14 => Some("Reg"),
        15 => Some("Time"),
        _ => None,
    }
}

/// The name of a subtype of a packing attribute, if the code is one.
pub open spec fn pack_type_name_spec(code: u32) -> Option<Seq<char>> {
    if code == 0 {
        Some("None"@)
    } else if code == 1 {
        Some("Unpacked"@)
    } else if code == 2 {
        Some("Packed"@)
    } else if code == 3 {
        Some("TaggedPacked"@)
    } else {
        None
    }
}

/// Returns the name of a subtype of a packing attribute; `None` for an unknown code.
pub fn pack_type_name(code: u32) -> (r: Option<&'static str>)
    ensures
        str_view(r) == pack_type_name_spec(code),
{
    match code {
        0 => Some("None"),
        1 => Some("Unpacked"),
        2 => Some("Packed"),
        3 => Some("TaggedPacked"),
        _ => None,
    }
}
/// The unit of a timescale exponent `ts` (the unit is 10 to the `ts` seconds),
/// if it has one.
pub open spec fn timescale_spec(ts: i32) -> Option<Seq<char>> {
    if ts == -21 {
        Some("1zs"@)
    } else if ts == -20 {
        Some("10zs"@)
    } else if ts == -19 {
        Some("100zs"@)
    } else if ts == -18 {
        Some("1as"@)
    } else if ts == -17 {
        Some("10as"@)
    } else if ts == -16 {
        Some("100as"@)
    } else if ts == -15 {
        Some("1fs"@)
    } else if ts == -14 {
        Some("10fs"@)
    } else if ts == -13 {
        Some("100fs"@)
    } else if ts == -12 {
        Some("1ps"@)
    } else if ts == -11 {
        Some("10ps"@)
    } else if ts == -10 {
        Some("100ps"@)
    } else if ts == -9 {
        Some("1ns"@)
    } else if ts == -8 {
        Some("10ns"@)
    } else if ts == -7 {
        Some("100ns"@)
    } else if ts == -6 {
        Some("1us"@)
    } else if ts == -5 {
        Some("10us"@)
    } else if ts == -4 {
        Some("100us"@)
    } else if ts == -3 {
        Some("1ms"@)
    } else if ts == -2 {
        Some("10ms"@)
    } else if ts == -1 {
        Some("100ms"@)
    } else if ts == 0 {
        Some("1s"@)
    } else if ts == 1 {
        Some("10s"@)
    } else if ts == 2 {
        Some("100s"@)
    } else {
        None
    }
}

/// Returns the unit of a timescale exponent; `None` outside 1zs to 100s.
pub fn timescale_str(ts: i32) -> (r: Option<&'static str>)
    ensures
        str_view(r) == timescale_spec(ts),
{
    match ts {
        -21 => Some("1zs"),
        -20 => Some("10zs"),
        -19 => Some("100zs"),
        -18 => Some("1as"),
        -17 => Some("10as"),
        -16 => Some("100as"),
        -15 => Some("1fs"),
        -14 => Some("10fs"),
        -13 => Some("100fs"),
        -12 => Some("1ps"),
        -11 => Some("10ps"),
        -10 => Some("100ps"),
        -9 => Some("1ns"),
        -8 => Some("10ns"),
        -7 => Some("100ns"),
        -6 => Some("1us"),
        -5 => Some("10us"),
        -4 => Some("100us"),
        -3 => Some("1ms"),
        -2 => Some("10ms"),
        -1 => Some("100ms"),
        0 => Some("1s"),
        1 => Some("10s"),
        2 => Some("100s"),
        _ => None,
    }
}

impl Reader {
    /// Returns the unit of the trace's timescale; `None` outside 1zs to 100s.
    pub fn timescale_str(&self) -> (r: Option<&'static str>)
        ensures
            str_view(r) == timescale_spec(self.timescale),
    {
        timescale_str(self.timescale)
    }
}

/// The names of an attribute's type and subtype, if both codes are known.
pub open spec fn attr_names_spec(ty: u32, subtype: u32) -> Option<(Seq<char>, Seq<char>)> {
    let (t, sub) = if ty == 0 {
        (Some("Misc"@), misc_type_name_spec(subtype))
    } else if ty == 1 {
        (Some("Array"@), array_type_name_spec(subtype))
    } else if ty == 2 {
        (Some("Enum"@), enum_value_type_name_spec(subtype))
    } else if ty == 3 {
        (Some("Pack"@), pack_type_name_spec(subtype))
    } else {
        (None, None)
    };
    match (t, sub) {
        (Some(a), Some(b)) => Some((a, b)),
        _ => None,
    }
}

/// Returns the names of an attribute's type and subtype; `None` if either
/// code is unknown.
pub fn attr_names(ty: u32, subtype: u32) -> (r: Option<(&'static str, &'static str)>)
    ensures
        match r {
            Some((a, b)) => attr_names_spec(ty, subtype) == Some((a@, b@)),
            None => attr_names_spec(ty, subtype) is None,
        },
{
    let (t, sub) = match ty {
        0 => ("Misc", misc_type_name(subtype)),
        1 => ("Array", array_type_name(subtype)),
        2 => ("Enum", enum_value_type_name(subtype)),
        3 => ("Pack", pack_type_name(subtype)),
        _ => return None,
    };
    match sub {
        Some(s) => Some((t, s)),
        None => None,
    }
}

/// The name of a file type.
pub open spec fn file_type_name_spec(ft: u32) -> Seq<char> {
    if ft == 0 {
        "Verilog"@
    } else if ft == 1 {
        "VHDL"@
    } else if ft == 2 {
        "Verilog/VHDL"@
    } else {
        "Unknown"@
    }
}

/// Returns the name of a file type, `"Unknown"` for an unknown code.
pub fn file_type_name(ft: u32) -> (r: &'static str)
    ensures
        r@ == file_type_name_spec(ft),
{
    match ft {
        0 => "Verilog",
        1 => "VHDL",
        2 => "Verilog/VHDL",
        _ => "Unknown",
    }
}

/// Packing method of the value change data of a written trace.
#[derive(Clone, Copy, Debug, PartialEq, Eq)]
pub enum PackType {
    /// LZ4.
    Lz4,
    /// FastLZ.
    FastLz,
    /// zlib.
    Zlib,
}

impl PackType {
    /// The code of the packing method in a written trace.
    pub open spec fn code(self) -> WriterPackType {
        match self {
            PackType::Zlib => 0,
            PackType::FastLz => 1,
            PackType::Lz4 => 2,
        }
    }

    /// Returns the code of the packing method in a written trace.
    pub fn to_code(self) -> (r: WriterPackType)
        ensures
            r == self.code(),
    {
        match self {
            PackType::Zlib => 0,
            PackType::FastLz => 1,
            PackType::Lz4 => 2,
        }
    }
}

/// A scope, named for listing.
pub struct ScopeInfo {
    pub ty: &'static str,
    pub name: String,
    pub component: String,
}

impl ScopeInfo {
    /// Describes `scope`; `None` if its type code is unknown.
    pub fn new(scope: &Scope) -> (r: Option<ScopeInfo>)
        ensures
            r is Some <==> scope_type_name_spec(scope.ty) is Some,
            r matches Some(i) ==> {
                &&& Some(i.ty@) == scope_type_name_spec(scope.ty)
                &&& i.name@ == scope.name@
                &&& i.component@ == scope.component@
            },
    {
        match scope_type_name(scope.ty) {
            Some(ty) => Some(
                ScopeInfo {
                    ty,
                    name: scope.name.as_str().to_owned(),
                    component: scope.component.as_str().to_owned(),
                },
            ),
            None => None,
        }
    }
}

/// An attribute, named for listing.
pub struct AttrInfo {
    pub ty: &'static str,
    pub subtype: &'static str,
    pub name: String,
    pub arg: u64,
    pub arg_from_name: u64,
}

impl AttrInfo {
    /// Describes `attr`; `None` if its type or subtype code is unknown.
    pub fn new(attr: &Attr) -> (r: Option<AttrInfo>)
        ensures
            r is Some <==> attr_names_spec(attr.ty, attr.subtype) is Some,
            r matches Some(i) ==> {
                &&& attr_names_spec(attr.ty, attr.subtype) == Some((i.ty@, i.subtype@))
                &&& i.name@ == attr.name@
                &&& i.arg == attr.arg
                &&& i.arg_from_name == attr.arg_from_name
            },
    {
        match attr_names(attr.ty, attr.subtype) {
            Some((ty, subtype)) => Some(
                AttrInfo {
                    ty,
                    subtype,
                    name: attr.name.as_str().to_owned(),
                    arg: attr.arg,
                    arg_from_name: attr.arg_from_name,
                },
            ),
            None => None,
        }
    }
}

/// A variable, named for listing.
pub struct VarInfo {
    pub handle: u32,
    pub ty: &'static str,
    pub direction: &'static str,
    pub name: String,
    pub length: u32,
    pub alias_of: String,
}

impl VarInfo {
    /// Describes `var`, whose qualified name is `name` and which aliases the
    /// variable named `alias_of` (empty for none); `None` if its type or
    /// direction code is unknown.
    pub fn new(name: &str, var: &Var, alias_of: &str) -> (r: Option<VarInfo>)
        ensures
            r is Some <==> var_type_name_spec(var.ty) is Some && var_dir_name_spec(var.direction) is Some,
            r matches Some(i) ==> {
                &&& Some(i.ty@) == var_type_name_spec(var.ty)
                &&& Some(i.direction@) == var_dir_name_spec(var.direction)
                &&& i.handle == var.handle.id()
                &&& i.name@ == name@
                &&& i.length == var.length
                &&& i.alias_of@ == alias_of@
            },
    {
        let ty = match var_type_name(var.ty) {
            Some(t) => t,
            None => return None,
        };
        let direction = match var_dir_name(var.direction) {
            Some(d) => d,
            None => return None,
        };
        Some(
            VarInfo {
                handle: var.handle.get(),
                ty,
                direction,
                name: name.to_owned(),
                length: var.length,
                alias_of: alias_of.to_owned(),
            },
        )
    }
}

/// What a trace states of itself, named for listing.
pub struct Metadata {
    pub date: String,
    pub version: String,
    pub file_type: &'static str,
    pub timescale: &'static str,
    pub timezero: i64,
    pub start_time: u64,
    pub end_time: u64,
    pub num_scopes: u64,
    pub num_vars: u64,
    pub num_aliases: u64,
}

impl Metadata {
    /// Describes the trace `reader`.
    pub fn new(reader: &Reader) -> (r: Metadata)
        ensures
            r.date@ == trimmed(reader.date@),
            r.version@ == trimmed(reader.version@),
            r.file_type@ == file_type_name_spec(reader.file_type),
            r.timescale@ == match timescale_spec(reader.timescale) {
                Some(t) => t,
                None => "Unknown"@,
            },
            r.timezero == reader.timezero,
            r.start_time == reader.start_time,
            r.end_time == reader.end_time,
            r.num_scopes == reader.scope_count,
            r.num_vars == reader.var_count,
            r.num_aliases == reader.alias_count,
    {
        Metadata {
            date: trim(reader.date.as_str()),
            version: trim(reader.version.as_str()),
            file_type: file_type_name(reader.file_type),
            timescale: match timescale_str(reader.timescale) {
                Some(t) => t,
                None => "Unknown",
            },
            timezero: reader.timezero,
            start_time: reader.start_time,
            end_time: reader.end_time,
            num_scopes: reader.scope_count,
            num_vars: reader.var_count,
            num_aliases: reader.alias_count,
        }
    }
}

/// The scopes of the hierarchy `hs`, in order.
pub open spec fn scopes_of(hs: Seq<Hier>) -> Seq<Scope>
    decreases hs.len(),
{
    if hs.len() == 0 {
        Seq::empty()
    } else {
        match hs.last() {
            Hier::Scope(s) => scopes_of(hs.drop_last()).push(s),
            _ => scopes_of(hs.drop_last()),
        }
    }
}

/// The attributes opened in the hierarchy `hs`, in order.
pub open spec fn attrs_of(hs: Seq<Hier>) -> Seq<Attr>
    decreases hs.len(),
{
    if hs.len() == 0 {
        Seq::empty()
    } else {
        match hs.last() {
            Hier::AttrBegin(a) => attrs_of(hs.drop_last()).push(a),
            _ => attrs_of(hs.drop_last()),
        }
    }
}

/// Whether `i` describes `s`.
pub open spec fn describes_scope(i: ScopeInfo, s: Scope) -> bool {
    &&& Some(i.ty@) == scope_type_name_spec(s.ty)
    &&& i.name@ == s.name@
    &&& i.component@ == s.component@
}

/// Whether `i` describes `a`.
pub open spec fn describes_attr(i: AttrInfo, a: Attr) -> bool {
    &&& attr_names_spec(a.ty, a.subtype) == Some((i.ty@, i.subtype@))
    &&& i.name@ == a.name@
    &&& i.arg == a.arg
    &&& i.arg_from_name == a.arg_from_name
}

/// The scopes of a trace, named for listing.
pub struct Scopes {
    scopes: Vec<ScopeInfo>,
}

impl Scopes {
    /// The descriptions, in order.
    pub closed spec fn infos(&self) -> Seq<ScopeInfo> {
        self.scopes@
    }

    /// Describes every scope of `reader`, in order; `None` if a scope type
    /// code is unknown.
    pub fn new(reader: &Reader) -> (r: Option<Scopes>)
        ensures
            r is None <==> exists|k: int|
                0 <= k < scopes_of(reader.hiers@).len() && scope_type_name_spec(
                    (#[trigger] scopes_of(reader.hiers@)[k]).ty,
                ) is None,
            r matches Some(s) ==> {
                &&& s.infos().len() == scopes_of(reader.hiers@).len()
                &&& forall|k: int| 0 <= k < s.infos().len() ==> describes_scope(#[trigger] s.infos()[k], scopes_of(reader.hiers@)[k])
            },
    {
        let hs = &reader.hiers;
        let mut scopes: Vec<ScopeInfo> = Vec::new();
        let mut i: usize = 0;
        while i < hs.len()
            invariant
                0 <= i <= hs.len(),
                hs@ == reader.hiers@,
                scopes@.len() == scopes_of(hs@.take(i as int)).len(),
                forall|k: int| 0 <= k < scopes@.len() ==> describes_scope(#[trigger] scopes@[k], scopes_of(hs@.take(i as int))[k]),
                forall|k: int| 0 <= k < scopes@.len() ==> scope_type_name_spec(#[trigger] scopes_of(hs@.take(i as int))[k].ty) is Some,
            decreases hs.len() - i,
        {
            assert(hs@.take(i + 1).drop_last() =~= hs@.take(i as int));
            if let Hier::Scope(s) = &hs[i] {
                match ScopeInfo::new(s) {
                    Some(info) => scopes.push(info),
                    None => {
                        proof {
                            lemma_scopes_of_prefix(hs@, i + 1);
                            assert(scopes_of(hs@.take(i + 1)) == scopes_of(hs@.take(i as int)).push(*s));
                            assert(scopes_of(hs@)[scopes@.len() as int] == *s);
                            assert(hs@ == reader.hiers@);
                            assert(scope_type_name_spec(scopes_of(reader.hiers@)[scopes@.len() as int].ty) is None);
                        }
                        return None;
                    },
                }
            }
            i = i + 1;
        }
        assert(hs@.take(i as int) =~= hs@);
        Some(Scopes { scopes })
    }

    /// The descriptions, in order.
    pub fn scopes(&self) -> (r: &Vec<ScopeInfo>)
        ensures
            r@ == self.infos(),
    {
        &self.scopes
    }
}

proof fn lemma_scopes_of_prefix(hs: Seq<Hier>, i: int)
    requires
        0 <= i <= hs.len(),
    ensures
        scopes_of(hs.take(i)).len() <= scopes_of(hs).len(),
        forall|k: int| 0 <= k < scopes_of(hs.take(i)).len() ==> #[trigger] scopes_of(hs)[k] == scopes_of(hs.take(i))[k],
    decreases hs.len() - i,
{
    if i < hs.len() {
        assert(hs.take(i + 1).drop_last() =~= hs.take(i));
        lemma_scopes_of_prefix(hs, i + 1);
    } else {
        assert(hs.take(i) =~= hs);
    }
}

proof fn lemma_attrs_of_prefix(hs: Seq<Hier>, i: int)
    requires
        0 <= i <= hs.len(),
    ensures
        attrs_of(hs.take(i)).len() <= attrs_of(hs).len(),
        forall|k: int| 0 <= k < attrs_of(hs.take(i)).len() ==> #[trigger] attrs_of(hs)[k] == attrs_of(hs.take(i))[k],
    decreases hs.len() - i,
{
    if i < hs.len() {
        assert(hs.take(i + 1).drop_last() =~= hs.take(i));
        lemma_attrs_of_prefix(hs, i + 1);
    } else {
        assert(hs.take(i) =~= hs);
    }
}

/// The attributes of a trace, named for listing.
pub struct Attrs {
    attrs: Vec<AttrInfo>,
}

impl Attrs {
    /// The descriptions, in order.
    pub closed spec fn infos(&self) -> Seq<AttrInfo> {
        self.attrs@
    }

    /// Describes every attribute of `reader`, in order; `None` if a type or
    /// subtype code is unknown.
    pub fn new(reader: &Reader) -> (r: Option<Attrs>)
        ensures
            r is None <==> exists|k: int|
                0 <= k < attrs_of(reader.hiers@).len() && attr_names_spec((#[trigger] attrs_of(reader.hiers@)[k]).ty, attrs_of(reader.hiers@)[k].subtype) is None,
            r matches Some(s) ==> {
                &&& s.infos().len() == attrs_of(reader.hiers@).len()
                &&& forall|k: int| 0 <= k < s.infos().len() ==> describes_attr(#[trigger] s.infos()[k], attrs_of(reader.hiers@)[k])
            },
    {
        let hs = &reader.hiers;
        let mut attrs: Vec<AttrInfo> = Vec::new();
        let mut i: usize = 0;
        while i < hs.len()
            invariant
                0 <= i <= hs.len(),
                hs@ == reader.hiers@,
                attrs@.len() == attrs_of(hs@.take(i as int)).len(),
                forall|k: int| 0 <= k < attrs@.len() ==> describes_attr(#[trigger] attrs@[k], attrs_of(hs@.take(i as int))[k]),
                forall|k: int| 0 <= k < attrs@.len() ==> attr_names_spec((#[trigger] attrs_of(hs@.take(i as int))[k]).ty, attrs_of(hs@.take(i as int))[k].subtype) is Some,
            decreases hs.len() - i,
        {
            assert(hs@.take(i + 1).drop_last() =~= hs@.take(i as int));
            if let Hier::AttrBegin(a) = &hs[i] {
                match AttrInfo::new(a) {
                    Some(info) => attrs.push(info),
                    None => {
                        proof {
                            lemma_attrs_of_prefix(hs@, i + 1);
                            assert(attrs_of(hs@.take(i + 1)) == attrs_of(hs@.take(i as int)).push(*a));
                            assert(attrs_of(hs@)[attrs@.len() as int] == *a);
                            assert(hs@ == reader.hiers@);
                            assert(attr_names_spec(attrs_of(reader.hiers@)[attrs@.len() as int].ty, attrs_of(reader.hiers@)[attrs@.len() as int].subtype) is None);
                        }
                        return None;
                    },
                }
            }
            i = i + 1;
        }
        assert(hs@.take(i as int) =~= hs@);
        Some(Attrs { attrs })
    }

    /// The descriptions, in order.
    pub fn attrs(&self) -> (r: &Vec<AttrInfo>)
        ensures
            r@ == self.infos(),
    {
        &self.attrs
    }
}

/// Whether the variable at a position of `hs` is listed: all are, but the
/// aliases when `no_aliases`.
pub open spec fn listed(hs: Seq<Hier>, no_aliases: bool) -> spec_fn(int) -> bool {
    |p: int| !(no_aliases && (hs[p]->Var_0).alias)
}

/// Whether `i` describes the variable `v`, of qualified name `name`.
pub open spec fn describes_var(i: VarInfo, v: Var, name: Seq<char>) -> bool {
    &&& Some(i.ty@) == var_type_name_spec(v.ty)
    &&& Some(i.direction@) == var_dir_name_spec(v.direction)
    &&& i.handle == v.handle.id()
    &&& i.name@ == name
    &&& i.length == v.length
}

/// Whether the variable at position `q` of `hs` is no alias and of handle
/// `h`.
pub open spec fn owns(hs: Seq<Hier>, q: int, h: u32) -> bool {
    0 <= q < hs.len() && hs[q] is Var && !(hs[q]->Var_0).alias && (hs[q]->Var_0).handle.id() == h
}

/// Whether the type and direction codes of `v` are known.
pub open spec fn codes_known(v: Var) -> bool {
    var_type_name_spec(v.ty) is Some && var_dir_name_spec(v.direction) is Some
}

/// Whether the `k`-th variable of `hs` can be listed: an alias, unless left
/// out, comes after a variable of its handle that is no alias; a variable
/// that is no alias is the first of its handle; and a listed variable has
/// known codes.
pub open spec fn var_ok(hs: Seq<Hier>, no_aliases: bool, k: int) -> bool {
    let ps = var_positions(hs);
    let v = hs[ps[k]]->Var_0;
    let h = v.handle.id();
    let owned = exists|j: int| 0 <= j < k && #[trigger] owns(hs, ps[j], h);
    if v.alias {
        no_aliases || (owned && codes_known(v))
    } else {
        !owned && codes_known(v)
    }
}

/// Whether every variable of `hs` can be listed.
pub open spec fn variables_ok(hs: Seq<Hier>, no_aliases: bool) -> bool {
    forall|k: int| 0 <= k < var_positions(hs).len() ==> #[trigger] var_ok(hs, no_aliases, k)
}

/// Whether `vars` describes the variables at positions `ps` of `hs`.
pub open spec fn list_inv(hs: Seq<Hier>, ps: Seq<int>, vars: Seq<VarInfo>) -> bool {
    &&& vars.len() == ps.len()
    &&& forall|j: int| 0 <= j < ps.len() ==> {
        let v = hs[ps[j]]->Var_0;
        &&& describes_var(#[trigger] vars[j], v, var_name_at(hs, ps[j]))
        &&& !v.alias ==> vars[j].alias_of@ == Seq::<char>::empty()
        &&& v.alias ==> exists|q: int| #[trigger] owns(hs, q, v.handle.id()) && q < ps[j]
            && vars[j].alias_of@ == var_name_at(hs, q)
    }
}

/// The variables of a trace, named for listing.
pub struct Variables {
    vars: Vec<VarInfo>,
}

impl Variables {
    /// The descriptions, in order.
    pub closed spec fn infos(&self) -> Seq<VarInfo> {
        self.vars@
    }

    /// Describes the variables of `reader` in order, leaving out the aliases
    /// if `no_aliases`; an alias is described with the name of the variable
    /// that it aliases. `None` if a code is unknown, two variables that are
    /// no alias share a handle, or a listed alias comes before any variable
    /// of its handle.
    pub fn new(reader: &Reader, no_aliases: bool) -> (r: Option<Variables>)
        ensures
            r is Some <==> variables_ok(reader.hiers@, no_aliases),
            r matches Some(vs) ==> {
                let ps = var_positions(reader.hiers@).filter(listed(reader.hiers@, no_aliases));
                &&& vs.infos().len() == ps.len()
                &&& forall|k: int| 0 <= k < ps.len() ==> {
                    let v = reader.hiers@[ps[k]]->Var_0;
                    &&& describes_var(#[trigger] vs.infos()[k], v, var_name_at(reader.hiers@, ps[k]))
                    &&& !v.alias ==> vs.infos()[k].alias_of@ == Seq::<char>::empty()
                    &&& v.alias ==> exists|q: int| #[trigger] owns(reader.hiers@, q, v.handle.id()) && q < ps[k]
                        && vs.infos()[k].alias_of@ == var_name_at(reader.hiers@, q)
                }
            },
    {
        let hs = &reader.hiers;
        let names = var_names(hs);
        let ghost ps_all = var_positions(hs@);
        let ghost keep = listed(hs@, no_aliases);
        proof {
            crate::checker::lemma_positions_are_vars(hs@);
        }
        let mut owners: HashMap<u32, usize> = HashMap::new();
        let mut vars: Vec<VarInfo> = Vec::new();
        let mut k: usize = 0;
        while k < names.len()
            invariant
                hs@ == reader.hiers@,
                0 <= k <= names@.len(),
                names@.len() == ps_all.len(),
                ps_all == var_positions(hs@),
                keep == listed(hs@, no_aliases),
                forall|j: int| 0 <= j < names@.len() ==> {
                    &&& (#[trigger] names@[j]).1 == ps_all[j]
                    &&& names@[j].0@ == var_name_at(hs@, names@[j].1 as int)
                },
                forall|j: int| 0 <= j < ps_all.len() ==> crate::checker::is_var_at(hs@, #[trigger] ps_all[j]),
                forall|j1: int, j2: int| 0 <= j1 < j2 < ps_all.len() ==> #[trigger] ps_all[j1] < #[trigger] ps_all[j2],
                forall|h: u32| #[trigger] owners@.contains_key(h) ==> {
                    &&& owners@[h] < k
                    &&& owns(hs@, ps_all[owners@[h] as int], h)
                },
                forall|j: int, h: u32| 0 <= j < k && #[trigger] owns(hs@, ps_all[j], h) ==> owners@.contains_key(h),
                forall|j: int| 0 <= j < k ==> #[trigger] var_ok(hs@, no_aliases, j),
                list_inv(hs@, ps_all.take(k as int).filter(keep), vars@),
            decreases names@.len() - k,
        {
            proof {
                reveal(Seq::filter);
            }
            let idx = names[k].1;
            assert(crate::checker::is_var_at(hs@, ps_all[k as int]));
            assert(ps_all.take(k + 1).drop_last() =~= ps_all.take(k as int));
            assert(ps_all.take(k + 1).last() == ps_all[k as int]);
            if let Hier::Var(v) = &hs[idx] {
                let h = v.handle.get();
                let ghost old_vars = vars@;
                if v.alias {
                    if !no_aliases {
                        let owner = match owners.get(&h) {
                            Some(o) => *o,
                            None => {
                                proof {
                                    assert(!var_ok(hs@, no_aliases, k as int));
                                }
                                return None;
                            },
                        };
                        let info = match VarInfo::new(names[k].0.as_str(), v, names[owner].0.as_str()) {
                            Some(i) => i,
                            None => {
                                proof {
                                    assert(!var_ok(hs@, no_aliases, k as int));
                                }
                                return None;
                            },
                        };
                        vars.push(info);
                        proof {
                            let q = ps_all[owner as int];
                            assert(owns(hs@, q, h));
                            assert(var_ok(hs@, no_aliases, k as int));
                            assert(q < ps_all[k as int]);
                            assert(ps_all.take(k + 1).filter(keep) == ps_all.take(k as int).filter(keep).push(ps_all[k as int]));
                            assert forall|j: int| 0 <= j < old_vars.len() implies #[trigger] vars@[j] == old_vars[j] by {}
                            assert(list_inv(hs@, ps_all.take(k + 1).filter(keep), vars@));
                        }
                    } else {
                        assert(ps_all.take(k + 1).filter(keep) == ps_all.take(k as int).filter(keep));
                        assert(var_ok(hs@, no_aliases, k as int));
                        assert(list_inv(hs@, ps_all.take(k + 1).filter(keep), vars@));
                    }
                    assert forall|j: int, h2: u32| 0 <= j < k + 1 && #[trigger] owns(hs@, ps_all[j], h2) implies owners@.contains_key(h2) by {
                        if j == k {
                            assert(false);
                        }
                    }
                } else {
                    if owners.contains_key(&h) {
                        proof {
                            assert(owns(hs@, ps_all[owners@[h] as int], h));
                            assert(!var_ok(hs@, no_aliases, k as int));
                        }
                        return None;
                    }
                    let info = match VarInfo::new(names[k].0.as_str(), v, "") {
                        Some(i) => i,
                        None => {
                            proof {
                                assert(!var_ok(hs@, no_aliases, k as int));
                            }
                            return None;
                        },
                    };
                    assert(var_ok(hs@, no_aliases, k as int));
                    proof {
                        reveal_strlit("");
                        assert(info.alias_of@ =~= Seq::<char>::empty());
                    }
                    vars.push(info);
                    owners.insert(h, k);
                    proof {
                        assert(owns(hs@, ps_all[k as int], h));
                        assert forall|j: int, h2: u32| 0 <= j < k + 1 && #[trigger] owns(hs@, ps_all[j], h2) implies owners@.contains_key(h2) by {
                            if j == k {
                                assert(h2 == h);
                            }
                        }
                        assert(ps_all.take(k + 1).filter(keep) == ps_all.take(k as int).filter(keep).push(ps_all[k as int]));
                        assert forall|j: int| 0 <= j < old_vars.len() implies #[trigger] vars@[j] == old_vars[j] by {}
                        let nps = ps_all.take(k + 1).filter(keep);
                        assert(nps[old_vars.len() as int] == ps_all[k as int]);
                        assert(hs@[ps_all[k as int]] == Hier::Var(*v));
                        assert(describes_var(vars@[old_vars.len() as int], *v, var_name_at(hs@, ps_all[k as int])));
                        assert(list_inv(hs@, nps, vars@));
                    }
                }
            }
            k = k + 1;
        }
        assert(ps_all.take(k as int) =~= ps_all);
        Some(Variables { vars })
    }

    /// The descriptions, in order.
    pub fn vars(&self) -> (r: &Vec<VarInfo>)
        ensures
            r@ == self.infos(),
    {
        &self.vars
    }
}

/// The variables of a trace that are no alias, named for listing.
pub struct NoAliasesVars(pub Variables);

impl NoAliasesVars {
    /// Describes the variables of `reader` that are no alias, in order.
    pub fn new(reader: &Reader) -> (r: Option<NoAliasesVars>)
        ensures
            r is Some <==> variables_ok(reader.hiers@, true),
            r matches Some(vs) ==> {
                let ps = var_positions(reader.hiers@).filter(listed(reader.hiers@, true));
                &&& vs.0.infos().len() == ps.len()
                &&& forall|k: int| 0 <= k < ps.len() ==> {
                    &&& describes_var(#[trigger] vs.0.infos()[k], reader.hiers@[ps[k]]->Var_0, var_name_at(reader.hiers@, ps[k]))
                    &&& vs.0.infos()[k].alias_of@ == Seq::<char>::empty()
                }
            },
    {
        match Variables::new(reader, true) {
            Some(v) => {
                proof {
                    let ps = var_positions(reader.hiers@).filter(listed(reader.hiers@, true));
                    var_positions(reader.hiers@).filter_lemma(listed(reader.hiers@, true));
                    assert forall|k: int| 0 <= k < ps.len() implies !(reader.hiers@[ps[k]]->Var_0).alias by {
                        assert(listed(reader.hiers@, true)(ps[k]));
                    }
                }
                Some(NoAliasesVars(v))
            },
            None => None,
        }
    }
}

} // verus!
