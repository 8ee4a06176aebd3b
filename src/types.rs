//! Hierarchy entries and value changes of a trace, as plain values.
use vstd::prelude::*;

verus! {

/// Type of a scope (module, task, function, ...).
pub type ScopeType = u32;

/// Type of a variable (wire, reg, integer, ...).
pub type VarType = u32;

/// Direction of a variable (input, output, ...).
pub type VarDir = u32;

/// Type of an attribute.
pub type AttrType = u32;

/// Identifier of a signal in a trace: a non-zero 32-bit integer.
#[derive(Clone, Copy, Debug, PartialEq, Eq, Hash)]
pub struct Handle {
    id: u32,
}

impl Handle {
    #[verifier::type_invariant]
    spec fn non_zero(self) -> bool {
        self.id != 0
    }

    /// The integer that identifies the signal.
    pub closed spec fn id(self) -> u32 {
        self.id
    }

    /// Creates a handle from its integer; `None` for zero.
    pub fn new(n: u32) -> (r: Option<Handle>)
        ensures
            r is Some <==> n != 0,
            r matches Some(h) ==> h.id() == n,
    {
        if n == 0 {
            None
        } else {
            Some(Handle { id: n })
        }
    }

    /// Creates a handle from a non-zero integer.
    pub fn from_non_zero(n: u32) -> (r: Handle)
        requires
            n != 0,
        ensures
            r.id() == n,
    {
        Handle { id: n }
    }

    /// Returns the integer that identifies the signal.
    pub fn get(self) -> (r: u32)
        ensures
            r == self.id(),
            r != 0,
    {
        proof {
            use_type_invariant(self);
        }
        self.id
    }
}

/// A scope entry of a hierarchy.
#[derive(Clone, Debug)]
pub struct Scope {
    pub ty: ScopeType,
    pub name: String,
    pub component: String,
}

impl Scope {
    /// Returns the scope type.
    pub fn ty(&self) -> (r: ScopeType)
        ensures
            r == self.ty,
    {
        self.ty
    }

    /// Returns the scope name.
    pub fn name(&self) -> (r: &str)
        ensures
            r@ == self.name@,
    {
        self.name.as_str()
    }

    /// Returns the scope component.
    pub fn component(&self) -> (r: &str)
        ensures
            r@ == self.component@,
    {
        self.component.as_str()
    }
}

/// A variable entry of a hierarchy.
#[derive(Clone, Debug)]
pub struct Var {
    pub ty: VarType,
    pub direction: VarDir,
    pub length: u32,
    pub name: String,
    pub handle: Handle,
    pub alias: bool,
}

impl Var {
    /// Returns the variable type.
    pub fn ty(&self) -> (r: VarType)
        ensures
            r == self.ty,
    {
        self.ty
    }

    /// Returns the variable direction.
    pub fn direction(&self) -> (r: VarDir)
        ensures
            r == self.direction,
    {
        self.direction
    }

    /// Returns the variable name, relative to the enclosing scopes.
    pub fn name(&self) -> (r: &str)
        ensures
            r@ == self.name@,
    {
        self.name.as_str()
    }

    /// Returns the length of the variable in bits.
    pub fn length(&self) -> (r: u32)
        ensures
            r == self.length,
    {
        self.length
    }

    /// Returns the handle of the signal whose changes the variable carries.
    pub fn handle(&self) -> (r: Handle)
        ensures
            r == self.handle,
    {
        self.handle
    }

    /// Returns `true` if the variable shares the changes of an earlier one.
    pub fn is_alias(&self) -> (r: bool)
        ensures
            r == self.alias,
    {
        self.alias
    }
}

/// An attribute entry of a hierarchy.
#[derive(Clone, Debug)]
pub struct Attr {
    pub ty: AttrType,
    pub subtype: u32,
    pub name: String,
    pub arg: u64,
    pub arg_from_name: u64,
}

impl Attr {
    /// Returns the attribute type.
    pub fn ty(&self) -> (r: AttrType)
        ensures
            r == self.ty,
    {
        self.ty
    }

    /// Returns the attribute subtype, read according to its type.
    pub fn subtype(&self) -> (r: u32)
        ensures
            r == self.subtype,
    {
        self.subtype
    }

    /// Returns the attribute name.
    pub fn name(&self) -> (r: &str)
        ensures
            r@ == self.name@,
    {
        self.name.as_str()
    }

    /// Returns the attribute argument.
    pub fn arg(&self) -> (r: u64)
        ensures
            r == self.arg,
    {
        self.arg
    }

    /// Returns the argument carried by the attribute name.
    pub fn arg_from_name(&self) -> (r: u64)
        ensures
            r == self.arg_from_name,
    {
        self.arg_from_name
    }
}

/// One entry of a trace hierarchy.
#[derive(Clone, Debug)]
pub enum Hier {
    Scope(Scope),
    Upscope,
    Var(Var),
    AttrBegin(Attr),
    AttrEnd,
}

/// A value change of a trace: at `time`, the signal `handle` takes `value`;
/// `var_len` tells a variable-length value from a fixed-length one.
#[derive(Clone, Debug)]
pub struct ValueChange {
    pub time: u64,
    pub handle: Handle,
    pub value: Vec<u8>,
    pub var_len: bool,
}

/// The mathematical value of a [`ValueChange`].
pub struct Event {
    pub time: u64,
    pub handle: u32,
    pub value: Seq<u8>,
    pub var_len: bool,
}

impl View for ValueChange {
    type V = Event;

    open spec fn view(&self) -> Event {
        Event { time: self.time, handle: self.handle.id(), value: self.value@, var_len: self.var_len }
    }
}

} // verus!
