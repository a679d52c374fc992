//! Guest traps and the events that a resumable virtual CPU hands to its driver.

use vstd::prelude::*;

use crate::slots::{ValType, Value};

verus! {

/// Why a guest stopped.
#[derive(Clone, Copy, Debug, PartialEq, Eq, Structural)]
pub enum Trap {
    /// The guest called `exit` with this code.
    Exit(i32),
    /// A capability handle did not resolve.
    CapFault,
    /// The guest reached `unreachable`.
    Unreachable,
    /// A joined thread had trapped.
    ThreadFault,
    /// Any other fault.
    Other,
}

/// What a virtual CPU stopped for.
#[derive(Debug)]
pub enum VcpuEvent {
    /// The entry function returned.
    Done(Vec<Value>),
    /// The guest trapped.
    Trapped(Trap),
    /// A call to a function that has an emitted body.
    TierUp { func: u32, argv: Vec<i64>, mapped: u64 },
    /// `thread.spawn` of a function of `module`.
    Spawn { func: u32, sp: i64, arg: i64, module: u32 },
    /// `thread.join`.
    Join { handle: i32 },
    /// `memory.wait`.
    Wait { addr: u64, expected: u64, width: u32, timeout: i64 },
    /// `memory.notify`.
    Notify { addr: u64, count: u32 },
    /// Install a submitted unit into the dispatch table.
    JitInstall { handle: i32, code: i32 },
    /// Remove a unit from the dispatch table.
    JitUninstall { handle: i32 },
    /// Run a submitted unit; `extent` is the committed extent, if one number can state it.
    JitInvoke {
        handle: i32,
        code: i32,
        argv: Vec<i64>,
        params: Vec<ValType>,
        results: Vec<ValType>,
        extent: Option<u64>,
    },
    /// Start a confined child over a carve of the window.
    Instantiate { module: u32, entry: u32, carve: u64, size_log2: u32, fuel: u64 },
    /// The guest reads standard input and none is buffered.
    StdinPark,
}

/// What the host's authority table says of a submitted unit.
#[derive(Debug)]
pub struct UnitLookup {
    /// The domain that the capability handle names.
    pub domain: Result<u32, Trap>,
    /// The domain and index that the code handle names.
    pub code: Result<(u32, u32), Trap>,
    /// Whether that unit's functions are still held.
    pub has_funcs: bool,
    /// The unit's emitted body, if it has one.
    pub wasm: Option<Vec<u8>>,
}

impl UnitLookup {
    /// The unit that the handles name together; a unit of another domain is a capability fault.
    pub open spec fn resolved(self) -> Result<(u32, u32), Trap> {
        match self.domain {
            Err(t) => Err(t),
            Ok(domain) => match self.code {
                Err(t) => Err(t),
                Ok(unit) => if unit.0 != domain || !self.has_funcs {
                    Err(Trap::CapFault)
                } else {
                    Ok(unit)
                },
            },
        }
    }

    /// Whether the capability handle itself resolves.
    pub open spec fn authorized(self) -> Result<(), Trap> {
        match self.domain {
            Err(t) => Err(t),
            Ok(_) => Ok(()),
        }
    }
}

/// Resolves a unit through its capability handle and its code handle.
pub fn par_resolve_unit(look: &UnitLookup) -> (r: Result<(u32, u32), Trap>)
    ensures
        r == look.resolved(),
{
    match look.domain {
        Err(t) => Err(t),
        Ok(domain) => match look.code {
            Err(t) => Err(t),
            Ok(unit) => {
                if unit.0 != domain || !look.has_funcs {
                    Err(Trap::CapFault)
                } else {
                    Ok(unit)
                }
            },
        },
    }
}

/// Resolves the capability handle alone.
pub fn par_resolve_domain(look: &UnitLookup) -> (r: Result<(), Trap>)
    ensures
        r == look.authorized(),
{
    match look.domain {
        Err(t) => Err(t),
        Ok(_) => Ok(()),
    }
}

/// The integer that a run's first result widens to; zero for anything else.
pub open spec fn spec_first_i64(vals: Seq<Value>) -> i64 {
    if vals.len() == 0 {
        0
    } else {
        match vals[0] {
            Value::I64(x) => x,
            Value::I32(x) => x as i64,
            _ => 0,
        }
    }
}

/// The first result as an integer; zero if there is none or it is not an integer.
pub fn first_i64(vals: &[Value]) -> (r: i64)
    ensures
        r == spec_first_i64(vals@),
{
    if vals.len() == 0 {
        return 0;
    }
    match vals[0] {
        Value::I64(x) => x,
        Value::I32(x) => x as i64,
        _ => 0,
    }
}

/// A unit is reached only through a capability of its own domain: what resolves is the unit that the
/// code handle names, in the domain that the capability handle names, and its functions are held.
pub proof fn law_unit_resolves_within_its_domain(look: UnitLookup)
    ensures
        look.resolved() matches Ok(unit) ==> look.code == Ok::<(u32, u32), Trap>(unit)
            && look.domain == Ok::<u32, Trap>(unit.0) && look.has_funcs,
        look.domain matches Err(t) ==> look.resolved() == Err::<(u32, u32), Trap>(t)
            && look.authorized() == Err::<(), Trap>(t),
        look.domain is Ok ==> look.authorized() is Ok,
        look.domain is Ok && look.code is Err ==> look.resolved() == Err::<(u32, u32), Trap>(
            look.code->Err_0,
        ),
        look.domain matches Ok(d) ==> look.code matches Ok(unit) ==> (look.resolved() is Ok <==> unit.0
            == d && look.has_funcs),
        look.domain is Ok && look.code is Ok && look.resolved() is Err ==> look.resolved() == Err::<
            (u32, u32),
            Trap,
        >(Trap::CapFault),
{
}

} // verus!
