//! The memory profile: what an instrumented guest announces, and the shape of the modelled caches.

use vstd::prelude::*;

use crate::bytes::{bits_of_i64, i64_bits};

verus! {

/// What an instrumented memory operation announces itself as.
#[derive(Clone, Copy, Debug, PartialEq, Eq, Structural)]
pub enum MemHookOp {
    Load,
    Store,
    AtomicLoad,
    AtomicStore,
    AtomicRmw,
    AtomicCmpxchg,
    Copy,
    Fill,
    Unknown,
}

/// A memory access.
#[derive(Clone, Copy, Debug, PartialEq, Eq, Structural)]
pub enum MemEvent {
    Load { addr: u64, width: u32 },
    Store { addr: u64, width: u32 },
    AtomicLoad { addr: u64, width: u32 },
    AtomicStore { addr: u64, width: u32 },
    AtomicRmw { addr: u64, width: u32 },
    AtomicCmpxchg { addr: u64, width: u32 },
    Copy { dst: u64, src: u64, len: u64 },
    Fill { dst: u64, len: u64 },
}

/// `x` as an address.
pub open spec fn address(x: i64) -> u64 {
    bits_of_i64(x) as u64
}

/// The low 32 bits of `x`, as a width.
pub open spec fn width(x: i64) -> u32 {
    (bits_of_i64(x) % 0x1_0000_0000) as u32
}

/// The access that an announcement stands for; `None` for an unknown one or one with the wrong
/// number of arguments.
pub open spec fn spec_decode_mem_event(op: MemHookOp, args: Seq<i64>) -> Option<MemEvent> {
    if op == MemHookOp::Copy {
        if args.len() == 3 {
            Some(
                MemEvent::Copy {
                    dst: address(args[0]),
                    src: address(args[1]),
                    len: address(args[2]),
                },
            )
        } else {
            None
        }
    } else if args.len() != 2 {
        None
    } else {
        let addr = address(args[0]);
        let width = width(args[1]);
        match op {
            MemHookOp::Load => Some(MemEvent::Load { addr, width }),
            MemHookOp::Store => Some(MemEvent::Store { addr, width }),
            MemHookOp::AtomicLoad => Some(MemEvent::AtomicLoad { addr, width }),
            MemHookOp::AtomicStore => Some(MemEvent::AtomicStore { addr, width }),
            MemHookOp::AtomicRmw => Some(MemEvent::AtomicRmw { addr, width }),
            MemHookOp::AtomicCmpxchg => Some(MemEvent::AtomicCmpxchg { addr, width }),
            MemHookOp::Fill => Some(MemEvent::Fill { dst: addr, len: address(args[1]) }),
            _ => None,
        }
    }
}

/// The access that an announcement stands for.
pub fn decode_mem_event(op: MemHookOp, args: &[i64]) -> (r: Option<MemEvent>)
    ensures
        r == spec_decode_mem_event(op, args@),
{
    if op == MemHookOp::Copy {
        if args.len() != 3 {
            return None;
        }
        return Some(
            MemEvent::Copy {
                dst: i64_bits(args[0]),
                src: i64_bits(args[1]),
                len: i64_bits(args[2]),
            },
        );
    }
    if args.len() != 2 {
        return None;
    }
    let addr: u64 = i64_bits(args[0]);
    let width: u32 = (i64_bits(args[1]) % 0x1_0000_0000) as u32;
    match op {
        MemHookOp::Load => Some(MemEvent::Load { addr, width }),
        MemHookOp::Store => Some(MemEvent::Store { addr, width }),
        MemHookOp::AtomicLoad => Some(MemEvent::AtomicLoad { addr, width }),
        MemHookOp::AtomicStore => Some(MemEvent::AtomicStore { addr, width }),
        MemHookOp::AtomicRmw => Some(MemEvent::AtomicRmw { addr, width }),
        MemHookOp::AtomicCmpxchg => Some(MemEvent::AtomicCmpxchg { addr, width }),
        MemHookOp::Fill => Some(MemEvent::Fill { dst: addr, len: i64_bits(args[1]) }),
        _ => None,
    }
}

/// The shape of one modelled cache.
#[derive(Clone, Copy, Debug, PartialEq, Eq, Structural)]
pub struct CacheCfg {
    pub sets: u64,
    pub ways: usize,
    pub line: u64,
}

/// The shape of the modelled memory.
#[derive(Clone, Copy, Debug, PartialEq, Eq, Structural)]
pub struct MemModelCfg {
    pub l1: CacheCfg,
    pub l2: CacheCfg,
    pub page_size: u64,
}

/// A requested cache shape; zero asks for the default.
#[derive(Clone, Copy, Debug, PartialEq, Eq, Structural)]
pub struct CacheAsk {
    pub sets: u32,
    pub ways: u32,
    pub line: u32,
}

/// `v`, or the default if it is zero.
pub open spec fn or_default(v: u32, def: nat) -> nat {
    if v == 0 {
        def
    } else {
        v as nat
    }
}

/// The cache that a request asks for.
pub open spec fn spec_cache(ask: CacheAsk, def: CacheCfg) -> CacheCfg {
    CacheCfg {
        sets: or_default(ask.sets, def.sets as nat) as u64,
        ways: or_default(ask.ways, def.ways as nat) as usize,
        line: or_default(ask.line, def.line as nat) as u64,
    }
}

/// The cache that a request asks for.
pub fn cache_cfg(ask: CacheAsk, def: CacheCfg) -> (r: CacheCfg)
    ensures
        r == spec_cache(ask, def),
{
    CacheCfg {
        sets: if ask.sets == 0 {
            def.sets
        } else {
            ask.sets as u64
        },
        ways: if ask.ways == 0 {
            def.ways
        } else {
            ask.ways as usize
        },
        line: if ask.line == 0 {
            def.line
        } else {
            ask.line as u64
        },
    }
}

/// The memory that a request asks for.
pub open spec fn spec_mem_model(
    l1: CacheAsk,
    l2: CacheAsk,
    page_size: u32,
    def: MemModelCfg,
) -> MemModelCfg {
    MemModelCfg {
        l1: spec_cache(l1, def.l1),
        l2: spec_cache(l2, def.l2),
        page_size: or_default(page_size, def.page_size as nat) as u64,
    }
}

/// The memory that a request asks for.
pub fn mem_model_cfg(l1: CacheAsk, l2: CacheAsk, page_size: u32, def: MemModelCfg) -> (r: MemModelCfg)
    ensures
        r == spec_mem_model(l1, l2, page_size, def),
        r == (MemModelCfg {
            l1: spec_cache(l1, def.l1),
            l2: spec_cache(l2, def.l2),
            page_size: or_default(page_size, def.page_size as nat) as u64,
        }),
{
    MemModelCfg {
        l1: cache_cfg(l1, def.l1),
        l2: cache_cfg(l2, def.l2),
        page_size: if page_size == 0 {
            def.page_size
        } else {
            page_size as u64
        },
    }
}

/// The code of a profiling run: zero for a clean one, one for a trap, negative for a refusal.
///
/// A module that does not decode is refused first, then one with imports, since the hook would
/// displace them, then one that does not verify once it is instrumented, then one outside the
/// engine's subset.
pub open spec fn spec_profile_code(
    imports: Option<usize>,
    verified: Result<(), Vec<u8>>,
    ran: Option<bool>,
) -> i32 {
    if imports is None {
        -1i32
    } else if imports->0 > 0 {
        -2i32
    } else if verified is Err {
        -3i32
    } else if ran is None {
        -4i32
    } else if ran->0 {
        0
    } else {
        1
    }
}

/// The code of a profiling run and what is stashed for the page.
pub open spec fn profiled(
    imports: Option<usize>,
    verified: Result<(), Vec<u8>>,
    ran: Option<bool>,
    stats: Seq<u8>,
    code: i32,
    stash: Seq<u8>,
) -> bool {
    &&& code == spec_profile_code(imports, verified, ran)
    &&& stash == (if code >= 0 {
        stats
    } else if code == -3 {
        verified->Err_0@
    } else {
        Seq::empty()
    })
}

/// Ends a profiling run: its code and what is stashed for the page.
///
/// `imports` is how many imports the module has, `None` if it does not decode; `verified` is the
/// verifier's answer to the instrumented module; `ran` says whether the run was clean, `None` if the
/// engine does not take the module. What lies behind a refusal is not looked at.
///
/// A run that started leaves its statistics even if it trapped; a module that does not verify leaves
/// the reason; any other refusal leaves nothing.
pub fn svm_mem_profile(
    imports: Option<usize>,
    verified: Result<(), Vec<u8>>,
    ran: Option<bool>,
    stats: Vec<u8>,
) -> (r: (i32, Vec<u8>))
    ensures
        profiled(imports, verified, ran, stats@, r.0, r.1@),
        r.0 == spec_profile_code(imports, verified, ran),
        r.0 >= 0 ==> r.1 == stats,
        r.0 == -3 ==> r.1 == verified->Err_0,
        r.0 == -1 || r.0 == -2 || r.0 == -4 ==> r.1@.len() == 0,
{
    match imports {
        None => {
            return (-1, Vec::new());
        },
        Some(n) => {
            if n > 0 {
                return (-2, Vec::new());
            }
        },
    }
    match verified {
        Err(why) => {
            return (-3, why);
        },
        Ok(_) => {},
    }
    match ran {
        None => (-4, Vec::new()),
        Some(clean) => if clean {
            (0, stats)
        } else {
            (1, stats)
        },
    }
}

/// A module with imports is never profiled, whatever the verifier or the engine would say of it.
pub proof fn law_imports_are_never_profiled(
    imports: usize,
    verified: Result<(), Vec<u8>>,
    ran: Option<bool>,
)
    requires
        imports > 0,
    ensures
        spec_profile_code(Some(imports), verified, ran) == -2,
{
}

/// No two announcements with the same arguments stand for the same access.
pub proof fn law_mem_events_are_distinct(a: MemHookOp, b: MemHookOp, args: Seq<i64>)
    requires
        a != b,
        spec_decode_mem_event(a, args) is Some,
    ensures
        spec_decode_mem_event(a, args) != spec_decode_mem_event(b, args),
{
}

/// An access is what its announcement says: the address and the width, or both places and the length
/// of a copy, each the argument it was announced with.
pub proof fn law_access_carries_its_arguments(op: MemHookOp, args: Seq<i64>)
    requires
        forall|i: int| 0 <= i < args.len() ==> 0 <= #[trigger] args[i] < 0x1_0000_0000,
    ensures
        args.len() == 2 ==> {
            &&& 0 <= args[0] && 0 <= args[1]
            &&& spec_decode_mem_event(MemHookOp::Load, args) matches Some(
                MemEvent::Load { addr, width },
            ) && addr == args[0] && width == args[1]
            &&& spec_decode_mem_event(MemHookOp::Store, args) matches Some(
                MemEvent::Store { addr, width },
            ) && addr == args[0] && width == args[1]
            &&& spec_decode_mem_event(MemHookOp::AtomicLoad, args) matches Some(
                MemEvent::AtomicLoad { addr, width },
            ) && addr == args[0] && width == args[1]
            &&& spec_decode_mem_event(MemHookOp::AtomicStore, args) matches Some(
                MemEvent::AtomicStore { addr, width },
            ) && addr == args[0] && width == args[1]
            &&& spec_decode_mem_event(MemHookOp::AtomicRmw, args) matches Some(
                MemEvent::AtomicRmw { addr, width },
            ) && addr == args[0] && width == args[1]
            &&& spec_decode_mem_event(MemHookOp::AtomicCmpxchg, args) matches Some(
                MemEvent::AtomicCmpxchg { addr, width },
            ) && addr == args[0] && width == args[1]
            &&& spec_decode_mem_event(MemHookOp::Fill, args) matches Some(
                MemEvent::Fill { dst, len },
            ) && dst == args[0] && len == args[1]
        },
        args.len() == 3 ==> (spec_decode_mem_event(MemHookOp::Copy, args) matches Some(
            MemEvent::Copy { dst, src, len },
        ) && dst == args[0] && src == args[1] && len == args[2]),
        spec_decode_mem_event(op, args) is Some <==> (op == MemHookOp::Copy && args.len() == 3) || (
        op != MemHookOp::Copy && op != MemHookOp::Unknown && args.len() == 2),
{
    if args.len() >= 2 {
        assert(0 <= args[0] < 0x1_0000_0000);
        assert(0 <= args[1] < 0x1_0000_0000);
    }
    if args.len() >= 3 {
        assert(0 <= args[2] < 0x1_0000_0000);
    }
}

/// A cache is as asked for, number by number, and as by default where nothing is asked for; no part
/// of a request reaches another level.
pub proof fn law_model_is_as_asked_for(l1: CacheAsk, l2: CacheAsk, page_size: u32, def: MemModelCfg)
    ensures
        ({
            let m = spec_mem_model(l1, l2, page_size, def);
            &&& m.l1.sets == (if l1.sets == 0 { def.l1.sets } else { l1.sets as u64 })
            &&& m.l1.ways == (if l1.ways == 0 { def.l1.ways } else { l1.ways as usize })
            &&& m.l1.line == (if l1.line == 0 { def.l1.line } else { l1.line as u64 })
            &&& m.l2.sets == (if l2.sets == 0 { def.l2.sets } else { l2.sets as u64 })
            &&& m.l2.ways == (if l2.ways == 0 { def.l2.ways } else { l2.ways as usize })
            &&& m.l2.line == (if l2.line == 0 { def.l2.line } else { l2.line as u64 })
            &&& m.page_size == (if page_size == 0 { def.page_size } else { page_size as u64 })
        }),
{
}

/// A profile is stashed exactly for a run that started; a module that does not verify leaves the
/// verifier's reason, and any other refusal nothing.
pub proof fn law_started_run_leaves_its_profile(
    imports: Option<usize>,
    verified: Result<(), Vec<u8>>,
    ran: Option<bool>,
    stats: Seq<u8>,
    code: i32,
    stash: Seq<u8>,
)
    requires
        profiled(imports, verified, ran, stats, code, stash),
    ensures
        imports == Some(0usize) && verified is Ok && ran is Some ==> stash == stats && (code == 0
            || code == 1) && (code == 0 <==> ran == Some(true)),
        !(imports == Some(0usize) && verified is Ok && ran is Some) ==> code < 0,
        imports == Some(0usize) && verified is Err ==> stash == verified->Err_0@ && code == -3,
        imports is None ==> code == -1 && stash.len() == 0,
        imports == Some(0usize) && verified is Ok && ran is None ==> code == -4 && stash.len() == 0,
        (imports matches Some(n) && n > 0) ==> code == -2 && stash.len() == 0,
{
}

} // verus!
