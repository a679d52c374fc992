//! One step of a parallel virtual CPU: which operands an event hands to the host, and which events
//! are answered without it.

use vstd::prelude::*;

use crate::bytes::{i64_of_bits, low_i64};
use crate::par::{
    ParState, PAR_DONE, PAR_INSTANTIATE, PAR_JIT_INVOKE, PAR_JOIN, PAR_NOTIFY, PAR_SPAWN,
    PAR_TIERUP, PAR_TRAP, PAR_WAIT,
};
use crate::slots::{
    all_scalar, scalar_type_codes, spec_scalar_type_code, type_codes, ValType, Value,
};
use crate::traps::{
    first_i64, par_resolve_domain, par_resolve_unit, spec_first_i64, Trap, UnitLookup, VcpuEvent,
};

verus! {

/// The operands of a virtual CPU's last event.
#[derive(Debug)]
pub struct ParVcpu {
    pub a: i64,
    pub b: i64,
    pub c: i64,
    pub d: i64,
    /// The arguments of a pending tier-up.
    pub tierup_argv: Vec<i64>,
    /// The arguments of a pending invoke.
    pub jit_argv: Vec<i64>,
    /// The code handle of a pending invoke.
    pub jit_code: i32,
    /// The marshalling codes of a pending invoke's arguments.
    pub jit_param_types: Vec<u8>,
    /// The marshalling codes of a pending invoke's results.
    pub jit_result_types: Vec<u8>,
    /// The emitted body of a pending invoke's runtime unit.
    pub jit_wasm: Option<Vec<u8>>,
    /// The page-state table of a pending paged tier-up.
    pub pagestate: Vec<u8>,
}

/// The contents of a [`ParVcpu`].
#[verifier::ext_equal]
pub ghost struct ParOperands {
    pub a: i64,
    pub b: i64,
    pub c: i64,
    pub d: i64,
    pub tierup_argv: Seq<i64>,
    pub jit_argv: Seq<i64>,
    pub jit_code: i32,
    pub jit_param_types: Seq<u8>,
    pub jit_result_types: Seq<u8>,
    pub jit_wasm: Option<Vec<u8>>,
    pub pagestate: Seq<u8>,
}

impl View for ParVcpu {
    type V = ParOperands;

    open spec fn view(&self) -> ParOperands {
        ParOperands {
            a: self.a,
            b: self.b,
            c: self.c,
            d: self.d,
            tierup_argv: self.tierup_argv@,
            jit_argv: self.jit_argv@,
            jit_code: self.jit_code,
            jit_param_types: self.jit_param_types@,
            jit_result_types: self.jit_result_types@,
            jit_wasm: self.jit_wasm,
            pagestate: self.pagestate@,
        }
    }
}

/// What the driver does after an event.
#[derive(Clone, Copy, Debug, PartialEq, Eq)]
pub enum ParStep {
    /// Hand the event to the host under this code.
    Surface(i32),
    /// Deliver the resolved unit to the pending install and run on.
    Install(Result<(u32, u32), Trap>),
    /// Deliver the authority to the pending uninstall and run on.
    Uninstall(Result<(), Trap>),
    /// Let the interpreter run the resolved unit and run on.
    Invoke(Result<(u32, u32), Trap>),
}

/// The page-state table of the live page map, and the extent it covers.
#[derive(Debug)]
pub struct PageState {
    pub table: Vec<u8>,
    pub cover: u64,
}

/// `hi` above `lo` in one 64-bit word, read as signed.
pub open spec fn packed(hi: u32, lo: u32) -> i64 {
    low_i64((hi * 0x1_0000_0000 + lo) as nat) as i64
}

/// `hi` above `lo` in one 64-bit word.
pub fn pack(hi: u32, lo: u32) -> (r: i64)
    ensures
        r == packed(hi, lo),
{
    i64_of_bits(hi as u64 * 0x1_0000_0000 + lo as u64)
}

/// Both halves of a packed word can be read back.
pub proof fn law_packed_word_holds_both_halves(hi: u32, lo: u32)
    ensures
        (packed(hi, lo) as int) % 0x1_0000_0000 == lo,
        ((packed(hi, lo) as int) / 0x1_0000_0000) % 0x1_0000_0000 == hi,
{
}

/// Whether an invoke of a unit with signature `params -> results` may run on an emitted body: code
/// generation is on, a body exists, every operand is a scalar and the extent is one number.
pub open spec fn runs_emitted(
    codegen: bool,
    has_body: bool,
    params: Seq<ValType>,
    results: Seq<ValType>,
    extent: Option<u64>,
) -> bool {
    codegen && has_body && all_scalar(params) && all_scalar(results) && extent is Some
}

/// The operands and the step that `ev` leads to.
pub open spec fn par_next(
    v: ParOperands,
    ev: VcpuEvent,
    st: ParState,
    look: UnitLookup,
    pages: PageState,
) -> (ParOperands, ParStep) {
    match ev {
        VcpuEvent::Done(vals) => (
            ParOperands { a: spec_first_i64(vals@), ..v },
            ParStep::Surface(PAR_DONE),
        ),
        VcpuEvent::Trapped(_) => (v, ParStep::Surface(PAR_TRAP)),
        VcpuEvent::TierUp { func, argv, mapped } => (
            ParOperands {
                a: func as i64,
                b: low_i64(
                    if st.paged {
                        pages.cover as nat
                    } else {
                        mapped as nat
                    },
                ) as i64,
                pagestate: if st.paged {
                    pages.table@
                } else {
                    Seq::empty()
                },
                tierup_argv: argv@,
                ..v
            },
            ParStep::Surface(PAR_TIERUP),
        ),
        VcpuEvent::Spawn { func, sp, arg, module } => (
            ParOperands { a: packed(module, func), b: sp, c: arg, ..v },
            ParStep::Surface(PAR_SPAWN),
        ),
        VcpuEvent::Join { handle } => (
            ParOperands { a: handle as i64, ..v },
            ParStep::Surface(PAR_JOIN),
        ),
        VcpuEvent::Wait { addr, expected, width, timeout } => (
            ParOperands {
                a: low_i64(addr as nat) as i64,
                b: low_i64(expected as nat) as i64,
                c: width as i64,
                d: timeout,
                ..v
            },
            ParStep::Surface(PAR_WAIT),
        ),
        VcpuEvent::Notify { addr, count } => (
            ParOperands { a: low_i64(addr as nat) as i64, b: count as i64, ..v },
            ParStep::Surface(PAR_NOTIFY),
        ),
        VcpuEvent::JitInstall { .. } => (
            v,
            if st.pb is Some || st.rt is Some {
                ParStep::Install(look.resolved())
            } else {
                ParStep::Surface(PAR_TRAP)
            },
        ),
        VcpuEvent::JitUninstall { .. } => (
            v,
            if st.pb is Some || st.rt is Some {
                ParStep::Uninstall(look.authorized())
            } else {
                ParStep::Surface(PAR_TRAP)
            },
        ),
        VcpuEvent::JitInvoke { code, argv, params, results, extent, .. } => {
            let synced = match extent {
                Some(h) => ParOperands { b: low_i64(h as nat) as i64, ..v },
                None => v,
            };
            let staged = ParOperands {
                jit_argv: argv@,
                jit_code: code,
                jit_param_types: type_codes(params@),
                jit_result_types: type_codes(results@),
                ..synced
            };
            let has_body = if st.rt is Some {
                look.wasm is Some
            } else {
                st.unit_wasm@.len() > 0
            };
            if st.rt is None && st.pb is None {
                (synced, ParStep::Surface(PAR_TRAP))
            } else if look.resolved() is Ok && runs_emitted(
                st.codegen,
                has_body,
                params@,
                results@,
                extent,
            ) {
                (
                    ParOperands {
                        jit_wasm: if st.rt is Some {
                            look.wasm
                        } else {
                            None
                        },
                        ..staged
                    },
                    ParStep::Surface(PAR_JIT_INVOKE),
                )
            } else {
                (synced, ParStep::Invoke(look.resolved()))
            }
        },
        VcpuEvent::Instantiate { module, entry, carve, size_log2, fuel } => (
            ParOperands {
                a: packed(module, entry),
                b: low_i64(carve as nat) as i64,
                c: size_log2 as i64,
                d: low_i64(fuel as nat) as i64,
                ..v
            },
            ParStep::Surface(PAR_INSTANTIATE),
        ),
        VcpuEvent::StdinPark => (v, ParStep::Surface(PAR_TRAP)),
    }
}

impl ParVcpu {
    /// A virtual CPU that has stopped for nothing yet.
    pub fn par_box() -> (r: ParVcpu)
        ensures
            r@ == (ParOperands {
                a: 0,
                b: 0,
                c: 0,
                d: 0,
                tierup_argv: Seq::empty(),
                jit_argv: Seq::empty(),
                jit_code: 0,
                jit_param_types: Seq::empty(),
                jit_result_types: Seq::empty(),
                jit_wasm: None,
                pagestate: Seq::empty(),
            }),
    {
        ParVcpu {
            a: 0,
            b: 0,
            c: 0,
            d: 0,
            tierup_argv: Vec::new(),
            jit_argv: Vec::new(),
            jit_code: 0,
            jit_param_types: Vec::new(),
            jit_result_types: Vec::new(),
            jit_wasm: None,
            pagestate: Vec::new(),
        }
    }

    /// Takes one event: stages its operands and says what the driver does.
    ///
    /// `look` is what the run's host says of the unit that a submitted-unit event names, `pages` the
    /// page-state table of a paged run.
    pub fn svm_par_run(
        &mut self,
        ev: VcpuEvent,
        st: &ParState,
        look: UnitLookup,
        pages: PageState,
    ) -> (step: ParStep)
        ensures
            (final(self)@, step) == par_next(old(self)@, ev, *st, look, pages),
    {
        match ev {
            VcpuEvent::Done(vals) => {
                self.a = first_i64(vals.as_slice());
                ParStep::Surface(PAR_DONE)
            },
            VcpuEvent::Trapped(_) => ParStep::Surface(PAR_TRAP),
            VcpuEvent::TierUp { func, argv, mapped } => {
                self.a = func as i64;
                if st.paged {
                    self.b = i64_of_bits(pages.cover);
                    self.pagestate = pages.table;
                } else {
                    self.b = i64_of_bits(mapped);
                    self.pagestate = Vec::new();
                }
                self.tierup_argv = argv;
                ParStep::Surface(PAR_TIERUP)
            },
            VcpuEvent::Spawn { func, sp, arg, module } => {
                self.a = pack(module, func);
                self.b = sp;
                self.c = arg;
                ParStep::Surface(PAR_SPAWN)
            },
            VcpuEvent::Join { handle } => {
                self.a = handle as i64;
                ParStep::Surface(PAR_JOIN)
            },
            VcpuEvent::Wait { addr, expected, width, timeout } => {
                self.a = i64_of_bits(addr);
                self.b = i64_of_bits(expected);
                self.c = width as i64;
                self.d = timeout;
                ParStep::Surface(PAR_WAIT)
            },
            VcpuEvent::Notify { addr, count } => {
                self.a = i64_of_bits(addr);
                self.b = count as i64;
                ParStep::Surface(PAR_NOTIFY)
            },
            VcpuEvent::JitInstall { .. } => {
                if st.pb.is_some() || st.rt.is_some() {
                    ParStep::Install(par_resolve_unit(&look))
                } else {
                    ParStep::Surface(PAR_TRAP)
                }
            },
            VcpuEvent::JitUninstall { .. } => {
                if st.pb.is_some() || st.rt.is_some() {
                    ParStep::Uninstall(par_resolve_domain(&look))
                } else {
                    ParStep::Surface(PAR_TRAP)
                }
            },
            VcpuEvent::JitInvoke { code, argv, params, results, extent, .. } => {
                match extent {
                    Some(h) => {
                        self.b = i64_of_bits(h);
                    },
                    None => {},
                }
                if st.rt.is_none() && st.pb.is_none() {
                    return ParStep::Surface(PAR_TRAP);
                }
                let resolved: Result<(u32, u32), Trap> = par_resolve_unit(&look);
                let has_body: bool = if st.rt.is_some() {
                    look.wasm.is_some()
                } else {
                    st.unit_wasm.len() > 0
                };
                let ptypes: Option<Vec<u8>> = scalar_type_codes(params.as_slice());
                let rtypes: Option<Vec<u8>> = scalar_type_codes(results.as_slice());
                if resolved.is_ok() && st.codegen && has_body && extent.is_some() {
                    match (ptypes, rtypes) {
                        (Some(pt), Some(rt)) => {
                            self.jit_argv = argv;
                            self.jit_code = code;
                            self.jit_param_types = pt;
                            self.jit_result_types = rt;
                            self.jit_wasm = if st.rt.is_some() {
                                look.wasm
                            } else {
                                None
                            };
                            return ParStep::Surface(PAR_JIT_INVOKE);
                        },
                        _ => {},
                    }
                }
                ParStep::Invoke(resolved)
            },
            VcpuEvent::Instantiate { module, entry, carve, size_log2, fuel } => {
                self.a = pack(module, entry);
                self.b = i64_of_bits(carve);
                self.c = size_log2 as i64;
                self.d = i64_of_bits(fuel);
                ParStep::Surface(PAR_INSTANTIATE)
            },
            VcpuEvent::StdinPark => ParStep::Surface(PAR_TRAP),
        }
    }
}

/// What a `thread.join` delivers: the child's value, or a thread fault if the child trapped.
pub open spec fn spec_join_result(val: i64, is_trap: i32) -> Result<i64, Trap> {
    if is_trap != 0 {
        Err(Trap::ThreadFault)
    } else {
        Ok(val)
    }
}

/// What a `thread.join` delivers.
pub fn svm_par_deliver_join(val: i64, is_trap: i32) -> (r: Result<i64, Trap>)
    ensures
        r == spec_join_result(val, is_trap),
{
    if is_trap != 0 {
        Err(Trap::ThreadFault)
    } else {
        Ok(val)
    }
}

/// A handle that the host's authority table refuses never reaches an emitted body: the step is the
/// same on every tier.
pub proof fn law_refused_unit_never_runs_emitted(
    v: ParOperands,
    ev: VcpuEvent,
    st: ParState,
    look: UnitLookup,
    pages: PageState,
)
    requires
        ev is JitInvoke,
        look.resolved() is Err,
        st.rt is Some || st.pb is Some,
    ensures
        par_next(v, ev, st, look, pages).1 == ParStep::Invoke(look.resolved()),
{
}

/// A run without a unit recipe fails closed on every submitted-unit event.
pub proof fn law_no_recipe_traps_unit_events(
    v: ParOperands,
    ev: VcpuEvent,
    st: ParState,
    look: UnitLookup,
    pages: PageState,
)
    requires
        ev is JitInstall || ev is JitUninstall || ev is JitInvoke,
        st.rt is None,
        st.pb is None,
    ensures
        par_next(v, ev, st, look, pages).1 == ParStep::Surface(PAR_TRAP),
{
}

/// A join hands the thread's handle to the host, in the first register and nowhere else: whatever
/// was staged before stays.
pub proof fn law_join_names_its_thread(
    v: ParOperands,
    handle: i32,
    st: ParState,
    look: UnitLookup,
    pages: PageState,
)
    ensures
        ({
            let (w, step) = par_next(v, VcpuEvent::Join { handle }, st, look, pages);
            &&& step == ParStep::Surface(PAR_JOIN)
            &&& w.a == handle
            &&& (w.b, w.c, w.d) == (v.b, v.c, v.d)
            &&& (w.tierup_argv, w.jit_argv, w.jit_code) == (v.tierup_argv, v.jit_argv, v.jit_code)
            &&& (w.jit_param_types, w.jit_result_types) == (v.jit_param_types, v.jit_result_types)
            &&& (w.jit_wasm, w.pagestate) == (v.jit_wasm, v.pagestate)
        }),
{
}

/// The host can tell from the registers which function of which module a spawn starts, and with what
/// stack and argument.
pub proof fn law_spawn_is_read_back(
    v: ParOperands,
    func: u32,
    sp: i64,
    arg: i64,
    module: u32,
    st: ParState,
    look: UnitLookup,
    pages: PageState,
)
    ensures
        ({
            let (w, step) = par_next(v, VcpuEvent::Spawn { func, sp, arg, module }, st, look, pages);
            &&& step == ParStep::Surface(PAR_SPAWN)
            &&& (w.a as int) % 0x1_0000_0000 == func
            &&& ((w.a as int) / 0x1_0000_0000) % 0x1_0000_0000 == module
            &&& (w.b, w.c, w.d) == (sp, arg, v.d)
            &&& (w.tierup_argv, w.jit_argv, w.jit_code) == (v.tierup_argv, v.jit_argv, v.jit_code)
            &&& (w.jit_wasm, w.pagestate) == (v.jit_wasm, v.pagestate)
        }),
{
    law_packed_word_holds_both_halves(module, func);
}

/// The host can tell from the registers which word a wait watches, for which value and width, and
/// how long.
pub proof fn law_wait_is_read_back(
    v: ParOperands,
    addr: u64,
    expected: u64,
    width: u32,
    timeout: i64,
    st: ParState,
    look: UnitLookup,
    pages: PageState,
)
    ensures
        ({
            let ev = VcpuEvent::Wait { addr, expected, width, timeout };
            let (w, step) = par_next(v, ev, st, look, pages);
            &&& step == ParStep::Surface(PAR_WAIT)
            &&& (w.a as int) % 0x1_0000_0000_0000_0000 == addr
            &&& (w.b as int) % 0x1_0000_0000_0000_0000 == expected
            &&& w.c == width
            &&& w.d == timeout
            &&& (w.tierup_argv, w.jit_argv, w.jit_code) == (v.tierup_argv, v.jit_argv, v.jit_code)
            &&& (w.jit_wasm, w.pagestate) == (v.jit_wasm, v.pagestate)
        }),
{
}

/// The host can tell from the registers which address a notify wakes, and how many.
pub proof fn law_notify_is_read_back(
    v: ParOperands,
    addr: u64,
    count: u32,
    st: ParState,
    look: UnitLookup,
    pages: PageState,
)
    ensures
        ({
            let (w, step) = par_next(v, VcpuEvent::Notify { addr, count }, st, look, pages);
            &&& step == ParStep::Surface(PAR_NOTIFY)
            &&& (w.a as int) % 0x1_0000_0000_0000_0000 == addr
            &&& w.b == count
            &&& (w.c, w.d) == (v.c, v.d)
            &&& (w.tierup_argv, w.jit_argv, w.jit_code) == (v.tierup_argv, v.jit_argv, v.jit_code)
            &&& (w.jit_wasm, w.pagestate) == (v.jit_wasm, v.pagestate)
        }),
{
}

/// The host can tell from the registers which entry of which module a confined child runs, over
/// which carve of which size, and with what fuel.
pub proof fn law_instantiate_is_read_back(
    v: ParOperands,
    module: u32,
    entry: u32,
    carve: u64,
    size_log2: u32,
    fuel: u64,
    st: ParState,
    look: UnitLookup,
    pages: PageState,
)
    ensures
        ({
            let ev = VcpuEvent::Instantiate { module, entry, carve, size_log2, fuel };
            let (w, step) = par_next(v, ev, st, look, pages);
            &&& step == ParStep::Surface(PAR_INSTANTIATE)
            &&& (w.a as int) % 0x1_0000_0000 == entry
            &&& ((w.a as int) / 0x1_0000_0000) % 0x1_0000_0000 == module
            &&& (w.b as int) % 0x1_0000_0000_0000_0000 == carve
            &&& w.c == size_log2
            &&& (w.d as int) % 0x1_0000_0000_0000_0000 == fuel
            &&& (w.tierup_argv, w.jit_argv, w.jit_code) == (v.tierup_argv, v.jit_argv, v.jit_code)
            &&& (w.jit_wasm, w.pagestate) == (v.jit_wasm, v.pagestate)
        }),
{
    law_packed_word_holds_both_halves(module, entry);
}

/// A tier-up hands over its function and its own arguments. A flat run is synced to the extent that
/// the event names and carries no page table; a paged one to the live table and what it covers.
pub proof fn law_tierup_hands_over_its_arguments(
    v: ParOperands,
    func: u32,
    argv: Vec<i64>,
    mapped: u64,
    st: ParState,
    look: UnitLookup,
    pages: PageState,
)
    ensures
        ({
            let (w, step) = par_next(v, VcpuEvent::TierUp { func, argv, mapped }, st, look, pages);
            &&& step == ParStep::Surface(PAR_TIERUP)
            &&& w.a == func
            &&& w.tierup_argv == argv@
            &&& !st.paged ==> (w.b as int) % 0x1_0000_0000_0000_0000 == mapped && w.pagestate.len()
                == 0
            &&& st.paged ==> (w.b as int) % 0x1_0000_0000_0000_0000 == pages.cover && w.pagestate
                == pages.table@
            &&& (w.c, w.d) == (v.c, v.d)
            &&& (w.jit_argv, w.jit_code, w.jit_wasm) == (v.jit_argv, v.jit_code, v.jit_wasm)
        }),
{
}

/// A run that returned hands over its first result, widened if it is a 32-bit integer.
pub proof fn law_return_hands_over_its_value(
    v: ParOperands,
    vals: Vec<Value>,
    st: ParState,
    look: UnitLookup,
    pages: PageState,
)
    ensures
        ({
            let (w, step) = par_next(v, VcpuEvent::Done(vals), st, look, pages);
            &&& step == ParStep::Surface(PAR_DONE)
            &&& vals@.len() > 0 ==> match vals@[0] {
                Value::I64(x) => w.a == x,
                Value::I32(x) => w.a == x,
                _ => w.a == 0,
            }
            &&& vals@.len() == 0 ==> w.a == 0
            &&& (w.b, w.c, w.d) == (v.b, v.c, v.d)
        }),
{
}

/// An invoke that is surfaced carries its own code, arguments and types, and the extent of its own
/// event, whatever was staged before; its body is the unit's own in a run that compiles at run time.
/// One that the interpreter runs stages none of these.
pub proof fn law_invoke_stages_its_own_operands(
    v: ParOperands,
    handle: i32,
    code: i32,
    argv: Vec<i64>,
    params: Vec<ValType>,
    results: Vec<ValType>,
    extent: Option<u64>,
    st: ParState,
    look: UnitLookup,
    pages: PageState,
)
    ensures
        ({
            let ev = VcpuEvent::JitInvoke { handle, code, argv, params, results, extent };
            let (w, step) = par_next(v, ev, st, look, pages);
            &&& step == ParStep::Surface(PAR_JIT_INVOKE) ==> {
                &&& w.jit_code == code
                &&& w.jit_argv == argv@
                &&& w.jit_param_types.len() == params@.len()
                &&& forall|i: int|
                    0 <= i < params@.len() ==> spec_scalar_type_code(params@[i]) == Some(
                        #[trigger] w.jit_param_types[i],
                    )
                &&& w.jit_result_types.len() == results@.len()
                &&& forall|i: int|
                    0 <= i < results@.len() ==> spec_scalar_type_code(results@[i]) == Some(
                        #[trigger] w.jit_result_types[i],
                    )
                &&& extent matches Some(h) && (w.b as int) % 0x1_0000_0000_0000_0000 == h
                &&& st.rt is Some ==> w.jit_wasm == look.wasm && w.jit_wasm is Some
                &&& st.rt is None ==> w.jit_wasm is None
                &&& look.resolved() is Ok
                &&& st.codegen
                &&& st.rt is Some || st.pb is Some
            }
            &&& step != ParStep::Surface(PAR_JIT_INVOKE) ==> {
                &&& (w.jit_argv, w.jit_code, w.jit_wasm) == (v.jit_argv, v.jit_code, v.jit_wasm)
                &&& (w.jit_param_types, w.jit_result_types) == (
                    v.jit_param_types,
                    v.jit_result_types,
                )
            }
            &&& (w.a, w.c, w.d) == (v.a, v.c, v.d)
            &&& (w.tierup_argv, w.pagestate) == (v.tierup_argv, v.pagestate)
        }),
{
}

/// An invoke runs on an emitted body whenever it can: the unit resolves, code generation is on, a
/// body exists, its operands are scalars and its extent is one number.
pub proof fn law_invoke_runs_emitted_if_it_can(
    v: ParOperands,
    handle: i32,
    code: i32,
    argv: Vec<i64>,
    params: Vec<ValType>,
    results: Vec<ValType>,
    h: u64,
    st: ParState,
    look: UnitLookup,
    pages: PageState,
)
    requires
        look.resolved() is Ok,
        st.codegen,
        st.rt is Some && look.wasm is Some || st.rt is None && st.pb is Some && st.unit_wasm@.len()
            > 0,
        all_scalar(params@),
        all_scalar(results@),
    ensures
        ({
            let extent = Some(h);
            let ev = VcpuEvent::JitInvoke { handle, code, argv, params, results, extent };
            par_next(v, ev, st, look, pages).1 == ParStep::Surface(PAR_JIT_INVOKE)
        }),
{
}

/// Under a recipe, an install or an uninstall is answered from the authority table and stages
/// nothing.
pub proof fn law_installs_are_answered_by_authority(
    v: ParOperands,
    handle: i32,
    code: i32,
    st: ParState,
    look: UnitLookup,
    pages: PageState,
)
    requires
        st.rt is Some || st.pb is Some,
    ensures
        par_next(v, VcpuEvent::JitInstall { handle, code }, st, look, pages) == (
            v,
            ParStep::Install(look.resolved()),
        ),
        par_next(v, VcpuEvent::JitUninstall { handle }, st, look, pages) == (
            v,
            ParStep::Uninstall(look.authorized()),
        ),
{
}

/// The host can tell from the code alone what a virtual CPU stopped for.
pub proof fn law_event_codes_are_distinct()
    ensures
        seq![
            PAR_DONE,
            PAR_TRAP,
            PAR_SPAWN,
            PAR_JOIN,
            PAR_WAIT,
            PAR_NOTIFY,
            PAR_INSTANTIATE,
            PAR_TIERUP,
            PAR_JIT_INVOKE,
        ].no_duplicates(),
{
}

/// A join delivers the child's value unchanged, and a thread fault exactly where the child trapped.
pub proof fn law_join_delivers_the_childs_end(val: i64, is_trap: i32)
    ensures
        is_trap == 0 ==> spec_join_result(val, is_trap) == Ok::<i64, Trap>(val),
        is_trap != 0 ==> spec_join_result(val, is_trap) == Err::<i64, Trap>(Trap::ThreadFault),
{
}

} // verus!
