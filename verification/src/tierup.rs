//! The tier-up pumps: a run that the interpreter drives while eligible calls and submitted units run
//! on emitted bodies, one virtual CPU or many cooperative ones at a time.

use vstd::arithmetic::power2::pow2;
use vstd::prelude::*;

use crate::caps::{onramp_check, OnrampModule};
use crate::capture::Capture;
use crate::eligible::{
    all_shimmable, any, spec_all_shimmable, spec_any, spec_shimmable, spec_tierup_eligible,
    tierup_eligible, Sig,
};
use crate::par::NO_CODE;
use crate::par_run::runs_emitted;
use crate::slots::{
    all_scalar, scalar_type_code, scalar_type_codes, spec_scalar_type_code, type_codes, ValType,
    Value,
};
use crate::status::{
    bare, judge_returned, returned_verdict, Verdict, STATUS_DECODE_ERR, STATUS_EXIT,
    STATUS_OK, STATUS_TRAP, STATUS_UNSUPPORTED,
};
use crate::traps::{par_resolve_domain, par_resolve_unit, Trap, UnitLookup, VcpuEvent};
use crate::window::size_of_log2;

verus! {

/// The run ended; its outcome is captured.
pub const TIERUP_RUN_DONE: i32 = 0;

/// An eligible call awaits its emitted body.
pub const TIERUP_RUN_TIERUP: i32 = 1;

/// The run trapped; its outcome is captured.
pub const TIERUP_RUN_TRAP: i32 = 2;

/// A submitted unit awaits its emitted body.
pub const TIERUP_RUN_JIT_INVOKE: i32 = 3;

/// As [`TIERUP_RUN_DONE`], of the cooperative pump.
pub const COOP_RUN_DONE: i32 = 0;

/// As [`TIERUP_RUN_TIERUP`], of the cooperative pump.
pub const COOP_RUN_TIERUP: i32 = 1;

/// As [`TIERUP_RUN_TRAP`], of the cooperative pump.
pub const COOP_RUN_TRAP: i32 = 2;

/// As [`TIERUP_RUN_JIT_INVOKE`], of the cooperative pump.
pub const COOP_RUN_JIT_INVOKE: i32 = 3;

/// A single-shot run's window is at least `1 << 25` bytes.
pub const JIT_RUN_WIN_LOG2: u8 = 25;

/// The slots of a submitting guest's dispatch table, `1 << ONRAMP_JIT_TABLE_LOG2`.
pub const ONRAMP_JIT_TABLE_SLOTS: usize = 1024;

/// What a pump reads of a module.
#[derive(Debug)]
pub struct TierupModule {
    pub shape: OnrampModule,
    pub sigs: Vec<Sig>,
    /// Some function of it uses threads or futexes.
    pub concurrent: bool,
}

/// How a pump sets a module up.
#[derive(Clone, Copy, Debug, PartialEq, Eq, Structural)]
pub struct TierupPlan {
    /// The run window.
    pub win_log2: u8,
    /// Emit over the shared dispatch table, rather than a local one.
    pub shared_table: bool,
    /// The guest submits units of its own.
    pub jit_importer: bool,
    /// Submitted units get emitted bodies.
    pub emit_units: bool,
}

/// Why a module may not be pumped at all: it does not decode, has no named entry, or has no window.
pub open spec fn spec_coop_refusal(m: Option<TierupModule>) -> Option<i32> {
    match m {
        None => Some(STATUS_DECODE_ERR),
        Some(m) => if (m.shape.imports@.len() != 0 && !m.shape.named_entry())
            || m.shape.memory_log2 is None {
            Some(STATUS_UNSUPPORTED)
        } else {
            None
        },
    }
}

/// Why a module may not be pumped on one virtual CPU: as for the cooperative pump, or it uses
/// threads or futexes, whose events one virtual CPU cannot serve.
pub open spec fn spec_tierup_refusal(m: Option<TierupModule>) -> Option<i32> {
    match spec_coop_refusal(m) {
        Some(status) => Some(status),
        None => if m->0.concurrent {
            Some(STATUS_UNSUPPORTED)
        } else {
            None
        },
    }
}

/// How a pump sets `m` up.
pub open spec fn spec_tierup_plan(m: TierupModule, max_slots: nat) -> TierupPlan {
    let declared = m.shape.memory_log2->0;
    TierupPlan {
        win_log2: if declared < JIT_RUN_WIN_LOG2 {
            JIT_RUN_WIN_LOG2
        } else {
            declared
        },
        shared_table: spec_all_shimmable(m.sigs@, max_slots),
        jit_importer: m.shape.spec_wants_jit(),
        emit_units: m.shape.spec_wants_jit() && spec_all_shimmable(m.sigs@, max_slots),
    }
}

/// Plans a cooperatively pumped run; `max_slots` is how many 64-bit slots the scratch of a bounce
/// has.
pub fn plan_coop(m: &Option<TierupModule>, max_slots: usize) -> (r: Result<TierupPlan, i32>)
    ensures
        r is Err <==> spec_coop_refusal(*m) is Some,
        r matches Err(status) ==> Some(status) == spec_coop_refusal(*m),
        r matches Ok(plan) ==> plan == spec_tierup_plan(m->0, max_slots as nat),
{
    let m: &TierupModule = match m {
        None => {
            return Err(STATUS_DECODE_ERR);
        },
        Some(m) => m,
    };
    if onramp_check(&m.shape).is_err() {
        return Err(STATUS_UNSUPPORTED);
    }
    let declared: u8 = match m.shape.memory_log2 {
        None => {
            return Err(STATUS_UNSUPPORTED);
        },
        Some(k) => k,
    };
    let win_log2: u8 = if declared < JIT_RUN_WIN_LOG2 {
        JIT_RUN_WIN_LOG2
    } else {
        declared
    };
    let shared_table: bool = all_shimmable(m.sigs.as_slice(), max_slots);
    let jit_importer: bool = m.shape.wants_jit();
    Ok(TierupPlan { win_log2, shared_table, jit_importer, emit_units: jit_importer && shared_table })
}

/// Plans a run on one virtual CPU, as [`plan_coop`] does, but for a guest that uses threads or
/// futexes.
pub fn plan_tierup(m: &Option<TierupModule>, max_slots: usize) -> (r: Result<TierupPlan, i32>)
    ensures
        r is Err <==> spec_tierup_refusal(*m) is Some,
        r matches Err(status) ==> Some(status) == spec_tierup_refusal(*m),
        r matches Ok(plan) ==> plan == spec_tierup_plan(m->0, max_slots as nat),
{
    let plan: TierupPlan = match plan_coop(m, max_slots) {
        Ok(plan) => plan,
        Err(status) => {
            return Err(status);
        },
    };
    match m {
        Some(t) => {
            if t.concurrent {
                return Err(STATUS_UNSUPPORTED);
            }
        },
        None => {},
    }
    Ok(plan)
}

/// `r` is what becomes of a planned run whose module emitted so.
pub open spec fn admitted(
    plan: TierupPlan,
    emit: Option<Seq<bool>>,
    sigs: Seq<Sig>,
    r: Result<Vec<bool>, i32>,
) -> bool {
    match r {
        Ok(v) => emit matches Some(e) && v@ == spec_tierup_eligible(e, sigs) && (spec_any(v@)
            || plan.jit_importer),
        Err(status) => status == STATUS_UNSUPPORTED && (emit matches Some(e) ==> !spec_any(
            spec_tierup_eligible(e, sigs),
        ) && !plan.jit_importer),
    }
}

/// The functions that tier up, or the refusal: the module did not emit, or nothing could ever run
/// on an emitted body.
pub fn admit_tierup(plan: &TierupPlan, emit: Option<&[bool]>, sigs: &[Sig]) -> (r: Result<
    Vec<bool>,
    i32,
>)
    requires
        emit matches Some(e) ==> sigs@.len() <= e@.len(),
    ensures
        admitted(*plan, match emit {
            Some(e) => Some(e@),
            None => None,
        }, sigs@, r),
        r is Ok <==> (emit matches Some(e) && (spec_any(spec_tierup_eligible(e@, sigs@))
            || plan.jit_importer)),
        r matches Ok(v) ==> (emit matches Some(e) && v@ == spec_tierup_eligible(e@, sigs@)),
        r matches Err(status) ==> status == STATUS_UNSUPPORTED,
{
    match emit {
        None => Err(STATUS_UNSUPPORTED),
        Some(e) => {
            let eligible: Vec<bool> = tierup_eligible(e, sigs);
            if !any(eligible.as_slice()) && !plan.jit_importer {
                return Err(STATUS_UNSUPPORTED);
            }
            Ok(eligible)
        },
    }
}

/// How the engine answers a build.
#[derive(Clone, Copy, Debug, PartialEq, Eq, Structural)]
pub enum Build {
    /// The run is ready.
    Ready,
    /// Starting the run trapped.
    Failed,
    /// The program is outside the engine's subset.
    Outside,
}

/// The status of an open that got as far as the engine.
pub open spec fn build_status(b: Build) -> i32 {
    match b {
        Build::Ready => STATUS_OK,
        Build::Failed => STATUS_TRAP,
        Build::Outside => STATUS_UNSUPPORTED,
    }
}

/// The window that a submitted unit is emitted against.
pub open spec fn spec_unit_window_log2(declared: Option<u8>, win_log2: u8) -> Option<u8> {
    match declared {
        None => None,
        Some(k) => Some(
            if k < win_log2 {
                win_log2
            } else {
                k
            },
        ),
    }
}

/// The operands once the emitted body of a handle's unit was asked for.
pub open spec fn handle_body_kept(v: TierupOperands, wasm: Option<Vec<u8>>) -> TierupOperands {
    TierupOperands { jit_wasm_by_handle: wasm, ..v }
}

/// The operands once a shim was generated, or none.
pub open spec fn shim_kept(v: TierupOperands, shim: Option<Seq<u8>>) -> TierupOperands {
    TierupOperands {
        shim_wasm: match shim {
            Some(w) => w,
            None => Seq::empty(),
        },
        ..v
    }
}

/// The window that a submitted unit is emitted against: never smaller than the run's.
pub fn unit_window_log2(declared: Option<u8>, win_log2: u8) -> (r: Option<u8>)
    ensures
        r == spec_unit_window_log2(declared, win_log2),
        r == (match declared {
            None => None::<u8>,
            Some(k) => Some(
                if k < win_log2 {
                    win_log2
                } else {
                    k
                },
            ),
        }),
{
    match declared {
        None => None,
        Some(k) => if k < win_log2 {
            Some(win_log2)
        } else {
            Some(k)
        },
    }
}

/// The state of an open pump.
#[derive(Debug)]
pub struct TierupRun {
    /// The run window.
    pub win_log2: u8,
    /// The function of a pending tier-up.
    pub func: u32,
    /// The committed extent of the pending event.
    pub mapped: u64,
    /// The arguments of the pending event.
    pub argv: Vec<i64>,
    /// The code handle of a pending invoke.
    pub jit_code: i32,
    /// The emitted body of a pending invoke.
    pub jit_wasm: Option<Vec<u8>>,
    pub jit_param_types: Vec<u8>,
    pub jit_result_types: Vec<u8>,
    /// The code handle installed at each dispatch slot.
    pub slot_codes: Vec<i32>,
    /// The signatures of the program's functions.
    pub sigs: Vec<Sig>,
    /// The last generated bounce shim.
    pub shim_wasm: Vec<u8>,
    /// The last emitted body fetched by handle.
    pub jit_wasm_by_handle: Option<Vec<u8>>,
    /// The trap of a bounce that the emitted code is unwinding from.
    pub pending_bounce_trap: Option<Trap>,
    /// The result, once the run is done.
    pub value: i64,
}

/// The contents of a [`TierupRun`].
#[verifier::ext_equal]
pub ghost struct TierupOperands {
    pub win_log2: u8,
    pub func: u32,
    pub mapped: u64,
    pub argv: Seq<i64>,
    pub jit_code: i32,
    pub jit_wasm: Option<Vec<u8>>,
    pub jit_param_types: Seq<u8>,
    pub jit_result_types: Seq<u8>,
    pub slot_codes: Seq<i32>,
    pub sigs: Seq<Sig>,
    pub shim_wasm: Seq<u8>,
    pub jit_wasm_by_handle: Option<Vec<u8>>,
    pub pending_bounce_trap: Option<Trap>,
    pub value: i64,
}

impl View for TierupRun {
    type V = TierupOperands;

    open spec fn view(&self) -> TierupOperands {
        TierupOperands {
            win_log2: self.win_log2,
            func: self.func,
            mapped: self.mapped,
            argv: self.argv@,
            jit_code: self.jit_code,
            jit_wasm: self.jit_wasm,
            jit_param_types: self.jit_param_types@,
            jit_result_types: self.jit_result_types@,
            slot_codes: self.slot_codes@,
            sigs: self.sigs@,
            shim_wasm: self.shim_wasm@,
            jit_wasm_by_handle: self.jit_wasm_by_handle,
            pending_bounce_trap: self.pending_bounce_trap,
            value: self.value,
        }
    }
}

/// What a pump does after an event.
#[derive(Clone, Copy, Debug, PartialEq, Eq)]
pub enum TierupStep {
    /// Hand the event to the host under this code.
    Surface(i32),
    /// Deliver the resolved unit to the pending install and run on.
    Install(Result<(u32, u32), Trap>),
    /// Deliver the authority to the pending uninstall and run on.
    Uninstall(Result<(), Trap>),
    /// Let the interpreter run the resolved unit and run on.
    Invoke(Result<(u32, u32), Trap>),
    /// The run ended with this verdict; report this code.
    Finish(Verdict, i32),
}

/// The end of a run that returned or trapped.
pub open spec fn spec_run_end(ev: VcpuEvent) -> (Verdict, i32) {
    match ev {
        VcpuEvent::Done(vals) => (returned_verdict(vals@, STATUS_OK), TIERUP_RUN_DONE),
        VcpuEvent::Trapped(Trap::Exit(code)) => (
            Verdict { status: STATUS_EXIT, value: 0, exit_code: code },
            TIERUP_RUN_DONE,
        ),
        _ => (bare(STATUS_TRAP), TIERUP_RUN_TRAP),
    }
}

/// The operands and the step that `ev` leads to.
pub open spec fn tierup_next(s: TierupOperands, ev: VcpuEvent, look: UnitLookup) -> (
    TierupOperands,
    TierupStep,
) {
    match ev {
        VcpuEvent::TierUp { func, argv, mapped } => (
            TierupOperands { func, mapped, argv: argv@, ..s },
            TierupStep::Surface(TIERUP_RUN_TIERUP),
        ),
        VcpuEvent::JitInstall { .. } => (s, TierupStep::Install(look.resolved())),
        VcpuEvent::JitUninstall { .. } => (s, TierupStep::Uninstall(look.authorized())),
        VcpuEvent::JitInvoke { code, argv, params, results, extent, .. } => if look.resolved()
            is Ok && runs_emitted(true, look.wasm is Some, params@, results@, extent) {
            (
                TierupOperands {
                    jit_code: code,
                    mapped: extent->0,
                    argv: argv@,
                    jit_wasm: look.wasm,
                    jit_param_types: type_codes(params@),
                    jit_result_types: type_codes(results@),
                    ..s
                },
                TierupStep::Surface(TIERUP_RUN_JIT_INVOKE),
            )
        } else {
            (s, TierupStep::Invoke(look.resolved()))
        },
        _ => (
            TierupOperands { value: spec_run_end(ev).0.value, ..s },
            TierupStep::Finish(spec_run_end(ev).0, spec_run_end(ev).1),
        ),
    }
}

/// What the cooperative pump stopped for.
#[derive(Debug)]
pub enum CoopEvent {
    TierUp { func: u32, argv: Vec<i64>, mapped: u64 },
    JitInvoke {
        code: i32,
        wasm: Vec<u8>,
        argv: Vec<i64>,
        params: Vec<ValType>,
        results: Vec<ValType>,
        mapped: u64,
    },
    Done(Vec<Value>),
    Trapped(Trap),
}

/// The marshalling codes of `ts`, with zero for a type that is not a scalar.
pub open spec fn loose_type_codes(ts: Seq<ValType>) -> Seq<u8> {
    ts.map_values(
        |t: ValType|
            match spec_scalar_type_code(t) {
                Some(c) => c,
                None => 0u8,
            },
    )
}

/// The operands and the step that a cooperative event leads to.
pub open spec fn coop_next(s: TierupOperands, ev: CoopEvent) -> (TierupOperands, TierupStep) {
    match ev {
        CoopEvent::TierUp { func, argv, mapped } => (
            TierupOperands { func, mapped, argv: argv@, ..s },
            TierupStep::Surface(COOP_RUN_TIERUP),
        ),
        CoopEvent::JitInvoke { code, wasm, argv, params, results, mapped } => (
            TierupOperands {
                jit_code: code,
                mapped,
                argv: argv@,
                jit_wasm: Some(wasm),
                jit_param_types: loose_type_codes(params@),
                jit_result_types: loose_type_codes(results@),
                ..s
            },
            TierupStep::Surface(COOP_RUN_JIT_INVOKE),
        ),
        CoopEvent::Done(vals) => {
            let v = returned_verdict(vals@, STATUS_OK);
            (TierupOperands { value: v.value, ..s }, TierupStep::Finish(v, COOP_RUN_DONE))
        },
        CoopEvent::Trapped(Trap::Exit(code)) => (
            TierupOperands { value: 0, ..s },
            TierupStep::Finish(
                Verdict { status: STATUS_EXIT, value: 0, exit_code: code },
                COOP_RUN_DONE,
            ),
        ),
        CoopEvent::Trapped(_) => (
            TierupOperands { value: 0, ..s },
            TierupStep::Finish(bare(STATUS_TRAP), COOP_RUN_TRAP),
        ),
    }
}

/// The marshalling codes of `ts`, with zero for a type that is not a scalar.
fn loose_codes(ts: &[ValType]) -> (r: Vec<u8>)
    ensures
        r@ == loose_type_codes(ts@),
{
    let mut out: Vec<u8> = Vec::with_capacity(ts.len());
    let mut i: usize = 0;
    while i < ts.len()
        invariant
            i <= ts.len(),
            out@ == loose_type_codes(ts@).take(i as int),
        decreases ts.len() - i,
    {
        let c: u8 = match scalar_type_code(ts[i]) {
            Some(c) => c,
            None => 0,
        };
        out.push(c);
        assert(out@ =~= loose_type_codes(ts@).take(i as int + 1));
        i = i + 1;
    }
    assert(out@ =~= loose_type_codes(ts@));
    out
}

/// Whose signature a bounce shim for a slot has.
#[derive(Clone, Copy, Debug, PartialEq, Eq, Structural)]
pub enum ShimTarget {
    /// The program function with this index.
    Program(usize),
    /// The unit installed under this code handle.
    Unit(i32),
    /// Nothing is there to call.
    Empty,
}

/// A pump over the program with these signatures, in a window of `2^win_log2` bytes, that has seen
/// no event.
pub open spec fn opened(sigs: Seq<Sig>, win_log2: u8) -> TierupOperands {
    TierupOperands {
        win_log2,
        func: 0,
        mapped: 0,
        argv: Seq::empty(),
        jit_code: 0,
        jit_wasm: None,
        jit_param_types: Seq::empty(),
        jit_result_types: Seq::empty(),
        slot_codes: Seq::new(ONRAMP_JIT_TABLE_SLOTS as nat, |i: int| NO_CODE),
        sigs,
        shim_wasm: Seq::empty(),
        jit_wasm_by_handle: None,
        pending_bounce_trap: None,
        value: 0,
    }
}

/// The operands once a change of the dispatch table was recorded: the slot it changed, if it did,
/// holds `code`.
pub open spec fn slot_noted(v: TierupOperands, slot: Option<usize>, code: i32) -> TierupOperands {
    TierupOperands {
        slot_codes: match slot {
            Some(s) => if s < v.slot_codes.len() {
                v.slot_codes.update(s as int, code)
            } else {
                v.slot_codes
            },
            None => v.slot_codes,
        },
        ..v
    }
}

/// The operands after a bounce: one that trapped stages its trap.
pub open spec fn after_bounce(v: TierupOperands, bounced: Result<(), Trap>) -> TierupOperands {
    match bounced {
        Ok(_) => v,
        Err(t) => TierupOperands { pending_bounce_trap: Some(t), ..v },
    }
}

/// The trap that an unwound emitted body delivers: the staged one, else `unreachable`.
pub open spec fn unwind_trap(v: TierupOperands) -> Trap {
    match v.pending_bounce_trap {
        Some(staged) => staged,
        None => Trap::Unreachable,
    }
}

/// The operands after an unwind: nothing is staged any more.
pub open spec fn after_unwind(v: TierupOperands) -> TierupOperands {
    TierupOperands { pending_bounce_trap: None, ..v }
}

impl TierupRun {
    /// A pump over the program with these signatures, in a window of `2^win_log2` bytes, that has
    /// seen no event.
    pub fn new(sigs: Vec<Sig>, win_log2: u8) -> (r: TierupRun)
        ensures
            r@ == opened(sigs@, win_log2),
    {
        let mut slot_codes: Vec<i32> = Vec::with_capacity(ONRAMP_JIT_TABLE_SLOTS);
        while slot_codes.len() < ONRAMP_JIT_TABLE_SLOTS
            invariant
                slot_codes@ =~= Seq::new(slot_codes@.len(), |i: int| NO_CODE),
                slot_codes@.len() <= ONRAMP_JIT_TABLE_SLOTS,
            decreases ONRAMP_JIT_TABLE_SLOTS - slot_codes.len(),
        {
            slot_codes.push(NO_CODE);
        }
        TierupRun {
            win_log2,
            func: 0,
            mapped: 0,
            argv: Vec::new(),
            jit_code: 0,
            jit_wasm: None,
            jit_param_types: Vec::new(),
            jit_result_types: Vec::new(),
            slot_codes,
            sigs,
            shim_wasm: Vec::new(),
            jit_wasm_by_handle: None,
            pending_bounce_trap: None,
            value: 0,
        }
    }

    /// Takes one event of the single-CPU pump.
    ///
    /// A concurrency event, or a wait for input, ends the run as a trap: one virtual CPU cannot
    /// serve it.
    pub fn svm_onramp_tierup_run(&mut self, ev: VcpuEvent, look: UnitLookup) -> (step: TierupStep)
        ensures
            (final(self)@, step) == tierup_next(old(self)@, ev, look),
    {
        let (verdict, code) = match ev {
            VcpuEvent::TierUp { func, argv, mapped } => {
                self.func = func;
                self.mapped = mapped;
                self.argv = argv;
                return TierupStep::Surface(TIERUP_RUN_TIERUP);
            },
            VcpuEvent::JitInstall { .. } => {
                return TierupStep::Install(par_resolve_unit(&look));
            },
            VcpuEvent::JitUninstall { .. } => {
                return TierupStep::Uninstall(par_resolve_domain(&look));
            },
            VcpuEvent::JitInvoke { code, argv, params, results, extent, .. } => {
                let resolved: Result<(u32, u32), Trap> = par_resolve_unit(&look);
                let ptypes: Option<Vec<u8>> = scalar_type_codes(params.as_slice());
                let rtypes: Option<Vec<u8>> = scalar_type_codes(results.as_slice());
                if resolved.is_ok() {
                    match (look.wasm, ptypes, rtypes, extent) {
                        (Some(w), Some(pt), Some(rt), Some(h)) => {
                            self.jit_code = code;
                            self.mapped = h;
                            self.argv = argv;
                            self.jit_wasm = Some(w);
                            self.jit_param_types = pt;
                            self.jit_result_types = rt;
                            return TierupStep::Surface(TIERUP_RUN_JIT_INVOKE);
                        },
                        _ => {},
                    }
                }
                return TierupStep::Invoke(resolved);
            },
            VcpuEvent::Done(vals) => (judge_returned(vals.as_slice(), STATUS_OK), TIERUP_RUN_DONE),
            VcpuEvent::Trapped(Trap::Exit(code)) => (
                Verdict { status: STATUS_EXIT, value: 0, exit_code: code },
                TIERUP_RUN_DONE,
            ),
            _ => (Verdict { status: STATUS_TRAP, value: 0, exit_code: 0 }, TIERUP_RUN_TRAP),
        };
        self.value = verdict.value;
        TierupStep::Finish(verdict, code)
    }

    /// Takes one event of the cooperative pump, which serves concurrency itself.
    pub fn svm_coop_run(&mut self, ev: CoopEvent) -> (step: TierupStep)
        ensures
            (final(self)@, step) == coop_next(old(self)@, ev),
    {
        let (verdict, code) = match ev {
            CoopEvent::TierUp { func, argv, mapped } => {
                self.func = func;
                self.mapped = mapped;
                self.argv = argv;
                return TierupStep::Surface(COOP_RUN_TIERUP);
            },
            CoopEvent::JitInvoke { code, wasm, argv, params, results, mapped } => {
                self.jit_code = code;
                self.mapped = mapped;
                self.argv = argv;
                self.jit_param_types = loose_codes(params.as_slice());
                self.jit_result_types = loose_codes(results.as_slice());
                self.jit_wasm = Some(wasm);
                return TierupStep::Surface(COOP_RUN_JIT_INVOKE);
            },
            CoopEvent::Done(vals) => (judge_returned(vals.as_slice(), STATUS_OK), COOP_RUN_DONE),
            CoopEvent::Trapped(Trap::Exit(code)) => (
                Verdict { status: STATUS_EXIT, value: 0, exit_code: code },
                COOP_RUN_DONE,
            ),
            CoopEvent::Trapped(_) => (
                Verdict { status: STATUS_TRAP, value: 0, exit_code: 0 },
                COOP_RUN_TRAP,
            ),
        };
        self.value = verdict.value;
        TierupStep::Finish(verdict, code)
    }

    /// The code handle installed at `slot`, [`NO_CODE`] for none.
    pub open spec fn spec_slot_code(self, slot: nat) -> i32 {
        if slot < self.slot_codes@.len() {
            self.slot_codes@[slot as int]
        } else {
            NO_CODE
        }
    }

    /// Records what an install or uninstall did: the slot it changed, if it did, now holds `code`.
    pub fn note_slot(&mut self, slot: Option<usize>, code: i32)
        ensures
            final(self)@ == slot_noted(old(self)@, slot, code),
            final(self)@ == (TierupOperands {
                slot_codes: match slot {
                    Some(s) => if s < old(self).slot_codes@.len() {
                        old(self).slot_codes@.update(s as int, code)
                    } else {
                        old(self).slot_codes@
                    },
                    None => old(self).slot_codes@,
                },
                ..old(self)@
            }),
    {
        match slot {
            Some(s) => {
                if s < self.slot_codes.len() {
                    self.slot_codes[s] = code;
                }
            },
            None => {},
        }
    }

    /// The code handle installed at `slot`, [`NO_CODE`] for none.
    pub fn svm_onramp_tierup_slot_code(&self, slot: u32) -> (r: i32)
        ensures
            r == self.spec_slot_code(slot as nat),
    {
        let i: usize = slot as usize;
        if i < self.slot_codes.len() {
            self.slot_codes[i]
        } else {
            NO_CODE
        }
    }

    /// Ends a bounce out of emitted code: `0`, or `1` with the trap staged for the unwind.
    pub fn svm_onramp_tierup_call_interp(&mut self, bounced: Result<(), Trap>) -> (r: i32)
        ensures
            r == (if bounced is Ok { 0i32 } else { 1i32 }),
            final(self)@ == after_bounce(old(self)@, bounced),
    {
        match bounced {
            Ok(_) => 0,
            Err(t) => {
                self.pending_bounce_trap = Some(t);
                1
            },
        }
    }

    /// The trap that an unwound emitted body delivers: the staged one if a bounce trapped, else
    /// `unreachable`.
    pub fn svm_onramp_tierup_deliver_trap(&mut self) -> (t: Trap)
        ensures
            t == unwind_trap(old(self)@),
            final(self)@ == after_unwind(old(self)@),
    {
        match self.pending_bounce_trap.take() {
            Some(t) => t,
            None => Trap::Unreachable,
        }
    }

    /// Whose signature the bounce shim of `slot` has; `code` is what is installed there.
    pub open spec fn spec_shim_target(self, slot: u32, code: i32) -> ShimTarget {
        if slot < self.sigs@.len() {
            ShimTarget::Program(slot as usize)
        } else if code < 0 {
            ShimTarget::Empty
        } else {
            ShimTarget::Unit(code)
        }
    }

    /// Whose signature the bounce shim of `slot` has in the single-CPU pump.
    pub fn svm_onramp_tierup_shim_target(&self, slot: u32) -> (r: ShimTarget)
        ensures
            r == self.spec_shim_target(slot, self.spec_slot_code(slot as nat)),
    {
        let code: i32 = self.svm_onramp_tierup_slot_code(slot);
        self.svm_coop_shim_target(slot, code)
    }

    /// Whose signature the bounce shim of `slot` has, where the engine says that `code` is
    /// installed there.
    pub fn svm_coop_shim_target(&self, slot: u32, code: i32) -> (r: ShimTarget)
        ensures
            r == self.spec_shim_target(slot, code),
    {
        if (slot as usize) < self.sigs.len() {
            ShimTarget::Program(slot as usize)
        } else if code < 0 {
            ShimTarget::Empty
        } else {
            ShimTarget::Unit(code)
        }
    }

    /// Keeps a generated shim and returns its length; zero, and no shim kept, if none was made.
    pub fn svm_onramp_tierup_shim_wasm(&mut self, shim: Option<Vec<u8>>) -> (r: usize)
        ensures
            final(self)@ == shim_kept(
                old(self)@,
                match shim {
                    Some(w) => Some(w@),
                    None => None,
                },
            ),
            final(self)@ == (TierupOperands {
                shim_wasm: match shim {
                    Some(w) => w@,
                    None => Seq::empty(),
                },
                ..old(self)@
            }),
            r == final(self)@.shim_wasm.len(),
    {
        match shim {
            Some(w) => {
                self.shim_wasm = w;
            },
            None => {
                self.shim_wasm = Vec::new();
            },
        }
        self.shim_wasm.len()
    }

    /// Keeps the emitted body of the unit that a handle names and returns its length, zero if the
    /// unit has none.
    pub fn svm_onramp_tierup_jit_wasm_by_handle_len(&mut self, wasm: Option<Vec<u8>>) -> (r: usize)
        ensures
            final(self)@ == handle_body_kept(old(self)@, wasm),
            final(self)@ == (TierupOperands { jit_wasm_by_handle: wasm, ..old(self)@ }),
            r == (match wasm {
                Some(w) => w@.len(),
                None => 0,
            }),
    {
        let n: usize = match &wasm {
            Some(w) => w.len(),
            None => 0,
        };
        self.jit_wasm_by_handle = wasm;
        n
    }
}

/// An `exit` inside a bounce ends the run as an exit: the unwind that follows delivers it, the run
/// ends with its code, and a later unwind without a bounce is an ordinary trap again.
pub proof fn law_bounced_exit_reaches_the_run(v: TierupOperands, code: i32)
    ensures
        ({
            let bounced = after_bounce(v, Err(Trap::Exit(code)));
            let later = after_unwind(bounced);
            &&& unwind_trap(bounced) == Trap::Exit(code)
            &&& spec_run_end(VcpuEvent::Trapped(unwind_trap(bounced))) == (
                Verdict { status: STATUS_EXIT, value: 0, exit_code: code },
                TIERUP_RUN_DONE,
            )
            &&& spec_run_end(VcpuEvent::Trapped(unwind_trap(later))) == (
                bare(STATUS_TRAP),
                TIERUP_RUN_TRAP,
            )
        }),
{
}

/// The status of a planned open: the first refusal of admission and engine.
pub open spec fn spec_admit_status(m: TierupModule, emit: Option<Vec<bool>>, build: Build) -> i32 {
    if !(emit matches Some(e) && (spec_any(spec_tierup_eligible(e@, m.sigs@))
        || m.shape.spec_wants_jit())) {
        STATUS_UNSUPPORTED
    } else {
        build_status(build)
    }
}

/// The status of an open on one virtual CPU: the first refusal of plan, admission and engine.
pub open spec fn spec_tierup_status(
    m: Option<TierupModule>,
    emit: Option<Vec<bool>>,
    build: Build,
) -> i32 {
    match spec_tierup_refusal(m) {
        Some(status) => status,
        None => spec_admit_status(m->0, emit, build),
    }
}

/// The status of a cooperative open: the first refusal of plan, admission and engine.
pub open spec fn spec_coop_status(
    m: Option<TierupModule>,
    emit: Option<Vec<bool>>,
    build: Build,
) -> i32 {
    match spec_coop_refusal(m) {
        Some(status) => status,
        None => spec_admit_status(m->0, emit, build),
    }
}

/// Opens a pump over a planned module: what was emitted for its plan, and how the engine answered,
/// decide.
fn open_planned(
    cap: &mut Capture,
    m: TierupModule,
    plan: &TierupPlan,
    emit: Option<Vec<bool>>,
    build: Build,
) -> (r: (i32, Option<TierupRun>))
    requires
        plan.jit_importer == m.shape.spec_wants_jit(),
        emit matches Some(e) ==> m.sigs@.len() <= e@.len(),
    ensures
        r.0 == -spec_admit_status(m, emit, build),
        *final(cap) == (Capture { last_status: spec_admit_status(m, emit, build), ..*old(cap) }),
        r.1 is Some <==> r.0 == 0,
        r.1 matches Some(run) ==> run@ == opened(m.sigs@, plan.win_log2),
{
    let emitted: Option<&[bool]> = match &emit {
        Some(e) => Some(e.as_slice()),
        None => None,
    };
    let status: i32 = match admit_tierup(plan, emitted, m.sigs.as_slice()) {
        Err(status) => status,
        Ok(_) => match build {
            Build::Ready => STATUS_OK,
            Build::Failed => STATUS_TRAP,
            Build::Outside => STATUS_UNSUPPORTED,
        },
    };
    cap.last_status = status;
    if status == STATUS_OK {
        (0, Some(TierupRun::new(m.sigs, plan.win_log2)))
    } else {
        (-status, None)
    }
}

/// Opens the single-CPU pump over a module: records the status and returns zero with the open run,
/// or the negated status.
///
/// A guest that uses threads or futexes is refused as unsupported.
pub fn svm_onramp_tierup_open(
    cap: &mut Capture,
    m: Option<TierupModule>,
    max_slots: usize,
    emit: Option<Vec<bool>>,
    build: Build,
) -> (r: (i32, Option<TierupRun>))
    requires
        m matches Some(t) ==> emit matches Some(e) ==> t.sigs@.len() <= e@.len(),
    ensures
        r.0 == -spec_tierup_status(m, emit, build),
        *final(cap) == (Capture { last_status: spec_tierup_status(m, emit, build), ..*old(cap) }),
        r.1 is Some <==> r.0 == 0,
        r.1 matches Some(run) ==> run@ == opened(
            m->0.sigs@,
            spec_tierup_plan(m->0, max_slots as nat).win_log2,
        ),
{
    let plan: Result<TierupPlan, i32> = plan_tierup(&m, max_slots);
    match (m, plan) {
        (Some(t), Ok(plan)) => open_planned(cap, t, &plan, emit, build),
        (_, Err(status)) => {
            cap.last_status = status;
            (-status, None)
        },
        (None, Ok(_)) => (0, None),
    }
}

/// Opens the cooperative pump over a module in the same way; it serves threads and futexes itself.
pub fn svm_coop_open(
    cap: &mut Capture,
    m: Option<TierupModule>,
    max_slots: usize,
    emit: Option<Vec<bool>>,
    build: Build,
) -> (r: (i32, Option<TierupRun>))
    requires
        m matches Some(t) ==> emit matches Some(e) ==> t.sigs@.len() <= e@.len(),
    ensures
        r.0 == -spec_coop_status(m, emit, build),
        *final(cap) == (Capture { last_status: spec_coop_status(m, emit, build), ..*old(cap) }),
        r.1 is Some <==> r.0 == 0,
        r.1 matches Some(run) ==> run@ == opened(
            m->0.sigs@,
            spec_tierup_plan(m->0, max_slots as nat).win_log2,
        ),
{
    let plan: Result<TierupPlan, i32> = plan_coop(&m, max_slots);
    match (m, plan) {
        (Some(t), Ok(plan)) => open_planned(cap, t, &plan, emit, build),
        (_, Err(status)) => {
            cap.last_status = status;
            (-status, None)
        },
        (None, Ok(_)) => (0, None),
    }
}

/// What an open leaves of the page's one run: the new one, or none, and never the old one.
pub open spec fn slot_after(status: i32, run: TierupOperands) -> Option<TierupOperands> {
    if status == STATUS_OK {
        Some(run)
    } else {
        None
    }
}

/// What a page's one run holds, if there is one.
pub open spec fn slot_view(slot: Option<TierupRun>) -> Option<TierupOperands> {
    match slot {
        Some(run) => Some(run@),
        None => None,
    }
}

/// Opens the single-CPU pump in the page's one run, which is closed first in any case.
pub fn replace_tierup(
    cap: &mut Capture,
    slot: &mut Option<TierupRun>,
    m: Option<TierupModule>,
    max_slots: usize,
    emit: Option<Vec<bool>>,
    build: Build,
) -> (r: i32)
    requires
        m matches Some(t) ==> emit matches Some(e) ==> t.sigs@.len() <= e@.len(),
    ensures
        r == -spec_tierup_status(m, emit, build),
        *final(cap) == (Capture { last_status: spec_tierup_status(m, emit, build), ..*old(cap) }),
        slot_view(*final(slot)) == slot_after(
            spec_tierup_status(m, emit, build),
            opened(m->0.sigs@, spec_tierup_plan(m->0, max_slots as nat).win_log2),
        ),
{
    let (code, run) = svm_onramp_tierup_open(cap, m, max_slots, emit, build);
    *slot = run;
    code
}

/// Opens the cooperative pump in the page's one run, which is closed first in any case.
pub fn replace_coop(
    cap: &mut Capture,
    slot: &mut Option<TierupRun>,
    m: Option<TierupModule>,
    max_slots: usize,
    emit: Option<Vec<bool>>,
    build: Build,
) -> (r: i32)
    requires
        m matches Some(t) ==> emit matches Some(e) ==> t.sigs@.len() <= e@.len(),
    ensures
        r == -spec_coop_status(m, emit, build),
        *final(cap) == (Capture { last_status: spec_coop_status(m, emit, build), ..*old(cap) }),
        slot_view(*final(slot)) == slot_after(
            spec_coop_status(m, emit, build),
            opened(m->0.sigs@, spec_tierup_plan(m->0, max_slots as nat).win_log2),
        ),
{
    let (code, run) = svm_coop_open(cap, m, max_slots, emit, build);
    *slot = run;
    code
}

/// What the page's single-CPU run, its step and the status become; without a run the page is told
/// that it is unsupported, as after a trap.
pub open spec fn tierup_pumped(
    slot: Option<TierupOperands>,
    ev: VcpuEvent,
    look: UnitLookup,
    status: i32,
) -> (Option<TierupOperands>, TierupStep, i32) {
    match slot {
        None => (None, TierupStep::Surface(TIERUP_RUN_TRAP), STATUS_UNSUPPORTED),
        Some(s) => {
            let (after, step) = tierup_next(s, ev, look);
            (Some(after), step, status)
        },
    }
}

/// As [`tierup_pumped`], of the cooperative run.
pub open spec fn coop_pumped(slot: Option<TierupOperands>, ev: CoopEvent, status: i32) -> (
    Option<TierupOperands>,
    TierupStep,
    i32,
) {
    match slot {
        None => (None, TierupStep::Surface(COOP_RUN_TRAP), STATUS_UNSUPPORTED),
        Some(s) => {
            let (after, step) = coop_next(s, ev);
            (Some(after), step, status)
        },
    }
}

/// Pumps the page's single-CPU run by one event, if there is a run; `ev` is what it stopped for.
pub fn pump_tierup(
    cap: &mut Capture,
    slot: &mut Option<TierupRun>,
    ev: VcpuEvent,
    look: UnitLookup,
) -> (step: TierupStep)
    ensures
        (slot_view(*final(slot)), step, final(cap).last_status) == tierup_pumped(
            slot_view(*old(slot)),
            ev,
            look,
            old(cap).last_status,
        ),
        *final(cap) == (Capture { last_status: final(cap).last_status, ..*old(cap) }),
{
    match slot {
        None => {
            cap.last_status = STATUS_UNSUPPORTED;
            TierupStep::Surface(TIERUP_RUN_TRAP)
        },
        Some(run) => run.svm_onramp_tierup_run(ev, look),
    }
}

/// Pumps the page's cooperative run by one event, if there is a run.
pub fn pump_coop(cap: &mut Capture, slot: &mut Option<TierupRun>, ev: CoopEvent) -> (step:
    TierupStep)
    ensures
        (slot_view(*final(slot)), step, final(cap).last_status) == coop_pumped(
            slot_view(*old(slot)),
            ev,
            old(cap).last_status,
        ),
        *final(cap) == (Capture { last_status: final(cap).last_status, ..*old(cap) }),
{
    match slot {
        None => {
            cap.last_status = STATUS_UNSUPPORTED;
            TierupStep::Surface(COOP_RUN_TRAP)
        },
        Some(run) => run.svm_coop_run(ev),
    }
}

/// The bytes of the page's run window, zero while no run is open.
pub open spec fn window_len(slot: Option<TierupOperands>) -> nat {
    match slot {
        Some(s) => pow2(s.win_log2 as nat),
        None => 0,
    }
}

/// The bytes of the single-CPU run's window.
pub fn svm_onramp_tierup_win_len(slot: &Option<TierupRun>) -> (r: u64)
    requires
        *slot matches Some(run) ==> run.win_log2 < 64,
    ensures
        r == window_len(slot_view(*slot)),
{
    match slot {
        Some(run) => size_of_log2(run.win_log2),
        None => 0,
    }
}

/// The bytes of the cooperative run's window.
pub fn svm_coop_win_len(slot: &Option<TierupRun>) -> (r: u64)
    requires
        *slot matches Some(run) ==> run.win_log2 < 64,
    ensures
        r == window_len(slot_view(*slot)),
{
    svm_onramp_tierup_win_len(slot)
}

/// A guest that uses threads or futexes is pumped cooperatively or not at all: one virtual CPU
/// refuses it as unsupported, and to the cooperative pump it is a guest like any other.
pub proof fn law_concurrent_guest_is_only_pumped_cooperatively(
    m: TierupModule,
    emit: Option<Vec<bool>>,
    build: Build,
)
    requires
        m.concurrent,
    ensures
        spec_tierup_status(Some(m), emit, build) == STATUS_UNSUPPORTED,
        spec_coop_status(Some(m), emit, build) == spec_tierup_status(
            Some(TierupModule { concurrent: false, ..m }),
            emit,
            build,
        ),
{
}

/// A refused open leaves no run, whatever was open before: the window is empty, and a pump answers
/// as after a trap, with the status that it is unsupported.
pub proof fn law_refused_open_leaves_no_run(
    m: Option<TierupModule>,
    emit: Option<Vec<bool>>,
    build: Build,
    run: TierupOperands,
    ev: VcpuEvent,
    look: UnitLookup,
    coop_ev: CoopEvent,
)
    ensures
        spec_tierup_status(m, emit, build) != STATUS_OK ==> ({
            let slot = slot_after(spec_tierup_status(m, emit, build), run);
            &&& window_len(slot) == 0
            &&& tierup_pumped(slot, ev, look, spec_tierup_status(m, emit, build)) == (
                slot,
                TierupStep::Surface(TIERUP_RUN_TRAP),
                STATUS_UNSUPPORTED,
            )
        }),
        spec_coop_status(m, emit, build) != STATUS_OK ==> ({
            let slot = slot_after(spec_coop_status(m, emit, build), run);
            &&& window_len(slot) == 0
            &&& coop_pumped(slot, coop_ev, spec_coop_status(m, emit, build)) == (
                slot,
                TierupStep::Surface(COOP_RUN_TRAP),
                STATUS_UNSUPPORTED,
            )
        }),
        spec_coop_status(None, emit, build) == STATUS_DECODE_ERR,
        spec_tierup_status(None, emit, build) == STATUS_DECODE_ERR,
{
}

/// Both pumps give a finished program the same verdict and the same code.
pub proof fn law_pumps_agree_on_the_end(s: TierupOperands, look: UnitLookup, vals: Vec<Value>, t: Trap)
    ensures
        tierup_next(s, VcpuEvent::Done(vals), look) == coop_next(s, CoopEvent::Done(vals)),
        tierup_next(s, VcpuEvent::Trapped(t), look) == coop_next(s, CoopEvent::Trapped(t)),
{
}

/// One virtual CPU serves no other one and never waits: it ends a run as a trap on exactly the
/// events of that kind, and on the guest's own traps.
pub proof fn law_unserved_events_end_the_run(
    s: TierupOperands,
    ev: VcpuEvent,
    look: UnitLookup,
)
    ensures
        tierup_next(s, ev, look).1 == TierupStep::Finish(bare(STATUS_TRAP), TIERUP_RUN_TRAP) <==> (
        ev is Spawn || ev is Join || ev is Wait || ev is Notify || ev is Instantiate || ev
            is StdinPark || (ev is Trapped && !(ev->Trapped_0 is Exit))),
{
}

/// An invoke that is surfaced to run on an emitted body carries its own code, arguments, types, body
/// and extent, whatever event came before; one that the interpreter runs stages nothing.
pub proof fn law_invoke_stages_its_own_operands(
    s: TierupOperands,
    handle: i32,
    code: i32,
    argv: Vec<i64>,
    params: Vec<ValType>,
    results: Vec<ValType>,
    extent: Option<u64>,
    look: UnitLookup,
)
    ensures
        ({
            let ev = VcpuEvent::JitInvoke { handle, code, argv, params, results, extent };
            let (t, step) = tierup_next(s, ev, look);
            &&& step == TierupStep::Surface(TIERUP_RUN_JIT_INVOKE) <==> {
                &&& look.resolved() is Ok
                &&& look.wasm is Some
                &&& extent is Some
                &&& forall|i: int|
                    0 <= i < params@.len() ==> (#[trigger] params@[i]) != ValType::V128 && params@[i]
                        != ValType::Ref
                &&& forall|i: int|
                    0 <= i < results@.len() ==> (#[trigger] results@[i]) != ValType::V128
                        && results@[i] != ValType::Ref
            }
            &&& step == TierupStep::Surface(TIERUP_RUN_JIT_INVOKE) ==> {
                &&& t.jit_code == code
                &&& t.argv == argv@
                &&& extent == Some(t.mapped)
                &&& t.jit_wasm == look.wasm
                &&& t.jit_param_types.len() == params@.len()
                &&& forall|i: int|
                    0 <= i < params@.len() ==> spec_scalar_type_code(params@[i]) == Some(
                        #[trigger] t.jit_param_types[i],
                    )
                &&& t.jit_result_types.len() == results@.len()
                &&& forall|i: int|
                    0 <= i < results@.len() ==> spec_scalar_type_code(results@[i]) == Some(
                        #[trigger] t.jit_result_types[i],
                    )
            }
            &&& step != TierupStep::Surface(TIERUP_RUN_JIT_INVOKE) ==> t == s && step
                == TierupStep::Invoke(look.resolved())
            &&& (t.func, t.win_log2, t.slot_codes, t.sigs) == (
                s.func,
                s.win_log2,
                s.slot_codes,
                s.sigs,
            )
            &&& (t.shim_wasm, t.jit_wasm_by_handle, t.pending_bounce_trap, t.value) == (
                s.shim_wasm,
                s.jit_wasm_by_handle,
                s.pending_bounce_trap,
                s.value,
            )
        }),
{
    let ev = VcpuEvent::JitInvoke { handle, code, argv, params, results, extent };
    assert(forall|i: int|
        0 <= i < params@.len() ==> (spec_scalar_type_code(#[trigger] params@[i]) is Some <==> params@[i]
            != ValType::V128 && params@[i] != ValType::Ref));
    assert(forall|i: int|
        0 <= i < results@.len() ==> (spec_scalar_type_code(#[trigger] results@[i]) is Some
            <==> results@[i] != ValType::V128 && results@[i] != ValType::Ref));
}

/// A tier-up hands over its own function, arguments and extent, on either pump, and leaves a pending
/// invoke as it was.
pub proof fn law_tierup_stages_its_own_operands(
    s: TierupOperands,
    func: u32,
    argv: Vec<i64>,
    mapped: u64,
    look: UnitLookup,
)
    ensures
        ({
            let (t, step) = tierup_next(s, VcpuEvent::TierUp { func, argv, mapped }, look);
            let (c, coop) = coop_next(s, CoopEvent::TierUp { func, argv, mapped });
            &&& step == TierupStep::Surface(TIERUP_RUN_TIERUP)
            &&& coop == TierupStep::Surface(COOP_RUN_TIERUP)
            &&& t == c
            &&& (t.func, t.mapped) == (func, mapped)
            &&& t.argv == argv@
            &&& (t.jit_code, t.jit_wasm) == (s.jit_code, s.jit_wasm)
            &&& (t.jit_param_types, t.jit_result_types) == (s.jit_param_types, s.jit_result_types)
            &&& (t.win_log2, t.slot_codes, t.sigs) == (s.win_log2, s.slot_codes, s.sigs)
            &&& (t.shim_wasm, t.jit_wasm_by_handle, t.pending_bounce_trap, t.value) == (
                s.shim_wasm,
                s.jit_wasm_by_handle,
                s.pending_bounce_trap,
                s.value,
            )
        }),
{
}

/// An invoke that both pumps surface is handed over in the same way by both.
pub proof fn law_pumps_agree_on_an_invoke(
    s: TierupOperands,
    handle: i32,
    code: i32,
    wasm: Vec<u8>,
    argv: Vec<i64>,
    params: Vec<ValType>,
    results: Vec<ValType>,
    mapped: u64,
    look: UnitLookup,
)
    requires
        look.wasm == Some(wasm),
        tierup_next(
            s,
            VcpuEvent::JitInvoke { handle, code, argv, params, results, extent: Some(mapped) },
            look,
        ).1 is Surface,
    ensures
        ({
            let ev = VcpuEvent::JitInvoke {
                handle,
                code,
                argv,
                params,
                results,
                extent: Some(mapped),
            };
            let c = coop_next(
                s,
                CoopEvent::JitInvoke { code, wasm, argv, params, results, mapped },
            );
            &&& c == tierup_next(s, ev, look)
            &&& c.1 == TierupStep::Surface(COOP_RUN_JIT_INVOKE)
        }),
{
    assert(loose_type_codes(params@) =~= type_codes(params@));
    assert(loose_type_codes(results@) =~= type_codes(results@));
}

/// The cooperative pump hands every invoke over with its own operands: code, body, arguments, types
/// and extent.
pub proof fn law_coop_invoke_stages_its_own_operands(
    s: TierupOperands,
    code: i32,
    wasm: Vec<u8>,
    argv: Vec<i64>,
    params: Vec<ValType>,
    results: Vec<ValType>,
    mapped: u64,
)
    ensures
        ({
            let ev = CoopEvent::JitInvoke { code, wasm, argv, params, results, mapped };
            let (t, step) = coop_next(s, ev);
            &&& step == TierupStep::Surface(COOP_RUN_JIT_INVOKE)
            &&& (t.jit_code, t.jit_wasm, t.mapped) == (code, Some(wasm), mapped)
            &&& t.argv == argv@
            &&& t.jit_param_types.len() == params@.len()
            &&& forall|i: int|
                0 <= i < params@.len() ==> {
                    let c = #[trigger] t.jit_param_types[i];
                    spec_scalar_type_code(params@[i]) == Some(c) || (spec_scalar_type_code(
                        params@[i],
                    ) is None && c == 0)
                }
            &&& t.jit_result_types.len() == results@.len()
            &&& forall|i: int|
                0 <= i < results@.len() ==> {
                    let c = #[trigger] t.jit_result_types[i];
                    spec_scalar_type_code(results@[i]) == Some(c) || (spec_scalar_type_code(
                        results@[i],
                    ) is None && c == 0)
                }
            &&& (t.func, t.win_log2, t.slot_codes, t.sigs, t.value) == (
                s.func,
                s.win_log2,
                s.slot_codes,
                s.sigs,
                s.value,
            )
        }),
{
}

/// A run that returned keeps its first result as the run's value, widened if it is a 32-bit integer;
/// every other end leaves zero. Only the value changes.
pub proof fn law_end_keeps_the_value(s: TierupOperands, vals: Vec<Value>, t: Trap, look: UnitLookup)
    ensures
        ({
            let (r, step) = tierup_next(s, VcpuEvent::Done(vals), look);
            &&& r == (TierupOperands { value: r.value, ..s })
            &&& vals@.len() > 0 ==> match vals@[0] {
                Value::I64(x) => r.value == x && step == TierupStep::Finish(
                    Verdict { status: STATUS_OK, value: x, exit_code: 0 },
                    TIERUP_RUN_DONE,
                ),
                Value::I32(x) => r.value == x && step == TierupStep::Finish(
                    Verdict { status: STATUS_OK, value: x as i64, exit_code: 0 },
                    TIERUP_RUN_DONE,
                ),
                _ => r.value == 0,
            }
            &&& vals@.len() == 0 ==> r.value == 0
        }),
        tierup_next(s, VcpuEvent::Trapped(t), look).0 == (TierupOperands { value: 0, ..s }),
        t matches Trap::Exit(code) ==> tierup_next(s, VcpuEvent::Trapped(t), look).1
            == TierupStep::Finish(
            Verdict { status: STATUS_EXIT, value: 0, exit_code: code },
            TIERUP_RUN_DONE,
        ),
        !(t is Exit) ==> tierup_next(s, VcpuEvent::Trapped(t), look).1 == TierupStep::Finish(
            Verdict { status: STATUS_TRAP, value: 0, exit_code: 0 },
            TIERUP_RUN_TRAP,
        ),
{
}

/// An install or an uninstall is answered from the authority table and stages nothing.
pub proof fn law_installs_are_answered_by_authority(
    s: TierupOperands,
    handle: i32,
    code: i32,
    look: UnitLookup,
)
    ensures
        tierup_next(s, VcpuEvent::JitInstall { handle, code }, look) == (
            s,
            TierupStep::Install(look.resolved()),
        ),
        tierup_next(s, VcpuEvent::JitUninstall { handle }, look) == (
            s,
            TierupStep::Uninstall(look.authorized()),
        ),
{
}

/// The mirror of the dispatch table holds at every slot what was last put there: a recorded change
/// is read back at its slot and nowhere else, and everything but the mirror stays.
pub proof fn law_slot_mirror_follows_the_table(
    run: TierupRun,
    after: TierupRun,
    slot: Option<usize>,
    code: i32,
    other: nat,
)
    requires
        after@ == slot_noted(run@, slot, code),
    ensures
        slot matches Some(s) ==> s < run.slot_codes@.len() ==> after.spec_slot_code(s as nat)
            == code,
        slot != Some(other as usize) || other > usize::MAX ==> after.spec_slot_code(other)
            == run.spec_slot_code(other),
        after@ == (TierupOperands { slot_codes: after@.slot_codes, ..run@ }),
{
}

/// A fresh pump has an empty table of the guest's size and nothing pending.
pub proof fn law_fresh_pump_is_empty(sigs: Seq<Sig>, win_log2: u8, slot: int)
    requires
        0 <= slot < ONRAMP_JIT_TABLE_SLOTS,
    ensures
        ({
            let v = opened(sigs, win_log2);
            &&& v.slot_codes.len() == ONRAMP_JIT_TABLE_SLOTS
            &&& v.slot_codes[slot] == NO_CODE
            &&& v.sigs == sigs
            &&& v.win_log2 == win_log2
            &&& v.pending_bounce_trap is None
            &&& v.jit_wasm is None
            &&& v.argv.len() == 0
        }),
{
}

/// A bounce shim has the signature of what a call through its slot reaches: the program's own
/// functions by their index, whatever was installed; past them the unit installed there, and nothing
/// where none is.
pub proof fn law_shim_follows_its_slot(run: TierupRun, slot: u32, code: i32)
    ensures
        slot < run.sigs@.len() ==> run.spec_shim_target(slot, code) == ShimTarget::Program(
            slot as usize,
        ),
        slot >= run.sigs@.len() && code >= 0 ==> run.spec_shim_target(slot, code)
            == ShimTarget::Unit(code),
        slot >= run.sigs@.len() && code < 0 ==> run.spec_shim_target(slot, code)
            == ShimTarget::Empty,
        slot >= run.sigs@.len() ==> run.spec_shim_target(slot, NO_CODE) == ShimTarget::Empty,
{
}

/// A bounce that traps is staged until the unwind delivers it, once; one that returned stages
/// nothing and delivers nothing.
pub proof fn law_staged_trap_is_delivered_once(v: TierupOperands, t: Trap)
    ensures
        after_bounce(v, Ok(())) == v,
        unwind_trap(after_bounce(v, Err(t))) == t,
        unwind_trap(after_unwind(after_bounce(v, Err(t)))) == Trap::Unreachable,
        v.pending_bounce_trap is None ==> unwind_trap(v) == Trap::Unreachable && after_unwind(v) == v,
        after_bounce(v, Err(t)) == (TierupOperands { pending_bounce_trap: Some(t), ..v }),
        after_unwind(v) == (TierupOperands { pending_bounce_trap: None, ..v }),
{
}

/// The run window holds what the guest declares and what a run needs, and is no larger than one of
/// the two. Submitted units are emitted only for a guest that submits, and only over a table that
/// every function can be reached through.
pub proof fn law_plan_covers_the_guest(m: TierupModule, max_slots: nat)
    requires
        m.shape.memory_log2 is Some,
    ensures
        ({
            let plan = spec_tierup_plan(m, max_slots);
            let declared = m.shape.memory_log2->0;
            &&& plan.win_log2 >= declared
            &&& plan.win_log2 >= 25
            &&& plan.win_log2 == declared || plan.win_log2 == 25
            &&& plan.jit_importer == m.shape.spec_wants_jit()
            &&& plan.emit_units <==> plan.jit_importer && plan.shared_table
            &&& plan.shared_table <==> forall|i: int|
                0 <= i < m.sigs@.len() ==> {
                    let sig = #[trigger] m.sigs@[i];
                    &&& sig.params@.len() <= max_slots
                    &&& sig.results@.len() <= max_slots
                    &&& all_scalar(sig.params@)
                    &&& all_scalar(sig.results@)
                }
        }),
{
    if spec_all_shimmable(m.sigs@, max_slots) {
        assert forall|i: int| 0 <= i < m.sigs@.len() implies {
            let sig = #[trigger] m.sigs@[i];
            &&& sig.params@.len() <= max_slots
            &&& sig.results@.len() <= max_slots
            &&& all_scalar(sig.params@)
            &&& all_scalar(sig.results@)
        } by {
            assert(spec_shimmable(m.sigs@[i], max_slots));
        }
    }
}

/// An open succeeds exactly where the module decodes, passes the on-ramp, has a window, something of
/// it could ever run emitted, and the engine is ready; on one virtual CPU also only where it is not
/// concurrent. A module that does not decode is told apart from every other refusal, and a start
/// that trapped from one that the engine does not take.
pub proof fn law_open_succeeds_exactly(m: TierupModule, emit: Option<Vec<bool>>, build: Build)
    ensures
        spec_coop_status(Some(m), emit, build) == STATUS_OK <==> {
            &&& m.shape.imports@.len() == 0 || m.shape.named_entry()
            &&& m.shape.memory_log2 is Some
            &&& emit is Some
            &&& m.shape.spec_wants_jit() || exists|i: int|
                0 <= i < m.sigs@.len() && (#[trigger] spec_tierup_eligible(emit->0@, m.sigs@)[i])
            &&& build == Build::Ready
        },
        spec_tierup_status(Some(m), emit, build) == STATUS_OK <==> !m.concurrent && spec_coop_status(
            Some(m),
            emit,
            build,
        ) == STATUS_OK,
        spec_coop_status(Some(m), emit, build) == STATUS_OK || spec_coop_status(Some(m), emit, build)
            == STATUS_UNSUPPORTED || spec_coop_status(Some(m), emit, build) == STATUS_TRAP,
        spec_coop_status(Some(m), emit, build) == STATUS_TRAP ==> build == Build::Failed,
        build == Build::Failed ==> spec_coop_status(Some(m), emit, build) == STATUS_TRAP
            || spec_coop_status(Some(m), emit, Build::Ready) == STATUS_UNSUPPORTED,
{
    if emit is Some {
        let e = spec_tierup_eligible(emit->0@, m.sigs@);
        assert(e.len() == m.sigs@.len());
    }
}

/// A unit with a window is emitted against the larger of its own and the run's; one without stays
/// without.
pub proof fn law_unit_window_covers_the_run(k: u8, win_log2: u8)
    ensures
        spec_unit_window_log2(None, win_log2) is None,
        spec_unit_window_log2(Some(k), win_log2) matches Some(w) && w >= k && w >= win_log2 && (w == k
            || w == win_log2),
{
}

/// The shim that is read is the one generated last, and none where none was made.
pub proof fn law_last_shim_is_kept(v: TierupOperands, first: Option<Seq<u8>>, last: Seq<u8>)
    ensures
        shim_kept(shim_kept(v, first), Some(last)).shim_wasm == last,
        shim_kept(shim_kept(v, first), None).shim_wasm.len() == 0,
        shim_kept(v, first) == (TierupOperands { shim_wasm: shim_kept(v, first).shim_wasm, ..v }),
{
}

/// The body that is read for a handle is the one asked for last; it touches nothing that an invoke
/// staged.
pub proof fn law_handle_body_is_the_last_asked_for(
    v: TierupOperands,
    first: Option<Vec<u8>>,
    last: Option<Vec<u8>>,
)
    ensures
        handle_body_kept(handle_body_kept(v, first), last).jit_wasm_by_handle == last,
        handle_body_kept(v, last).jit_wasm == v.jit_wasm,
        handle_body_kept(v, last).argv == v.argv,
        handle_body_kept(v, last).slot_codes == v.slot_codes,
        handle_body_kept(v, last).shim_wasm == v.shim_wasm,
{
}

/// A run is admitted exactly if something could ever run on an emitted body: one of its functions, or
/// a unit that it submits; what tiers up are the functions that were emitted and can.
pub proof fn law_admitted_run_can_tier_up(
    plan: TierupPlan,
    emit: Seq<bool>,
    sigs: Seq<Sig>,
    r: Result<Vec<bool>, i32>,
    i: int,
)
    requires
        sigs.len() <= emit.len(),
        admitted(plan, Some(emit), sigs, r),
    ensures
        plan.jit_importer ==> r is Ok,
        0 <= i < sigs.len() && spec_tierup_eligible(emit, sigs)[i] ==> r is Ok,
        r matches Ok(v) ==> v@.len() == sigs.len() && (0 <= i < sigs.len() ==> (v@[i]
            <==> spec_tierup_eligible(emit, sigs)[i])),
        r matches Err(status) ==> status == 2,
        !plan.jit_importer && (forall|j: int|
            0 <= j < sigs.len() ==> !#[trigger] spec_tierup_eligible(emit, sigs)[j]) ==> r is Err,
{
    let e = spec_tierup_eligible(emit, sigs);
    assert(e.len() == sigs.len());
    if 0 <= i < sigs.len() && e[i] {
        assert(spec_any(e));
    }
}

} // verus!
