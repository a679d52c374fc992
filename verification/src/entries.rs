//! The entries that a page calls: what each returns and what it leaves in the capture slots, from
//! what the engine says of the module and of its run.

use vstd::prelude::*;
use vstd::utf8::encode_utf8;

use crate::bytes::{bits_of_i64, i32_of_low, i64_bits, le_bytes, low_i32};
use crate::caps::{onramp_check, OnrampModule};
use crate::capture::{outcome_stashed, run_stashed, text_stashed, Capture};
use crate::card::{file_contents, files_view, read_back, MemFile};
use crate::eligible::Sig;
use crate::reactor::{OnrampReactor, TickEnd};
use crate::runs::{
    bench_args, bench_raw, coerced, is_refused, pb_outcome, refused_outcome, spec_bench_args,
    spec_pb_outcome,
};
use crate::shell::{judge_shell, spec_shell_verdict};
use crate::slots::Value;
use crate::status::{
    i64_only, spec_i64_only, spec_value_only, spec_verdict, value_only, value_or_exit, CapOutcome,
    Frame, PbOutcome, RunResult, Verdict, STATUS_BAD_RESULT, STATUS_DECODE_ERR, STATUS_EXIT,
    STATUS_OK, STATUS_TRAP, STATUS_UNSUPPORTED,
};
use crate::symtab::{
    encode_symtab, spec_encode_symtab, table_view, Resolved, ResolvedCap, SymEntry,
};
use crate::traps::Trap;
use crate::warm::{
    judge_warm, max2, plan_warm, session_after, spec_live, spec_warmable,
    warm_report, JitOnrampRun, PageEntry, WarmEnd, WarmSession,
};

verus! {
/// What a run left behind.
#[derive(Debug)]
pub struct Ran {
    pub run: RunResult,
    pub stdout: Vec<u8>,
    pub stderr: Vec<u8>,
    /// The last frame presented.
    pub frame: Option<Frame>,
}

/// `o` is the outcome of a run that presents nothing.
pub open spec fn ran_quietly(ran: Ran, o: PbOutcome) -> bool {
    o == spec_pb_outcome(spec_verdict(ran.run, STATUS_BAD_RESULT), ran.stdout, ran.stderr, None)
}

/// `o` is the outcome of a run of `m` that may present.
pub open spec fn ran_onramp(m: OnrampModule, ran: Ran, o: PbOutcome) -> bool {
    if unbindable(m) {
        is_refused(o, STATUS_UNSUPPORTED)
    } else {
        o == spec_pb_outcome(
            spec_verdict(ran.run, STATUS_BAD_RESULT),
            ran.stdout,
            ran.stderr,
            ran.frame,
        )
    }
}

/// `o` is the outcome of a headless run that was set up so.
pub open spec fn ran_headless(setup: Result<(), i32>, ran: Ran, o: PbOutcome) -> bool {
    match setup {
        Err(status) => is_refused(o, status),
        Ok(_) => ran_quietly(ran, o),
    }
}

/// The outcome of a run under the positional powerbox, which presents nothing.
pub fn powerbox_exec(ran: Ran) -> (r: PbOutcome)
    ensures
        ran_quietly(ran, r),
        r == spec_pb_outcome(
            spec_verdict(ran.run, STATUS_BAD_RESULT),
            ran.stdout,
            ran.stderr,
            None,
        ),
{
    pb_outcome(value_or_exit(&ran.run), ran.stdout, ran.stderr, None)
}

/// The module has imports but no named entry that they could bind at.
pub open spec fn unbindable(m: OnrampModule) -> bool {
    m.imports@.len() != 0 && !m.named_entry()
}

/// The outcome of a run under the full powerbox; a module that cannot be bound is refused, whatever
/// `ran` says.
pub fn onramp_exec(m: &OnrampModule, ran: Ran) -> (r: PbOutcome)
    ensures
        ran_onramp(*m, ran, r),
        unbindable(*m) ==> is_refused(r, STATUS_UNSUPPORTED),
        !unbindable(*m) ==> r == spec_pb_outcome(
            spec_verdict(ran.run, STATUS_BAD_RESULT),
            ran.stdout,
            ran.stderr,
            ran.frame,
        ),
{
    if onramp_check(m).is_err() {
        return refused_outcome(STATUS_UNSUPPORTED);
    }
    pb_outcome(value_or_exit(&ran.run), ran.stdout, ran.stderr, ran.frame)
}

/// The outcome of a guest that compiles what it runs: the same powerbox grants what it needs.
pub fn onramp_jit_exec(m: &OnrampModule, ran: Ran) -> (r: PbOutcome)
    ensures
        ran_onramp(*m, ran, r),
        unbindable(*m) ==> is_refused(r, STATUS_UNSUPPORTED),
        !unbindable(*m) ==> r == spec_pb_outcome(
            spec_verdict(ran.run, STATUS_BAD_RESULT),
            ran.stdout,
            ran.stderr,
            ran.frame,
        ),
{
    onramp_exec(m, ran)
}

/// The outcome of a run under the POSIX personality; `bound` says whether the personality has every
/// import.
pub fn onramp_posix_exec(m: &OnrampModule, bound: bool, ran: Ran) -> (r: PbOutcome)
    ensures
        ran_headless(
            if unbindable(*m) || !bound {
                Err(STATUS_UNSUPPORTED)
            } else {
                Ok(())
            },
            ran,
            r,
        ),
        unbindable(*m) || !bound ==> is_refused(r, STATUS_UNSUPPORTED),
        !unbindable(*m) && bound ==> r == spec_pb_outcome(
            spec_verdict(ran.run, STATUS_BAD_RESULT),
            ran.stdout,
            ran.stderr,
            None,
        ),
{
    if onramp_check(m).is_err() || !bound {
        return refused_outcome(STATUS_UNSUPPORTED);
    }
    pb_outcome(value_or_exit(&ran.run), ran.stdout, ran.stderr, None)
}

/// The outcome of a shell run.
pub fn posix_shell_exec_with(ran: Ran) -> (r: PbOutcome)
    ensures
        r == spec_pb_outcome(spec_shell_verdict(ran.run), ran.stdout, ran.stderr, None),
{
    pb_outcome(judge_shell(&ran.run), ran.stdout, ran.stderr, None)
}

/// The outcome of a headless run over served files; `setup` is what setting it up came to.
pub fn onramp_fs_exec(setup: Result<(), i32>, ran: Ran) -> (r: PbOutcome)
    ensures
        ran_headless(setup, ran, r),
        setup matches Err(status) ==> is_refused(r, status),
        setup is Ok ==> r == spec_pb_outcome(
            spec_verdict(ran.run, STATUS_BAD_RESULT),
            ran.stdout,
            ran.stderr,
            None,
        ),
{
    match setup {
        Err(status) => refused_outcome(status),
        Ok(_) => pb_outcome(value_or_exit(&ran.run), ran.stdout, ran.stderr, None),
    }
}

/// As [`onramp_fs_exec`], with what the run wrote to the file `key`.
pub fn onramp_fs_exec_readback(
    setup: Result<(), i32>,
    ran: Ran,
    files: &[MemFile],
    key: &str,
) -> (r: (PbOutcome, Vec<u8>))
    ensures
        ran_headless(setup, ran, r.0),
        setup matches Err(status) ==> is_refused(r.0, status) && r.1@.len() == 0,
        setup is Ok ==> r.0 == spec_pb_outcome(
            spec_verdict(ran.run, STATUS_BAD_RESULT),
            ran.stdout,
            ran.stderr,
            None,
        ) && r.1@ == file_contents(files_view(files@), key@),
{
    match setup {
        Err(status) => (refused_outcome(status), Vec::new()),
        Ok(_) => (onramp_fs_exec(Ok(()), ran), read_back(files, key)),
    }
}

/// `after` is `before` once a run under a powerbox that presents nothing has ended so; `value` is
/// handed back.
pub open spec fn run_settled(
    before: Capture,
    after: Capture,
    ran: Result<PbOutcome, i32>,
    value: i64,
) -> bool {
    match ran {
        Err(status) => value == 0 && after == (Capture { last_status: status, ..before }),
        Ok(o) => text_stashed(before, after, o, value),
    }
}

/// Ends an entry that runs a module under a powerbox and presents nothing: the outcome goes to the
/// capture slots and its value back; a module that did not get that far leaves its status alone.
pub fn settle_run(cap: &mut Capture, ran: Result<PbOutcome, i32>) -> (r: i64)
    ensures
        run_settled(*old(cap), *final(cap), ran, r),
        ran matches Err(status) ==> r == 0 && *final(cap) == (Capture {
            last_status: status,
            ..*old(cap)
        }),
        ran matches Ok(o) ==> r == o.value && *final(cap) == (Capture {
            out: o.stdout,
            err: o.stderr,
            exit_code: o.exit_code,
            last_status: o.status,
            ..*old(cap)
        }),
{
    match ran {
        Err(status) => {
            cap.last_status = status;
            0
        },
        Ok(o) => cap.stash_text(o),
    }
}

/// `after` is `before` once a run under the full powerbox has ended so; `value` is handed back.
pub open spec fn onramp_settled(
    before: Capture,
    after: Capture,
    ran: Option<PbOutcome>,
    value: i64,
) -> bool {
    match ran {
        None => value == 0 && after == (Capture { last_status: STATUS_DECODE_ERR, ..before }),
        Some(o) => outcome_stashed(before, after, o, value),
    }
}

/// As [`settle_run`], for a run that may have presented a frame; `None` is a module that does not
/// decode.
pub fn svm_run_onramp(cap: &mut Capture, ran: Option<PbOutcome>) -> (r: i64)
    ensures
        onramp_settled(*old(cap), *final(cap), ran, r),
        ran is None ==> r == 0 && *final(cap) == (Capture {
            last_status: STATUS_DECODE_ERR,
            ..*old(cap)
        }),
        ran matches Some(o) ==> r == o.value && final(cap).holds_frame(o.framebuffer) && *final(cap)
            == (Capture {
            out: o.stdout,
            err: o.stderr,
            exit_code: o.exit_code,
            last_status: o.status,
            fb: final(cap).fb,
            fb_w: final(cap).fb_w,
            fb_h: final(cap).fb_h,
            ..*old(cap)
        }),
{
    match ran {
        None => {
            cap.last_status = STATUS_DECODE_ERR;
            0
        },
        Some(o) => cap.stash_outcome(o),
    }
}

/// `after` is `before` once a phase has ended so; `value` is handed back.
pub open spec fn phase_settled(
    before: Capture,
    after: Capture,
    ran: Result<(PbOutcome, Vec<u8>), i32>,
    value: i64,
) -> bool {
    match ran {
        Err(status) => value == 0 && after == (Capture { last_status: status, ..before }),
        Ok((o, produced)) => value == o.value && after == (Capture {
            out: produced,
            err: o.stderr,
            exit_code: o.exit_code,
            last_status: o.status,
            ..before
        }),
    }
}

/// As [`settle_run`], for a phase whose output is the file it wrote.
pub fn svm_run_nifler_fs(cap: &mut Capture, ran: Result<(PbOutcome, Vec<u8>), i32>) -> (r: i64)
    ensures
        phase_settled(*old(cap), *final(cap), ran, r),
        ran matches Err(status) ==> r == 0 && *final(cap) == (Capture {
            last_status: status,
            ..*old(cap)
        }),
        ran matches Ok((o, produced)) ==> r == o.value && *final(cap) == (Capture {
            out: produced,
            err: o.stderr,
            exit_code: o.exit_code,
            last_status: o.status,
            ..*old(cap)
        }),
{
    match ran {
        Err(status) => {
            cap.last_status = status;
            0
        },
        Ok((o, produced)) => {
            let value: i64 = cap.stash_text(o);
            cap.out = produced;
            value
        },
    }
}

/// `before` once an entry that has a status and a value has ended so, and what is handed back.
pub open spec fn value_settled(before: Capture, ran: Option<(i32, i64)>) -> (Capture, i64) {
    match ran {
        None => (Capture { last_status: STATUS_DECODE_ERR, ..before }, 0i64),
        Some((status, value)) => (Capture { last_status: status, ..before }, value),
    }
}

/// Ends an entry that only has a status and a value; `None` is a module that does not decode.
pub fn settle_value(cap: &mut Capture, ran: Option<(i32, i64)>) -> (r: i64)
    ensures
        (*final(cap), r) == value_settled(*old(cap), ran),
        r == (match ran {
            None => 0i64,
            Some((_, value)) => value,
        }),
        *final(cap) == (Capture {
            last_status: match ran {
                None => STATUS_DECODE_ERR,
                Some((status, _)) => status,
            },
            ..*old(cap)
        }),
{
    match ran {
        None => {
            cap.last_status = STATUS_DECODE_ERR;
            0
        },
        Some((status, value)) => {
            cap.last_status = status;
            value
        },
    }
}

/// `before` once a run that captures the window image has ended so, and what is handed back.
pub open spec fn window_settled(before: Capture, ran: Option<CapOutcome>) -> (Capture, i64) {
    match ran {
        None => (Capture { last_status: STATUS_DECODE_ERR, ..before }, 0i64),
        Some(o) => (Capture { last_status: o.status, snap: o.snapshot, ..before }, o.value),
    }
}

/// Ends an entry that captures the window image; `None` is a module that does not decode.
pub fn svm_run_capture(cap: &mut Capture, ran: Option<CapOutcome>) -> (r: i64)
    ensures
        (*final(cap), r) == window_settled(*old(cap), ran),
        ran is None ==> r == 0 && *final(cap) == (Capture {
            last_status: STATUS_DECODE_ERR,
            ..*old(cap)
        }),
        ran matches Some(o) ==> r == o.value && *final(cap) == (Capture {
            last_status: o.status,
            snap: o.snapshot,
            ..*old(cap)
        }),
{
    match ran {
        None => {
            cap.last_status = STATUS_DECODE_ERR;
            0
        },
        Some(o) => {
            cap.last_status = o.status;
            cap.snap = o.snapshot;
            o.value
        },
    }
}

/// `before` once a compute-only run has ended so, and what is handed back.
pub open spec fn compute_settled(before: Capture, run: Option<RunResult>) -> (Capture, i64) {
    match run {
        None => value_settled(before, None),
        Some(run) => value_settled(
            before,
            Some((spec_i64_only(run).status, spec_i64_only(run).value)),
        ),
    }
}

/// A compute-only run: its 64-bit result, or the status of its failure; `None` is a module that does
/// not decode.
pub fn run_at(cap: &mut Capture, run: Option<RunResult>) -> (r: i64)
    ensures
        (*final(cap), r) == compute_settled(*old(cap), run),
        r == (match run {
            None => 0i64,
            Some(run) => spec_i64_only(run).value,
        }),
        *final(cap) == (Capture {
            last_status: match run {
                None => STATUS_DECODE_ERR,
                Some(run) => spec_i64_only(run).status,
            },
            ..*old(cap)
        }),
{
    match run {
        None => settle_value(cap, None),
        Some(run) => {
            let v: Verdict = i64_only(&run);
            settle_value(cap, Some((v.status, v.value)))
        },
    }
}

/// The status and the value of a run whose guest holds no exit capability.
pub open spec fn spec_plain_exec(run: RunResult) -> (i32, i64) {
    (spec_value_only(run).status, spec_value_only(run).value)
}

/// `r` is the outcome of a durable run that left `snapshot` and `clock`.
pub open spec fn ran_durably(
    run: RunResult,
    snapshot: Seq<u8>,
    clock: i64,
    r: (i32, i64, Vec<u8>, i64),
) -> bool {
    &&& (r.0, r.1) == spec_plain_exec(run)
    &&& r.2@ == (if run is Unsupported {
        Seq::empty()
    } else {
        snapshot
    })
    &&& r.3 == clock
}

/// The status and the value of a run whose guest holds no exit capability.
pub fn plain_exec(run: &RunResult) -> (r: (i32, i64))
    ensures
        r == spec_plain_exec(*run),
        r == (spec_value_only(*run).status, spec_value_only(*run).value),
{
    let v: Verdict = value_only(run);
    (v.status, v.value)
}

/// The arguments with which a benchmark calls the function `func` of a module, or the status of
/// refusing it; `None` is a module that does not decode.
pub fn svm_run_bench(sigs: Option<&[Sig]>, func: u32, sp: i64, n: i64) -> (r: Result<
    Vec<Value>,
    i32,
>)
    ensures
        r is Ok <==> (sigs matches Some(s) && func < s@.len()),
        r matches Err(status) ==> status == (if sigs is None {
            STATUS_DECODE_ERR
        } else {
            STATUS_UNSUPPORTED
        }),
        r matches Ok(args) ==> args@ == spec_bench_args(sigs->0@[func as int].params@, sp, n),
        r matches Ok(args) ==> ({
            let params = sigs->0@[func as int].params@;
            args@ == Seq::new(
                params.len(),
                |i: int| coerced(params[i], bench_raw(params.len(), i, sp, n)),
            )
        }),
{
    match sigs {
        None => Err(STATUS_DECODE_ERR),
        Some(s) => {
            if func as usize >= s.len() {
                return Err(STATUS_UNSUPPORTED);
            }
            Ok(bench_args(s[func as usize].params.as_slice(), sp, n))
        },
    }
}

/// How far a guest with a submitted unit gets.
#[derive(Debug)]
pub enum UnitRun {
    /// The unit's own source does not parse.
    NoUnit,
    /// The unit is refused.
    Refused,
    /// The guest ran.
    Ran(RunResult),
}

/// The status and the value of a guest with a submitted unit.
pub open spec fn spec_jit_exec(ran: UnitRun) -> (i32, i64) {
    match ran {
        UnitRun::NoUnit => (STATUS_BAD_RESULT, 0i64),
        UnitRun::Refused => (STATUS_TRAP, 0i64),
        UnitRun::Ran(run) => (spec_value_only(run).status, spec_value_only(run).value),
    }
}

/// The status and the value of a guest with a submitted unit.
pub fn jit_exec(ran: &UnitRun) -> (r: (i32, i64))
    ensures
        r == spec_jit_exec(*ran),
        r == (match *ran {
            UnitRun::NoUnit => (STATUS_BAD_RESULT, 0i64),
            UnitRun::Refused => (STATUS_TRAP, 0i64),
            UnitRun::Ran(run) => (spec_value_only(run).status, spec_value_only(run).value),
        }),
{
    match ran {
        UnitRun::NoUnit => (STATUS_BAD_RESULT, 0),
        UnitRun::Refused => (STATUS_TRAP, 0),
        UnitRun::Ran(run) => plain_exec(run),
    }
}

/// 32-bit numbers as the arguments of an entry.
pub open spec fn handle_args(hs: Seq<i32>) -> Seq<Value> {
    hs.map_values(|h: i32| Value::I32(h))
}

/// The arguments of a guest that invokes a submitted unit: the capability, the unit and two factors.
pub fn jit_exec_args(jit: i32, code: i32) -> (r: Vec<Value>)
    ensures
        r@ == handle_args(seq![jit, code, 6, 7]),
        r@ == seq![Value::I32(jit), Value::I32(code), Value::I32(6), Value::I32(7)],
{
    let mut out: Vec<Value> = Vec::new();
    out.push(Value::I32(jit));
    out.push(Value::I32(code));
    out.push(Value::I32(6));
    out.push(Value::I32(7));
    assert(out@ =~= handle_args(seq![jit, code, 6, 7]));
    out
}

/// The arguments of a guest that invokes a linked unit: the capability, the unit and the clock.
pub fn dynlink_exec_args(jit: i32, code: i32, clock: i32) -> (r: Vec<Value>)
    ensures
        r@ == handle_args(seq![jit, code, clock]),
        r@ == seq![Value::I32(jit), Value::I32(code), Value::I32(clock)],
{
    let mut out: Vec<Value> = Vec::new();
    out.push(Value::I32(jit));
    out.push(Value::I32(code));
    out.push(Value::I32(clock));
    assert(out@ =~= handle_args(seq![jit, code, clock]));
    out
}

/// The symbols that a linked unit is submitted with: the clock if it is to be linked, else none.
pub fn dynlink_symtab(link: bool) -> (r: Vec<u8>)
    ensures
        r@ == (if link {
            spec_encode_symtab(
                seq![("clock"@, Resolved::Cap(ResolvedCap { type_id: 2, op: 0 }))],
            )
        } else {
            Seq::empty()
        }),
{
    if !link {
        return Vec::new();
    }
    let mut es: Vec<SymEntry> = Vec::new();
    es.push(
        SymEntry {
            name: "clock".to_owned(),
            link: Resolved::Cap(ResolvedCap { type_id: 2, op: 0 }),
        },
    );
    assert(table_view(es@) =~= seq![
        ("clock"@, Resolved::Cap(ResolvedCap { type_id: 2, op: 0 })),
    ]);
    encode_symtab(es.as_slice())
}

/// The outcome of a durable run and the clock that it left; a module that never ran leaves no window.
pub fn durable_run(run: &RunResult, snapshot: Vec<u8>, clock: i64) -> (r: (i32, i64, Vec<u8>, i64))
    ensures
        ran_durably(*run, snapshot@, clock, r),
        r.0 == spec_value_only(*run).status,
        r.1 == spec_value_only(*run).value,
        run is Unsupported ==> r.2@.len() == 0,
        !(run is Unsupported) ==> r.2 == snapshot,
        r.3 == clock,
{
    let (status, value) = plain_exec(run);
    let kept: Vec<u8> = match run {
        RunResult::Unsupported => Vec::new(),
        _ => snapshot,
    };
    (status, value, kept, clock)
}

/// The arguments of a live guest.
pub open spec fn spec_live_args(arity: nat, console: i32, clock: i32) -> Seq<Value> {
    seq![Value::I32(console), Value::I32(clock)].take(if arity < 2 {
        arity as int
    } else {
        2
    })
}

/// The arguments of a live guest: the console and the clock, as far as it takes them.
pub fn live_args(arity: usize, console: i32, clock: i32) -> (r: Vec<Value>)
    ensures
        r@ == spec_live_args(arity as nat, console, clock),
        r@ == seq![Value::I32(console), Value::I32(clock)].take(if arity < 2 {
            arity as int
        } else {
            2
        }),
{
    let mut out: Vec<Value> = Vec::new();
    if arity >= 1 {
        out.push(Value::I32(console));
    }
    if arity >= 2 {
        out.push(Value::I32(clock));
    }
    assert(out@ =~= seq![Value::I32(console), Value::I32(clock)].take(
        if arity < 2 {
            arity as int
        } else {
            2
        },
    ));
    out
}

/// `before` once a live run has ended so, and what is handed back.
pub open spec fn live_settled(before: Capture, run: Option<RunResult>) -> (Capture, i64) {
    match run {
        None => value_settled(before, None),
        Some(run) => {
            let v = spec_verdict(run, STATUS_BAD_RESULT);
            if v.status == STATUS_EXIT {
                (Capture { last_status: v.status, exit_code: v.exit_code, ..before }, v.value)
            } else {
                (Capture { last_status: v.status, ..before }, v.value)
            }
        },
    }
}

/// Ends a live run: the exit code is kept only where the guest exited. `None` is a module that does
/// not decode.
pub fn svm_run_live(cap: &mut Capture, run: Option<RunResult>) -> (r: i64)
    ensures
        (*final(cap), r) == live_settled(*old(cap), run),
        ({
            let v = (match run {
                None => Verdict { status: STATUS_DECODE_ERR, value: 0, exit_code: 0 },
                Some(run) => spec_verdict(run, STATUS_BAD_RESULT),
            });
            &&& r == v.value
            &&& *final(cap) == (Capture {
                last_status: v.status,
                exit_code: if v.status == STATUS_EXIT {
                    v.exit_code
                } else {
                    old(cap).exit_code
                },
                ..*old(cap)
            })
        }),
{
    match run {
        None => {
            cap.last_status = STATUS_DECODE_ERR;
            0
        },
        Some(run) => {
            let v: Verdict = value_or_exit(&run);
            cap.last_status = v.status;
            if v.status == STATUS_EXIT {
                cap.exit_code = v.exit_code;
            }
            v.value
        },
    }
}

/// `before` once an entry that opens something has come to `opened`, with its code and what it opened.
pub open spec fn open_settled<T>(before: Capture, opened: Result<T, i32>) -> (
    Capture,
    (i32, Option<T>),
) {
    match opened {
        Err(status) => (Capture { last_status: status, ..before }, (-status as i32, None)),
        Ok(x) => (Capture { last_status: STATUS_OK, ..before }, (0i32, Some(x))),
    }
}

/// Ends an entry that opens something: zero with what was opened, or the negated status; either way
/// the status is recorded.
pub fn settle_open<T>(cap: &mut Capture, opened: Result<T, i32>) -> (r: (i32, Option<T>))
    requires
        opened matches Err(status) ==> status != i32::MIN,
    ensures
        (*final(cap), r) == open_settled(*old(cap), opened),
        opened matches Err(status) ==> r.0 == -status && r.1 is None && *final(cap) == (Capture {
            last_status: status,
            ..*old(cap)
        }),
        opened matches Ok(x) ==> r.0 == 0 && r.1 == Some(x) && *final(cap) == (Capture {
            last_status: STATUS_OK,
            ..*old(cap)
        }),
{
    match opened {
        Err(status) => {
            cap.last_status = status;
            (-status, None)
        },
        Ok(x) => {
            cap.last_status = STATUS_OK;
            (0, Some(x))
        },
    }
}

/// The slots and the reactor once its frame ended so and added `delta` to the output.
pub open spec fn frame_settled(
    before: Capture,
    after: Capture,
    open: OnrampReactor,
    left: Option<OnrampReactor>,
    end: TickEnd,
    delta: Seq<u8>,
    r: i32,
) -> bool {
    let (status, ticked) = open.framed(end);
    let (frame, rest) = ticked.frame_taken();
    &&& r == status
    &&& left == Some(rest)
    &&& after.holds_frame(frame)
    &&& after.out@ == delta
    &&& after == (Capture {
        last_status: status,
        out: after.out,
        fb: after.fb,
        fb_w: after.fb_w,
        fb_h: after.fb_h,
        ..before
    })
}

/// Ends a frame of the open reactor: the frame it presented, or none, and what it wrote go to the
/// capture slots.
pub fn svm_onramp_frame(
    cap: &mut Capture,
    reactor: &mut Option<OnrampReactor>,
    end: TickEnd,
    stdout: &[u8],
    stdout_before: usize,
) -> (r: i32)
    requires
        stdout_before <= stdout@.len(),
    ensures
        *old(reactor) matches Some(before) ==> frame_settled(
            *old(cap),
            *final(cap),
            before,
            *final(reactor),
            end,
            stdout@.skip(stdout_before as int),
            r,
        ),
        *old(reactor) is None ==> r == STATUS_UNSUPPORTED && *final(reactor) is None && *final(cap)
            == (Capture { last_status: STATUS_UNSUPPORTED, ..*old(cap) }),
        *old(reactor) matches Some(old_r) ==> {
            &&& r == (match end {
                TickEnd::Returned => STATUS_OK,
                TickEnd::Exited(_) => STATUS_EXIT,
                TickEnd::Trapped(_) => STATUS_TRAP,
            })
            &&& final(cap).holds_frame(old_r.frame)
            &&& final(cap).out@ == stdout@.skip(stdout_before as int)
            &&& *final(cap) == (Capture {
                last_status: r,
                out: final(cap).out,
                fb: final(cap).fb,
                fb_w: final(cap).fb_w,
                fb_h: final(cap).fb_h,
                ..*old(cap)
            })
            &&& *final(reactor) == Some(
                OnrampReactor {
                    frame: None,
                    last_trap: match end {
                        TickEnd::Trapped(text) => Some(text),
                        _ => old_r.last_trap,
                    },
                    ..old_r
                },
            )
        },
{
    match reactor {
        None => {
            cap.last_status = STATUS_UNSUPPORTED;
            STATUS_UNSUPPORTED
        },
        Some(open) => {
            let (status, delta) = open.frame(end, stdout, stdout_before);
            let frame: Option<Frame> = open.take_frame();
            cap.last_status = status;
            cap.stash_frame(frame);
            cap.out = delta;
            status
        },
    }
}

/// `after` is `before` with the text of the reactor's last trap as its output.
pub open spec fn trap_text_shown(
    before: Capture,
    after: Capture,
    reactor: Option<OnrampReactor>,
    len: nat,
) -> bool {
    &&& after.out@ == (match reactor {
        Some(open) => match open.last_trap {
            Some(t) => encode_utf8(t@),
            None => Seq::empty(),
        },
        None => Seq::empty(),
    })
    &&& len == after.out@.len()
    &&& after == (Capture { out: after.out, ..before })
}

/// Puts the text of the reactor's last trap into the output slot and returns its length.
pub fn svm_onramp_trap_len(cap: &mut Capture, reactor: &Option<OnrampReactor>) -> (r: usize)
    ensures
        trap_text_shown(*old(cap), *final(cap), *reactor, r as nat),
        ({
            let text = (match *reactor {
                Some(open) => match open.last_trap {
                    Some(t) => encode_utf8(t@),
                    None => Seq::empty(),
                },
                None => Seq::empty(),
            });
            &&& r == text.len()
            &&& final(cap).out@ == text
            &&& *final(cap) == (Capture { out: final(cap).out, ..*old(cap) })
        }),
{
    let bytes: Vec<u8> = match reactor {
        Some(open) => match &open.last_trap {
            Some(t) => t.as_str().as_bytes_vec(),
            None => Vec::new(),
        },
        None => Vec::new(),
    };
    let len: usize = bytes.len();
    cap.out = bytes;
    len
}

/// The status of opening a run on emitted code: the shape of the module, its setup, the engine, then
/// the emitter decide.
pub open spec fn spec_run_open(
    m: OnrampModule,
    setup: Result<(), i32>,
    compiled: bool,
    emitted: bool,
) -> Result<JitOnrampRun, i32> {
    if unbindable(m) {
        Err(STATUS_UNSUPPORTED)
    } else {
        match setup {
            Err(status) => Err(status),
            Ok(_) => if !compiled || !emitted {
                Err(STATUS_UNSUPPORTED)
            } else {
                Ok(JitOnrampRun::fresh())
            },
        }
    }
}

/// Opens a run on emitted code. `setup` is what mounting its files came to, `compiled` whether the
/// engine takes the module, `emitted` whether its entry has an emitted body that drives itself.
pub fn open_over_run(
    m: &OnrampModule,
    setup: Result<(), i32>,
    compiled: bool,
    emitted: bool,
) -> (r: Result<JitOnrampRun, i32>)
    ensures
        r == spec_run_open(*m, setup, compiled, emitted),
{
    if onramp_check(m).is_err() {
        return Err(STATUS_UNSUPPORTED);
    }
    match setup {
        Err(status) => {
            return Err(status);
        },
        Ok(_) => {},
    }
    if !compiled || !emitted {
        return Err(STATUS_UNSUPPORTED);
    }
    Ok(JitOnrampRun::new())
}

/// A handle argument as a 32-bit number; zero past the last.
pub open spec fn spec_run_slot(slots: Seq<Value>, i: int) -> int {
    if i < slots.len() {
        match slots[i] {
            Value::I32(x) => x as int,
            Value::I64(x) => low_i32(bits_of_i64(x)),
            _ => 0,
        }
    } else {
        0
    }
}

/// A handle argument of an emitted entry as the 32-bit number that the page passes.
pub fn svm_onramp_jit_run_slot(slots: &[Value], i: usize) -> (r: i32)
    ensures
        r == spec_run_slot(slots@, i as int),
        r == (if i < slots@.len() {
            match slots@[i as int] {
                Value::I32(x) => x as int,
                Value::I64(x) => low_i32(bits_of_i64(x)),
                _ => 0,
            }
        } else {
            0
        }),
{
    if i >= slots.len() {
        return 0;
    }
    match slots[i] {
        Value::I32(x) => x,
        Value::I64(x) => i32_of_low(i64_bits(x)),
        _ => 0,
    }
}

/// Ends a run on emitted code: everything it left goes to the capture slots. `None` is no open run.
pub fn svm_onramp_jit_run_finish(
    cap: &mut Capture,
    run: &Option<JitOnrampRun>,
    stdout: Vec<u8>,
    stderr: Vec<u8>,
    frame: Option<Frame>,
) -> (r: i32)
    ensures
        *run matches Some(open) ==> r == open.spec_finish().status && run_stashed(
            *old(cap),
            *final(cap),
            open.spec_finish(),
            stdout,
            stderr,
            frame,
        ),
        run is None ==> r == STATUS_UNSUPPORTED && *final(cap) == *old(cap),
        *run matches Some(open) ==> {
            let v = open.spec_finish();
            &&& r == v.status
            &&& final(cap).out == stdout
            &&& final(cap).err == stderr
            &&& final(cap).holds_frame(frame)
            &&& final(cap).exit_code == v.exit_code
            &&& final(cap).run_value == v.value
            &&& final(cap).last_status == v.status
            &&& final(cap).snap == old(cap).snap
        },
{
    match run {
        None => STATUS_UNSUPPORTED,
        Some(open) => {
            let v: Verdict = open.finish();
            cap.stash_run(v, stdout, stderr, frame);
            v.status
        },
    }
}

/// The status of opening a warm session: the module, the engine, the memory, then the warm-up
/// decide.
pub open spec fn spec_warm_status(
    m: Option<OnrampModule>,
    compiled: bool,
    allocated: bool,
    warmed: bool,
) -> i32 {
    match m {
        None => STATUS_DECODE_ERR,
        Some(t) => if !spec_warmable(t) || !compiled {
            STATUS_UNSUPPORTED
        } else if !allocated || !warmed {
            STATUS_TRAP
        } else {
            STATUS_OK
        },
    }
}

/// The slots, the answer and the session of an open that came to `status`.
pub open spec fn warm_opened(
    before: Capture,
    after: Capture,
    status: i32,
    warmed: Option<WarmSession>,
    answer: i64,
    session: Option<WarmSession>,
) -> bool {
    &&& after == (Capture { last_status: status, ..before })
    &&& status == STATUS_OK ==> session == warmed && answer == warmed->0.image@.len()
    &&& status != STATUS_OK ==> session is None && answer == -1
}

/// Opens a warm session: returns the length of the image that it keeps, or `-1`. `compiled` says
/// whether the engine takes the module, `allocated` whether there is a window for it, `warmed` is
/// what its warm-up left.
pub fn svm_warm_open(
    cap: &mut Capture,
    m: &Option<OnrampModule>,
    compiled: bool,
    allocated: bool,
    warmed: Option<WarmSession>,
) -> (r: (i64, Option<WarmSession>))
    requires
        warmed matches Some(s) ==> s.image@.len() <= i64::MAX,
    ensures
        warm_opened(
            *old(cap),
            *final(cap),
            spec_warm_status(*m, compiled, allocated, warmed is Some),
            warmed,
            r.0,
            r.1,
        ),
        ({
            let status = spec_warm_status(*m, compiled, allocated, warmed is Some);
            &&& *final(cap) == (Capture { last_status: status, ..*old(cap) })
            &&& status == STATUS_OK ==> r.1 == warmed && r.0 == warmed->0.image@.len()
            &&& status != STATUS_OK ==> r.0 == -1 && r.1 is None
        }),
{
    let status: i32 = match plan_warm(m) {
        Err(status) => status,
        Ok(_) => {
            if !compiled {
                STATUS_UNSUPPORTED
            } else if !allocated {
                STATUS_TRAP
            } else {
                match warmed {
                    None => STATUS_TRAP,
                    Some(s) => {
                        cap.last_status = STATUS_OK;
                        let live: i64 = s.image.len() as i64;
                        return (live, Some(s));
                    },
                }
            }
        },
    };
    cap.last_status = status;
    (-1, None)
}

/// The slots and the session once a warm run came to `end`; `value` is handed back.
pub open spec fn warm_settled(
    before: Capture,
    after: Capture,
    s: WarmSession,
    t: Option<WarmSession>,
    end: WarmEnd,
    page_size: u64,
    value: i64,
) -> bool {
    let report = warm_report(end);
    &&& value == report.value
    &&& after.out@ == report.stdout
    &&& after.err@ == report.stderr
    &&& after == (Capture {
        out: after.out,
        err: after.err,
        last_status: report.status,
        exit_code: report.exit_code,
        ..before
    })
    &&& t == Some(session_after(s, end, page_size))
}

/// Ends a warm run: what it may have dirtied is noted, and its outcome goes to the capture slots.
/// Without a session nothing ran. `w` is the window after the run and `pages` its page map, if it
/// has one.
pub fn svm_warm_eval(
    cap: &mut Capture,
    session: &mut Option<WarmSession>,
    ran: &Result<Vec<Value>, Trap>,
    w: &[u8],
    pages: Option<Vec<PageEntry>>,
    page_size: u64,
    stdout: Vec<u8>,
    stderr: Vec<u8>,
) -> (r: i64)
    requires
        *old(session) matches Some(s) ==> s.wf() && w@.len() == s.win,
    ensures
        *old(session) matches Some(s) ==> warm_settled(
            *old(cap),
            *final(cap),
            s,
            *final(session),
            (WarmEnd {
                ran: *ran,
                window: w@,
                pages: match pages {
                    Some(p) => p@,
                    None => Seq::empty(),
                },
                stdout: stdout@,
                stderr: stderr@,
            }),
            page_size,
            r,
        ),
        *old(session) is None ==> r == -1 && *final(session) is None && *final(cap) == (Capture {
            last_status: STATUS_UNSUPPORTED,
            ..*old(cap)
        }),
        *old(session) matches Some(s) ==> {
            let end = WarmEnd {
                ran: *ran,
                window: w@,
                pages: match pages {
                    Some(p) => p@,
                    None => Seq::empty(),
                },
                stdout: stdout@,
                stderr: stderr@,
            };
            &&& r == warm_report(end).value
            &&& *final(cap) == (Capture {
                last_status: warm_report(end).status,
                out: stdout,
                err: stderr,
                exit_code: warm_report(end).exit_code,
                ..*old(cap)
            })
            &&& *final(session) == Some(session_after(s, end, page_size))
            &&& session_after(s, end, page_size).wf()
        },
{
    match session {
        None => {
            cap.last_status = STATUS_UNSUPPORTED;
            -1
        },
        Some(s) => {
            let v: Verdict = judge_warm(ran);
            let known: Vec<PageEntry> = match pages {
                Some(p) => p,
                None => Vec::new(),
            };
            s.note_run(w, known.as_slice(), page_size);
            cap.last_status = v.status;
            cap.out = stdout;
            cap.err = stderr;
            cap.exit_code = v.exit_code;
            v.value
        },
    }
}

/// The slots and the session once the emitted eval was asked for, and the answer.
pub open spec fn warm_jit_opened(
    cap: Capture,
    session: Option<WarmSession>,
    built: Result<(), i32>,
) -> (Capture, Option<WarmSession>, i32) {
    match session {
        None => (
            Capture { last_status: STATUS_UNSUPPORTED, ..cap },
            None,
            -STATUS_UNSUPPORTED as i32,
        ),
        Some(s) => match built {
            Err(status) if !s.jit => (
                Capture { last_status: status, ..cap },
                session,
                -status as i32,
            ),
            _ => (
                Capture { last_status: STATUS_OK, ..cap },
                Some(WarmSession { jit: true, ..s }),
                0i32,
            ),
        },
    }
}

/// Opens the emitted eval of a warm session, once: `built` is what building it came to.
pub fn svm_warm_jit_open(
    cap: &mut Capture,
    session: &mut Option<WarmSession>,
    built: Result<(), i32>,
) -> (r: i32)
    requires
        built matches Err(status) ==> status != i32::MIN,
    ensures
        (*final(cap), *final(session), r) == warm_jit_opened(*old(cap), *old(session), built),
        ({
            let status = (match *old(session) {
                None => STATUS_UNSUPPORTED,
                Some(s) => match built {
                    Err(status) if !s.jit => status,
                    _ => STATUS_OK,
                },
            });
            &&& r == -status
            &&& *final(cap) == (Capture { last_status: status, ..*old(cap) })
            &&& *final(session) == (match *old(session) {
                None => None,
                Some(s) => Some(WarmSession { jit: s.jit || built is Ok, ..s }),
            })
        }),
{
    match session {
        None => {
            cap.last_status = STATUS_UNSUPPORTED;
            -STATUS_UNSUPPORTED
        },
        Some(s) => {
            if s.jit {
                cap.last_status = STATUS_OK;
                return 0;
            }
            match built {
                Err(status) => {
                    cap.last_status = status;
                    -status
                },
                Ok(_) => {
                    s.jit = true;
                    cap.last_status = STATUS_OK;
                    0
                },
            }
        },
    }
}

/// The window and the run once a run on the emitted eval was prepared, and the answer.
pub open spec fn warm_jit_prepared(
    session: Option<WarmSession>,
    w: Seq<u8>,
    run: JitOnrampRun,
    after: Seq<u8>,
    fresh: JitOnrampRun,
    r: i32,
) -> bool {
    if session matches Some(s) && s.jit {
        &&& r == 0
        &&& fresh == JitOnrampRun::fresh()
        &&& after == crate::warm::restored(w, session->0.image@, session->0.dirty_end as nat)
    } else {
        &&& r == -STATUS_UNSUPPORTED
        &&& fresh == run
        &&& after == w
    }
}

/// Brings the warm window back for a run on the emitted eval, and forgets the last one; refused
/// without a session or without an emitted eval.
pub fn svm_warm_jit_prepare(
    cap: &mut Capture,
    session: &Option<WarmSession>,
    w: &mut [u8],
    run: &mut JitOnrampRun,
) -> (r: i32)
    requires
        *session matches Some(s) ==> s.wf() && old(w)@.len() == s.win,
    ensures
        warm_jit_prepared(*session, old(w)@, *old(run), final(w)@, *final(run), r),
        ({
            let ready = (*session matches Some(s) && s.jit);
            &&& r == (if ready { 0i32 } else { -STATUS_UNSUPPORTED as i32 })
            &&& *final(cap) == (Capture {
                last_status: if ready { STATUS_OK } else { STATUS_UNSUPPORTED },
                ..*old(cap)
            })
            &&& ready ==> *final(run) == JitOnrampRun::fresh() && final(w)@
                == crate::warm::restored(
                old(w)@,
                session->0.image@,
                session->0.dirty_end as nat,
            )
            &&& !ready ==> *final(run) == *old(run) && final(w)@ == old(w)@
        }),
{
    match session {
        Some(s) => {
            if s.jit {
                s.restore(w);
                run.reset_warm();
                cap.last_status = STATUS_OK;
                return 0;
            }
        },
        None => {},
    }
    cap.last_status = STATUS_UNSUPPORTED;
    -STATUS_UNSUPPORTED
}

/// The slots and the session once a run on the emitted eval ended so.
pub open spec fn warm_jit_settled(
    before: Capture,
    after: Capture,
    s: WarmSession,
    t: Option<WarmSession>,
    run: JitOnrampRun,
    w: Seq<u8>,
    stdout: Vec<u8>,
    stderr: Vec<u8>,
    r: i32,
) -> bool {
    let v = run.spec_finish();
    &&& r == v.status
    &&& after == (Capture {
        out: stdout,
        err: stderr,
        exit_code: v.exit_code,
        run_value: v.value,
        last_status: v.status,
        ..before
    })
    &&& t matches Some(u) && u == (WarmSession { dirty_end: u.dirty_end, ..s }) && u.dirty_end
        == max2(s.dirty_end as nat, spec_live(w, s.brk_at as int))
}

/// Ends a run on the emitted eval of a warm session: as [`svm_onramp_jit_run_finish`], but it
/// presents nothing and notes the heap that it may have dirtied.
pub fn svm_warm_jit_finish(
    cap: &mut Capture,
    session: &mut Option<WarmSession>,
    run: &JitOnrampRun,
    w: &[u8],
    stdout: Vec<u8>,
    stderr: Vec<u8>,
) -> (r: i32)
    requires
        *old(session) matches Some(s) ==> s.wf() && w@.len() == s.win,
    ensures
        (*old(session) matches Some(s) && s.jit) ==> warm_jit_settled(
            *old(cap),
            *final(cap),
            old(session)->0,
            *final(session),
            *run,
            w@,
            stdout,
            stderr,
            r,
        ),
        !(*old(session) matches Some(s) && s.jit) ==> r == STATUS_UNSUPPORTED && *final(cap) == *old(
            cap,
        ) && *final(session) == *old(session),
        (*old(session) matches Some(s) && s.jit) ==> {
            let v = run.spec_finish();
            let s = old(session)->0;
            &&& r == v.status
            &&& *final(cap) == (Capture {
                out: stdout,
                err: stderr,
                exit_code: v.exit_code,
                run_value: v.value,
                last_status: v.status,
                ..*old(cap)
            })
            &&& *final(session) matches Some(t) && t.wf() && t == (WarmSession {
                dirty_end: t.dirty_end,
                ..s
            }) && t.dirty_end == max2(s.dirty_end as nat, spec_live(w@, s.brk_at as int))
        },
{
    match session {
        Some(s) => {
            if s.jit {
                let v: Verdict = run.finish();
                let none: Vec<PageEntry> = Vec::new();
                s.note_run(w, none.as_slice(), 0);
                cap.out = stdout;
                cap.err = stderr;
                cap.exit_code = v.exit_code;
                cap.run_value = v.value;
                cap.last_status = v.status;
                return v.status;
            }
            STATUS_UNSUPPORTED
        },
        None => STATUS_UNSUPPORTED,
    }
}

/// The replies to a batch, in the order of its requests.
pub open spec fn batch_replies<T>(replies: Seq<Vec<T>>) -> Seq<T>
    decreases replies.len(),
{
    if replies.len() == 0 {
        Seq::empty()
    } else {
        batch_replies(replies.drop_last()) + replies.last()@
    }
}

/// Answers a debug request: `replies` has the messages to each request of a batch, or to the single
/// one; `None` is a request that is no text or no JSON, which gets no reply.
pub fn svm_dap_request<T>(replies: Option<Vec<Vec<T>>>) -> (r: (i32, Vec<T>))
    ensures
        replies is None ==> r.0 == -1 && r.1@.len() == 0,
        replies matches Some(all) ==> r.0 == 0 && r.1@ == batch_replies(all@),
{
    match replies {
        None => (-1, Vec::new()),
        Some(all) => {
            let mut out: Vec<T> = Vec::new();
            let ghost whole = all@;
            assert(whole.take(0) =~= Seq::empty());
            for part in it: all
                invariant
                    it.seq() == whole,
                    out@ == batch_replies(whole.take(it.index() as int)),
            {
                let mut part = part;
                let ghost p = part@;
                proof {
                    let now = whole.take(it.index() as int + 1);
                    assert(now.drop_last() =~= whole.take(it.index() as int));
                    assert(now.last()@ == p);
                }
                out.append(&mut part);
            }
            assert(whole.take(whole.len() as int) =~= whole);
            (0, out)
        },
    }
}

/// The slot of emitted modules after a compile, and the answer.
pub open spec fn full_compiled(
    slot: Vec<u8>,
    decoded: bool,
    leaves_only: bool,
    emitted: Option<Vec<u8>>,
) -> (Vec<u8>, i32) {
    if decoded && leaves_only && emitted is Some {
        (emitted->0, 1i32)
    } else {
        (slot, 0i32)
    }
}

/// Keeps an emitted module for the page: `1` if there is one that drives itself and calls only into
/// leaves that need no window, else `0` and the slot stays.
pub fn svm_wasmjit_compile_full(
    slot: &mut Vec<u8>,
    decoded: bool,
    leaves_only: bool,
    emitted: Option<Vec<u8>>,
) -> (r: i32)
    ensures
        (*final(slot), r) == full_compiled(*old(slot), decoded, leaves_only, emitted),
        decoded && leaves_only && emitted is Some ==> r == 1 && *final(slot) == emitted->0,
        !(decoded && leaves_only && emitted is Some) ==> r == 0 && *final(slot) == *old(slot),
{
    if !decoded || !leaves_only {
        return 0;
    }
    match emitted {
        None => 0,
        Some(wasm) => {
            *slot = wasm;
            1
        },
    }
}

/// Call counts as bytes, eight to a function.
pub open spec fn count_bytes(counts: Seq<u64>) -> Seq<u8>
    decreases counts.len(),
{
    if counts.len() == 0 {
        Seq::empty()
    } else {
        count_bytes(counts.drop_last()) + le_bytes(counts.last() as nat, 8)
    }
}

/// Call counts as bytes, eight to a function.
pub fn svm_callprof_dump(counts: &[u64]) -> (r: Vec<u8>)
    ensures
        r@ == count_bytes(counts@),
{
    let mut out: Vec<u8> = Vec::new();
    let mut i: usize = 0;
    assert(counts@.take(0) =~= Seq::empty());
    while i < counts.len()
        invariant
            i <= counts.len(),
            out@ == count_bytes(counts@.take(i as int)),
        decreases counts.len() - i,
    {
        let ghost before = out@;
        let mut rest: u64 = counts[i];
        let mut k: u8 = 0;
        assert(before + le_bytes(counts@[i as int] as nat, 8) =~= out@ + le_bytes(
            rest as nat,
            8,
        ));
        while k < 8
            invariant
                k <= 8,
                before + le_bytes(counts@[i as int] as nat, 8) == out@ + le_bytes(
                    rest as nat,
                    (8 - k) as nat,
                ),
            decreases 8 - k,
        {
            let ghost now = out@;
            out.push((rest % 256) as u8);
            assert(now + le_bytes(rest as nat, (8 - k) as nat) =~= out@ + le_bytes(
                (rest / 256) as nat,
                (8 - k - 1) as nat,
            ));
            rest = rest / 256;
            k = k + 1;
        }
        proof {
            let now = counts@.take(i as int + 1);
            assert(now.drop_last() =~= counts@.take(i as int));
            assert(now.last() == counts@[i as int]);
            assert(out@ =~= before + le_bytes(counts@[i as int] as nat, 8));
        }
        i = i + 1;
    }
    assert(counts@.take(counts@.len() as int) =~= counts@);
    out
}

/// A batch of requests is answered as the same requests one after the other.
pub proof fn law_batch_is_one_after_the_other<T>(a: Seq<Vec<T>>, b: Seq<Vec<T>>)
    ensures
        batch_replies(a + b) == batch_replies(a) + batch_replies(b),
    decreases b.len(),
{
    if b.len() == 0 {
        assert(a + b =~= a);
        assert(batch_replies(a) + batch_replies(b) =~= batch_replies(a));
    } else {
        law_batch_is_one_after_the_other(a, b.drop_last());
        assert((a + b).drop_last() =~= a + b.drop_last());
        assert(batch_replies(a + b) =~= batch_replies(a) + batch_replies(b));
    }
}

/// A page reads what its run left and gets its value back; a module that never ran leaves its status
/// and every other slot as it was.
pub proof fn law_entry_leaves_what_its_run_left(
    before: Capture,
    after: Capture,
    o: PbOutcome,
    produced: Vec<u8>,
    status: i32,
    value: i64,
)
    ensures
        run_settled(before, after, Ok(o), value) ==> value == o.value && after.out@ == o.stdout@
            && after.err@ == o.stderr@ && after.exit_code == o.exit_code && after.last_status
            == o.status && after.same_frame(before) && after.snap == before.snap,
        onramp_settled(before, after, Some(o), value) ==> value == o.value && after.out@
            == o.stdout@ && after.err@ == o.stderr@ && after.exit_code == o.exit_code
            && after.last_status == o.status && after.holds_frame(o.framebuffer) && after.snap
            == before.snap,
        phase_settled(before, after, Ok((o, produced)), value) ==> value == o.value && after.out@
            == produced@ && after.err@ == o.stderr@ && after.exit_code == o.exit_code
            && after.last_status == o.status && after.same_frame(before) && after.snap
            == before.snap,
        run_settled(before, after, Err(status), value) || phase_settled(
            before,
            after,
            Err(status),
            value,
        ) ==> value == 0 && after == (Capture { last_status: status, ..before }),
        onramp_settled(before, after, None, value) ==> value == 0 && after == (Capture {
            last_status: 1,
            ..before
        }),
{
}

/// An entry without streams records its status and hands its value back; only a capturing one
/// replaces the window image, and only an exit the exit code.
pub proof fn law_valued_entry_records_its_status(
    cap: Capture,
    status: i32,
    value: i64,
    o: CapOutcome,
    vals: Vec<Value>,
    code: i32,
)
    requires
        vals@.len() > 0,
        vals@[0] == Value::I64(value),
    ensures
        value_settled(cap, Some((status, value))) == (
            (Capture { last_status: status, ..cap }),
            value,
        ),
        value_settled(cap, None) == ((Capture { last_status: 1, ..cap }), 0i64),
        window_settled(cap, Some(o)) == (
            (Capture { last_status: o.status, snap: o.snapshot, ..cap }),
            o.value,
        ),
        window_settled(cap, None) == value_settled(cap, None),
        compute_settled(cap, Some(RunResult::Returned(vals))) == (
            (Capture { last_status: 0, ..cap }),
            value,
        ),
        compute_settled(cap, Some(RunResult::Trapped(Trap::Exit(code)))) == (
            (Capture { last_status: 3, ..cap }),
            0i64,
        ),
        live_settled(cap, Some(RunResult::Returned(vals))) == (
            (Capture { last_status: 0, ..cap }),
            value,
        ),
        live_settled(cap, Some(RunResult::Trapped(Trap::Exit(code)))) == (
            (Capture { last_status: 5, exit_code: code, ..cap }),
            0i64,
        ),
        live_settled(cap, None) == value_settled(cap, None),
{
}

/// An entry that opens something answers zero exactly if it did, and the negated status that it
/// records if not.
pub proof fn law_open_answers_its_status<T>(cap: Capture, opened: Result<T, i32>)
    requires
        opened matches Err(status) ==> 0 < status,
    ensures
        open_settled(cap, opened).1.0 == 0 <==> opened is Ok,
        open_settled(cap, opened).1.0 == -open_settled(cap, opened).0.last_status,
        opened matches Ok(x) ==> open_settled(cap, opened).1.1 == Some(x),
        opened is Err ==> open_settled(cap, opened).1.1 is None,
        opened matches Err(status) ==> open_settled(cap, opened).0.last_status == status,
{
}

/// A warm run's page reads its streams, status and exit code; the session keeps its image, its pages
/// and its entry, whatever ran, and what it takes for dirtied never shrinks.
pub proof fn law_warm_run_keeps_the_session(
    before: Capture,
    after: Capture,
    s: WarmSession,
    t: Option<WarmSession>,
    end: WarmEnd,
    page_size: u64,
    value: i64,
)
    requires
        s.wf(),
        end.window.len() == s.win,
        warm_settled(before, after, s, t, end, page_size, value),
    ensures
        after.out@ == end.stdout,
        after.err@ == end.stderr,
        end.ran matches Err(Trap::Exit(code)) ==> after.last_status == 5 && after.exit_code == code
            && value == 0,
        end.ran is Ok ==> after.last_status == 0 && after.exit_code == 0,
        after.same_frame(before),
        after.snap == before.snap,
        t matches Some(u) && u.image == s.image && u.prots == s.prots && u.eval_fn == s.eval_fn
            && u.brk_at == s.brk_at && u.win == s.win && u.jit == s.jit && u.dirty_end
            >= s.dirty_end,
{
}

/// The emitted eval of a session opens once: after that, asking again succeeds whatever a new build
/// would have come to, and a failed build leaves the session as it was.
pub proof fn law_emitted_eval_opens_once(
    cap: Capture,
    s: WarmSession,
    again: Result<(), i32>,
    status: i32,
)
    ensures
        ({
            let (c, t, r) = warm_jit_opened(cap, Some(s), Ok(()));
            &&& r == 0
            &&& c.last_status == 0
            &&& t == Some(WarmSession { jit: true, ..s })
            &&& warm_jit_opened(c, t, again) == (c, t, 0i32)
        }),
        !s.jit && status != i32::MIN ==> warm_jit_opened(cap, Some(s), Err(status)) == (
            (Capture { last_status: status, ..cap }),
            Some(s),
            -status as i32,
        ),
        warm_jit_opened(cap, None, again).1 is None,
        warm_jit_opened(cap, None, again).2 == -2,
{
}

/// A run on emitted code opens exactly over a module that can be bound, is set up, that the engine
/// takes and whose entry was emitted; a failed setup gives its own status.
pub proof fn law_emitted_run_opens_over_a_ready_module(
    m: OnrampModule,
    status: i32,
    compiled: bool,
    emitted: bool,
)
    ensures
        spec_run_open(m, Ok(()), compiled, emitted) is Ok <==> !unbindable(m) && compiled && emitted,
        spec_run_open(m, Ok(()), true, true) matches Ok(run) ==> !run.exited && !run.trapped
            && run.exit_code == 0 && run.returned_value == 0,
        spec_run_open(m, Err(status), compiled, emitted) is Err,
        !unbindable(m) ==> spec_run_open(m, Err(status), compiled, emitted) == Err::<
            JitOnrampRun,
            i32,
        >(status),
        spec_run_open(m, Ok(()), compiled, emitted) matches Err(s) ==> s == 2,
        m.imports@.len() == 0 ==> !unbindable(m),
        m.named_entry() ==> !unbindable(m),
        m.imports@.len() > 0 && !m.named_entry() ==> unbindable(m),
{
}

/// A warm session opens exactly over a warmable module that the engine takes, with a window and a
/// warm-up that succeeded; a guest that fails in running is told apart from one that never could.
pub proof fn law_warm_session_opens_over_a_warm_guest(
    m: OnrampModule,
    compiled: bool,
    allocated: bool,
    warmed: bool,
)
    ensures
        spec_warm_status(Some(m), compiled, allocated, warmed) == 0 <==> spec_warmable(m) && compiled
            && allocated && warmed,
        spec_warm_status(Some(m), compiled, allocated, warmed) == 2 <==> !spec_warmable(m)
            || !compiled,
        spec_warm_status(Some(m), compiled, allocated, warmed) == 3 <==> spec_warmable(m) && compiled
            && !(allocated && warmed),
        spec_warm_status(None, compiled, allocated, warmed) == 1,
{
}

/// Call counts are read back function by function, eight bytes each.
pub proof fn law_call_counts_are_read_back(counts: Seq<u64>, i: int)
    requires
        0 <= i < counts.len(),
    ensures
        count_bytes(counts).len() == 8 * counts.len(),
        crate::bytes::le_value(count_bytes(counts).subrange(8 * i, 8 * i + 8)) == counts[i],
    decreases counts.len(),
{
    let last = counts.last();
    crate::bytes::lemma_pow256_values();
    crate::bytes::lemma_le_bytes_len(last as nat, 8);
    crate::bytes::lemma_le_round_trip(last as nat, 8);
    if counts.len() == 1 {
        assert(count_bytes(counts.drop_last()) =~= Seq::empty());
        assert(count_bytes(counts).subrange(8 * i, 8 * i + 8) =~= le_bytes(last as nat, 8));
    } else if i < counts.len() - 1 {
        law_call_counts_are_read_back(counts.drop_last(), i);
        assert(count_bytes(counts).subrange(8 * i, 8 * i + 8) =~= count_bytes(
            counts.drop_last(),
        ).subrange(8 * i, 8 * i + 8));
    } else {
        law_call_counts_are_read_back(counts.drop_last(), 0);
        assert(count_bytes(counts).subrange(8 * i, 8 * i + 8) =~= le_bytes(last as nat, 8));
    }
}

/// A guest with a submitted unit is judged by how far it got: a unit that does not parse and one that
/// is refused are told apart, and a guest that ran by its run.
pub proof fn law_unit_guest_is_judged_by_how_far_it_got(vals: Vec<Value>, x: i64)
    requires
        vals@.len() > 0,
        vals@[0] == Value::I64(x),
    ensures
        spec_jit_exec(UnitRun::Ran(RunResult::Returned(vals))) == (0i32, x),
        spec_jit_exec(UnitRun::NoUnit) == (4i32, 0i64),
        spec_jit_exec(UnitRun::Refused) == (3i32, 0i64),
{
}

/// Arguments are handed over in their order, each as it is.
pub proof fn law_arguments_keep_their_order(hs: Seq<i32>, i: int)
    requires
        0 <= i < hs.len(),
    ensures
        handle_args(hs).len() == hs.len(),
        handle_args(hs)[i] == Value::I32(hs[i]),
{
}

/// A live guest gets the console first and then the clock, as far as it takes them.
pub proof fn law_live_guest_gets_console_and_clock(arity: nat, console: i32, clock: i32)
    ensures
        spec_live_args(arity, console, clock).len() == (if arity < 2 {
            arity
        } else {
            2
        }),
        arity >= 1 ==> spec_live_args(arity, console, clock)[0] == Value::I32(console),
        arity >= 2 ==> spec_live_args(arity, console, clock)[1] == Value::I32(clock),
{
}

/// A frame's end shows what its reactor presented and what it wrote, and leaves the reactor ready to
/// present the next; its trap is remembered.
pub proof fn law_frame_shows_what_was_presented(
    before: Capture,
    after: Capture,
    open: OnrampReactor,
    left: Option<OnrampReactor>,
    end: TickEnd,
    delta: Seq<u8>,
    r: i32,
)
    requires
        frame_settled(before, after, open, left, end, delta, r),
    ensures
        open.frame matches Some(f) ==> after.fb@ == f.rgba@ && after.fb_w == f.width && after.fb_h
            == f.height,
        open.frame is None ==> after.fb@.len() == 0,
        after.out@ == delta,
        after.last_status == r,
        end is Returned <==> r == 0,
        end is Exited <==> r == 5,
        end is Trapped <==> r == 3,
        left matches Some(n) && n.frame is None && n.keys == open.keys && n.tick == open.tick && (
        end matches TickEnd::Trapped(t) ==> n.last_trap == Some(t)) && (!(end is Trapped)
            ==> n.last_trap == open.last_trap),
        (after.err, after.snap, after.exit_code) == (before.err, before.snap, before.exit_code),
{
}

/// A trap that a frame met can be read back as text, and only it.
pub proof fn law_trap_text_is_read_back(
    a: Capture,
    b: Capture,
    c: Capture,
    open: OnrampReactor,
    left: Option<OnrampReactor>,
    text: String,
    delta: Seq<u8>,
    r: i32,
    len: nat,
)
    requires
        frame_settled(a, b, open, left, TickEnd::Trapped(text), delta, r),
        trap_text_shown(b, c, left, len),
    ensures
        c.out@ == encode_utf8(text@),
        len == encode_utf8(text@).len(),
        c.last_status == b.last_status,
        c.same_frame(b),
{
}

/// A handle passes to the page unchanged, whichever width it was granted in, and a slot past the last
/// is zero.
pub proof fn law_slot_passes_its_handle(slots: Seq<Value>, i: int, x: i32, y: i64)
    requires
        0 <= i,
    ensures
        i < slots.len() && slots[i] == Value::I32(x) ==> spec_run_slot(slots, i) == x,
        i < slots.len() && slots[i] == Value::I64(y) && i32::MIN <= y <= i32::MAX
            ==> spec_run_slot(slots, i) == y,
        i >= slots.len() ==> spec_run_slot(slots, i) == 0,
{
}

/// An opened session is the warmed one and answers the size of its image; a failed open opens none.
pub proof fn law_opened_session_is_the_warmed_one(
    before: Capture,
    after: Capture,
    status: i32,
    warmed: WarmSession,
    answer: i64,
    session: Option<WarmSession>,
)
    requires
        warm_opened(before, after, status, Some(warmed), answer, session),
    ensures
        after.last_status == status,
        status == 0 ==> session == Some(warmed) && answer == warmed.image@.len(),
        status != 0 ==> session is None && answer == -1,
        session is Some <==> answer >= 0,
        after.out == before.out,
{
}

/// A run on the emitted eval starts from the warm window with nothing of the last run; without an
/// emitted eval nothing is touched.
pub proof fn law_prepared_run_starts_warm(
    s: WarmSession,
    w: Seq<u8>,
    run: JitOnrampRun,
    after: Seq<u8>,
    fresh: JitOnrampRun,
    r: i32,
)
    requires
        s.wf(),
        w.len() == s.win,
        forall|j: int| s.dirty_end <= j < w.len() ==> #[trigger] w[j] == 0,
        warm_jit_prepared(Some(s), w, run, after, fresh, r),
    ensures
        s.jit ==> r == 0 && after == crate::warm::warm_window(s.image@, s.win as nat)
            && !fresh.exited && !fresh.trapped && fresh.exit_code == 0 && fresh.returned_value == 0,
        !s.jit ==> r == -2 && after == w && fresh == run,
{
    crate::warm::law_every_run_starts_warm(s, w);
}

/// A run on the emitted eval leaves its streams and how it ended, keeps the session and notes at least
/// the heap that it left.
pub proof fn law_emitted_eval_leaves_how_it_ended(
    before: Capture,
    after: Capture,
    s: WarmSession,
    t: Option<WarmSession>,
    run: JitOnrampRun,
    w: Seq<u8>,
    stdout: Vec<u8>,
    stderr: Vec<u8>,
    r: i32,
)
    requires
        warm_jit_settled(before, after, s, t, run, w, stdout, stderr, r),
    ensures
        after.out == stdout,
        after.err == stderr,
        run.exited ==> r == 5 && after.exit_code == run.exit_code && after.run_value == 0,
        !run.exited && run.trapped ==> r == 3 && after.run_value == 0,
        !run.exited && !run.trapped ==> r == 0 && after.run_value == run.returned_value,
        after.last_status == r,
        after.same_frame(before),
        t matches Some(u) && u.image == s.image && u.prots == s.prots && u.jit == s.jit
            && u.dirty_end >= s.dirty_end && u.dirty_end >= spec_live(w, s.brk_at as int) && (
        u.dirty_end == s.dirty_end || u.dirty_end == spec_live(w, s.brk_at as int)),
{
}

/// An emitted module is kept exactly if there is one that needs no window; otherwise the last one
/// stays.
pub proof fn law_emitted_module_is_kept(
    slot: Vec<u8>,
    decoded: bool,
    leaves_only: bool,
    wasm: Vec<u8>,
    emitted: Option<Vec<u8>>,
)
    ensures
        full_compiled(slot, true, true, Some(wasm)) == (wasm, 1i32),
        full_compiled(slot, decoded, leaves_only, None) == (slot, 0i32),
        !decoded || !leaves_only ==> full_compiled(slot, decoded, leaves_only, emitted) == (
            slot,
            0i32,
        ),
{
}

/// What a run wrote and how it ended is its outcome, whichever powerbox it ran under; a frame shows
/// only where the powerbox can present, and a module that cannot be bound leaves nothing.
pub proof fn law_outcome_is_the_runs(m: OnrampModule, ran: Ran, o: PbOutcome, code: i32, status: i32)
    ensures
        ran_quietly(ran, o) ==> o.stdout@ == ran.stdout@ && o.stderr@ == ran.stderr@
            && o.framebuffer is None,
        ran_onramp(m, ran, o) && !unbindable(m) ==> o.stdout@ == ran.stdout@ && o.stderr@
            == ran.stderr@ && o.framebuffer == ran.frame,
        (ran_quietly(ran, o) || (ran_onramp(m, ran, o) && !unbindable(m))) && ran.run
            == RunResult::Trapped(Trap::Exit(code)) ==> o.status == 5 && o.exit_code == code
            && o.value == 0,
        (ran_quietly(ran, o) || (ran_onramp(m, ran, o) && !unbindable(m))) && ran.run is Unsupported
            ==> o.status == 2,
        ran_onramp(m, ran, o) && unbindable(m) ==> o.status == 2 && o.stdout@.len() == 0
            && o.stderr@.len() == 0 && o.framebuffer is None && o.value == 0,
        ran_headless(Err(status), ran, o) ==> o.status == status && o.stdout@.len() == 0
            && o.stderr@.len() == 0 && o.value == 0,
        ran_headless(Ok(()), ran, o) <==> ran_quietly(ran, o),
{
}

/// A durable run keeps the window and the clock that it left, so that it can go on from them.
pub proof fn law_durable_run_keeps_its_window(
    run: RunResult,
    snapshot: Seq<u8>,
    clock: i64,
    r: (i32, i64, Vec<u8>, i64),
    vals: Vec<Value>,
    x: i64,
)
    requires
        ran_durably(run, snapshot, clock, r),
    ensures
        !(run is Unsupported) ==> r.2@ == snapshot,
        run is Unsupported ==> r.2@.len() == 0 && r.0 == 2,
        r.3 == clock,
        run == RunResult::Returned(vals) && vals@.len() > 0 && vals@[0] == Value::I64(x) ==> r.0 == 0
            && r.1 == x,
        run is Trapped ==> r.0 == 3 && r.1 == 0,
{
}

} // verus!
