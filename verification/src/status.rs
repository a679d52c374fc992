//! Run statuses and captured outcomes.

use vstd::prelude::*;

use crate::slots::Value;
use crate::traps::Trap;

verus! {

/// The run finished and its value is meaningful.
pub const STATUS_OK: i32 = 0;

/// The module bytes do not decode.
pub const STATUS_DECODE_ERR: i32 = 1;

/// The module is outside what the engine runs.
pub const STATUS_UNSUPPORTED: i32 = 2;

/// The guest trapped.
pub const STATUS_TRAP: i32 = 3;

/// The guest returned something other than the expected integer.
pub const STATUS_BAD_RESULT: i32 = 4;

/// The guest called `exit`.
pub const STATUS_EXIT: i32 = 5;

/// The module does not verify.
pub const STATUS_VERIFY_ERR: i32 = 6;

/// An RGBA framebuffer that a guest presented: `width * height` pixels of four bytes, row by row
/// from the top.
#[derive(Debug)]
pub struct Frame {
    pub width: u32,
    pub height: u32,
    pub rgba: Vec<u8>,
}

impl Frame {
    /// The pixel buffer has exactly the size that the dimensions call for.
    pub open spec fn wf(self) -> bool {
        self.rgba@.len() == self.width * self.height * 4
    }
}

/// The outcome of a run under a powerbox.
#[derive(Debug)]
pub struct PbOutcome {
    /// One of the `STATUS_*` codes.
    pub status: i32,
    /// The result, where the status is [`STATUS_OK`].
    pub value: i64,
    /// The exit code, where the status is [`STATUS_EXIT`].
    pub exit_code: i32,
    pub stdout: Vec<u8>,
    pub stderr: Vec<u8>,
    /// The last frame presented.
    pub framebuffer: Option<Frame>,
}

/// The outcome of a run over a captured window.
#[derive(Debug)]
pub struct CapOutcome {
    pub status: i32,
    pub value: i64,
    /// The window after the run.
    pub snapshot: Vec<u8>,
}

/// What the engine says of a run.
#[derive(Debug)]
pub enum RunResult {
    /// The module is outside the engine's subset.
    Unsupported,
    /// The guest trapped.
    Trapped(Trap),
    /// The entry returned.
    Returned(Vec<Value>),
}

/// A run's status, value and exit code.
#[derive(Clone, Copy, Debug, PartialEq, Eq, Structural)]
pub struct Verdict {
    pub status: i32,
    pub value: i64,
    pub exit_code: i32,
}

/// A verdict that carries a status alone.
pub open spec fn bare(status: i32) -> Verdict {
    Verdict { status, value: 0, exit_code: 0 }
}

/// The verdict on returned values: the first one, if it is an integer.
pub open spec fn returned_verdict(vals: Seq<Value>, when_empty: i32) -> Verdict {
    if vals.len() == 0 {
        bare(when_empty)
    } else {
        match vals[0] {
            Value::I64(x) => Verdict { status: STATUS_OK, value: x, exit_code: 0 },
            Value::I32(x) => Verdict { status: STATUS_OK, value: x as i64, exit_code: 0 },
            _ => bare(STATUS_BAD_RESULT),
        }
    }
}

/// The verdict on a run whose guest may exit; `when_empty` is the status of a run that returned no
/// value.
pub open spec fn spec_verdict(r: RunResult, when_empty: i32) -> Verdict {
    match r {
        RunResult::Unsupported => bare(STATUS_UNSUPPORTED),
        RunResult::Trapped(Trap::Exit(code)) => Verdict {
            status: STATUS_EXIT,
            value: 0,
            exit_code: code,
        },
        RunResult::Trapped(_) => bare(STATUS_TRAP),
        RunResult::Returned(vals) => returned_verdict(vals@, when_empty),
    }
}

/// Judges returned values.
pub fn judge_returned(vals: &[Value], when_empty: i32) -> (r: Verdict)
    ensures
        r == returned_verdict(vals@, when_empty),
{
    if vals.len() == 0 {
        return Verdict { status: when_empty, value: 0, exit_code: 0 };
    }
    match vals[0] {
        Value::I64(x) => Verdict { status: STATUS_OK, value: x, exit_code: 0 },
        Value::I32(x) => Verdict { status: STATUS_OK, value: x as i64, exit_code: 0 },
        _ => Verdict { status: STATUS_BAD_RESULT, value: 0, exit_code: 0 },
    }
}

/// Judges a run whose guest may exit.
fn judge(run: &RunResult, when_empty: i32) -> (r: Verdict)
    ensures
        r == spec_verdict(*run, when_empty),
{
    match run {
        RunResult::Unsupported => Verdict { status: STATUS_UNSUPPORTED, value: 0, exit_code: 0 },
        RunResult::Trapped(Trap::Exit(code)) => Verdict {
            status: STATUS_EXIT,
            value: 0,
            exit_code: *code,
        },
        RunResult::Trapped(_) => Verdict { status: STATUS_TRAP, value: 0, exit_code: 0 },
        RunResult::Returned(vals) => judge_returned(vals.as_slice(), when_empty),
    }
}

/// Judges a run that must return an integer or exit.
pub fn value_or_exit(run: &RunResult) -> (r: Verdict)
    ensures
        r == spec_verdict(*run, STATUS_BAD_RESULT),
{
    judge(run, STATUS_BAD_RESULT)
}

/// Judges a run that may also return nothing, which counts as zero.
pub fn maybe_value_or_exit(run: &RunResult) -> (r: Verdict)
    ensures
        r == spec_verdict(*run, STATUS_OK),
{
    judge(run, STATUS_OK)
}

/// The verdict on a run whose guest holds no exit capability: every trap is a trap.
pub open spec fn spec_value_only(r: RunResult) -> Verdict {
    match r {
        RunResult::Unsupported => bare(STATUS_UNSUPPORTED),
        RunResult::Trapped(_) => bare(STATUS_TRAP),
        RunResult::Returned(vals) => returned_verdict(vals@, STATUS_BAD_RESULT),
    }
}

/// Judges a run whose guest holds no exit capability.
pub fn value_only(run: &RunResult) -> (r: Verdict)
    ensures
        r == spec_value_only(*run),
{
    match run {
        RunResult::Unsupported => Verdict { status: STATUS_UNSUPPORTED, value: 0, exit_code: 0 },
        RunResult::Trapped(_) => Verdict { status: STATUS_TRAP, value: 0, exit_code: 0 },
        RunResult::Returned(vals) => judge_returned(vals.as_slice(), STATUS_BAD_RESULT),
    }
}

/// The verdict on a run whose result must be a 64-bit integer.
pub open spec fn spec_i64_only(r: RunResult) -> Verdict {
    match r {
        RunResult::Unsupported => bare(STATUS_UNSUPPORTED),
        RunResult::Trapped(_) => bare(STATUS_TRAP),
        RunResult::Returned(vals) => if vals@.len() > 0 && vals@[0] is I64 {
            Verdict { status: STATUS_OK, value: vals@[0]->I64_0, exit_code: 0 }
        } else {
            bare(STATUS_BAD_RESULT)
        },
    }
}

/// Judges a run whose result must be a 64-bit integer.
pub fn i64_only(run: &RunResult) -> (r: Verdict)
    ensures
        r == spec_i64_only(*run),
{
    match run {
        RunResult::Unsupported => Verdict { status: STATUS_UNSUPPORTED, value: 0, exit_code: 0 },
        RunResult::Trapped(_) => Verdict { status: STATUS_TRAP, value: 0, exit_code: 0 },
        RunResult::Returned(vals) => {
            if vals.len() > 0 {
                match vals[0] {
                    Value::I64(x) => {
                        return Verdict { status: STATUS_OK, value: x, exit_code: 0 };
                    },
                    _ => {},
                }
            }
            Verdict { status: STATUS_BAD_RESULT, value: 0, exit_code: 0 }
        },
    }
}

/// A value or an exit code is reported only under the status that gives it meaning.
pub proof fn law_status_guards_its_payload(r: RunResult, when_empty: i32)
    ensures
        spec_verdict(r, when_empty).status != STATUS_OK ==> spec_verdict(r, when_empty).value == 0,
        spec_verdict(r, when_empty).status != STATUS_EXIT ==> spec_verdict(r, when_empty).exit_code
            == 0,
        when_empty != STATUS_EXIT ==> (spec_verdict(r, when_empty).status == STATUS_EXIT) == (r
            is Trapped && r->Trapped_0 is Exit),
{
}

/// A run is judged by how it ended: an exit keeps its code, a returned integer is the value, whatever
/// its width, and anything else is told apart by its status alone.
pub proof fn law_verdict_is_how_the_run_ended(
    code: i32,
    vals: Vec<Value>,
    x: i64,
    y: i32,
    when_empty: i32,
)
    requires
        vals@.len() > 0,
    ensures
        spec_verdict(RunResult::Trapped(Trap::Exit(code)), when_empty) == (Verdict {
            status: 5,
            value: 0,
            exit_code: code,
        }),
        spec_verdict(RunResult::Trapped(Trap::Other), when_empty) == (Verdict {
            status: 3,
            value: 0,
            exit_code: 0,
        }),
        spec_verdict(RunResult::Unsupported, when_empty) == (Verdict {
            status: 2,
            value: 0,
            exit_code: 0,
        }),
        vals@[0] == Value::I64(x) ==> spec_verdict(RunResult::Returned(vals), when_empty) == (
        Verdict { status: 0, value: x, exit_code: 0 }),
        vals@[0] == Value::I32(y) ==> spec_verdict(RunResult::Returned(vals), when_empty) == (
        Verdict { status: 0, value: y as i64, exit_code: 0 }),
        !(vals@[0] is I64) && !(vals@[0] is I32) ==> spec_verdict(
            RunResult::Returned(vals),
            when_empty,
        ) == (Verdict { status: 4, value: 0, exit_code: 0 }),
{
}

/// The judges differ in one point each: without an exit capability an exit is a trap, and a judge of
/// 64-bit results takes no other; everything else is judged alike.
pub proof fn law_judges_agree(r: RunResult, vals: Vec<Value>)
    requires
        vals@.len() > 0,
    ensures
        !(r is Trapped) ==> spec_value_only(r) == spec_verdict(r, STATUS_BAD_RESULT),
        r is Trapped ==> spec_value_only(r) == spec_verdict(
            RunResult::Trapped(Trap::Other),
            STATUS_BAD_RESULT,
        ),
        !(r is Returned) ==> spec_i64_only(r) == spec_value_only(r),
        vals@[0] is I64 ==> spec_i64_only(RunResult::Returned(vals)) == spec_value_only(
            RunResult::Returned(vals),
        ),
        !(vals@[0] is I64) ==> spec_i64_only(RunResult::Returned(vals)).status == 4,
{
}

/// A run that returned nothing is judged as its judge says, and carries nothing.
pub proof fn law_empty_return_carries_nothing(vals: Vec<Value>, when_empty: i32)
    requires
        vals@.len() == 0,
    ensures
        spec_verdict(RunResult::Returned(vals), when_empty) == (Verdict {
            status: when_empty,
            value: 0,
            exit_code: 0,
        }),
        spec_value_only(RunResult::Returned(vals)).status == 4,
        spec_i64_only(RunResult::Returned(vals)).status == 4,
{
}

} // verus!
