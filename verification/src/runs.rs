//! The single-shot runs: what arguments an entry gets, and what each run reports.

use vstd::prelude::*;

use crate::bytes::{bits_of_i64, get_u64_at, i32_of_low, i64_bits, i64_of_bits, le_value, low_i32, low_i64};
use crate::slots::{ValType, Value};
use crate::status::{
    spec_i64_only, spec_value_only, value_only, CapOutcome, Frame, PbOutcome, RunResult, Verdict,
    STATUS_DECODE_ERR, STATUS_EXIT, STATUS_OK, STATUS_UNSUPPORTED, STATUS_VERIFY_ERR,
};

verus! {

/// What a probe returns when anything is not as it should be.
pub const PROBE_FAILED: i64 = -1;

/// What a run without a status slot returns instead of a result.
pub const NO_RESULT: i64 = i64::MIN;

/// How far a module gets on its way to the engine.
#[derive(Clone, Copy, Debug, PartialEq, Eq, Structural)]
pub enum Prepared {
    Undecodable,
    NotVerified,
    Outside,
    /// It compiles and has this many functions.
    Ready(u32),
}

/// The status of preparing a module and its function count.
pub open spec fn spec_prep_bench(p: Prepared) -> (i32, i64) {
    match p {
        Prepared::Undecodable => (STATUS_DECODE_ERR, 0i64),
        Prepared::NotVerified => (STATUS_VERIFY_ERR, 0i64),
        Prepared::Outside => (STATUS_UNSUPPORTED, 0i64),
        Prepared::Ready(n) => (STATUS_OK, n as i64),
    }
}

/// The status of preparing a module and its function count, zero where it fails.
pub fn svm_prep_bench(p: Prepared) -> (r: (i32, i64))
    ensures
        r == spec_prep_bench(p),
        r == (match p {
            Prepared::Undecodable => (STATUS_DECODE_ERR, 0i64),
            Prepared::NotVerified => (STATUS_VERIFY_ERR, 0i64),
            Prepared::Outside => (STATUS_UNSUPPORTED, 0i64),
            Prepared::Ready(n) => (STATUS_OK, n as i64),
        }),
{
    match p {
        Prepared::Undecodable => (STATUS_DECODE_ERR, 0),
        Prepared::NotVerified => (STATUS_VERIFY_ERR, 0),
        Prepared::Outside => (STATUS_UNSUPPORTED, 0),
        Prepared::Ready(n) => (STATUS_OK, n as i64),
    }
}

/// The number that parameter `i` of a benchmarked entry gets: `sp` and `n` in turn, `n` alone if
/// there is one parameter, and zero past them.
pub open spec fn bench_raw(count: nat, i: int, sp: i64, n: i64) -> i64 {
    if count >= 2 {
        if i == 0 {
            sp
        } else if i == 1 {
            n
        } else {
            0
        }
    } else {
        n
    }
}

/// A number as a value of type `ty`: its low 32 bits for an `i32`, else the whole of it.
pub open spec fn coerced(ty: ValType, raw: i64) -> Value {
    if ty == ValType::I32 {
        Value::I32(low_i32(bits_of_i64(raw)) as i32)
    } else {
        Value::I64(raw)
    }
}

/// The arguments of a benchmarked entry.
pub open spec fn spec_bench_args(params: Seq<ValType>, sp: i64, n: i64) -> Seq<Value> {
    Seq::new(params.len(), |i: int| coerced(params[i], bench_raw(params.len(), i, sp, n)))
}

/// The arguments of a benchmarked entry.
pub fn bench_args(params: &[ValType], sp: i64, n: i64) -> (r: Vec<Value>)
    ensures
        r@ == spec_bench_args(params@, sp, n),
        r@ == Seq::new(
            params@.len(),
            |i: int| coerced(params@[i], bench_raw(params@.len(), i, sp, n)),
        ),
{
    let mut out: Vec<Value> = Vec::with_capacity(params.len());
    let mut i: usize = 0;
    while i < params.len()
        invariant
            i <= params.len(),
            out@ == Seq::new(
                i as nat,
                |i: int| coerced(params@[i], bench_raw(params@.len(), i, sp, n)),
            ),
        decreases params.len() - i,
    {
        let raw: i64 = if params.len() >= 2 {
            if i == 0 {
                sp
            } else if i == 1 {
                n
            } else {
                0
            }
        } else {
            n
        };
        let v: Value = if params[i] == ValType::I32 {
            Value::I32(i32_of_low(i64_bits(raw)))
        } else {
            Value::I64(raw)
        };
        out.push(v);
        assert(out@ =~= Seq::new(
            (i + 1) as nat,
            |i: int| coerced(params@[i], bench_raw(params@.len(), i, sp, n)),
        ));
        i = i + 1;
    }
    out
}

/// The arguments of an entry that takes its one number as an `i32`.
pub open spec fn spec_reflect_args(arity: nat, arg: i64) -> Seq<Value> {
    if arity >= 1 {
        seq![Value::I32(low_i32(bits_of_i64(arg)) as i32)]
    } else {
        Seq::empty()
    }
}

/// The arguments of an entry that takes its one number as an `i64`.
pub open spec fn spec_shared_args(arity: nat, arg: i64) -> Seq<Value> {
    if arity >= 1 {
        seq![Value::I64(arg)]
    } else {
        Seq::empty()
    }
}

/// What a self-contained probe run returns.
pub open spec fn spec_probe(run: RunResult, failed: i64) -> i64 {
    if spec_i64_only(run).status == STATUS_OK {
        spec_i64_only(run).value
    } else {
        failed
    }
}

/// The arguments of an entry that takes its one number as an `i32`, if it takes any.
pub fn reflect_args(arity: usize, arg: i64) -> (r: Vec<Value>)
    ensures
        r@ == spec_reflect_args(arity as nat, arg),
        r@ == (if arity >= 1 {
            seq![Value::I32(low_i32(bits_of_i64(arg)) as i32)]
        } else {
            Seq::empty()
        }),
{
    let mut out: Vec<Value> = Vec::new();
    if arity >= 1 {
        out.push(Value::I32(i32_of_low(i64_bits(arg))));
    }
    out
}

/// The arguments of an entry that takes its one number as an `i64`, if it takes any.
pub fn shared_args(arity: usize, arg: i64) -> (r: Vec<Value>)
    ensures
        r@ == spec_shared_args(arity as nat, arg),
        r@ == (if arity >= 1 {
            seq![Value::I64(arg)]
        } else {
            Seq::empty()
        }),
{
    let mut out: Vec<Value> = Vec::new();
    if arity >= 1 {
        out.push(Value::I64(arg));
    }
    out
}

/// What a run over a shared window returns: its 64-bit result, or [`NO_RESULT`].
///
/// A result of any other type is none, as for a run over a window of its own.
pub fn svm_run_shared(run: &RunResult) -> (r: i64)
    ensures
        r == spec_probe(*run, NO_RESULT),
        r == (if spec_i64_only(*run).status == STATUS_OK {
            spec_i64_only(*run).value
        } else {
            NO_RESULT
        }),
{
    probe_value(run, NO_RESULT)
}

/// What a self-contained probe run returns: its 64-bit result, or `failed`.
pub fn probe_value(run: &RunResult, failed: i64) -> (r: i64)
    ensures
        r == spec_probe(*run, failed),
        r == (if spec_i64_only(*run).status == STATUS_OK {
            spec_i64_only(*run).value
        } else {
            failed
        }),
{
    let v: Verdict = crate::status::i64_only(run);
    if v.status == STATUS_OK {
        v.value
    } else {
        failed
    }
}

/// What a probe of a whole entry returns.
pub open spec fn spec_probe_entry(status: i32, value: i64) -> i64 {
    if status == STATUS_OK {
        value
    } else {
        PROBE_FAILED
    }
}

/// What a probe of a whole entry returns: the value of a run that succeeded, or [`PROBE_FAILED`].
pub fn probe_entry(status: i32, value: i64) -> (r: i64)
    ensures
        r == spec_probe_entry(status, value),
        r == (if status == STATUS_OK {
            value
        } else {
            PROBE_FAILED
        }),
{
    if status == STATUS_OK {
        value
    } else {
        PROBE_FAILED
    }
}

/// `o` is the outcome of a run over a captured window that left it as `snapshot`.
pub open spec fn captured(run: RunResult, snapshot: Seq<u8>, o: CapOutcome) -> bool {
    &&& o.status == spec_value_only(run).status
    &&& o.value == spec_value_only(run).value
    &&& o.snapshot@ == (if run is Unsupported {
        Seq::empty()
    } else {
        snapshot
    })
}

/// The outcome of a run over a captured window; a module that never ran leaves no window.
pub fn capture_exec(run: &RunResult, snapshot: Vec<u8>) -> (r: CapOutcome)
    ensures
        captured(*run, snapshot@, r),
        r.status == spec_value_only(*run).status,
        r.value == spec_value_only(*run).value,
        run is Unsupported ==> r.snapshot@.len() == 0,
        !(run is Unsupported) ==> r.snapshot == snapshot,
{
    let v: Verdict = value_only(run);
    let kept: Vec<u8> = match run {
        RunResult::Unsupported => Vec::new(),
        _ => snapshot,
    };
    CapOutcome { status: v.status, value: v.value, snapshot: kept }
}

/// The outcome that a verdict and the captured streams make up.
pub open spec fn spec_pb_outcome(
    v: Verdict,
    stdout: Vec<u8>,
    stderr: Vec<u8>,
    frame: Option<Frame>,
) -> PbOutcome {
    PbOutcome {
        status: v.status,
        value: v.value,
        exit_code: v.exit_code,
        stdout,
        stderr,
        framebuffer: frame,
    }
}

/// The outcome of a run under a powerbox.
pub fn pb_outcome(v: Verdict, stdout: Vec<u8>, stderr: Vec<u8>, frame: Option<Frame>) -> (r: PbOutcome)
    ensures
        r == spec_pb_outcome(v, stdout, stderr, frame),
{
    PbOutcome {
        status: v.status,
        value: v.value,
        exit_code: v.exit_code,
        stdout,
        stderr,
        framebuffer: frame,
    }
}

/// `o` is the outcome of a module that did not come to run.
pub open spec fn is_refused(o: PbOutcome, status: i32) -> bool {
    &&& o.status == status
    &&& o.value == 0
    &&& o.exit_code == 0
    &&& o.stdout@.len() == 0
    &&& o.stderr@.len() == 0
    &&& o.framebuffer is None
}

/// The outcome of a module that did not come to run.
pub fn refused_outcome(status: i32) -> (r: PbOutcome)
    ensures
        is_refused(r, status),
{
    PbOutcome {
        status,
        value: 0,
        exit_code: 0,
        stdout: Vec::new(),
        stderr: Vec::new(),
        framebuffer: None,
    }
}

/// The 64-bit word `i` of `bytes`, as a signed number.
pub open spec fn word(bytes: Seq<u8>, i: int) -> int {
    low_i64(le_value(bytes.subrange(8 * i, 8 * i + 8)))
}

/// The forked twins both reported: two words came out, one hundred and two hundred in either order.
pub open spec fn both_reported(bytes: Seq<u8>) -> bool {
    &&& bytes.len() / 8 == 2
    &&& (word(bytes, 0) == 100 && word(bytes, 1) == 200) || (word(bytes, 0) == 200 && word(bytes, 1)
        == 100)
}

/// The verdict of the fork probe.
pub open spec fn spec_run_fork(run: RunResult, out: Seq<u8>) -> i64 {
    if spec_i64_only(run) == (Verdict { status: STATUS_OK, value: 100, exit_code: 0 })
        && both_reported(out) {
        100
    } else {
        NO_RESULT
    }
}

/// Judges the fork probe: one hundred if the parent returned it and both twins reported, in
/// whatever order they ran.
pub fn run_fork(run: &RunResult, out: &[u8]) -> (r: i64)
    ensures
        r == spec_run_fork(*run, out@),
        r == (if spec_i64_only(*run) == (Verdict { status: STATUS_OK, value: 100, exit_code: 0 })
            && both_reported(out@) {
            100
        } else {
            NO_RESULT
        }),
{
    let v: Verdict = crate::status::i64_only(run);
    if v.status != STATUS_OK || v.value != 100 || out.len() / 8 != 2 {
        return NO_RESULT;
    }
    let a: i64 = i64_of_bits(get_u64_at(out, 0));
    let b: i64 = i64_of_bits(get_u64_at(out, 8));
    if (a == 100 && b == 200) || (a == 200 && b == 100) {
        100
    } else {
        NO_RESULT
    }
}

/// The verdict of the powerbox probe.
pub open spec fn spec_run_powerbox(hello: PbOutcome, exit: PbOutcome, greeting: Seq<u8>) -> int {
    if hello.status == STATUS_OK && hello.stdout@ == greeting && exit.status == STATUS_EXIT
        && exit.exit_code == 42 {
        greeting.len() as int
    } else {
        PROBE_FAILED as int
    }
}

/// The verdict of the capture probe.
pub open spec fn spec_run_capture(out: CapOutcome) -> int {
    if out.status == STATUS_OK && out.snapshot@.len() == 128 {
        word(out.snapshot@, 0)
    } else {
        PROBE_FAILED as int
    }
}

/// Judges the powerbox probe: the length of the greeting if it came out whole and the second guest
/// exited with forty-two.
pub fn run_powerbox(hello: &PbOutcome, exit: &PbOutcome, greeting: &[u8]) -> (r: i64)
    requires
        greeting@.len() <= i64::MAX,
    ensures
        r == spec_run_powerbox(*hello, *exit, greeting@),
        r == (if hello.status == STATUS_OK && hello.stdout@ == greeting@ && exit.status
            == STATUS_EXIT && exit.exit_code == 42 {
            greeting@.len() as int
        } else {
            PROBE_FAILED as int
        }),
{
    if hello.status != STATUS_OK || exit.status != STATUS_EXIT || exit.exit_code != 42
        || hello.stdout.len() != greeting.len() {
        return PROBE_FAILED;
    }
    let mut i: usize = 0;
    while i < greeting.len()
        invariant
            i <= greeting.len(),
            hello.stdout@.len() == greeting@.len(),
            hello.status == STATUS_OK && exit.status == STATUS_EXIT && exit.exit_code == 42,
            forall|j: int| 0 <= j < i ==> #[trigger] hello.stdout@[j] == greeting@[j],
        decreases greeting.len() - i,
    {
        if hello.stdout[i] != greeting[i] {
            return PROBE_FAILED;
        }
        i = i + 1;
    }
    assert(hello.stdout@ =~= greeting@);
    greeting.len() as i64
}

/// Judges the capture probe: the first word of a whole captured image.
pub fn run_capture(out: &CapOutcome) -> (r: i64)
    ensures
        r == spec_run_capture(*out),
        r == (if out.status == STATUS_OK && out.snapshot@.len() == 128 {
            word(out.snapshot@, 0)
        } else {
            PROBE_FAILED as int
        }),
{
    if out.status != STATUS_OK || out.snapshot.len() != 128 {
        return PROBE_FAILED;
    }
    i64_of_bits(get_u64_at(out.snapshot.as_slice(), 0))
}

/// Bad address.
pub const EFAULT: i64 = -14;

/// Bad argument.
pub const LIVE_EINVAL: i64 = -22;

/// A write that a live guest asks for.
#[derive(Clone, Copy, Debug, PartialEq, Eq, Structural)]
pub struct ConsoleWrite {
    pub stream: i32,
    pub ptr: u64,
    pub len: u64,
    /// What the guest is told if the bytes are there.
    pub reply: i64,
}

/// What a call of the live console asks for, or the reply that refuses it.
pub open spec fn spec_console_request(op: u32, args: Seq<i64>, has_window: bool) -> Result<
    ConsoleWrite,
    i64,
> {
    if op != 1 || args.len() < 3 {
        Err(LIVE_EINVAL)
    } else if !has_window {
        Err(EFAULT)
    } else {
        Ok(
            ConsoleWrite {
                stream: low_i32(bits_of_i64(args[0])) as i32,
                ptr: bits_of_i64(args[1]) as u64,
                len: bits_of_i64(args[2]) as u64,
                reply: args[2],
            },
        )
    }
}

/// The reply of the live console once the window was read.
pub open spec fn spec_console_reply(w: ConsoleWrite, readable: bool) -> i64 {
    if readable {
        w.reply
    } else {
        EFAULT
    }
}

/// The reply of the live clock.
pub open spec fn spec_clock_reply(op: u32, now_ns: i64) -> i64 {
    if op == 0 {
        now_ns
    } else {
        LIVE_EINVAL
    }
}

/// What a call of the live console asks for, or the reply that refuses it.
pub fn console_request(op: u32, args: &[i64], has_window: bool) -> (r: Result<ConsoleWrite, i64>)
    ensures
        r == spec_console_request(op, args@, has_window),
        r is Ok <==> op == 1 && args@.len() >= 3 && has_window,
        r matches Err(e) ==> e == (if op == 1 && args@.len() >= 3 {
            EFAULT
        } else {
            LIVE_EINVAL
        }),
        r matches Ok(w) ==> w == (ConsoleWrite {
            stream: low_i32(bits_of_i64(args@[0])) as i32,
            ptr: bits_of_i64(args@[1]) as u64,
            len: bits_of_i64(args@[2]) as u64,
            reply: args@[2],
        }),
{
    if op != 1 || args.len() < 3 {
        return Err(LIVE_EINVAL);
    }
    if !has_window {
        return Err(EFAULT);
    }
    Ok(
        ConsoleWrite {
            stream: i32_of_low(i64_bits(args[0])),
            ptr: i64_bits(args[1]),
            len: i64_bits(args[2]),
            reply: args[2],
        },
    )
}

/// The reply of the live console once the window was read.
pub fn console_reply(w: &ConsoleWrite, readable: bool) -> (r: i64)
    ensures
        r == spec_console_reply(*w, readable),
        r == (if readable { w.reply } else { EFAULT }),
{
    if readable {
        w.reply
    } else {
        EFAULT
    }
}

/// The reply of the live clock: the time for its one operation.
pub fn clock_reply(op: u32, now_ns: i64) -> (r: i64)
    ensures
        r == spec_clock_reply(op, now_ns),
        r == (if op == 0 { now_ns } else { LIVE_EINVAL }),
{
    if op == 0 {
        now_ns
    } else {
        LIVE_EINVAL
    }
}

/// A prepared module reports how many functions it has, and each failure its own status.
pub proof fn law_prepared_module_counts_its_functions(n: u32, p: Prepared)
    ensures
        spec_prep_bench(Prepared::Ready(n)) == (0i32, n as i64),
        spec_prep_bench(Prepared::Undecodable).0 == 1,
        spec_prep_bench(Prepared::Outside).0 == 2,
        spec_prep_bench(Prepared::NotVerified).0 == 6,
        !(p is Ready) ==> spec_prep_bench(p).1 == 0,
{
}

/// A benchmark gets its stack and its count in that order, its count alone if it takes one number,
/// and zeros past them, each in the type of its parameter.
pub proof fn law_benchmark_gets_its_count(params: Seq<ValType>, sp: i64, n: i64, i: int)
    requires
        0 <= i < params.len(),
        i32::MIN <= sp <= i32::MAX,
        i32::MIN <= n <= i32::MAX,
    ensures
        ({
            let args = spec_bench_args(params, sp, n);
            let want: int = if params.len() == 1 || i == 1 {
                n as int
            } else if i == 0 {
                sp as int
            } else {
                0
            };
            &&& args.len() == params.len()
            &&& params[i] == ValType::I32 ==> (args[i] matches Value::I32(x) && x == want)
            &&& params[i] != ValType::I32 ==> (args[i] matches Value::I64(x) && x == want)
        }),
{
}

/// An entry that takes a number gets it, as the width it takes; one that takes none gets none.
pub proof fn law_entry_gets_its_number(arity: nat, arg: i64)
    ensures
        spec_reflect_args(0, arg).len() == 0,
        spec_shared_args(0, arg).len() == 0,
        arity > 0 ==> spec_shared_args(arity, arg) == seq![Value::I64(arg)],
        arity > 0 ==> spec_reflect_args(arity, arg).len() == 1,
        arity > 0 && i32::MIN <= arg <= i32::MAX ==> spec_reflect_args(arity, arg)[0] == Value::I32(
            arg as i32,
        ),
{
}

/// A probe returns the run's 64-bit result, or what it is told to return where there is none.
pub proof fn law_probe_returns_the_result(vals: Vec<Value>, x: i64, failed: i64, t: crate::traps::Trap)
    ensures
        vals@.len() > 0 && vals@[0] == Value::I64(x) ==> spec_probe(
            RunResult::Returned(vals),
            failed,
        ) == x,
        vals@.len() == 0 || !(vals@[0] is I64) ==> spec_probe(RunResult::Returned(vals), failed)
            == failed,
        spec_probe(RunResult::Trapped(t), failed) == failed,
        spec_probe(RunResult::Unsupported, failed) == failed,
{
}

/// The fork probe succeeds whichever twin ran first, and only if both reported.
pub proof fn law_fork_order_does_not_matter(run: RunResult, a: Seq<u8>, b: Seq<u8>)
    requires
        a.len() == 8,
        b.len() == 8,
    ensures
        both_reported(a + b) == both_reported(b + a),
        both_reported(a + b) <==> (low_i64(le_value(a)) == 100 && low_i64(le_value(b)) == 200) || (
        low_i64(le_value(a)) == 200 && low_i64(le_value(b)) == 100),
        spec_run_fork(run, a + b) == spec_run_fork(run, b + a),
        !both_reported(a + b) ==> spec_run_fork(run, a + b) == i64::MIN,
{
    assert((a + b).subrange(0, 8) =~= a);
    assert((a + b).subrange(8, 16) =~= b);
    assert((b + a).subrange(0, 8) =~= b);
    assert((b + a).subrange(8, 16) =~= a);
}

/// A captured run keeps the window that it left, whether or not it succeeded; one that never started
/// keeps none.
pub proof fn law_captured_run_keeps_its_window(run: RunResult, snapshot: Seq<u8>, o: CapOutcome)
    requires
        captured(run, snapshot, o),
    ensures
        !(run is Unsupported) ==> o.snapshot@ == snapshot,
        run is Unsupported ==> o.snapshot@.len() == 0 && o.status == 2,
        run is Trapped ==> o.status == 3 && o.value == 0,
{
}

/// A live guest writes what it asks to write and is told how much that was; a call that names no
/// bytes, another operation or a missing window is told so instead.
pub proof fn law_console_writes_what_it_is_asked(op: u32, args: Seq<i64>, has_window: bool)
    ensures
        spec_console_request(op, args, has_window) is Ok <==> op == 1 && args.len() >= 3
            && has_window,
        spec_console_request(op, args, has_window) matches Ok(w) ==> {
            &&& args[1] >= 0 ==> w.ptr == args[1]
            &&& args[2] >= 0 ==> w.len == args[2]
            &&& w.reply == args[2]
            &&& i32::MIN <= args[0] <= i32::MAX ==> w.stream == args[0]
            &&& spec_console_reply(w, true) == args[2]
            &&& spec_console_reply(w, false) == -14
        },
        spec_console_request(op, args, has_window) matches Err(e) ==> e == (if op == 1 && args.len()
            >= 3 {
            -14int
        } else {
            -22int
        }),
{
}

/// A live clock tells the time, for its one operation.
pub proof fn law_clock_tells_the_time(op: u32, now_ns: i64)
    ensures
        spec_clock_reply(0, now_ns) == now_ns,
        op != 0 ==> spec_clock_reply(op, now_ns) == -22,
{
}

/// A refused module leaves nothing but its status, and one that ran leaves what it wrote, each on its
/// own stream.
pub proof fn law_outcome_keeps_its_streams(
    v: Verdict,
    stdout: Vec<u8>,
    stderr: Vec<u8>,
    frame: Option<Frame>,
)
    ensures
        ({
            let o = spec_pb_outcome(v, stdout, stderr, frame);
            &&& o.stdout@ == stdout@
            &&& o.stderr@ == stderr@
            &&& o.framebuffer == frame
            &&& (o.status, o.value, o.exit_code) == (v.status, v.value, v.exit_code)
        }),
{
}

/// The probes succeed on what they look for and on nothing else.
pub proof fn law_probes_look_for_one_thing(
    hello: PbOutcome,
    exit: PbOutcome,
    greeting: Seq<u8>,
    out: CapOutcome,
    x: u64,
    status: i32,
    value: i64,
)
    requires
        greeting.len() > 0,
    ensures
        spec_run_powerbox(hello, exit, greeting) == greeting.len() <==> hello.status == 0
            && hello.stdout@ == greeting && exit.status == 5 && exit.exit_code == 42,
        spec_run_powerbox(hello, exit, greeting) == greeting.len() || spec_run_powerbox(
            hello,
            exit,
            greeting,
        ) == -1,
        out.status == 0 && out.snapshot@.len() == 128 && le_value(out.snapshot@.subrange(0, 8)) == x
            && x <= i64::MAX ==> spec_run_capture(out) == x,
        out.status != 0 || out.snapshot@.len() != 128 ==> spec_run_capture(out) == -1,
        status == 0 ==> spec_probe_entry(status, value) == value,
        status != 0 ==> spec_probe_entry(status, value) == -1,
{
}

} // verus!
