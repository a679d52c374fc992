//! The guest programs that the benchmarks and fixtures run, and the requests that drive a debug
//! session over them.

use vstd::prelude::*;

use crate::fmt::{
    dec, dec_int, json_string, law_decimal_round_trip, push_dec, push_int, spec_json_string,
};
use crate::plan::{lemma_contains_back, lemma_contains_front, lemma_middle};
use crate::text::{contains, has_part};

verus! {

/// Both counting guests up to the bound.
pub const GUEST_HEAD: &'static str = "memory 17
func () -> (i64) {
block 0 () {
  vn = i64.const ";

/// Both counting guests from the bound to the loop body.
pub const GUEST_LOOP: &'static str = "
  vi = i64.const 0
  vacc = i64.const 0
  br 1(vi, vacc, vn)
  }
block 1 (vi: i64, vacc: i64, vn: i64) {
  vdone = i64.ge_s vi vn
  br_if vdone 3(vacc) 2(vi, vacc, vn)
  }
block 2 (vi: i64, vacc: i64, vn: i64) {
";

/// The body of the guest that keeps its sum in registers.
pub const GUEST_ADD: &'static str = "  vacc2 = i64.add vacc vi
";

/// The body of the guest that goes through memory.
pub const GUEST_ADD_MEM: &'static str = "  vaddr = i64.const 65536
  i64.store vaddr vi
  vld = i64.load vaddr
  vacc2 = i64.add vacc vld
";

/// Both counting guests after the loop body.
pub const GUEST_TAIL: &'static str = "  vone = i64.const 1
  vi2 = i64.add vi vone
  br 1(vi2, vacc2, vn)
  }
block 3 (vacc: i64) {
  return vacc
  }
}
";

/// The text of a guest that counts to `n` with the loop body `body`.
pub open spec fn spec_guest(n: int, body: Seq<char>) -> Seq<char> {
    GUEST_HEAD@ + dec_int(n) + GUEST_LOOP@ + body + GUEST_TAIL@
}

/// A guest that sums the numbers below `n` in registers.
pub fn guest(n: i64) -> (r: String)
    ensures
        r@ == spec_guest(n as int, GUEST_ADD@),
        r@ == GUEST_HEAD@ + dec_int(n as int) + GUEST_LOOP@ + GUEST_ADD@ + GUEST_TAIL@,
{
    let mut s: String = String::new();
    s.append(GUEST_HEAD);
    push_int(&mut s, n);
    s.append(GUEST_LOOP);
    s.append(GUEST_ADD);
    s.append(GUEST_TAIL);
    assert(s@ =~= GUEST_HEAD@ + dec_int(n as int) + GUEST_LOOP@ + GUEST_ADD@ + GUEST_TAIL@);
    s
}

/// A guest that sums the numbers below `n` through one memory word.
pub fn guest_mem(n: i64) -> (r: String)
    ensures
        r@ == spec_guest(n as int, GUEST_ADD_MEM@),
        r@ == GUEST_HEAD@ + dec_int(n as int) + GUEST_LOOP@ + GUEST_ADD_MEM@ + GUEST_TAIL@,
{
    let mut s: String = String::new();
    s.append(GUEST_HEAD);
    push_int(&mut s, n);
    s.append(GUEST_LOOP);
    s.append(GUEST_ADD_MEM);
    s.append(GUEST_TAIL);
    assert(s@ =~= GUEST_HEAD@ + dec_int(n as int) + GUEST_LOOP@ + GUEST_ADD_MEM@ + GUEST_TAIL@);
    s
}

/// The cooperative run window.
pub const GROW_WINDOW: u64 = 33554432;

/// An address just past it.
pub const GROW_PROBE: u64 = 33554448;

/// Where the growing guest stores its result.
pub const GROW_SLOT: u64 = 34816;

/// How many steps the chain of the heavy leaf has.
pub const GROW_STEPS: u64 = 400;

/// Step `i` of the chain: it folds a small constant into the accumulator.
pub open spec fn chain_step(i: nat) -> Seq<char> {
    let k = dec(3 + i % 7);
    "  vk"@ + dec(i) + " = i64.const "@ + k + "\n  vm"@ + dec(i) + " = i64.mul vacc"@ + dec(i)
        + " vk"@ + dec(i) + "\n  vx"@ + dec(i) + " = i64.xor vm"@ + dec(i) + " vk"@ + dec(i)
        + "\n  vacc"@ + dec(i + 1) + " = i64.add vx"@ + dec(i) + " vk"@ + dec(i) + "\n"@
}

/// The first `n` steps of the chain.
pub open spec fn chain(n: nat) -> Seq<char>
    decreases n,
{
    if n == 0 {
        Seq::empty()
    } else {
        chain((n - 1) as nat) + chain_step((n - 1) as nat)
    }
}

/// The growing guest up to the result slot.
pub const GROW_START: &'static str = "memory 16
func () -> (i64) {
block 0 () {
  vz = i64.const 0
  vt = thread.spawn 3 vz vz
  vseed = i64.const 11
  vr = call 1 (vseed)
  vj = thread.join vt
  vtot = i64.add vr vj
  vsl = i64.const ";

/// The growing guest from the result slot to the output handle.
pub const GROW_OUT: &'static str = "
  i64.store vsl vtot
  vout = i32.const ";

/// The growing guest from the output handle to the chain.
pub const GROW_LEAF: &'static str = "
  vlen8 = i64.const 8
  vw = call.cap 0 1 (i64, i64) -> (i64) vout (vsl, vlen8)
  return vtot
  }
}
func (i64) -> (i64) {
block 0 (vacc0: i64) {
  vg = call 2 (vacc0)
  i64.store vg vacc0
  vld = i64.load vg
";

/// The growing guest from the chain to the memory handle.
pub const GROW_MAP: &'static str = "  vsum = i64.add vacc400 vld
  return vsum
  }
}
func (i64) -> (i64) {
block 0 (v0: i64) {
  vas = i32.const ";

/// The growing guest from the memory handle to the mapped offset.
pub const GROW_OFF: &'static str = "
  voff = i64.const ";

/// The growing guest from the mapped offset to the probed address.
pub const GROW_LEN: &'static str = "
  vlen = i64.const 16384
  vprot = i32.const 3
  vr = call.cap 5 0 (i64, i64, i32) -> (i64) vas (voff, vlen, vprot)
  vprobe = i64.const ";

/// The growing guest from the probed address on.
pub const GROW_END: &'static str = "
  return vprobe
  }
}
func (i64, i64) -> (i64) {
block 0 (vsp: i64, varg: i64) {
  vseed = i64.const 29
  vr = call 1 (vseed)
  return vr
  }
}
export 0 func \"_start\" 0
";

/// Appends step `i` of the chain.
#[verifier::spinoff_prover]
#[verifier::rlimit(60)]
fn push_chain_step(s: &mut String, i: u64)
    requires
        i < GROW_STEPS,
    ensures
        final(s)@ == old(s)@ + chain_step(i as nat),
{
    s.append("  vk");
    push_dec(s, i);
    s.append(" = i64.const ");
    push_dec(s, 3 + i % 7);
    s.append("\n  vm");
    push_dec(s, i);
    s.append(" = i64.mul vacc");
    push_dec(s, i);
    s.append(" vk");
    push_dec(s, i);
    s.append("\n  vx");
    push_dec(s, i);
    s.append(" = i64.xor vm");
    push_dec(s, i);
    s.append(" vk");
    push_dec(s, i);
    s.append("\n  vacc");
    push_dec(s, i + 1);
    s.append(" = i64.add vx");
    push_dec(s, i);
    s.append(" vk");
    push_dec(s, i);
    s.append("\n");
    assert(s@ =~= old(s)@ + chain_step(i as nat));
}

/// The text of the growing guest.
pub open spec fn spec_grow(stdout: int, memory: int) -> Seq<char> {
    GROW_START@ + dec(GROW_SLOT as nat) + GROW_OUT@ + dec_int(stdout) + GROW_LEAF@ + chain(
        GROW_STEPS as nat,
    ) + GROW_MAP@ + dec_int(memory) + GROW_OFF@ + dec(GROW_WINDOW as nat) + GROW_LEN@ + dec(
        GROW_PROBE as nat,
    ) + GROW_END@
}

/// A guest that maps a page past the run window from a leaf that is heavy enough to tier up.
///
/// `stdout` and `memory` are the handles that its powerbox grants.
pub fn grow_past_window(stdout: i32, memory: i32) -> (r: String)
    ensures
        r@ == spec_grow(stdout as int, memory as int),
        r@ == GROW_START@ + dec(GROW_SLOT as nat) + GROW_OUT@ + dec_int(stdout as int) + GROW_LEAF@
            + chain(GROW_STEPS as nat) + GROW_MAP@ + dec_int(memory as int) + GROW_OFF@ + dec(
            GROW_WINDOW as nat,
        ) + GROW_LEN@ + dec(GROW_PROBE as nat) + GROW_END@,
{
    let mut s: String = String::new();
    s.append(GROW_START);
    push_dec(&mut s, GROW_SLOT);
    s.append(GROW_OUT);
    push_int(&mut s, stdout as i64);
    s.append(GROW_LEAF);
    let ghost head = s@;
    let mut i: u64 = 0;
    assert(s@ =~= head + chain(0));
    while i < GROW_STEPS
        invariant
            i <= GROW_STEPS,
            s@ == head + chain(i as nat),
        decreases GROW_STEPS - i,
    {
        push_chain_step(&mut s, i);
        assert(s@ =~= head + chain((i + 1) as nat));
        i = i + 1;
    }
    s.append(GROW_MAP);
    push_int(&mut s, memory as i64);
    s.append(GROW_OFF);
    push_dec(&mut s, GROW_WINDOW);
    s.append(GROW_LEN);
    push_dec(&mut s, GROW_PROBE);
    s.append(GROW_END);
    assert(s@ =~= GROW_START@ + dec(GROW_SLOT as nat) + GROW_OUT@ + dec_int(stdout as int)
        + GROW_LEAF@ + chain(GROW_STEPS as nat) + GROW_MAP@ + dec_int(memory as int) + GROW_OFF@
        + dec(GROW_WINDOW as nat) + GROW_LEN@ + dec(GROW_PROBE as nat) + GROW_END@);
    s
}

/// A launch request up to the program text.
pub const LAUNCH_HEAD: &'static str = "{\"seq\":2,\"type\":\"request\",\"command\":\"launch\",\"arguments\":{\"programText\":";

/// A launch request from the program text to the memory model flag.
pub const LAUNCH_MID: &'static str = ",\"function\":0,\"args\":[],\"engine\":\"bytecode\",\"powerbox\":\"onramp\",\"blockStdin\":true,\"memModel\":";

/// The text of a launch request.
pub open spec fn spec_launch(ir: Seq<char>, mem_model: bool) -> Seq<char> {
    LAUNCH_HEAD@ + spec_json_string(ir) + LAUNCH_MID@ + (if mem_model {
        "true"@
    } else {
        "false"@
    }) + "}}"@
}

/// The text of a breakpoint request.
pub open spec fn spec_breakpoint(line: int) -> Seq<char> {
    BREAK_HEAD@ + dec_int(line) + "}]}}"@
}

/// The request that launches a debug session over the program text `ir`.
pub fn launch_request(ir: &str, mem_model: bool) -> (r: String)
    ensures
        r@ == spec_launch(ir@, mem_model),
        r@ == LAUNCH_HEAD@ + spec_json_string(ir@) + LAUNCH_MID@ + (if mem_model {
            "true"@
        } else {
            "false"@
        }) + "}}"@,
{
    let mut s: String = String::new();
    s.append(LAUNCH_HEAD);
    let text: String = json_string(ir);
    s.append(text.as_str());
    s.append(LAUNCH_MID);
    if mem_model {
        s.append("true");
    } else {
        s.append("false");
    }
    s.append("}}");
    assert(s@ =~= LAUNCH_HEAD@ + spec_json_string(ir@) + LAUNCH_MID@ + (if mem_model {
        "true"@
    } else {
        "false"@
    }) + "}}"@);
    s
}

/// A breakpoint request up to the line.
pub const BREAK_HEAD: &'static str = "{\"seq\":3,\"type\":\"request\",\"command\":\"setBreakpoints\",\"arguments\":{\"source\":{\"path\":\"/in.c\"},\"breakpoints\":[{\"line\":";

/// The request that sets one breakpoint.
pub fn breakpoint_request(line: i64) -> (r: String)
    ensures
        r@ == spec_breakpoint(line as int),
        r@ == BREAK_HEAD@ + dec_int(line as int) + "}]}}"@,
{
    let mut s: String = String::new();
    s.append(BREAK_HEAD);
    push_int(&mut s, line);
    s.append("}]}}");
    assert(s@ =~= BREAK_HEAD@ + dec_int(line as int) + "}]}}"@);
    s
}

/// Some reply holds `part`.
pub open spec fn some_holds(replies: Seq<String>, part: Seq<char>) -> bool {
    exists|i: int| 0 <= i < replies.len() && contains((#[trigger] replies[i])@, part)
}

/// Whether some reply holds `part`.
fn any_holds(replies: &[String], part: &str) -> (r: bool)
    ensures
        r == some_holds(replies@, part@),
{
    let mut i: usize = 0;
    while i < replies.len()
        invariant
            i <= replies.len(),
            forall|j: int| 0 <= j < i ==> !contains((#[trigger] replies@[j])@, part@),
        decreases replies.len() - i,
    {
        if has_part(replies[i].as_str(), part) {
            return true;
        }
        i = i + 1;
    }
    false
}

/// A launch succeeded.
pub open spec fn spec_launched(replies: Seq<String>) -> bool {
    some_holds(replies, "\"success\":true"@)
}

/// A session ran to its end.
pub open spec fn spec_session_ended(replies: Seq<String>) -> bool {
    some_holds(replies, "\"terminated\""@) || some_holds(replies, "\"exited\""@)
}

/// Whether a launch succeeded.
pub fn launch_succeeded(replies: &[String]) -> (r: bool)
    ensures
        r == spec_launched(replies@),
        r == some_holds(replies@, "\"success\":true"@),
{
    any_holds(replies, "\"success\":true")
}

/// Whether a session ran to its end.
pub fn session_ended(replies: &[String]) -> (r: bool)
    ensures
        r == spec_session_ended(replies@),
        r == (some_holds(replies@, "\"terminated\""@) || some_holds(replies@, "\"exited\""@)),
{
    any_holds(replies, "\"terminated\"") || any_holds(replies, "\"exited\"")
}

/// A unit that multiplies two integers and adds one hundred.
pub const JIT_SERVICE: &'static str = "memory 16
func (i32, i32) -> (i32) {
block 0 (v0: i32, v1: i32) {
  v2 = i32.mul v0 v1
  v3 = i32.const 100
  v4 = i32.add v2 v3
  return v4
  }
}
";

/// The same of two floating-point numbers.
pub const JIT_SERVICE_FLOAT: &'static str = "memory 16
func (f64, f64) -> (f64) {
block 0 (v0: f64, v1: f64) {
  v2 = f64.mul v0 v1
  v3 = f64.const 100.0
  v4 = f64.add v2 v3
  return v4
  }
}
";

/// The unit that a run with an emitted body submits.
pub open spec fn spec_service(service: i32) -> Seq<char> {
    if service == 1 {
        JIT_SERVICE_FLOAT@
    } else {
        JIT_SERVICE@
    }
}

/// The unit that a run with an emitted body submits.
pub fn codegen_service_src(service: i32) -> (r: &'static str)
    ensures
        r@ == spec_service(service),
        r@ == (if service == 1 { JIT_SERVICE_FLOAT@ } else { JIT_SERVICE@ }),
{
    if service == 1 {
        JIT_SERVICE_FLOAT
    } else {
        JIT_SERVICE
    }
}

/// A counting guest's bound is the number that it was made with: the bound stands between the head
/// and the loop, and nothing else of the text depends on it.
pub proof fn law_guest_counts_to_its_bound(n: int, m: int, body: Seq<char>)
    ensures
        ({
            let text = spec_guest(n, body);
            let h = GUEST_HEAD@.len() as int;
            &&& text.take(h) == GUEST_HEAD@
            &&& text.subrange(h, h + dec_int(n).len()) == dec_int(n)
            &&& text.skip(h + dec_int(n).len()) == spec_guest(m, body).skip(h + dec_int(m).len())
            &&& contains(text, GUEST_LOOP@ + body + GUEST_TAIL@)
        }),
{
    let text = spec_guest(n, body);
    let other = spec_guest(m, body);
    let h = GUEST_HEAD@.len() as int;
    let rest = GUEST_LOOP@ + body + GUEST_TAIL@;
    assert(text.take(h) =~= GUEST_HEAD@);
    assert(text.subrange(h, h + dec_int(n).len()) =~= dec_int(n));
    assert(text.skip(h + dec_int(n).len()) =~= rest);
    assert(other.skip(h + dec_int(m).len()) =~= rest);
    assert(text =~= GUEST_HEAD@ + dec_int(n) + rest);
    lemma_contains_back(GUEST_HEAD@ + dec_int(n), rest);
}

/// Two numbers are told apart by their text.
proof fn lemma_dec_int_tells_apart(a: int, b: int)
    requires
        dec_int(a) == dec_int(b),
    ensures
        a == b,
{
    if a >= 0 {
        law_decimal_round_trip(a as nat);
        lemma_dec_has_digits(a as nat);
    } else {
        law_decimal_round_trip((-a) as nat);
        lemma_dec_has_digits((-a) as nat);
        assert(dec_int(a).skip(1) =~= dec((-a) as nat));
        assert(dec_int(a)[0] == '-');
    }
    if b >= 0 {
        law_decimal_round_trip(b as nat);
        lemma_dec_has_digits(b as nat);
    } else {
        law_decimal_round_trip((-b) as nat);
        lemma_dec_has_digits((-b) as nat);
        assert(dec_int(b).skip(1) =~= dec((-b) as nat));
        assert(dec_int(b)[0] == '-');
    }
}

/// A decimal starts with a digit.
proof fn lemma_dec_has_digits(n: nat)
    ensures
        dec(n).len() > 0,
        dec(n)[0] != '-',
    decreases n,
{
    if n >= 10 {
        lemma_dec_has_digits(n / 10);
        assert(dec(n)[0] == dec(n / 10)[0]);
    }
}

/// Different bounds, lines and handles never make the same text.
pub proof fn law_texts_tell_their_numbers_apart(a: int, b: int, body: Seq<char>)
    ensures
        spec_guest(a, body) == spec_guest(b, body) ==> a == b,
        spec_breakpoint(a) == spec_breakpoint(b) ==> a == b,
{
    let h = GUEST_HEAD@.len() as int;
    let x = spec_guest(a, body);
    let y = spec_guest(b, body);
    let rest = GUEST_LOOP@ + body + GUEST_TAIL@;
    if x == y {
        assert(x.len() == h + dec_int(a).len() + rest.len());
        assert(y.len() == h + dec_int(b).len() + rest.len());
        assert(x.subrange(h, h + dec_int(a).len()) =~= dec_int(a));
        assert(y.subrange(h, h + dec_int(b).len()) =~= dec_int(b));
        lemma_dec_int_tells_apart(a, b);
    }
    let k = BREAK_HEAD@.len() as int;
    let u = spec_breakpoint(a);
    let v = spec_breakpoint(b);
    if u == v {
        assert(u.subrange(k, k + dec_int(a).len()) =~= dec_int(a));
        assert(v.subrange(k, k + dec_int(b).len()) =~= dec_int(b));
        lemma_dec_int_tells_apart(a, b);
    }
}

/// The growing guest writes through the output handle and maps through the memory handle that it was
/// given.
pub proof fn law_growing_guest_uses_its_handles(stdout: int, memory: int)
    ensures
        ({
            let text = spec_grow(stdout, memory);
            &&& contains(text, GROW_OUT@ + dec_int(stdout) + GROW_LEAF@)
            &&& contains(text, GROW_MAP@ + dec_int(memory) + GROW_OFF@)
            &&& contains(text, GROW_OFF@ + dec(33554432) + GROW_LEN@ + dec(33554448) + GROW_END@)
            &&& contains(text, GROW_START@ + dec(34816) + GROW_OUT@)
            &&& contains(text, chain(400))
        }),
{
    lemma_thirteen_parts(
        seq![
            GROW_START@,
            dec(GROW_SLOT as nat),
            GROW_OUT@,
            dec_int(stdout),
            GROW_LEAF@,
            chain(GROW_STEPS as nat),
            GROW_MAP@,
            dec_int(memory),
            GROW_OFF@,
            dec(GROW_WINDOW as nat),
            GROW_LEN@,
            dec(GROW_PROBE as nat),
            GROW_END@,
        ],
    );
}

/// Parts of a text in thirteen pieces.
#[verifier::spinoff_prover]
proof fn lemma_thirteen_parts(p: Seq<Seq<char>>)
    requires
        p.len() == 13,
    ensures
        ({
            let text = p[0] + p[1] + p[2] + p[3] + p[4] + p[5] + p[6] + p[7] + p[8] + p[9] + p[10]
                + p[11] + p[12];
            &&& contains(text, p[2] + p[3] + p[4])
            &&& contains(text, p[6] + p[7] + p[8])
            &&& contains(text, p[8] + p[9] + p[10] + p[11] + p[12])
            &&& contains(text, p[0] + p[1] + p[2])
            &&& contains(text, p[5])
        }),
{
    let a = p[0] + p[1];
    let b = a + p[2] + p[3] + p[4];
    let c = b + p[5] + p[6] + p[7];
    let first = a + p[2];
    lemma_three_at_end(a, p[2], p[3], p[4]);
    lemma_contains_back(b, p[5]);
    lemma_three_at_end(b + p[5], p[6], p[7], p[8]);
    lemma_five_at_end(c, p[8], p[9], p[10], p[11], p[12]);
    lemma_contains_back(Seq::empty(), first);
    assert(Seq::<char>::empty() + first =~= first);
    lemma_in_longer(first, p[3], p[4], first);
    lemma_in_longer(b, p[5], p[6], first);
    lemma_in_longer(b, p[5], p[6], p[2] + p[3] + p[4]);
    lemma_in_longer(b + p[5], p[6], p[7], p[5]);
    lemma_in_longer(b + p[5] + p[6], p[7], p[8], first);
    lemma_in_longer(b + p[5] + p[6], p[7], p[8], p[2] + p[3] + p[4]);
    lemma_in_longer(c, p[8], p[9], p[5]);
    let d = c + p[8];
    lemma_in_longer(d, p[9], p[10], first);
    lemma_in_longer(d, p[9], p[10], p[2] + p[3] + p[4]);
    lemma_in_longer(d, p[9], p[10], p[6] + p[7] + p[8]);
    lemma_contains_front(d + p[9], p[10], p[5]);
    let e = d + p[9] + p[10];
    lemma_in_longer(e, p[11], p[12], first);
    lemma_in_longer(e, p[11], p[12], p[2] + p[3] + p[4]);
    lemma_in_longer(e, p[11], p[12], p[6] + p[7] + p[8]);
    lemma_in_longer(e, p[11], p[12], p[5]);
}

/// What stands in a text stands in it with more behind it.
proof fn lemma_in_longer(text: Seq<char>, x: Seq<char>, y: Seq<char>, part: Seq<char>)
    requires
        contains(text, part),
    ensures
        contains(text + x + y, part),
{
    lemma_contains_front(text, x, part);
    lemma_contains_front(text + x, y, part);
}

/// Three parts at the end stand next to each other.
proof fn lemma_three_at_end(text: Seq<char>, x: Seq<char>, y: Seq<char>, z: Seq<char>)
    ensures
        contains(text + x + y + z, x + y + z),
{
    assert(text + x + y + z =~= text + (x + y + z));
    lemma_contains_back(text, x + y + z);
}

/// Five parts at the end stand next to each other.
proof fn lemma_five_at_end(
    text: Seq<char>,
    x: Seq<char>,
    y: Seq<char>,
    z: Seq<char>,
    u: Seq<char>,
    v: Seq<char>,
)
    ensures
        contains(text + x + y + z + u + v, x + y + z + u + v),
{
    assert(text + x + y + z + u + v =~= text + (x + y + z + u + v));
    lemma_contains_back(text, x + y + z + u + v);
}

/// A launch carries the program as one JSON string and the model flag as it was asked for.
pub proof fn law_launch_carries_the_program(ir: Seq<char>, mem_model: bool)
    ensures
        contains(spec_launch(ir, mem_model), LAUNCH_HEAD@ + spec_json_string(ir) + LAUNCH_MID@),
        contains(spec_launch(ir, true), LAUNCH_MID@ + "true"@ + "}}"@),
        contains(spec_launch(ir, false), LAUNCH_MID@ + "false"@ + "}}"@),
{
    let none = Seq::<char>::empty();
    let head = LAUNCH_HEAD@ + spec_json_string(ir) + LAUNCH_MID@;
    let flag = (if mem_model {
        "true"@
    } else {
        "false"@
    }) + "}}"@;
    assert(spec_launch(ir, mem_model) =~= none + head + flag);
    lemma_middle(none, head, flag);
    let front = LAUNCH_HEAD@ + spec_json_string(ir);
    assert(spec_launch(ir, true) =~= front + (LAUNCH_MID@ + "true"@ + "}}"@));
    lemma_contains_back(front, LAUNCH_MID@ + "true"@ + "}}"@);
    assert(spec_launch(ir, false) =~= front + (LAUNCH_MID@ + "false"@ + "}}"@));
    lemma_contains_back(front, LAUNCH_MID@ + "false"@ + "}}"@);
}

/// One step of the chain takes the accumulator of the step before and hands on the next one.
pub proof fn law_chain_hands_its_accumulator_on(i: nat)
    ensures
        chain(i + 1) == chain(i) + chain_step(i),
        contains(chain_step(i), " = i64.mul vacc"@ + dec(i) + " vk"@ + dec(i)),
        contains(chain_step(i), "\n  vacc"@ + dec(i + 1) + " = i64.add vx"@ + dec(i)),
        contains(chain_step(i), "  vk"@ + dec(i) + " = i64.const "@ + dec(3 + i % 7)),
{
    let s = chain_step(i);
    let none = Seq::<char>::empty();
    let a = "  vk"@ + dec(i) + " = i64.const "@ + dec(3 + i % 7);
    let b = "\n  vm"@ + dec(i);
    let c = " = i64.mul vacc"@ + dec(i) + " vk"@ + dec(i);
    let d = "\n  vx"@ + dec(i) + " = i64.xor vm"@ + dec(i) + " vk"@ + dec(i);
    let e = "\n  vacc"@ + dec(i + 1) + " = i64.add vx"@ + dec(i);
    let f = " vk"@ + dec(i) + "\n"@;
    assert(s =~= a + b + c + d + e + f);
    assert(s =~= none + a + (b + c + d + e + f));
    lemma_middle(none, a, b + c + d + e + f);
    assert(s =~= (a + b) + c + (d + e + f));
    lemma_middle(a + b, c, d + e + f);
    lemma_middle(a + b + c + d, e, f);
}

/// One reply that says so is enough, wherever it comes, and further replies take nothing back.
pub proof fn law_one_reply_is_enough(replies: Seq<String>, more: Seq<String>, i: int)
    requires
        0 <= i < replies.len(),
    ensures
        contains(replies[i]@, "\"success\":true"@) ==> spec_launched(replies + more),
        contains(replies[i]@, "\"terminated\""@) ==> spec_session_ended(replies + more),
        contains(replies[i]@, "\"exited\""@) ==> spec_session_ended(replies + more),
        spec_launched(replies) ==> spec_launched(replies + more),
        !spec_launched(Seq::empty()),
        !spec_session_ended(Seq::empty()),
{
    let all = replies + more;
    assert(all[i] == replies[i]);
    if spec_launched(replies) {
        let k = choose|k: int|
            0 <= k < replies.len() && contains((#[trigger] replies[k])@, "\"success\":true"@);
        assert(all[k] == replies[k]);
    }
}

/// The float service is asked for by its own number, and any other number asks for the integer one.
pub proof fn law_service_is_asked_for_by_number(service: i32)
    ensures
        spec_service(1) == JIT_SERVICE_FLOAT@,
        service != 1 ==> spec_service(service) == JIT_SERVICE@,
{
}

} // verus!
