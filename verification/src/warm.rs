//! The warm-runtime session: initialise a guest once, keep its image, and restore it before every run.

use vstd::prelude::*;
use vstd::slice::{slice_subrange, slice_to_vec};

use crate::bytes::{
    get_u64_at, i64_of_bits, le_bytes, le_value, lemma_le_bytes_len, lemma_le_round_trip,
    lemma_pow256_values, low_i64, put_u64_at, splice,
};
use crate::caps::OnrampModule;
use crate::slots::Value;
use crate::status::{
    bare, RunResult, Verdict, STATUS_DECODE_ERR, STATUS_EXIT, STATUS_OK, STATUS_TRAP,
    STATUS_UNSUPPORTED,
};
use crate::traps::{first_i64, spec_first_i64, Trap};
use crate::window::copy_into;

verus! {

/// A warm session's window is `1 << 26` bytes.
pub const WARM_MAPPED_LOG2: u8 = 26;

/// The page kind of a committed, writable page.
pub const PAGE_RW: u8 = 1;

/// An explicit entry of the page map: where the page starts and its kind.
#[derive(Clone, Copy, Debug, PartialEq, Eq, Structural)]
pub struct PageEntry {
    pub off: u64,
    pub kind: u8,
}

/// The entry points of a two-phase guest.
#[derive(Clone, Copy, Debug, PartialEq, Eq, Structural)]
pub struct WarmPlan {
    pub warmup_fn: u32,
    pub eval_fn: u32,
    /// The declared window, which the heap starts above.
    pub declared_log2: u8,
}

/// The guest can be kept warm: it has a window that leaves room for a heap in the session's, and
/// both entry points.
pub open spec fn spec_warmable(m: OnrampModule) -> bool {
    &&& m.memory_log2 matches Some(k) && k < WARM_MAPPED_LOG2
    &&& exists|i: int| 0 <= i < m.exports@.len() && (#[trigger] m.exports@[i]).name@ == "warmup"@
    &&& exists|i: int|
        0 <= i < m.exports@.len() && (#[trigger] m.exports@[i]).name@ == "eval_run"@
}

/// `r` is the plan of a warm session over `m`.
pub open spec fn planned_warm(m: Option<OnrampModule>, r: Result<WarmPlan, i32>) -> bool {
    &&& r is Ok <==> (m matches Some(t) && spec_warmable(t))
    &&& r matches Err(status) ==> status == (if m is None {
        STATUS_DECODE_ERR
    } else {
        STATUS_UNSUPPORTED
    })
    &&& r matches Ok(plan) ==> {
        &&& Some(plan.declared_log2) == m->0.memory_log2
        &&& exists|i: int|
            0 <= i < m->0.exports@.len() && (#[trigger] m->0.exports@[i]).name@ == "warmup"@
                && m->0.exports@[i].func == plan.warmup_fn && forall|j: int|
                0 <= j < i ==> (#[trigger] m->0.exports@[j]).name@ != "warmup"@
        &&& exists|i: int|
            0 <= i < m->0.exports@.len() && (#[trigger] m->0.exports@[i]).name@ == "eval_run"@
                && m->0.exports@[i].func == plan.eval_fn && forall|j: int|
                0 <= j < i ==> (#[trigger] m->0.exports@[j]).name@ != "eval_run"@
    }
}

/// Plans a warm session, or says why there is none.
pub fn plan_warm(m: &Option<OnrampModule>) -> (r: Result<WarmPlan, i32>)
    ensures
        planned_warm(*m, r),
        r is Ok <==> (*m matches Some(t) && spec_warmable(t)),
        r matches Err(status) ==> status == (if m is None {
            STATUS_DECODE_ERR
        } else {
            STATUS_UNSUPPORTED
        }),
        r matches Ok(plan) ==> {
            &&& Some(plan.declared_log2) == m->0.memory_log2
            &&& exists|i: int|
                0 <= i < m->0.exports@.len() && (#[trigger] m->0.exports@[i]).name@ == "warmup"@
                    && m->0.exports@[i].func == plan.warmup_fn && forall|j: int|
                    0 <= j < i ==> (#[trigger] m->0.exports@[j]).name@ != "warmup"@
            &&& exists|i: int|
                0 <= i < m->0.exports@.len() && (#[trigger] m->0.exports@[i]).name@ == "eval_run"@
                    && m->0.exports@[i].func == plan.eval_fn && forall|j: int|
                    0 <= j < i ==> (#[trigger] m->0.exports@[j]).name@ != "eval_run"@
        },
{
    let t: &OnrampModule = match m {
        None => {
            return Err(STATUS_DECODE_ERR);
        },
        Some(t) => t,
    };
    let declared_log2: u8 = match t.memory_log2 {
        None => {
            return Err(STATUS_UNSUPPORTED);
        },
        Some(k) => k,
    };
    if declared_log2 >= WARM_MAPPED_LOG2 {
        return Err(STATUS_UNSUPPORTED);
    }
    match (t.resolve_export("warmup"), t.resolve_export("eval_run")) {
        (Some(warmup_fn), Some(eval_fn)) => Ok(WarmPlan { warmup_fn, eval_fn, declared_log2 }),
        _ => Err(STATUS_UNSUPPORTED),
    }
}

/// `win` with both heap words saying that the heap is empty and starts at `heap_base`.
pub open spec fn heap_seeded(win: Seq<u8>, brk_at: int, top_at: int, heap_base: u64) -> Seq<u8> {
    splice(
        splice(win, brk_at, le_bytes(heap_base as nat, 8)),
        top_at,
        le_bytes(heap_base as nat, 8),
    )
}

/// Seeds the two heap words of a fresh window: both say that the heap is empty and starts at
/// `heap_base`.
pub fn seed_heap_words(win: &mut [u8], brk_at: usize, top_at: usize, heap_base: u64)
    requires
        brk_at + 8 <= old(win)@.len(),
        top_at + 8 <= old(win)@.len(),
    ensures
        final(win)@ == heap_seeded(old(win)@, brk_at as int, top_at as int, heap_base),
        final(win)@ == splice(
            splice(old(win)@, brk_at as int, le_bytes(heap_base as nat, 8)),
            top_at as int,
            le_bytes(heap_base as nat, 8),
        ),
{
    put_u64_at(win, brk_at, heap_base);
    put_u64_at(win, top_at, heap_base);
}

/// The heap's end that a window records, as a byte count.
pub open spec fn spec_read_brk(win: Seq<u8>, brk_at: int) -> usize {
    (low_i64(le_value(win.subrange(brk_at, brk_at + 8))) as i64) as usize
}

/// The heap's end that a window records.
pub fn warm_read_brk(win: &[u8], brk_at: usize) -> (r: usize)
    requires
        brk_at + 8 <= win@.len(),
    ensures
        r == spec_read_brk(win@, brk_at as int),
{
    i64_of_bits(get_u64_at(win, brk_at)) as usize
}

/// The live prefix of a window: up to the heap's end, and never past the window.
pub open spec fn spec_live(win: Seq<u8>, brk_at: int) -> nat {
    let brk = spec_read_brk(win, brk_at) as nat;
    if brk < win.len() {
        brk
    } else {
        win.len()
    }
}

/// A live warm session over one window.
#[derive(Debug)]
pub struct WarmSession {
    /// The bytes of the window.
    pub win: usize,
    /// The live prefix after the warm-up.
    pub image: Vec<u8>,
    /// No byte at or past this offset has been written since the warm-up.
    pub dirty_end: usize,
    /// Where the window records the heap's end.
    pub brk_at: usize,
    /// The page map after the warm-up.
    pub prots: Vec<PageEntry>,
    pub eval_fn: u32,
    /// Whether the emitted eval is open.
    pub jit: bool,
}

/// The window right after the warm-up: the image, then zeros.
pub open spec fn warm_window(image: Seq<u8>, win: nat) -> Seq<u8> {
    Seq::new(
        win,
        |j: int|
            if j < image.len() {
                image[j]
            } else {
                0u8
            },
    )
}

/// `w` with the image put back and the dirtied tail zeroed.
pub open spec fn restored(w: Seq<u8>, image: Seq<u8>, dirty_end: nat) -> Seq<u8> {
    Seq::new(
        w.len(),
        |j: int|
            if j < image.len() {
                image[j]
            } else if j < dirty_end {
                0u8
            } else {
                w[j]
            },
    )
}

/// The end of the highest page that a run left committed and writable.
pub open spec fn spec_grown(pages: Seq<PageEntry>, page_size: u64, n: nat) -> nat
    decreases n,
{
    if n == 0 {
        0
    } else {
        let rest = spec_grown(pages, page_size, (n - 1) as nat);
        let e = pages[n - 1];
        let end: nat = if e.off + page_size <= u64::MAX {
            (e.off + page_size) as nat
        } else {
            u64::MAX as nat
        };
        if e.kind == PAGE_RW && end > rest {
            end
        } else {
            rest
        }
    }
}

/// Every committed, writable page ends at or below the grown extent.
pub proof fn lemma_grown_covers(pages: Seq<PageEntry>, page_size: u64, n: nat, i: int)
    requires
        0 <= i < n <= pages.len(),
        pages[i].kind == PAGE_RW,
        pages[i].off + page_size <= u64::MAX,
    ensures
        pages[i].off + page_size <= spec_grown(pages, page_size, n),
    decreases n,
{
    if i < n - 1 {
        lemma_grown_covers(pages, page_size, (n - 1) as nat, i);
    }
}

/// The end of the highest page that a run left committed and writable.
fn grown_end(pages: &[PageEntry], page_size: u64) -> (r: u64)
    ensures
        r == spec_grown(pages@, page_size, pages@.len()),
{
    let mut best: u64 = 0;
    let mut i: usize = 0;
    while i < pages.len()
        invariant
            i <= pages.len(),
            best == spec_grown(pages@, page_size, i as nat),
        decreases pages.len() - i,
    {
        let e: PageEntry = pages[i];
        let end: u64 = e.off.saturating_add(page_size);
        if e.kind == PAGE_RW && end > best {
            best = end;
        }
        i = i + 1;
    }
    best
}

/// The larger of two lengths.
pub open spec fn max2(a: nat, b: nat) -> nat {
    if a < b {
        b
    } else {
        a
    }
}

/// The smaller of two lengths.
pub open spec fn min2(a: nat, b: nat) -> nat {
    if a < b {
        a
    } else {
        b
    }
}

/// How far a window may have been dirtied after a run that left it as `w`, with the pages `pages`.
pub open spec fn spec_noted(
    dirty_end: nat,
    w: Seq<u8>,
    brk_at: int,
    pages: Seq<PageEntry>,
    page_size: u64,
) -> nat {
    max2(
        max2(dirty_end, spec_live(w, brk_at)),
        min2(spec_grown(pages, page_size, pages.len()), w.len()),
    )
}

/// The verdict on a warm run: whatever it returns that is not an integer counts as zero.
pub open spec fn spec_warm_verdict(r: Result<Vec<Value>, Trap>) -> Verdict {
    match r {
        Err(Trap::Exit(code)) => Verdict {
            status: STATUS_EXIT,
            value: 0,
            exit_code: code,
        },
        Err(_) => bare(STATUS_TRAP),
        Ok(vals) => Verdict {
            status: STATUS_OK,
            value: spec_first_i64(vals@),
            exit_code: 0,
        },
    }
}

/// Judges a warm run.
pub fn judge_warm(run: &Result<Vec<Value>, Trap>) -> (r: Verdict)
    ensures
        r == spec_warm_verdict(*run),
{
    match run {
        Err(Trap::Exit(code)) => Verdict {
            status: STATUS_EXIT,
            value: 0,
            exit_code: *code,
        },
        Err(_) => Verdict { status: STATUS_TRAP, value: 0, exit_code: 0 },
        Ok(vals) => Verdict {
            status: STATUS_OK,
            value: first_i64(vals.as_slice()),
            exit_code: 0,
        },
    }
}

/// `s` keeps the warmed-up window `w`, its pages and its entry.
pub open spec fn kept(
    s: WarmSession,
    w: Seq<u8>,
    brk_at: int,
    pages: Seq<PageEntry>,
    eval_fn: u32,
) -> bool {
    &&& s.wf()
    &&& s.win == w.len()
    &&& s.image@ == w.take(spec_live(w, brk_at) as int)
    &&& s.dirty_end == s.image@.len()
    &&& s.brk_at == brk_at
    &&& s.prots@ == pages
    &&& s.eval_fn == eval_fn
    &&& !s.jit
}

impl WarmSession {
    /// The image is a prefix of the dirtied part, which is a prefix of the window.
    pub open spec fn wf(self) -> bool {
        &&& self.image@.len() <= self.dirty_end <= self.win
        &&& self.brk_at + 8 <= self.win
    }

    /// Keeps the image of a warmed-up window; `None` if the warm-up trapped or left pages that a
    /// byte copy cannot bring back.
    ///
    /// An `exit` during the warm-up still leaves a warm window.
    pub fn keep(
        w: &[u8],
        brk_at: usize,
        ran: &Result<Vec<Value>, Trap>,
        pages: Option<Vec<PageEntry>>,
        eval_fn: u32,
    ) -> (r: Option<WarmSession>)
        requires
            brk_at + 8 <= w@.len(),
        ensures
            r is Some <==> pages is Some && (ran is Ok || ran->Err_0 is Exit),
            r matches Some(s) ==> kept(s, w@, brk_at as int, pages->0@, eval_fn),
            r matches Some(s) ==> {
                &&& s.wf()
                &&& s.win == w@.len()
                &&& s.image@ == w@.take(spec_live(w@, brk_at as int) as int)
                &&& s.dirty_end == s.image@.len()
                &&& s.brk_at == brk_at
                &&& Some(s.prots) == pages
                &&& s.eval_fn == eval_fn
                &&& !s.jit
            },
    {
        let ok: bool = match ran {
            Ok(_) => true,
            Err(Trap::Exit(_)) => true,
            _ => false,
        };
        if !ok {
            return None;
        }
        let prots: Vec<PageEntry> = match pages {
            None => {
                return None;
            },
            Some(p) => p,
        };
        let brk: usize = warm_read_brk(w, brk_at);
        let live: usize = if brk < w.len() {
            brk
        } else {
            w.len()
        };
        let image: Vec<u8> = slice_to_vec(slice_subrange(w, 0, live));
        Some(
            WarmSession {
                win: w.len(),
                image,
                dirty_end: live,
                brk_at,
                prots,
                eval_fn,
                jit: false,
            },
        )
    }

    /// Brings the warm window back.
    pub fn restore(&self, w: &mut [u8])
        requires
            self.wf(),
            old(w)@.len() == self.win,
        ensures
            final(w)@ == restored(old(w)@, self.image@, self.dirty_end as nat),
    {
        let ghost start = w@;
        copy_into(w, 0, self.image.as_slice());
        let mut k: usize = self.image.len();
        while k < self.dirty_end
            invariant
                self.wf(),
                w@.len() == start.len() == self.win,
                self.image@.len() <= k <= self.dirty_end,
                forall|j: int|
                    0 <= j < start.len() ==> #[trigger] w@[j] == if j < self.image@.len() {
                        self.image@[j]
                    } else if j < k {
                        0u8
                    } else {
                        start[j]
                    },
            decreases self.dirty_end - k,
        {
            w[k] = 0;
            k = k + 1;
        }
        assert(w@ =~= restored(start, self.image@, self.dirty_end as nat));
    }

    /// Notes what a finished run may have dirtied: up to the heap's end and up to the highest page
    /// that it left committed.
    pub fn note_run(&mut self, w: &[u8], pages: &[PageEntry], page_size: u64)
        requires
            old(self).wf(),
            w@.len() == old(self).win,
        ensures
            final(self).wf(),
            *final(self) == (WarmSession { dirty_end: final(self).dirty_end, ..*old(self) }),
            final(self).dirty_end == spec_noted(
                old(self).dirty_end as nat,
                w@,
                old(self).brk_at as int,
                pages@,
                page_size,
            ),
    {
        let brk: usize = warm_read_brk(w, self.brk_at);
        let live: usize = if brk < w.len() {
            brk
        } else {
            w.len()
        };
        let top: u64 = grown_end(pages, page_size);
        let grown: usize = if top < w.len() as u64 {
            top as usize
        } else {
            w.len()
        };
        if self.dirty_end < live {
            self.dirty_end = live;
        }
        if self.dirty_end < grown {
            self.dirty_end = grown;
        }
    }
}

/// Every run starts from the same window: if nothing past the noted extent was written, restoring
/// gives back exactly the window that the warm-up left.
pub proof fn law_every_run_starts_warm(s: WarmSession, w: Seq<u8>)
    requires
        s.wf(),
        w.len() == s.win,
        forall|j: int| s.dirty_end <= j < w.len() ==> #[trigger] w[j] == 0,
    ensures
        restored(w, s.image@, s.dirty_end as nat) == warm_window(s.image@, s.win as nat),
{
    assert(restored(w, s.image@, s.dirty_end as nat) =~= warm_window(s.image@, s.win as nat));
}

/// What a run came to: its result, the window and the pages that it left, and its streams.
pub ghost struct WarmEnd {
    pub ran: Result<Vec<Value>, Trap>,
    pub window: Seq<u8>,
    pub pages: Seq<PageEntry>,
    pub stdout: Seq<u8>,
    pub stderr: Seq<u8>,
}

/// A guest that is run over a window with the given pages and input.
pub type WarmGuest = spec_fn(Seq<u8>, Seq<PageEntry>, Seq<u8>) -> WarmEnd;

/// A session and its window.
pub ghost struct WarmState {
    pub session: WarmSession,
    pub window: Seq<u8>,
}

/// What running the guest on the restored window comes to.
pub open spec fn warm_end(s: WarmState, guest: WarmGuest, input: Seq<u8>) -> WarmEnd {
    guest(
        restored(s.window, s.session.image@, s.session.dirty_end as nat),
        s.session.prots@,
        input,
    )
}

/// What the page learns of a run.
pub ghost struct WarmReport {
    pub value: i64,
    pub status: i32,
    pub exit_code: i32,
    pub stdout: Seq<u8>,
    pub stderr: Seq<u8>,
}

/// What the page learns of a run that came to `end`.
pub open spec fn warm_report(end: WarmEnd) -> WarmReport {
    let v = spec_warm_verdict(end.ran);
    WarmReport {
        value: v.value,
        status: v.status,
        exit_code: v.exit_code,
        stdout: end.stdout,
        stderr: end.stderr,
    }
}

/// The session once a run that came to `end` was noted.
pub open spec fn session_after(s: WarmSession, end: WarmEnd, page_size: u64) -> WarmSession {
    WarmSession {
        dirty_end: spec_noted(
            s.dirty_end as nat,
            end.window,
            s.brk_at as int,
            end.pages,
            page_size,
        ) as usize,
        ..s
    }
}

/// The session and its window after that run was noted.
pub open spec fn warm_after(
    s: WarmState,
    guest: WarmGuest,
    input: Seq<u8>,
    page_size: u64,
) -> WarmState {
    let end = warm_end(s, guest, input);
    WarmState { session: session_after(s.session, end, page_size), window: end.window }
}

/// The session and its window after the first `n` of a series of runs.
pub open spec fn warm_after_all(
    s: WarmState,
    guest: WarmGuest,
    inputs: Seq<Seq<u8>>,
    n: nat,
    page_size: u64,
) -> WarmState
    decreases n,
{
    if n == 0 {
        s
    } else {
        warm_after(
            warm_after_all(s, guest, inputs, (n - 1) as nat, page_size),
            guest,
            inputs[n - 1],
            page_size,
        )
    }
}

/// From the warm window, the guest writes only to the warm image, below the heap's end and to the
/// pages that it leaves committed.
pub open spec fn writes_where_noted(guest: WarmGuest, s: WarmSession, page_size: u64) -> bool {
    let start = warm_window(s.image@, s.win as nat);
    forall|input: Seq<u8>|
        #![trigger guest(start, s.prots@, input)]
        {
            let end = guest(start, s.prots@, input);
            &&& end.window.len() == start.len()
            &&& forall|j: int|
                spec_noted(s.image@.len(), end.window, s.brk_at as int, end.pages, page_size) <= j
                    < start.len() ==> #[trigger] end.window[j] == start[j]
        }
}

/// Nothing has been written past the noted extent since the warm-up.
pub open spec fn warm_clean(s: WarmState) -> bool {
    &&& s.session.wf()
    &&& s.window.len() == s.session.win
    &&& forall|j: int| s.session.dirty_end <= j < s.window.len() ==> #[trigger] s.window[j] == 0
}

/// A run leaves the session clean and keeps its image, so the next restore brings the warm window
/// back.
proof fn lemma_warm_run_stays_clean(
    s: WarmState,
    guest: WarmGuest,
    input: Seq<u8>,
    page_size: u64,
)
    requires
        warm_clean(s),
        writes_where_noted(guest, s.session, page_size),
    ensures
        ({
            let t = warm_after(s, guest, input, page_size);
            &&& warm_clean(t)
            &&& t.session == (WarmSession { dirty_end: t.session.dirty_end, ..s.session })
        }),
{
    law_every_run_starts_warm(s.session, s.window);
    let start = warm_window(s.session.image@, s.session.win as nat);
    let end = guest(start, s.session.prots@, input);
    let t = warm_after(s, guest, input, page_size);
    assert(end.window.len() == start.len());
    assert forall|j: int| t.session.dirty_end <= j < t.window.len() implies #[trigger] t.window[j]
        == 0 by {
        assert(end.window[j] == start[j]);
    }
}

/// A session that starts clean stays so over a whole series of runs.
proof fn lemma_warm_runs_stay_clean(
    s: WarmState,
    guest: WarmGuest,
    inputs: Seq<Seq<u8>>,
    n: nat,
    page_size: u64,
)
    requires
        warm_clean(s),
        writes_where_noted(guest, s.session, page_size),
    ensures
        ({
            let t = warm_after_all(s, guest, inputs, n, page_size);
            &&& warm_clean(t)
            &&& t.session == (WarmSession { dirty_end: t.session.dirty_end, ..s.session })
        }),
    decreases n,
{
    if n > 0 {
        lemma_warm_runs_stay_clean(s, guest, inputs, (n - 1) as nat, page_size);
        lemma_warm_run_stays_clean(
            warm_after_all(s, guest, inputs, (n - 1) as nat, page_size),
            guest,
            inputs[n - 1],
            page_size,
        );
    }
}

/// No guest state crosses runs: after any series of runs, a run over some input comes to what it
/// would have come to as the first one, and the page learns the same of it: value, status, exit code
/// and streams.
///
/// The engine decides what a run writes. The law holds of a guest that, from the warm window, writes
/// to the warm image, below the heap's end and to the pages that it leaves committed, which is what
/// a session notes of a run.
pub proof fn law_no_state_crosses_runs(
    s: WarmState,
    guest: WarmGuest,
    earlier: Seq<Seq<u8>>,
    input: Seq<u8>,
    page_size: u64,
)
    requires
        warm_clean(s),
        writes_where_noted(guest, s.session, page_size),
    ensures
        warm_end(
            warm_after_all(s, guest, earlier, earlier.len(), page_size),
            guest,
            input,
        ) == warm_end(s, guest, input),
        warm_report(
            warm_end(
                warm_after_all(s, guest, earlier, earlier.len(), page_size),
                guest,
                input,
            ),
        ) == warm_report(warm_end(s, guest, input)),
{
    let t = warm_after_all(s, guest, earlier, earlier.len(), page_size);
    lemma_warm_runs_stay_clean(s, guest, earlier, earlier.len(), page_size);
    law_every_run_starts_warm(s.session, s.window);
    law_every_run_starts_warm(t.session, t.window);
}

/// A session never forgets what a run dirtied, so two runs in a row restore as one: the window a
/// second restore gives is the one that the first gave.
pub proof fn law_restore_is_idempotent(w: Seq<u8>, image: Seq<u8>, dirty_end: nat)
    requires
        image.len() <= dirty_end <= w.len(),
    ensures
        restored(restored(w, image, dirty_end), image, dirty_end) == restored(w, image, dirty_end),
{
    assert(restored(restored(w, image, dirty_end), image, dirty_end) =~= restored(
        w,
        image,
        dirty_end,
    ));
}

/// How a run on emitted code ended, as far as is known.
#[derive(Clone, Copy, Debug, PartialEq, Eq, Structural)]
pub struct JitOnrampRun {
    pub exit_code: i32,
    pub exited: bool,
    pub returned_value: i64,
    pub trapped: bool,
}

impl JitOnrampRun {
    /// A run that has not ended.
    pub open spec fn fresh() -> JitOnrampRun {
        JitOnrampRun { exit_code: 0, exited: false, returned_value: 0, trapped: false }
    }

    /// A run that has not ended.
    pub fn new() -> (r: JitOnrampRun)
        ensures
            r == JitOnrampRun::fresh(),
    {
        JitOnrampRun { exit_code: 0, exited: false, returned_value: 0, trapped: false }
    }

    /// Forgets the last run.
    pub fn reset_warm(&mut self)
        ensures
            *final(self) == JitOnrampRun::fresh(),
    {
        self.exit_code = 0;
        self.exited = false;
        self.returned_value = 0;
        self.trapped = false;
    }

    /// This run after a call into the interpreter that ended with `exit`.
    pub open spec fn crossed(self, exit: Option<i32>) -> JitOnrampRun {
        match exit {
            Some(code) => JitOnrampRun { exit_code: code, exited: true, ..self },
            None => self,
        }
    }

    /// This run after the emitted entry ended.
    pub open spec fn ended(self, threw: bool, value: i64) -> JitOnrampRun {
        JitOnrampRun {
            returned_value: value,
            trapped: self.trapped || (threw && !self.exited),
            ..self
        }
    }

    /// Notes how a call into the interpreter ended: an `exit` there ends the run.
    pub fn run_cross_tier(&mut self, exit: Option<i32>)
        ensures
            *final(self) == old(self).crossed(exit),
            *final(self) == (match exit {
                Some(code) => JitOnrampRun { exit_code: code, exited: true, ..*old(self) },
                None => *old(self),
            }),
    {
        match exit {
            Some(code) => {
                self.exit_code = code;
                self.exited = true;
            },
            None => {},
        }
    }

    /// Notes how the emitted entry ended: an unwind that is no exit is a trap.
    pub fn record_outcome(&mut self, threw: bool, value: i64)
        ensures
            *final(self) == old(self).ended(threw, value),
            *final(self) == (JitOnrampRun {
                returned_value: value,
                trapped: old(self).trapped || (threw && !old(self).exited),
                ..*old(self)
            }),
    {
        self.returned_value = value;
        if threw && !self.exited {
            self.trapped = true;
        }
    }

    /// The verdict on the run.
    pub open spec fn spec_finish(self) -> Verdict {
        if self.exited {
            Verdict { status: STATUS_EXIT, value: 0, exit_code: self.exit_code }
        } else if self.trapped {
            bare(STATUS_TRAP)
        } else {
            Verdict { status: STATUS_OK, value: self.returned_value, exit_code: 0 }
        }
    }

    /// Judges the run: an exit first, then a trap, then the returned value.
    pub fn finish(&self) -> (r: Verdict)
        ensures
            r == self.spec_finish(),
    {
        if self.exited {
            Verdict { status: STATUS_EXIT, value: 0, exit_code: self.exit_code }
        } else if self.trapped {
            Verdict { status: STATUS_TRAP, value: 0, exit_code: 0 }
        } else {
            Verdict { status: STATUS_OK, value: self.returned_value, exit_code: 0 }
        }
    }
}

/// A program ends the same way on both tiers: what the emitted run reports is the verdict that the
/// interpreter gives to the same exit, trap or returned integer.
pub proof fn law_tiers_agree_on_the_verdict(code: i32, value: i64, vals: Vec<Value>)
    requires
        vals@.len() > 0,
        vals@[0] == Value::I64(value),
    ensures
        (JitOnrampRun { exit_code: code, exited: true, ..JitOnrampRun::fresh() }).spec_finish()
            == crate::status::spec_verdict(
            RunResult::Trapped(Trap::Exit(code)),
            STATUS_OK,
        ),
        (JitOnrampRun { trapped: true, ..JitOnrampRun::fresh() }).spec_finish()
            == crate::status::spec_verdict(RunResult::Trapped(Trap::Other), STATUS_OK),
        (JitOnrampRun { returned_value: value, ..JitOnrampRun::fresh() }).spec_finish()
            == crate::status::spec_verdict(RunResult::Returned(vals), STATUS_OK),
{
}

/// A warm plan names the guest's own entries, first export of each name, and its declared window;
/// there is one exactly for a guest that has both entries and leaves room for a heap.
pub proof fn law_warm_plan_names_the_entries(
    m: OnrampModule,
    r: Result<WarmPlan, i32>,
    warm: int,
    eval: int,
)
    requires
        planned_warm(Some(m), r),
        0 <= warm < m.exports@.len(),
        m.exports@[warm].name@ == "warmup"@,
        forall|j: int| 0 <= j < warm ==> (#[trigger] m.exports@[j]).name@ != "warmup"@,
        0 <= eval < m.exports@.len(),
        m.exports@[eval].name@ == "eval_run"@,
        forall|j: int| 0 <= j < eval ==> (#[trigger] m.exports@[j]).name@ != "eval_run"@,
    ensures
        r is Ok <==> (m.memory_log2 matches Some(k) && k < 26),
        r matches Ok(plan) ==> plan.warmup_fn == m.exports@[warm].func && plan.eval_fn
            == m.exports@[eval].func && m.memory_log2 == Some(plan.declared_log2),
{
    if let Ok(plan) = r {
        let i = choose|i: int|
            0 <= i < m.exports@.len() && (#[trigger] m.exports@[i]).name@ == "warmup"@
                && m.exports@[i].func == plan.warmup_fn && forall|j: int|
                0 <= j < i ==> (#[trigger] m.exports@[j]).name@ != "warmup"@;
        let k = choose|i: int|
            0 <= i < m.exports@.len() && (#[trigger] m.exports@[i]).name@ == "eval_run"@
                && m.exports@[i].func == plan.eval_fn && forall|j: int|
                0 <= j < i ==> (#[trigger] m.exports@[j]).name@ != "eval_run"@;
        assert(i == warm);
        assert(k == eval);
    }
}

/// A fresh heap is empty: the window says that it ends where it starts, and nothing but the two
/// heap words is touched.
pub proof fn law_fresh_heap_is_empty(win: Seq<u8>, brk_at: int, top_at: int, heap_base: u64)
    requires
        0 <= brk_at,
        0 <= top_at,
        brk_at + 8 <= top_at || top_at + 8 <= brk_at,
        brk_at + 8 <= win.len(),
        top_at + 8 <= win.len(),
    ensures
        ({
            let w = heap_seeded(win, brk_at, top_at, heap_base);
            &&& w.len() == win.len()
            &&& le_value(w.subrange(brk_at, brk_at + 8)) == heap_base
            &&& le_value(w.subrange(top_at, top_at + 8)) == heap_base
            &&& forall|j: int|
                0 <= j < win.len() && !(brk_at <= j < brk_at + 8) && !(top_at <= j < top_at + 8)
                    ==> #[trigger] w[j] == win[j]
        }),
{
    let bytes = le_bytes(heap_base as nat, 8);
    lemma_pow256_values();
    lemma_le_bytes_len(heap_base as nat, 8);
    lemma_le_round_trip(heap_base as nat, 8);
    let w = heap_seeded(win, brk_at, top_at, heap_base);
    assert(w.subrange(brk_at, brk_at + 8) =~= bytes);
    assert(w.subrange(top_at, top_at + 8) =~= bytes);
}

/// The heap's end is the number that the window's heap word holds, as far as it can be an address.
pub proof fn law_heap_end_is_the_heap_word(win: Seq<u8>, brk_at: int)
    requires
        0 <= brk_at,
        brk_at + 8 <= win.len(),
        le_value(win.subrange(brk_at, brk_at + 8)) <= i64::MAX,
        le_value(win.subrange(brk_at, brk_at + 8)) <= usize::MAX,
    ensures
        spec_read_brk(win, brk_at) == le_value(win.subrange(brk_at, brk_at + 8)),
        spec_live(win, brk_at) <= win.len(),
        spec_live(win, brk_at) <= le_value(win.subrange(brk_at, brk_at + 8)),
        spec_live(win, brk_at) == win.len() || spec_live(win, brk_at) == le_value(
            win.subrange(brk_at, brk_at + 8),
        ),
{
}

/// What a session keeps is the warmed-up window: if that window is blank past its heap's end, the
/// image brings all of it back, with the pages that it had.
pub proof fn law_kept_window_is_the_warm_one(
    s: WarmSession,
    w: Seq<u8>,
    brk_at: int,
    pages: Seq<PageEntry>,
    eval_fn: u32,
)
    requires
        kept(s, w, brk_at, pages, eval_fn),
        0 <= brk_at,
        brk_at + 8 <= w.len(),
        forall|j: int| spec_live(w, brk_at) <= j < w.len() ==> #[trigger] w[j] == 0,
    ensures
        warm_window(s.image@, s.win as nat) == w,
        warm_clean(WarmState { session: s, window: w }),
        s.prots@ == pages,
        s.eval_fn == eval_fn,
        !s.jit,
{
    assert(warm_window(s.image@, s.win as nat) =~= w);
}

/// A noted run covers what it may have dirtied: everything noted before, everything below the heap's
/// end and every page left committed and writable, as far as the window goes.
pub proof fn law_noted_run_covers_what_it_dirtied(
    dirty_end: nat,
    w: Seq<u8>,
    brk_at: int,
    pages: Seq<PageEntry>,
    page_size: u64,
    i: int,
)
    requires
        dirty_end <= w.len(),
        0 <= i < pages.len(),
    ensures
        ({
            let end = spec_noted(dirty_end, w, brk_at, pages, page_size);
            &&& dirty_end <= end <= w.len()
            &&& spec_live(w, brk_at) <= end
            &&& pages[i].kind == 1 && pages[i].off + page_size <= u64::MAX ==> end
                >= pages[i].off + page_size || end == w.len()
        }),
{
    if pages[i].kind == 1 && pages[i].off + page_size <= u64::MAX {
        lemma_grown_covers(pages, page_size, pages.len(), i);
    }
}

/// Noting a run claims no more than it may have dirtied: what it notes was noted before, is the
/// heap's end or is the end of a page left committed and writable.
pub proof fn law_noted_extent_has_a_reason(
    dirty_end: nat,
    w: Seq<u8>,
    brk_at: int,
    pages: Seq<PageEntry>,
    page_size: u64,
)
    requires
        forall|i: int|
            0 <= i < pages.len() ==> (#[trigger] pages[i]).off + page_size <= u64::MAX,
    ensures
        ({
            let end = spec_noted(dirty_end, w, brk_at, pages, page_size);
            ||| end == dirty_end
            ||| end == spec_live(w, brk_at)
            ||| exists|i: int|
                0 <= i < pages.len() && (#[trigger] pages[i]).kind == 1 && end == min2(
                    (pages[i].off + page_size) as nat,
                    w.len(),
                )
        }),
{
    lemma_grown_is_a_page_end(pages, page_size, pages.len());
}

/// The grown extent is zero or the end of a committed, writable page.
proof fn lemma_grown_is_a_page_end(pages: Seq<PageEntry>, page_size: u64, n: nat)
    requires
        n <= pages.len(),
        forall|i: int|
            0 <= i < pages.len() ==> (#[trigger] pages[i]).off + page_size <= u64::MAX,
    ensures
        spec_grown(pages, page_size, n) == 0 || exists|i: int|
            0 <= i < n && (#[trigger] pages[i]).kind == PAGE_RW && spec_grown(pages, page_size, n)
                == pages[i].off + page_size,
    decreases n,
{
    if n > 0 {
        lemma_grown_is_a_page_end(pages, page_size, (n - 1) as nat);
        let e = pages[n - 1];
        assert(e.off + page_size <= u64::MAX);
    }
}

/// A restore puts the image back and blanks what was dirtied past it; it leaves the rest alone.
pub proof fn law_restore_brings_the_image_back(w: Seq<u8>, image: Seq<u8>, dirty_end: nat)
    requires
        image.len() <= dirty_end <= w.len(),
    ensures
        restored(w, image, dirty_end).len() == w.len(),
        restored(w, image, dirty_end).take(image.len() as int) == image,
        restored(w, image, dirty_end).skip(dirty_end as int) == w.skip(dirty_end as int),
        forall|j: int|
            image.len() <= j < dirty_end ==> #[trigger] restored(w, image, dirty_end)[j] == 0,
{
    let r = restored(w, image, dirty_end);
    assert(r.take(image.len() as int) =~= image);
    assert(r.skip(dirty_end as int) =~= w.skip(dirty_end as int));
}

/// An exit ends a run with its code, whatever the unwinding entry then reports; without one, an
/// unwind is a trap and a return hands its value over.
pub proof fn law_emitted_run_ends_as_it_ended(run: JitOnrampRun, code: i32, threw: bool, value: i64)
    ensures
        run.crossed(Some(code)).ended(threw, value).spec_finish() == (Verdict {
            status: STATUS_EXIT,
            value: 0,
            exit_code: code,
        }),
        run.crossed(None) == run,
        JitOnrampRun::fresh().ended(true, value).spec_finish() == (Verdict {
            status: STATUS_TRAP,
            value: 0,
            exit_code: 0,
        }),
        JitOnrampRun::fresh().ended(false, value).spec_finish() == (Verdict {
            status: STATUS_OK,
            value,
            exit_code: 0,
        }),
        run.trapped && !run.exited ==> run.ended(threw, value).spec_finish().status == STATUS_TRAP,
{
}

/// The verdict on a warm run: an exit reports its code, another trap nothing, and a return its first
/// value where that is an integer.
pub proof fn law_warm_verdict_is_how_it_ended(code: i32, vals: Vec<Value>, v: i64, w: i32)
    ensures
        spec_warm_verdict(Err(Trap::Exit(code))) == (Verdict {
            status: STATUS_EXIT,
            value: 0,
            exit_code: code,
        }),
        spec_warm_verdict(Err(Trap::Other)) == (Verdict {
            status: STATUS_TRAP,
            value: 0,
            exit_code: 0,
        }),
        spec_warm_verdict(Ok(vals)).status == STATUS_OK,
        vals@.len() > 0 && vals@[0] == Value::I64(v) ==> spec_warm_verdict(Ok(vals)).value == v,
        vals@.len() > 0 && vals@[0] == Value::I32(w) ==> spec_warm_verdict(Ok(vals)).value == w,
        vals@.len() == 0 ==> spec_warm_verdict(Ok(vals)).value == 0,
{
}

} // verus!
