//! The slots that a page reads a finished run from.

use vstd::prelude::*;

use crate::status::{Frame, PbOutcome, Verdict};

verus! {

/// What the last run left behind.
#[derive(Debug)]
pub struct Capture {
    pub out: Vec<u8>,
    pub err: Vec<u8>,
    /// The last presented frame's pixels, empty if none was presented.
    pub fb: Vec<u8>,
    pub fb_w: u32,
    pub fb_h: u32,
    /// The last captured window image.
    pub snap: Vec<u8>,
    pub exit_code: i32,
    pub run_value: i64,
    pub last_status: i32,
}

/// `after` is `before` with the frame slots replaced by `frame`.
pub open spec fn frame_stashed(before: Capture, after: Capture, frame: Option<Frame>) -> bool {
    &&& after.holds_frame(frame)
    &&& after == (Capture { fb: after.fb, fb_w: after.fb_w, fb_h: after.fb_h, ..before })
}

/// `after` is `before` with a presented frame, if there was one; `r` says whether there was.
pub open spec fn presented(before: Capture, after: Capture, frame: Option<Frame>, r: i32) -> bool {
    match frame {
        Some(_) => r == 1 && frame_stashed(before, after, frame),
        None => r == 0 && after == before,
    }
}

/// `after` is `before` with what a finished run left.
pub open spec fn run_stashed(
    before: Capture,
    after: Capture,
    verdict: Verdict,
    stdout: Vec<u8>,
    stderr: Vec<u8>,
    frame: Option<Frame>,
) -> bool {
    &&& after.holds_frame(frame)
    &&& after == (Capture {
        out: stdout,
        err: stderr,
        fb: after.fb,
        fb_w: after.fb_w,
        fb_h: after.fb_h,
        exit_code: verdict.exit_code,
        run_value: verdict.value,
        last_status: verdict.status,
        ..before
    })
}

/// `after` is `before` with the outcome of a run that presents nothing; `value` is handed back.
pub open spec fn text_stashed(
    before: Capture,
    after: Capture,
    outcome: PbOutcome,
    value: i64,
) -> bool {
    &&& value == outcome.value
    &&& after == (Capture {
        out: outcome.stdout,
        err: outcome.stderr,
        exit_code: outcome.exit_code,
        last_status: outcome.status,
        ..before
    })
}

/// `after` is `before` with the outcome of a run and its frame; `value` is handed back.
pub open spec fn outcome_stashed(
    before: Capture,
    after: Capture,
    outcome: PbOutcome,
    value: i64,
) -> bool {
    &&& value == outcome.value
    &&& after.holds_frame(outcome.framebuffer)
    &&& after == (Capture {
        out: outcome.stdout,
        err: outcome.stderr,
        exit_code: outcome.exit_code,
        last_status: outcome.status,
        fb: after.fb,
        fb_w: after.fb_w,
        fb_h: after.fb_h,
        ..before
    })
}

impl Capture {
    /// No run yet.
    pub fn new() -> (r: Capture)
        ensures
            r.out@.len() == 0,
            r.err@.len() == 0,
            r.fb@.len() == 0,
            r.fb_w == 0,
            r.fb_h == 0,
            r.snap@.len() == 0,
            r.exit_code == 0,
            r.run_value == 0,
            r.last_status == 0,
    {
        Capture {
            out: Vec::new(),
            err: Vec::new(),
            fb: Vec::new(),
            fb_w: 0,
            fb_h: 0,
            snap: Vec::new(),
            exit_code: 0,
            run_value: 0,
            last_status: 0,
        }
    }

    /// The frame slots hold `frame`, or nothing.
    pub open spec fn holds_frame(self, frame: Option<Frame>) -> bool {
        match frame {
            Some(f) => self.fb == f.rgba && self.fb_w == f.width && self.fb_h == f.height,
            None => self.fb@.len() == 0 && self.fb_w == 0 && self.fb_h == 0,
        }
    }

    /// The frame slots are those of `other`.
    pub open spec fn same_frame(self, other: Capture) -> bool {
        self.fb == other.fb && self.fb_w == other.fb_w && self.fb_h == other.fb_h
    }

    /// Replaces the frame slots.
    pub fn stash_frame(&mut self, frame: Option<Frame>)
        ensures
            frame_stashed(*old(self), *final(self), frame),
            final(self).holds_frame(frame),
            *final(self) == (Capture {
                fb: final(self).fb,
                fb_w: final(self).fb_w,
                fb_h: final(self).fb_h,
                ..*old(self)
            }),
    {
        match frame {
            Some(f) => {
                self.fb = f.rgba;
                self.fb_w = f.width;
                self.fb_h = f.height;
            },
            None => {
                self.fb = Vec::new();
                self.fb_w = 0;
                self.fb_h = 0;
            },
        }
    }

    /// Stashes a frame that a reactor presented; `1` if there was one, else `0` and the slots stay.
    pub fn svm_onramp_jit_present(&mut self, frame: Option<Frame>) -> (r: i32)
        ensures
            presented(*old(self), *final(self), frame, r),
            r == (if frame is Some { 1i32 } else { 0i32 }),
            frame is Some ==> final(self).holds_frame(frame),
            frame is None ==> final(self).same_frame(*old(self)),
            *final(self) == (Capture {
                fb: final(self).fb,
                fb_w: final(self).fb_w,
                fb_h: final(self).fb_h,
                ..*old(self)
            }),
    {
        if frame.is_none() {
            return 0;
        }
        self.stash_frame(frame);
        1
    }

    /// Replaces every slot by what a finished run left.
    pub fn stash_run(
        &mut self,
        verdict: Verdict,
        stdout: Vec<u8>,
        stderr: Vec<u8>,
        frame: Option<Frame>,
    )
        ensures
            run_stashed(*old(self), *final(self), verdict, stdout, stderr, frame),
            final(self).out == stdout,
            final(self).err == stderr,
            final(self).holds_frame(frame),
            final(self).exit_code == verdict.exit_code,
            final(self).run_value == verdict.value,
            final(self).last_status == verdict.status,
            final(self).snap == old(self).snap,
    {
        self.out = stdout;
        self.err = stderr;
        self.stash_frame(frame);
        self.exit_code = verdict.exit_code;
        self.run_value = verdict.value;
        self.last_status = verdict.status;
    }

    /// Stashes the outcome of a run under a powerbox with its frame, and returns its value.
    pub fn stash_outcome(&mut self, outcome: PbOutcome) -> (r: i64)
        ensures
            outcome_stashed(*old(self), *final(self), outcome, r),
            r == outcome.value,
            final(self).holds_frame(outcome.framebuffer),
            *final(self) == (Capture {
                out: outcome.stdout,
                err: outcome.stderr,
                exit_code: outcome.exit_code,
                last_status: outcome.status,
                fb: final(self).fb,
                fb_w: final(self).fb_w,
                fb_h: final(self).fb_h,
                ..*old(self)
            }),
    {
        self.out = outcome.stdout;
        self.err = outcome.stderr;
        self.stash_frame(outcome.framebuffer);
        self.exit_code = outcome.exit_code;
        self.last_status = outcome.status;
        outcome.value
    }

    /// Stashes the outcome of a run that presents nothing, and returns its value; the frame slots
    /// stay.
    pub fn stash_text(&mut self, outcome: PbOutcome) -> (r: i64)
        ensures
            text_stashed(*old(self), *final(self), outcome, r),
            r == outcome.value,
            *final(self) == (Capture {
                out: outcome.stdout,
                err: outcome.stderr,
                exit_code: outcome.exit_code,
                last_status: outcome.status,
                ..*old(self)
            }),
    {
        self.out = outcome.stdout;
        self.err = outcome.stderr;
        self.exit_code = outcome.exit_code;
        self.last_status = outcome.status;
        outcome.value
    }
}

/// What a page reads of a run is what that run left, each in its own slot: nothing of an earlier run
/// shows through but the window image, which only a capturing run replaces.
pub proof fn law_page_reads_the_last_run(
    a: Capture,
    b: Capture,
    verdict: Verdict,
    stdout: Vec<u8>,
    stderr: Vec<u8>,
    frame: Option<Frame>,
)
    requires
        run_stashed(a, b, verdict, stdout, stderr, frame),
    ensures
        b.out@ == stdout@,
        b.err@ == stderr@,
        frame matches Some(f) ==> b.fb@ == f.rgba@ && b.fb_w == f.width && b.fb_h == f.height,
        frame is None ==> b.fb@.len() == 0 && b.fb_w == 0 && b.fb_h == 0,
        (b.last_status, b.run_value, b.exit_code) == (
            verdict.status,
            verdict.value,
            verdict.exit_code,
        ),
        b.snap == a.snap,
{
}

/// What a page reads of a run under a powerbox is what that run left; its value is handed back and
/// leaves the value slot alone, and a run that presents nothing leaves the last frame.
pub proof fn law_page_reads_the_outcome(a: Capture, b: Capture, outcome: PbOutcome, value: i64)
    requires
        outcome_stashed(a, b, outcome, value) || text_stashed(a, b, outcome, value),
    ensures
        value == outcome.value,
        b.out@ == outcome.stdout@,
        b.err@ == outcome.stderr@,
        b.exit_code == outcome.exit_code,
        b.last_status == outcome.status,
        b.run_value == a.run_value,
        b.snap == a.snap,
        text_stashed(a, b, outcome, value) ==> b.same_frame(a),
        outcome_stashed(a, b, outcome, value) ==> (outcome.framebuffer matches Some(f) ==> b.fb@
            == f.rgba@ && b.fb_w == f.width && b.fb_h == f.height),
        outcome_stashed(a, b, outcome, value) && outcome.framebuffer is None ==> b.fb@.len() == 0
            && b.fb_w == 0 && b.fb_h == 0,
{
}

/// A presented frame replaces the one before and nothing else.
pub proof fn law_last_frame_is_shown(
    a: Capture,
    b: Capture,
    c: Capture,
    first: Option<Frame>,
    last: Frame,
)
    requires
        frame_stashed(a, b, first),
        frame_stashed(b, c, Some(last)),
    ensures
        c.fb@ == last.rgba@,
        c.fb_w == last.width,
        c.fb_h == last.height,
        (c.out, c.err, c.snap) == (a.out, a.err, a.snap),
        (c.exit_code, c.run_value, c.last_status) == (a.exit_code, a.run_value, a.last_status),
{
}

/// A reactor that presents shows its frame; one that does not leaves the last one standing.
pub proof fn law_frame_stands_until_the_next(
    a: Capture,
    b: Capture,
    c: Capture,
    frame: Frame,
    r: i32,
    s: i32,
)
    requires
        presented(a, b, Some(frame), r),
        presented(b, c, None, s),
    ensures
        r == 1,
        s == 0,
        c.fb@ == frame.rgba@,
        c.fb_w == frame.width,
        c.fb_h == frame.height,
        c.out == a.out,
        c.last_status == a.last_status,
{
}

} // verus!
