//! The per-frame reactors: open a guest once, then tick it every frame.

use vstd::prelude::*;
use vstd::slice::{slice_subrange, slice_to_vec};

use crate::caps::{onramp_check, OnrampModule};
use crate::devices::{packed_key, KeyQueue};
use crate::status::{Frame, STATUS_EXIT, STATUS_OK, STATUS_TRAP, STATUS_UNSUPPORTED};
use crate::tierup::{build_status, Build};

verus! {

/// A reactor's window is at least `1 << 24` bytes.
pub const JIT_WIN_LOG2: u8 = 24;

/// How a tick ended.
#[derive(Debug)]
pub enum TickEnd {
    Returned,
    Exited(i32),
    /// It trapped, described by this text.
    Trapped(String),
}

/// The devices of an open reactor and the last trap it met.
#[derive(Debug)]
pub struct OnrampReactor {
    /// The exported tick.
    pub tick: u32,
    pub frame: Option<Frame>,
    pub keys: KeyQueue,
    pub last_trap: Option<String>,
}

/// The module exports a `tick`.
pub open spec fn exports_tick(m: OnrampModule) -> bool {
    exists|i: int| 0 <= i < m.exports@.len() && (#[trigger] m.exports@[i]).name@ == "tick"@
}

/// The status of opening a reactor: the shape of the module, the engine, then the emitter decide.
pub open spec fn spec_reactor_status(m: OnrampModule, build: Build, emitted: bool) -> i32 {
    if (m.imports@.len() != 0 && !m.named_entry()) || !exports_tick(m) {
        STATUS_UNSUPPORTED
    } else if build != Build::Ready {
        build_status(build)
    } else if !emitted {
        STATUS_UNSUPPORTED
    } else {
        STATUS_OK
    }
}

/// `s` is a reactor just opened over `m`.
pub open spec fn opened(s: OnrampReactor, m: OnrampModule) -> bool {
    &&& s.frame is None
    &&& s.keys.events@.len() == 0
    &&& s.last_trap is None
    &&& exists|i: int|
        0 <= i < m.exports@.len() && (#[trigger] m.exports@[i]).name@ == "tick"@
            && m.exports@[i].func == s.tick && forall|j: int|
            0 <= j < i ==> (#[trigger] m.exports@[j]).name@ != "tick"@
}

impl OnrampReactor {
    /// The presented frame, and this reactor without it.
    pub open spec fn frame_taken(self) -> (Option<Frame>, OnrampReactor) {
        (self.frame, OnrampReactor { frame: None, ..self })
    }

    /// The status of a frame that ended so, and this reactor after it.
    pub open spec fn framed(self, end: TickEnd) -> (i32, OnrampReactor) {
        match end {
            TickEnd::Returned => (STATUS_OK, self),
            TickEnd::Exited(_) => (STATUS_EXIT, self),
            TickEnd::Trapped(text) => (
                STATUS_TRAP,
                OnrampReactor { last_trap: Some(text), ..self },
            ),
        }
    }

    /// Opens a reactor over a module whose entry has been run.
    ///
    /// `emitted` says whether the tick has an emitted body; an interpreted reactor needs none.
    pub fn open(m: &OnrampModule, build: Build, emitted: bool) -> (r: Result<OnrampReactor, i32>)
        ensures
            r is Ok <==> spec_reactor_status(*m, build, emitted) == STATUS_OK,
            r matches Err(status) ==> status == spec_reactor_status(*m, build, emitted),
            r matches Ok(s) ==> opened(s, *m),
            r matches Ok(s) ==> s.frame is None && s.keys.events@.len() == 0 && s.last_trap is None
                && exists|i: int|
                0 <= i < m.exports@.len() && (#[trigger] m.exports@[i]).name@ == "tick"@
                    && m.exports@[i].func == s.tick && forall|j: int|
                    0 <= j < i ==> (#[trigger] m.exports@[j]).name@ != "tick"@,
    {
        if onramp_check(m).is_err() {
            return Err(STATUS_UNSUPPORTED);
        }
        let tick: u32 = match m.resolve_export("tick") {
            None => {
                return Err(STATUS_UNSUPPORTED);
            },
            Some(f) => f,
        };
        match build {
            Build::Ready => {},
            Build::Failed => {
                return Err(STATUS_TRAP);
            },
            Build::Outside => {
                return Err(STATUS_UNSUPPORTED);
            },
        }
        if !emitted {
            return Err(STATUS_UNSUPPORTED);
        }
        Ok(OnrampReactor { tick, frame: None, keys: KeyQueue::new(), last_trap: None })
    }

    /// Ends a frame: its status, and what it added to the output since `stdout_before`.
    pub fn frame(&mut self, end: TickEnd, stdout: &[u8], stdout_before: usize) -> (r: (i32, Vec<u8>))
        requires
            stdout_before <= stdout@.len(),
        ensures
            r.0 == (match end {
                TickEnd::Returned => STATUS_OK,
                TickEnd::Exited(_) => STATUS_EXIT,
                TickEnd::Trapped(_) => STATUS_TRAP,
            }),
            r.1@ == stdout@.skip(stdout_before as int),
            (r.0, *final(self)) == old(self).framed(end),
            *final(self) == (OnrampReactor {
                last_trap: match end {
                    TickEnd::Trapped(text) => Some(text),
                    _ => old(self).last_trap,
                },
                ..*old(self)
            }),
    {
        let status: i32 = match end {
            TickEnd::Returned => STATUS_OK,
            TickEnd::Exited(_) => STATUS_EXIT,
            TickEnd::Trapped(text) => {
                self.last_trap = Some(text);
                STATUS_TRAP
            },
        };
        let delta: Vec<u8> = slice_to_vec(slice_subrange(stdout, stdout_before, stdout.len()));
        assert(delta@ =~= stdout@.skip(stdout_before as int));
        (status, delta)
    }

    /// The last trap's text, empty if there was none.
    pub fn last_trap(&self) -> (r: &str)
        ensures
            r@ == (match self.last_trap {
                Some(t) => t@,
                None => Seq::empty(),
            }),
    {
        match &self.last_trap {
            Some(t) => t.as_str(),
            None => {
                proof {
                    reveal_strlit("");
                    assert(""@ =~= Seq::<char>::empty());
                }
                ""
            },
        }
    }

    /// Takes the presented frame, if there is one.
    pub fn take_frame(&mut self) -> (r: Option<Frame>)
        ensures
            (r, *final(self)) == old(self).frame_taken(),
            r == old(self).frame,
            final(self).frame is None,
            final(self).tick == old(self).tick,
            final(self).keys == old(self).keys,
            final(self).last_trap == old(self).last_trap,
    {
        self.frame.take()
    }

    /// Queues a key event for the next tick.
    pub fn push_key(&mut self, keycode: i32, pressed: i32)
        ensures
            final(self).keys.events@ == old(self).keys.events@.push(packed_key(keycode, pressed)),
            final(self).tick == old(self).tick,
            final(self).frame == old(self).frame,
            final(self).last_trap == old(self).last_trap,
    {
        self.keys.push_key(keycode, pressed);
    }
}

/// The outputs of successive frames, put together, are the output of the whole run: no byte is
/// handed over twice or lost.
pub proof fn law_frame_deltas_concatenate(stdout: Seq<u8>, a: int, b: int)
    requires
        0 <= a <= b <= stdout.len(),
    ensures
        stdout.take(b).skip(a) + stdout.skip(b) == stdout.skip(a),
{
    assert(stdout.take(b).skip(a) + stdout.skip(b) =~= stdout.skip(a));
}

/// A reactor starts with nothing shown, no key and no trap, and ticks the guest's first export of
/// that name.
pub proof fn law_reactor_ticks_the_exported_tick(s: OnrampReactor, m: OnrampModule, k: int)
    requires
        opened(s, m),
        0 <= k < m.exports@.len(),
        m.exports@[k].name@ == "tick"@,
        forall|j: int| 0 <= j < k ==> (#[trigger] m.exports@[j]).name@ != "tick"@,
    ensures
        s.tick == m.exports@[k].func,
        s.frame is None,
        s.keys.events@.len() == 0,
        s.last_trap is None,
{
    let i = choose|i: int|
        0 <= i < m.exports@.len() && (#[trigger] m.exports@[i]).name@ == "tick"@
            && m.exports@[i].func == s.tick && forall|j: int|
            0 <= j < i ==> (#[trigger] m.exports@[j]).name@ != "tick"@;
    assert(i == k);
}

/// A reactor opens exactly over a module that can be bound, exports a tick, builds and has an emitted
/// body for it.
pub proof fn law_reactor_opens_over_a_ready_module(m: OnrampModule, build: Build, emitted: bool)
    ensures
        spec_reactor_status(m, build, emitted) == STATUS_OK <==> (m.imports@.len() == 0
            || m.named_entry()) && exports_tick(m) && build is Ready && emitted,
        exports_tick(m) && m.imports@.len() == 0 && build is Failed ==> spec_reactor_status(
            m,
            build,
            emitted,
        ) == STATUS_TRAP,
        spec_reactor_status(m, build, emitted) != STATUS_OK && !(build is Failed)
            ==> spec_reactor_status(m, build, emitted) == STATUS_UNSUPPORTED,
{
}

/// A reactor remembers the text of the last trap it met, over any frames that do not trap; its tick,
/// frame and keys are not the frame's end to change.
pub proof fn law_last_trap_stays_until_the_next(
    s: OnrampReactor,
    text: String,
    later: TickEnd,
)
    ensures
        s.framed(TickEnd::Trapped(text)).0 == STATUS_TRAP,
        s.framed(TickEnd::Trapped(text)).1.last_trap == Some(text),
        !(later is Trapped) ==> s.framed(TickEnd::Trapped(text)).1.framed(later).1.last_trap == Some(
            text,
        ),
        s.framed(TickEnd::Returned) == (STATUS_OK, s),
        later is Exited ==> s.framed(later) == (STATUS_EXIT, s),
        s.framed(later).1.frame == s.frame,
        s.framed(later).1.keys == s.keys,
        s.framed(later).1.tick == s.tick,
{
}

/// A frame is taken once: after that there is none until the next is presented, and nothing else of
/// the reactor changes.
pub proof fn law_frame_is_taken_once(s: OnrampReactor)
    ensures
        s.frame_taken().0 == s.frame,
        s.frame_taken().1.frame_taken().0 is None,
        s.frame_taken().1.keys == s.keys,
        s.frame_taken().1.tick == s.tick,
        s.frame_taken().1.last_trap == s.last_trap,
{
}

} // verus!
