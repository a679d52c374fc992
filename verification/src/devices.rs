//! The devices that a guest resolves by name: display, keyboard, GPU surface and file.

use std::collections::VecDeque;

use vstd::prelude::*;
use vstd::slice::{slice_subrange, slice_to_vec};

use crate::bytes::{bits_of_i32, i32_bits, i64_bits, bits_of_i64};
use crate::status::Frame;
use crate::text::{contains, from_utf8_lossy, has_part, occurs_at, text_from};

verus! {

/// The reply of a device that refuses.
pub const DEVICE_REFUSED: i64 = -1;

/// The reply of the file device when the name is unknown.
pub const DEVICE_NO_ENTRY: i64 = -2;

/// The largest side of a presented frame.
pub const MAX_FRAME_SIDE: i64 = 8192;

/// The largest shader source.
pub const MAX_SHADER_BYTES: i64 = 1048576;

/// Argument `i`, zero if it is missing.
pub open spec fn spec_arg(args: Seq<i64>, i: int) -> i64 {
    if i < args.len() {
        args[i]
    } else {
        0
    }
}

/// Argument `i`, zero if it is missing.
pub fn arg_at(args: &[i64], i: usize) -> (r: i64)
    ensures
        r == spec_arg(args@, i as int),
{
    if i < args.len() {
        args[i]
    } else {
        0
    }
}

/// A frame that a guest asks to present.
#[derive(Clone, Copy, Debug, PartialEq, Eq, Structural)]
pub struct PresentRequest {
    /// Where the pixels start in the guest's window.
    pub ptr: u64,
    /// How many bytes they take.
    pub len: u64,
    pub width: u32,
    pub height: u32,
}

/// The dimensions of a frame are within bounds.
pub open spec fn frame_sides_ok(w: i64, h: i64) -> bool {
    1 <= w <= MAX_FRAME_SIDE && 1 <= h <= MAX_FRAME_SIDE
}

/// What a display call asks for; `None` if it is not a `present` of a reasonable size.
pub open spec fn spec_display_request(op: u32, args: Seq<i64>) -> Option<PresentRequest> {
    let w = spec_arg(args, 1);
    let h = spec_arg(args, 2);
    if op == 0 && frame_sides_ok(w, h) {
        Some(
            PresentRequest {
                ptr: bits_of_i64(spec_arg(args, 0)) as u64,
                len: (w * h * 4) as u64,
                width: w as u32,
                height: h as u32,
            },
        )
    } else {
        None
    }
}

/// What a display call asks for; `None` if it is not a `present` of a reasonable size.
pub fn display_request(op: u32, args: &[i64]) -> (r: Option<PresentRequest>)
    ensures
        r == spec_display_request(op, args@),
        r is Some <==> op == 0 && frame_sides_ok(spec_arg(args@, 1), spec_arg(args@, 2)),
        r matches Some(q) ==> q.ptr == bits_of_i64(spec_arg(args@, 0)) && q.width == spec_arg(
            args@,
            1,
        ) && q.height == spec_arg(args@, 2) && q.len == q.width * q.height * 4,
{
    if op != 0 {
        return None;
    }
    let w: i64 = arg_at(args, 1);
    let h: i64 = arg_at(args, 2);
    if w < 1 || w > MAX_FRAME_SIDE || h < 1 || h > MAX_FRAME_SIDE {
        return None;
    }
    assert(w * h <= 8192 * 8192) by (nonlinear_arith)
        requires
            1 <= w <= 8192,
            1 <= h <= 8192,
    ;
    assert(w * h >= 1) by (nonlinear_arith)
        requires
            1 <= w <= 8192,
            1 <= h <= 8192,
    ;
    let len: u64 = (w as u64) * (h as u64) * 4;
    assert(len == w * h * 4);
    Some(PresentRequest { ptr: i64_bits(arg_at(args, 0)), len, width: w as u32, height: h as u32 })
}

/// The reply to a display call and the frame after it.
pub open spec fn spec_displayed(
    cell: Option<Frame>,
    req: Option<PresentRequest>,
    pixels: Option<Vec<u8>>,
) -> (i64, Option<Frame>) {
    match (req, pixels) {
        (Some(q), Some(p)) => (
            0,
            Some(Frame { width: q.width, height: q.height, rgba: p }),
        ),
        _ => (DEVICE_REFUSED, cell),
    }
}

/// Answers a display call: presents the pixels that the window gave, and keeps the last frame
/// where it refuses.
pub fn display_reply(
    cell: &mut Option<Frame>,
    req: Option<PresentRequest>,
    pixels: Option<Vec<u8>>,
) -> (r: i64)
    requires
        req matches Some(q) ==> pixels matches Some(p) ==> p@.len() == q.len && q.len == q.width
            * q.height * 4,
        *old(cell) matches Some(f) ==> f.wf(),
    ensures
        (r, *final(cell)) == spec_displayed(*old(cell), req, pixels),
        r == (if req is Some && pixels is Some { 0i64 } else { DEVICE_REFUSED }),
        req is Some && pixels is Some ==> (*final(cell) matches Some(f) && f.width == req->0.width
            && f.height == req->0.height && f.rgba == pixels->0),
        !(req is Some && pixels is Some) ==> *final(cell) == *old(cell),
        *final(cell) matches Some(f) ==> f.wf(),
{
    match (req, pixels) {
        (Some(q), Some(p)) => {
            *cell = Some(Frame { width: q.width, height: q.height, rgba: p });
            0
        },
        _ => DEVICE_REFUSED,
    }
}

/// A key event in one number: the pressed bit above the low sixteen bits of the key code.
pub open spec fn packed_key(keycode: i32, pressed: i32) -> i32 {
    ((bits_of_i32(pressed) % 2) * 0x1_0000 + bits_of_i32(keycode) % 0x1_0000) as i32
}

/// The queue with one more key event.
pub open spec fn key_queued(events: Seq<i32>, keycode: i32, pressed: i32) -> Seq<i32> {
    events.push(packed_key(keycode, pressed))
}

/// The reply to a keyboard call and the queue after it.
pub open spec fn key_polled(events: Seq<i32>, op: u32) -> (i64, Seq<i32>) {
    if op == 0 && events.len() > 0 {
        (events[0] as i64, events.drop_first())
    } else {
        (DEVICE_REFUSED, events)
    }
}

/// The key events that a guest has not polled yet.
#[derive(Debug)]
pub struct KeyQueue {
    pub events: VecDeque<i32>,
}

impl KeyQueue {
    /// A queue without events.
    pub fn new() -> (r: KeyQueue)
        ensures
            r.events@ == Seq::<i32>::empty(),
    {
        KeyQueue { events: VecDeque::new() }
    }

    /// Queues a key event.
    pub fn push_key(&mut self, keycode: i32, pressed: i32)
        ensures
            final(self).events@ == key_queued(old(self).events@, keycode, pressed),
            final(self).events@ == old(self).events@.push(packed_key(keycode, pressed)),
    {
        let e: i32 = ((i32_bits(pressed) % 2) * 0x1_0000 + i32_bits(keycode) % 0x1_0000) as i32;
        self.events.push_back(e);
    }

    /// Answers a keyboard call: the oldest event, or the refusal if there is none.
    pub fn keyboard_reply(&mut self, op: u32) -> (r: i64)
        ensures
            (r, final(self).events@) == key_polled(old(self).events@, op),
            op == 0 && old(self).events@.len() > 0 ==> r == old(self).events@[0]
                && final(self).events@ == old(self).events@.drop_first(),
            !(op == 0 && old(self).events@.len() > 0) ==> r == DEVICE_REFUSED
                && final(self).events@ == old(self).events@,
    {
        if op != 0 {
            return DEVICE_REFUSED;
        }
        match self.events.pop_front() {
            Some(e) => {
                assert(old(self).events@.subrange(1, old(self).events@.len() as int)
                    =~= old(self).events@.drop_first());
                e as i64
            },
            None => DEVICE_REFUSED,
        }
    }
}

/// A polled event never reads as an empty queue, and both of its parts can be read back.
pub proof fn law_key_event_round_trip(keycode: i32, pressed: i32)
    requires
        0 <= keycode < 0x1_0000,
        pressed == 0 || pressed == 1,
    ensures
        packed_key(keycode, pressed) != DEVICE_REFUSED,
        packed_key(keycode, pressed) % 0x1_0000 == keycode,
        packed_key(keycode, pressed) / 0x1_0000 == pressed,
{
}

/// What a GPU call asks for.
#[derive(Clone, Copy, Debug, PartialEq, Eq, Structural)]
pub enum GpuRequest {
    /// Compile the shader source at `ptr`.
    SetShader { ptr: u64, len: u64 },
    /// Present a frame with these scalars.
    Present { a: i64, b: i64, c: i64 },
    /// Refuse.
    Refuse,
}

/// What a GPU call asks for.
pub open spec fn spec_gpu_request(op: u32, args: Seq<i64>) -> GpuRequest {
    if op == 0 {
        if 0 <= spec_arg(args, 1) <= MAX_SHADER_BYTES {
            GpuRequest::SetShader {
                ptr: bits_of_i64(spec_arg(args, 0)) as u64,
                len: spec_arg(args, 1) as u64,
            }
        } else {
            GpuRequest::Refuse
        }
    } else if op == 1 {
        GpuRequest::Present { a: spec_arg(args, 0), b: spec_arg(args, 1), c: spec_arg(args, 2) }
    } else {
        GpuRequest::Refuse
    }
}

/// What a GPU call asks for.
pub fn gpu_request(op: u32, args: &[i64]) -> (r: GpuRequest)
    ensures
        r == spec_gpu_request(op, args@),
{
    if op == 0 {
        let len: i64 = arg_at(args, 1);
        if len < 0 || len > MAX_SHADER_BYTES {
            return GpuRequest::Refuse;
        }
        GpuRequest::SetShader { ptr: i64_bits(arg_at(args, 0)), len: len as u64 }
    } else if op == 1 {
        GpuRequest::Present { a: arg_at(args, 0), b: arg_at(args, 1), c: arg_at(args, 2) }
    } else {
        GpuRequest::Refuse
    }
}

/// Bytes that a device writes into the guest's window.
#[derive(Debug)]
pub struct WindowWrite {
    pub ptr: u64,
    pub bytes: Vec<u8>,
}

/// A read-only file served under one name, with a cursor for every open.
#[derive(Debug)]
pub struct FileServer {
    pub name: String,
    pub data: Vec<u8>,
    pub cursors: Vec<u64>,
}

/// `open`.
pub const FS_OPEN: u32 = 0;

/// `read`.
pub const FS_READ: u32 = 1;

/// `write`, which is accepted and discarded.
pub const FS_WRITE: u32 = 2;

/// `seek`.
pub const FS_SEEK: u32 = 3;

impl FileServer {
    /// Every position fits in a signed 64-bit reply.
    pub open spec fn wf(self) -> bool {
        &&& self.data@.len() <= i64::MAX
        &&& forall|i: int| 0 <= i < self.cursors@.len() ==> #[trigger] self.cursors@[i] <= i64::MAX
    }

    /// The cursor that a descriptor names.
    pub open spec fn cursor(self, fd: i64) -> Option<u64> {
        if (fd as usize) < self.cursors@.len() {
            Some(self.cursors@[(fd as usize) as int])
        } else {
            None
        }
    }

    /// This server with the cursor of `fd` moved to `pos`.
    pub open spec fn moved(self, fd: i64, pos: u64) -> Seq<u64> {
        self.cursors@.update((fd as usize) as int, pos)
    }

    /// Where a read of `want` bytes from `cur` ends: at the end of the file at the latest.
    pub open spec fn read_end(self, cur: u64, want: nat) -> u64 {
        if cur + want < self.data@.len() {
            (cur + want) as u64
        } else {
            self.data@.len() as u64
        }
    }

    /// What a read from `cur` to `end` hands over: nothing, where the cursor stands past the end.
    pub open spec fn between(self, cur: u64, end: u64) -> Seq<u8> {
        if cur < end {
            self.data@.subrange(cur as int, end as int)
        } else {
            Seq::empty()
        }
    }

    /// Where a seek leads: relative to the start, the cursor or the end, never before the start, and
    /// no further than a reply can say.
    pub open spec fn seek_target(self, cur: u64, whence: i64, off: i64) -> int {
        let base = if whence == 1 {
            cur as int
        } else if whence == 2 {
            self.data@.len() as int
        } else {
            0
        };
        if base + off < 0 {
            0
        } else if base + off > i64::MAX {
            i64::MAX as int
        } else {
            base + off
        }
    }

    /// Serves `data` under `name`.
    pub fn new(name: String, data: Vec<u8>) -> (r: FileServer)
        requires
            data@.len() <= i64::MAX,
        ensures
            r.wf(),
            r.name == name,
            r.data == data,
            r.cursors@ == Seq::<u64>::empty(),
    {
        FileServer { name, data, cursors: Vec::new() }
    }

    /// Opens the file if its name occurs in `path`; the new descriptor, or [`DEVICE_NO_ENTRY`].
    pub fn open_path(&mut self, path: &str) -> (r: i64)
        requires
            old(self).wf(),
            old(self).cursors@.len() <= i64::MAX,
        ensures
            final(self).wf(),
            final(self).name == old(self).name,
            final(self).data == old(self).data,
            contains(path@, old(self).name@) ==> r == old(self).cursors@.len()
                && final(self).cursors@ == old(self).cursors@.push(0u64),
            !contains(path@, old(self).name@) ==> r == DEVICE_NO_ENTRY && final(self).cursors
                == old(self).cursors,
    {
        if has_part(path, self.name.as_str()) {
            let fd: i64 = self.cursors.len() as i64;
            self.cursors.push(0);
            fd
        } else {
            DEVICE_NO_ENTRY
        }
    }

    /// Reads up to `want` bytes at the cursor: how many there were and the bytes to hand over.
    ///
    /// A descriptor that was never opened is refused. A read from past the end hands over nothing
    /// and leaves the cursor at the end.
    pub fn read(&mut self, fd: i64, want: u64) -> (r: (i64, Vec<u8>))
        requires
            old(self).wf(),
        ensures
            final(self).wf(),
            final(self).name == old(self).name,
            final(self).data == old(self).data,
            old(self).cursor(fd) is None ==> r.0 == DEVICE_REFUSED && r.1@.len() == 0
                && final(self).cursors == old(self).cursors,
            old(self).cursor(fd) matches Some(cur) ==> ({
                let end = old(self).read_end(cur, want as nat);
                &&& r.0 == r.1@.len()
                &&& r.1@ == old(self).between(cur, end)
                &&& final(self).cursors@ == old(self).moved(fd, end)
            }),
    {
        let i: usize = fd as usize;
        if i >= self.cursors.len() {
            return (DEVICE_REFUSED, Vec::new());
        }
        let cur: u64 = self.cursors[i];
        let total: u64 = self.data.len() as u64;
        let end: u64 = if cur < total && want < total - cur {
            cur + want
        } else {
            total
        };
        self.cursors[i] = end;
        if cur >= end {
            return (0, Vec::new());
        }
        let out: Vec<u8> = slice_to_vec(
            slice_subrange(self.data.as_slice(), cur as usize, end as usize),
        );
        ((end - cur) as i64, out)
    }

    /// Moves the cursor; the new position, or the refusal for a descriptor that was never opened.
    pub fn seek(&mut self, fd: i64, whence: i64, off: i64) -> (r: i64)
        requires
            old(self).wf(),
        ensures
            final(self).wf(),
            final(self).name == old(self).name,
            final(self).data == old(self).data,
            old(self).cursor(fd) is None ==> r == DEVICE_REFUSED && final(self).cursors
                == old(self).cursors,
            old(self).cursor(fd) matches Some(cur) ==> r == old(self).seek_target(cur, whence, off)
                && final(self).cursors@ == old(self).moved(fd, r as u64),
    {
        let i: usize = fd as usize;
        if i >= self.cursors.len() {
            return DEVICE_REFUSED;
        }
        let cur: u64 = self.cursors[i];
        let base: i64 = if whence == 1 {
            cur as i64
        } else if whence == 2 {
            self.data.len() as i64
        } else {
            0
        };
        let sum: i128 = base as i128 + off as i128;
        let pos: i64 = if sum < 0 {
            0
        } else if sum > i64::MAX as i128 {
            i64::MAX
        } else {
            sum as i64
        };
        self.cursors[i] = pos as u64;
        pos
    }
}

/// The answer of the file device: the reply and what it writes into the guest's window.
#[derive(Debug)]
pub struct FsReply {
    pub value: i64,
    pub write: Option<WindowWrite>,
}

impl FileServer {
    /// The call carries the arguments that its operation reads.
    pub open spec fn can_serve(self, op: u32, args: Seq<i64>) -> bool {
        &&& self.cursors@.len() <= i64::MAX
        &&& op == FS_READ || op == FS_SEEK ==> args.len() >= 3
    }

    /// The reply to a call and the cursors after it; `path` is the text that an `open` asks for.
    pub open spec fn spec_serve(self, op: u32, args: Seq<i64>, path: Seq<char>) -> (i64, Seq<u64>) {
        if op == FS_OPEN {
            if contains(path, self.name@) {
                (self.cursors@.len() as i64, self.cursors@.push(0u64))
            } else {
                (DEVICE_NO_ENTRY, self.cursors@)
            }
        } else if op == FS_READ {
            match self.cursor(args[0]) {
                None => (DEVICE_REFUSED, self.cursors@),
                Some(cur) => {
                    let end = self.read_end(cur, bits_of_i64(args[2]));
                    (self.between(cur, end).len() as i64, self.moved(args[0], end))
                },
            }
        } else if op == FS_SEEK {
            match self.cursor(args[0]) {
                None => (DEVICE_REFUSED, self.cursors@),
                Some(cur) => {
                    let pos = self.seek_target(cur, args[1], args[2]);
                    (pos as i64, self.moved(args[0], pos as u64))
                },
            }
        } else if op == FS_WRITE {
            (spec_arg(args, 2), self.cursors@)
        } else {
            (0, self.cursors@)
        }
    }

    /// The bytes that a call hands over.
    pub open spec fn spec_handed(self, op: u32, args: Seq<i64>) -> Seq<u8> {
        if op == FS_READ && self.cursor(args[0]) is Some {
            let cur = self.cursor(args[0])->0;
            self.between(cur, self.read_end(cur, bits_of_i64(args[2])))
        } else {
            Seq::empty()
        }
    }

    /// Answers a file call whose path, if it has one, is `path`.
    pub fn serve_path(&mut self, op: u32, args: &[i64], path: &str) -> (r: FsReply)
        requires
            old(self).wf(),
            old(self).can_serve(op, args@),
        ensures
            final(self).wf(),
            final(self).name == old(self).name,
            final(self).data == old(self).data,
            (r.value, final(self).cursors@) == old(self).spec_serve(op, args@, path@),
            old(self).spec_handed(op, args@).len() == 0 ==> r.write is None,
            old(self).spec_handed(op, args@).len() > 0 ==> (r.write matches Some(w) && w.ptr
                == bits_of_i64(args@[1]) && w.bytes@ == old(self).spec_handed(op, args@)),
    {
        if op == FS_OPEN {
            FsReply { value: self.open_path(path), write: None }
        } else if op == FS_READ {
            let (n, bytes) = self.read(args[0], i64_bits(args[2]));
            if bytes.len() > 0 {
                FsReply { value: n, write: Some(WindowWrite { ptr: i64_bits(args[1]), bytes }) }
            } else {
                FsReply { value: n, write: None }
            }
        } else if op == FS_SEEK {
            FsReply { value: self.seek(args[0], args[1], args[2]), write: None }
        } else if op == FS_WRITE {
            FsReply { value: arg_at(args, 2), write: None }
        } else {
            FsReply { value: 0, write: None }
        }
    }

    /// Answers a file call; `requested` is what the window holds where an `open` points, empty if
    /// it points outside.
    pub fn serve(&mut self, op: u32, args: &[i64], requested: &[u8]) -> (r: FsReply)
        requires
            old(self).wf(),
            old(self).can_serve(op, args@),
        ensures
            final(self).wf(),
            final(self).name == old(self).name,
            final(self).data == old(self).data,
            (r.value, final(self).cursors@) == old(self).spec_serve(
                op,
                args@,
                text_from(requested@),
            ),
            old(self).spec_handed(op, args@).len() == 0 ==> r.write is None,
            old(self).spec_handed(op, args@).len() > 0 ==> (r.write matches Some(w) && w.ptr
                == bits_of_i64(args@[1]) && w.bytes@ == old(self).spec_handed(op, args@)),
    {
        let path: String = from_utf8_lossy(requested);
        self.serve_path(op, args, path.as_str())
    }
}

/// Two reads in a row hand over one contiguous run of the file, as one read of both lengths would.
pub proof fn law_reads_are_contiguous(s: FileServer, cur: u64, first: u64, second: u64)
    requires
        s.wf(),
    ensures
        ({
            let mid = s.read_end(cur, first as nat);
            let end = s.read_end(mid, second as nat);
            &&& mid <= s.data@.len()
            &&& end == s.read_end(cur, (first + second) as nat)
            &&& s.between(cur, mid) + s.between(mid, end) == s.between(cur, end)
        }),
{
    let mid = s.read_end(cur, first as nat);
    let end = s.read_end(mid, second as nat);
    assert(s.between(cur, mid) + s.between(mid, end) =~= s.between(cur, end));
}

/// A presented frame is `width` by `height` pixels of four bytes each, read from where the guest
/// says; a side that is not between one and the largest is refused, as is any other operation.
pub proof fn law_present_covers_its_pixels(op: u32, ptr: i64, w: i64, h: i64)
    ensures
        ({
            let q = spec_display_request(op, seq![ptr, w, h]);
            &&& q is Some <==> op == 0 && 1 <= w <= 8192 && 1 <= h <= 8192
            &&& q matches Some(p) ==> p.width == w && p.height == h && p.len == 4 * (w * h)
                && p.ptr == (ptr as int) % 0x1_0000_0000_0000_0000
        }),
{
    let q = spec_display_request(op, seq![ptr, w, h]);
    if q is Some {
        assert(1 <= w * h <= 8192 * 8192) by (nonlinear_arith)
            requires
                1 <= w <= 8192,
                1 <= h <= 8192,
        ;
        assert(w * h * 4 == 4 * (w * h)) by (nonlinear_arith);
    }
}

/// The display shows the last frame that was presented whole: its size and its pixels, in their
/// order. A refused call changes nothing.
pub proof fn law_display_keeps_the_last_frame(
    cell: Option<Frame>,
    q: PresentRequest,
    p: Vec<u8>,
    req: Option<PresentRequest>,
    pixels: Option<Vec<u8>>,
)
    ensures
        ({
            let (r, after) = spec_displayed(cell, Some(q), Some(p));
            &&& r == 0
            &&& after matches Some(f) && f.width == q.width && f.height == q.height && f.rgba == p
        }),
        req is None || pixels is None ==> spec_displayed(cell, req, pixels) == (
            DEVICE_REFUSED,
            cell,
        ),
{
}

/// The queue after a series of key events.
pub open spec fn keys_queued(events: Seq<i32>, keys: Seq<(i32, i32)>, n: nat) -> Seq<i32>
    decreases n,
{
    if n == 0 {
        events
    } else {
        key_queued(keys_queued(events, keys, (n - 1) as nat), keys[n - 1].0, keys[n - 1].1)
    }
}

/// The reply to the `n`-th poll after a series of them, and the queue before it.
pub open spec fn polls_made(events: Seq<i32>, n: nat) -> Seq<i32>
    decreases n,
{
    if n == 0 {
        events
    } else {
        key_polled(polls_made(events, (n - 1) as nat), 0).1
    }
}

/// Keys come out in the order in which they went in, each once: the `i`-th poll gives the `i`-th
/// event, and when all are out the queue refuses. No other operation takes a key.
pub proof fn law_keys_are_first_in_first_out(keys: Seq<(i32, i32)>, i: nat, op: u32)
    requires
        forall|j: int|
            0 <= j < keys.len() ==> 0 <= (#[trigger] keys[j]).0 < 0x1_0000 && 0 <= keys[j].1 <= 1,
        i <= keys.len(),
        op != 0,
    ensures
        ({
            let events = keys_queued(Seq::empty(), keys, keys.len());
            let left = polls_made(events, i);
            let (r, rest) = key_polled(left, 0);
            &&& i < keys.len() ==> r % 0x1_0000 == keys[i as int].0 && r / 0x1_0000
                == keys[i as int].1
            &&& i == keys.len() ==> r == DEVICE_REFUSED && rest == left
            &&& key_polled(left, op) == (DEVICE_REFUSED, left)
        }),
{
    let events = keys_queued(Seq::empty(), keys, keys.len());
    lemma_keys_queued(keys, keys.len());
    lemma_polls_made(events, i);
    if i < keys.len() {
        let (c, p) = keys[i as int];
        law_key_event_round_trip(c, p);
        assert(events[i as int] == packed_key(c, p));
    }
}

/// The queue holds the events in their order.
proof fn lemma_keys_queued(keys: Seq<(i32, i32)>, n: nat)
    requires
        n <= keys.len(),
    ensures
        keys_queued(Seq::empty(), keys, n).len() == n,
        forall|j: int|
            0 <= j < n ==> #[trigger] keys_queued(Seq::empty(), keys, n)[j] == packed_key(
                keys[j].0,
                keys[j].1,
            ),
    decreases n,
{
    if n > 0 {
        lemma_keys_queued(keys, (n - 1) as nat);
    }
}

/// Polls take from the front.
proof fn lemma_polls_made(events: Seq<i32>, n: nat)
    requires
        n <= events.len(),
    ensures
        polls_made(events, n) == events.skip(n as int),
    decreases n,
{
    if n > 0 {
        lemma_polls_made(events, (n - 1) as nat);
        assert(events.skip(n - 1).drop_first() =~= events.skip(n as int));
    } else {
        assert(events.skip(0) =~= events);
    }
}

/// A shader is read from where the guest says, up to the largest source; a present passes its three
/// scalars on in their order; anything else is refused.
pub proof fn law_gpu_calls_pass_their_arguments(op: u32, a: i64, b: i64, c: i64)
    ensures
        spec_gpu_request(1, seq![a, b, c]) == (GpuRequest::Present { a, b, c }),
        0 <= b <= 1048576 ==> (spec_gpu_request(0, seq![a, b]) matches GpuRequest::SetShader {
            ptr,
            len,
        } && ptr == (a as int) % 0x1_0000_0000_0000_0000 && len == b),
        b < 0 || b > 1048576 ==> spec_gpu_request(0, seq![a, b]) == GpuRequest::Refuse,
        op > 1 ==> spec_gpu_request(op, seq![a, b, c]) == GpuRequest::Refuse,
        spec_gpu_request(1, seq![a]) == (GpuRequest::Present { a, b: 0, c: 0 }),
{
}

/// A descriptor names the cursor of its own open, and nothing else is a descriptor.
pub proof fn law_descriptor_names_its_open(s: FileServer, fd: i64)
    ensures
        0 <= fd < s.cursors@.len() ==> s.cursor(fd) == Some(s.cursors@[fd as int]) && fd as usize
            == fd,
        s.cursors@.len() <= fd <= usize::MAX ==> s.cursor(fd) is None,
{
    assert(s.cursors.len() == s.cursors@.len());
}

/// An open of a path that names the file gives a new descriptor that stands at the start, and leaves
/// every other one where it was; any other path is no entry and opens nothing.
pub proof fn law_open_starts_at_the_start(s: FileServer, args: Seq<i64>, path: Seq<char>)
    requires
        s.cursors@.len() <= i64::MAX,
    ensures
        ({
            let (r, after) = s.spec_serve(FS_OPEN, args, path);
            &&& (exists|at: int| occurs_at(path, s.name@, at)) ==> {
                &&& r == s.cursors@.len()
                &&& after.len() == s.cursors@.len() + 1
                &&& after[r as int] == 0
                &&& forall|j: int| 0 <= j < s.cursors@.len() ==> #[trigger] after[j] == s.cursors@[j]
            }
            &&& (forall|at: int| !occurs_at(path, s.name@, at)) ==> r == DEVICE_NO_ENTRY && after
                == s.cursors@
            &&& s.spec_handed(FS_OPEN, args).len() == 0
        }),
{
}

/// A read hands over the file's bytes from the cursor on, as many as are asked for and left, replies
/// how many that were and moves its own cursor past them, and no other.
pub proof fn law_read_hands_over_the_file(s: FileServer, fd: i64, ptr: i64, want: i64, path: Seq<char>)
    requires
        s.wf(),
        0 <= fd < s.cursors@.len(),
        0 <= want,
        s.cursors@[fd as int] <= s.data@.len(),
    ensures
        ({
            let args = seq![fd, ptr, want];
            let cur = s.cursors@[fd as int] as int;
            let left = s.data@.len() - cur;
            let n = if want < left { want as int } else { left };
            let (r, after) = s.spec_serve(FS_READ, args, path);
            let handed = s.spec_handed(FS_READ, args);
            &&& r == n
            &&& handed.len() == n
            &&& forall|i: int| 0 <= i < n ==> #[trigger] handed[i] == s.data@[cur + i]
            &&& after.len() == s.cursors@.len()
            &&& after[fd as int] == cur + n
            &&& forall|j: int|
                0 <= j < after.len() && j != fd ==> #[trigger] after[j] == s.cursors@[j]
        }),
{
    law_descriptor_names_its_open(s, fd);
    let args = seq![fd, ptr, want];
    assert(args[0] == fd && args[2] == want);
    assert(s.data.len() == s.data@.len());
}

/// A read from past the end hands over nothing.
pub proof fn law_nothing_lies_past_the_end(s: FileServer, fd: i64, ptr: i64, want: i64, path: Seq<char>)
    requires
        s.wf(),
        0 <= fd < s.cursors@.len(),
        s.cursors@[fd as int] >= s.data@.len(),
    ensures
        s.spec_serve(FS_READ, seq![fd, ptr, want], path).0 == 0,
        s.spec_handed(FS_READ, seq![fd, ptr, want]).len() == 0,
        s.spec_serve(FS_READ, seq![fd, ptr, want], path).1[fd as int] == s.data@.len(),
{
    law_descriptor_names_its_open(s, fd);
    let args = seq![fd, ptr, want];
    assert(args[0] == fd && args[2] == want);
    assert(s.data.len() == s.data@.len());
}

/// A seek leads where it says, relative to the start, the cursor or the end, and its reply is where
/// its own cursor then stands; before the start it stops at the start. No other cursor moves, and
/// nothing is handed over.
pub proof fn law_seek_leads_where_it_says(s: FileServer, fd: i64, whence: i64, off: i64, path: Seq<char>)
    requires
        s.wf(),
        0 <= fd < s.cursors@.len(),
    ensures
        ({
            let args = seq![fd, whence, off];
            let cur = s.cursors@[fd as int];
            let (r, after) = s.spec_serve(FS_SEEK, args, path);
            &&& whence == 0 && off >= 0 ==> r == off
            &&& whence == 1 && 0 <= cur + off <= i64::MAX ==> r == cur + off
            &&& whence == 2 && 0 <= s.data@.len() + off <= i64::MAX ==> r == s.data@.len() + off
            &&& whence == 0 && off < 0 ==> r == 0
            &&& whence == 1 && cur + off < 0 ==> r == 0
            &&& whence == 2 && s.data@.len() + off < 0 ==> r == 0
            &&& after.len() == s.cursors@.len()
            &&& after[fd as int] == r
            &&& forall|j: int|
                0 <= j < after.len() && j != fd ==> #[trigger] after[j] == s.cursors@[j]
            &&& s.spec_handed(FS_SEEK, args).len() == 0
        }),
{
    law_descriptor_names_its_open(s, fd);
    let args = seq![fd, whence, off];
    assert(args[0] == fd && args[1] == whence && args[2] == off);
}

/// Seeks relative to the cursor add up: by zero the cursor stays and is told, and two in a row end
/// where one by their sum does.
pub proof fn law_relative_seeks_add_up(
    s: FileServer,
    t: FileServer,
    fd: i64,
    a: i64,
    b: i64,
    path: Seq<char>,
)
    requires
        s.wf(),
        0 <= fd < s.cursors@.len(),
        0 <= s.cursors@[fd as int] + a <= i64::MAX,
        0 <= s.cursors@[fd as int] + a + b <= i64::MAX,
        i64::MIN <= a + b <= i64::MAX,
        t.data == s.data,
        t.cursors@ == s.spec_serve(FS_SEEK, seq![fd, 1, a], path).1,
    ensures
        s.spec_serve(FS_SEEK, seq![fd, 1, 0], path) == (s.cursors@[fd as int] as i64, s.cursors@),
        t.spec_serve(FS_SEEK, seq![fd, 1, b], path) == s.spec_serve(
            FS_SEEK,
            seq![fd, 1, (a + b) as i64],
            path,
        ),
{
    law_descriptor_names_its_open(s, fd);
    law_seek_leads_where_it_says(s, fd, 1, 0, path);
    law_seek_leads_where_it_says(s, fd, 1, a, path);
    law_seek_leads_where_it_says(s, fd, 1, (a + b) as i64, path);
    law_descriptor_names_its_open(t, fd);
    assert forall|i: int| 0 <= i < t.cursors@.len() implies #[trigger] t.cursors@[i] <= i64::MAX by {
        if i != fd {
            assert(t.cursors@[i] == s.cursors@[i]);
        }
    }
    law_seek_leads_where_it_says(t, fd, 1, b, path);
    assert(s.spec_serve(FS_SEEK, seq![fd, 1, 0], path).1 =~= s.cursors@);
    assert(t.spec_serve(FS_SEEK, seq![fd, 1, b], path).1 =~= s.spec_serve(
        FS_SEEK,
        seq![fd, 1, (a + b) as i64],
        path,
    ).1);
}

/// A descriptor that was never opened is refused, and nothing moves; a write is taken whole and
/// dropped; any other call is answered with zero.
pub proof fn law_other_file_calls_change_nothing(
    s: FileServer,
    op: u32,
    args: Seq<i64>,
    path: Seq<char>,
)
    requires
        args.len() >= 3,
    ensures
        (op == FS_READ || op == FS_SEEK) && s.cursors@.len() <= args[0] <= usize::MAX
            ==> s.spec_serve(op, args, path) == (DEVICE_REFUSED, s.cursors@),
        op == FS_WRITE ==> s.spec_serve(op, args, path) == (args[2], s.cursors@),
        op > FS_SEEK ==> s.spec_serve(op, args, path) == (0i64, s.cursors@),
        op != FS_READ ==> s.spec_handed(op, args).len() == 0,
{
}

} // verus!
