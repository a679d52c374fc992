//! The persistent database session: one backend that is resumed for every query.

use vstd::prelude::*;
use vstd::slice::{slice_subrange, slice_to_vec};
use vstd::utf8::encode_utf8;

use crate::args::{byte_rows, pg_args_blob, seeded_prefix, spec_args_blob, spec_seeded_prefix};
use crate::caps::{
    onramp_cap_resolver, onramp_check, spec_onramp_cap_resolver, Binding, CapKind, OnrampModule,
};
use crate::capture::Capture;
use crate::status::{
    STATUS_DECODE_ERR, STATUS_EXIT, STATUS_OK, STATUS_TRAP, STATUS_UNSUPPORTED, STATUS_VERIFY_ERR,
};
use crate::traps::VcpuEvent;

verus! {

/// The arguments of a single-user backend; the first has a slash so that the backend finds itself.
pub open spec fn spec_pg_single_argv() -> Seq<Seq<u8>> {
    seq![
        encode_utf8("./postgres"@),
        encode_utf8("--single"@),
        encode_utf8("-D"@),
        encode_utf8("."@),
        encode_utf8("postgres"@),
    ]
}

/// The arguments of a single-user backend.
pub fn pg_single_argv() -> (r: Vec<Vec<u8>>)
    ensures
        byte_rows(r@) == spec_pg_single_argv(),
{
    let mut out: Vec<Vec<u8>> = Vec::new();
    out.push("./postgres".as_bytes_vec());
    out.push("--single".as_bytes_vec());
    out.push("-D".as_bytes_vec());
    out.push(".".as_bytes_vec());
    out.push("postgres".as_bytes_vec());
    assert(byte_rows(out@) =~= spec_pg_single_argv());
    out
}

/// The handles of the headless powerbox.
#[derive(Clone, Copy, Debug)]
pub struct HeadlessHandles {
    pub stdout: i32,
    pub stdin: i32,
    pub exit: i32,
    pub memory: i32,
}

/// What the import `name` binds to in the headless powerbox: streams, exit, and the whole window
/// for every mapping operation; nothing else.
pub open spec fn spec_headless_binding(name: Seq<char>, h: HeadlessHandles) -> Binding {
    match spec_onramp_cap_resolver(name) {
        None => Binding::Unbound,
        Some(cap) => match cap.kind {
            CapKind::Stream => Binding::Required {
                cap,
                handle: if cap.op == 1 {
                    h.stdout
                } else {
                    h.stdin
                },
            },
            CapKind::Exit => Binding::Required { cap, handle: h.exit },
            CapKind::AddressSpace => Binding::Required { cap, handle: h.memory },
            _ => Binding::Unbound,
        },
    }
}

/// What a headless guest is started with.
#[derive(Debug)]
pub struct HeadlessSetup {
    /// What each import binds to, slot by slot.
    pub bindings: Vec<Binding>,
    /// The prefix of the window that carries the arguments.
    pub init_mem: Vec<u8>,
}

/// The status of a headless guest that is not started: it has imports but no named entry, or its
/// data image does not decode.
pub open spec fn spec_setup_status(m: OnrampModule, image_ok: bool) -> i32 {
    if m.imports@.len() != 0 && !m.named_entry() {
        STATUS_UNSUPPORTED
    } else if !image_ok {
        STATUS_DECODE_ERR
    } else {
        STATUS_OK
    }
}

/// `setup` starts `m` over the handles `h` with its arguments at `args_base`.
pub open spec fn set_up(
    setup: HeadlessSetup,
    m: OnrampModule,
    h: HeadlessHandles,
    argv: Seq<Seq<u8>>,
    args_base: nat,
) -> bool {
    &&& setup.bindings@ == Seq::new(
        m.imports@.len(),
        |i: int| spec_headless_binding(m.imports@[i]@, h),
    )
    &&& setup.init_mem@ == spec_seeded_prefix(args_base, spec_args_blob(argv, Seq::empty()))
}

/// Sets a headless guest up: its imports bound, and its arguments at `args_base`. `image_ok` says
/// whether its data image decodes.
pub fn pg_setup(
    m: &OnrampModule,
    h: &HeadlessHandles,
    image_ok: bool,
    argv: &[Vec<u8>],
    args_base: usize,
) -> (r: Result<HeadlessSetup, i32>)
    requires
        args_base + spec_args_blob(byte_rows(argv@), Seq::empty()).len() <= usize::MAX,
    ensures
        r is Ok <==> spec_setup_status(*m, image_ok) == STATUS_OK,
        r matches Err(status) ==> status == spec_setup_status(*m, image_ok),
        r matches Ok(setup) ==> set_up(setup, *m, *h, byte_rows(argv@), args_base as nat),
        r matches Ok(setup) ==> {
            &&& setup.bindings@.len() == m.imports@.len()
            &&& forall|i: int|
                0 <= i < m.imports@.len() ==> #[trigger] setup.bindings@[i]
                    == spec_headless_binding(m.imports@[i]@, *h)
            &&& setup.init_mem@ == Seq::new(args_base as nat, |i: int| 0u8) + spec_args_blob(
                byte_rows(argv@),
                Seq::empty(),
            )
        },
{
    if onramp_check(m).is_err() {
        return Err(STATUS_UNSUPPORTED);
    }
    if !image_ok {
        return Err(STATUS_DECODE_ERR);
    }
    let mut bindings: Vec<Binding> = Vec::with_capacity(m.imports.len());
    let mut i: usize = 0;
    while i < m.imports.len()
        invariant
            i <= m.imports.len(),
            bindings@.len() == i,
            forall|j: int|
                0 <= j < i ==> #[trigger] bindings@[j] == spec_headless_binding(m.imports@[j]@, *h),
        decreases m.imports.len() - i,
    {
        let b: Binding = match onramp_cap_resolver(m.imports[i].as_str()) {
            None => Binding::Unbound,
            Some(cap) => match cap.kind {
                CapKind::Stream => Binding::Required {
                    cap,
                    handle: if cap.op == 1 {
                        h.stdout
                    } else {
                        h.stdin
                    },
                },
                CapKind::Exit => Binding::Required { cap, handle: h.exit },
                CapKind::AddressSpace => Binding::Required { cap, handle: h.memory },
                _ => Binding::Unbound,
            },
        };
        bindings.push(b);
        i = i + 1;
    }
    let blob: Vec<u8> = pg_args_blob(argv);
    let init_mem: Vec<u8> = seeded_prefix(args_base, blob.as_slice());
    assert(bindings@ =~= Seq::new(
        m.imports@.len(),
        |i: int| spec_headless_binding(m.imports@[i]@, *h),
    ));
    Ok(HeadlessSetup { bindings, init_mem })
}

/// A live backend.
#[derive(Clone, Copy, Debug, PartialEq, Eq, Structural)]
pub struct PgSession {
    /// How much of the backend's output has been handed back.
    pub stdout_pos: usize,
    /// The backend is gone.
    pub ended: bool,
}

/// The status of the stop that a backend reached.
pub open spec fn spec_pump_status(ev: VcpuEvent) -> i32 {
    match ev {
        VcpuEvent::StdinPark => STATUS_OK,
        VcpuEvent::Done(_) => STATUS_EXIT,
        VcpuEvent::Trapped(_) => STATUS_TRAP,
        _ => STATUS_UNSUPPORTED,
    }
}

/// What a session returns for a status: zero if it is ready for a query.
pub open spec fn session_code(status: i32) -> int {
    if status == STATUS_OK {
        0
    } else {
        -status
    }
}

impl PgSession {
    /// A backend that has not run.
    pub fn new() -> (r: PgSession)
        ensures
            r == (PgSession { stdout_pos: 0, ended: false }),
    {
        PgSession { stdout_pos: 0, ended: false }
    }

    /// This session after the backend stopped so.
    pub open spec fn pumped(self, ev: VcpuEvent) -> PgSession {
        PgSession { ended: self.ended || !(ev is StdinPark), ..self }
    }

    /// This session after `len` bytes of output were handed back.
    pub open spec fn flushed(self, len: usize) -> PgSession {
        PgSession { stdout_pos: len, ..self }
    }

    /// Takes the stop that the backend reached: only one that waits for input can be queried again.
    pub fn pg_pump(&mut self, ev: &VcpuEvent) -> (r: i32)
        ensures
            r == spec_pump_status(*ev),
            *final(self) == old(self).pumped(*ev),
            *final(self) == (PgSession {
                ended: old(self).ended || !(ev is StdinPark),
                ..*old(self)
            }),
    {
        match ev {
            VcpuEvent::StdinPark => STATUS_OK,
            VcpuEvent::Done(_) => {
                self.ended = true;
                STATUS_EXIT
            },
            VcpuEvent::Trapped(_) => {
                self.ended = true;
                STATUS_TRAP
            },
            _ => {
                self.ended = true;
                STATUS_UNSUPPORTED
            },
        }
    }

    /// The output that has not been handed back yet.
    pub open spec fn spec_delta(self, stdout: Seq<u8>) -> Seq<u8> {
        if self.stdout_pos <= stdout.len() {
            stdout.skip(self.stdout_pos as int)
        } else {
            Seq::empty()
        }
    }

    /// Hands back the new output.
    pub fn pg_flush_stdout(&mut self, stdout: &[u8]) -> (r: Vec<u8>)
        ensures
            r@ == old(self).spec_delta(stdout@),
            *final(self) == old(self).flushed(stdout.len()),
            *final(self) == (PgSession { stdout_pos: stdout.len(), ..*old(self) }),
    {
        let delta: Vec<u8> = if self.stdout_pos <= stdout.len() {
            slice_to_vec(slice_subrange(stdout, self.stdout_pos, stdout.len()))
        } else {
            Vec::new()
        };
        assert(delta@ =~= self.spec_delta(stdout@));
        self.stdout_pos = stdout.len();
        delta
    }

    /// Ends a boot or a query: takes the stop, hands back the new output and records the status.
    pub fn settle(&mut self, cap: &mut Capture, ev: &VcpuEvent, stdout: &[u8]) -> (r: i32)
        ensures
            r == session_code(spec_pump_status(*ev)),
            *final(self) == old(self).pumped(*ev).flushed(stdout.len()),
            *final(self) == (PgSession {
                stdout_pos: stdout.len(),
                ended: old(self).ended || !(ev is StdinPark),
            }),
            final(cap).out@ == old(self).spec_delta(stdout@),
            *final(cap) == (Capture {
                out: final(cap).out,
                last_status: spec_pump_status(*ev),
                ..*old(cap)
            }),
    {
        let status: i32 = self.pg_pump(ev);
        cap.out = self.pg_flush_stdout(stdout);
        cap.last_status = status;
        if status == STATUS_OK {
            0
        } else {
            -status
        }
    }
}

/// What a query pushes onto the backend's input: the statement, ended by a newline.
pub open spec fn spec_query_input(sql: Seq<u8>) -> Seq<u8> {
    if sql.len() > 0 && sql.last() == 10 {
        sql
    } else {
        sql.push(10u8)
    }
}

/// There is a backend, and it can take a query.
pub open spec fn takes_query(session: Option<PgSession>) -> bool {
    session matches Some(s) && !s.ended
}

/// The slots and what is pushed onto the backend's input once a query was asked for.
pub open spec fn query_started(
    before: Capture,
    after: Capture,
    session: Option<PgSession>,
    sql: Seq<u8>,
    r: Result<Vec<u8>, i32>,
) -> bool {
    if takes_query(session) {
        (r matches Ok(input) && input@ == spec_query_input(sql)) && after == before
    } else {
        (r matches Err(code) && code == -STATUS_UNSUPPORTED) && after == (Capture {
            last_status: STATUS_UNSUPPORTED,
            ..before
        })
    }
}

/// Starts a query: the input to push, or the refusal if no backend can take it.
pub fn svm_pg_query(cap: &mut Capture, session: Option<&PgSession>, sql: &[u8]) -> (r: Result<
    Vec<u8>,
    i32,
>)
    ensures
        r is Ok <==> takes_query(match session {
            Some(s) => Some(*s),
            None => None,
        }),
        r is Ok <==> (session matches Some(s) && !s.ended),
        query_started(*old(cap), *final(cap), match session {
            Some(s) => Some(*s),
            None => None,
        }, sql@, r),
        r matches Ok(input) ==> input@ == spec_query_input(sql@) && *final(cap) == *old(cap),
        r matches Err(code) ==> code == -STATUS_UNSUPPORTED && *final(cap) == (Capture {
            last_status: STATUS_UNSUPPORTED,
            ..*old(cap)
        }),
{
    let ready: bool = match session {
        Some(s) => !s.ended,
        None => false,
    };
    if !ready {
        cap.last_status = STATUS_UNSUPPORTED;
        return Err(-STATUS_UNSUPPORTED);
    }
    let mut input: Vec<u8> = slice_to_vec(sql);
    if sql.len() == 0 || sql[sql.len() - 1] != 10 {
        input.push(10);
    }
    Ok(input)
}

/// The slots and the kept image once an image was asked for, and the answer.
pub open spec fn snapped(cap: Capture, snap: Vec<u8>, image: Option<Vec<u8>>) -> (
    Capture,
    Vec<u8>,
    i32,
) {
    match image {
        Some(files) => (Capture { last_status: STATUS_OK, ..cap }, files, 0i32),
        None => (
            Capture { last_status: STATUS_UNSUPPORTED, ..cap },
            snap,
            -STATUS_UNSUPPORTED as i32,
        ),
    }
}

/// Records whether there was a session whose files could be kept; the image goes to `snap`.
pub fn svm_pg_snapshot(cap: &mut Capture, snap: &mut Vec<u8>, image: Option<Vec<u8>>) -> (r: i32)
    ensures
        (*final(cap), *final(snap), r) == snapped(*old(cap), *old(snap), image),
        image matches Some(files) ==> r == 0 && *final(snap) == files && *final(cap) == (Capture {
            last_status: STATUS_OK,
            ..*old(cap)
        }),
        image is None ==> r == -STATUS_UNSUPPORTED && *final(snap) == *old(snap) && *final(cap) == (
        Capture { last_status: STATUS_UNSUPPORTED, ..*old(cap) }),
{
    match image {
        None => {
            cap.last_status = STATUS_UNSUPPORTED;
            -STATUS_UNSUPPORTED
        },
        Some(files) => {
            *snap = files;
            cap.last_status = STATUS_OK;
            0
        },
    }
}

/// How far an open got before the backend ran.
#[derive(Clone, Copy, Debug, PartialEq, Eq, Structural)]
pub enum PgStart {
    Undecodable,
    NotVerified,
    /// The powerbox refused the module.
    Refused,
    /// The data image does not decode.
    BadImage,
    /// The program is outside the engine's subset.
    Outside,
    /// Starting it trapped.
    Failed,
    Booted,
}

/// The status of an open that did not come to run.
pub open spec fn pg_refusal(start: PgStart) -> Option<i32> {
    match start {
        PgStart::Undecodable | PgStart::BadImage => Some(STATUS_DECODE_ERR),
        PgStart::NotVerified => Some(STATUS_VERIFY_ERR),
        PgStart::Refused | PgStart::Outside => Some(STATUS_UNSUPPORTED),
        PgStart::Failed => Some(STATUS_TRAP),
        PgStart::Booted => None,
    }
}

/// The slots, the answer and the session of an open that got to `start` and stopped at `ev`.
pub open spec fn pg_opened(
    before: Capture,
    after: Capture,
    start: PgStart,
    ev: VcpuEvent,
    stdout: Seq<u8>,
    code: int,
    session: Option<PgSession>,
) -> bool {
    match pg_refusal(start) {
        Some(status) => code == -status && session is None && after == (Capture {
            last_status: status,
            ..before
        }),
        None => code == session_code(spec_pump_status(ev)) && (session matches Some(s)
            && s.stdout_pos == stdout.len() && s.ended == !(ev is StdinPark)) && after.out@ == stdout
            && after == (Capture { out: after.out, last_status: spec_pump_status(ev), ..before }),
    }
}

/// Opens a session: a refused one records its status; a booted one is settled at its first stop and
/// kept even if it ended there.
pub fn svm_pg_open(cap: &mut Capture, start: PgStart, ev: &VcpuEvent, stdout: &[u8]) -> (r: (
    i32,
    Option<PgSession>,
))
    ensures
        pg_opened(*old(cap), *final(cap), start, *ev, stdout@, r.0 as int, r.1),
        pg_refusal(start) matches Some(status) ==> r.0 == -status && r.1 is None && *final(cap) == (
        Capture { last_status: status, ..*old(cap) }),
        pg_refusal(start) is None ==> r.0 == session_code(spec_pump_status(*ev)) && r.1 == Some(
            PgSession { stdout_pos: stdout.len(), ended: !(ev is StdinPark) },
        ) && final(cap).out@ == stdout@ && *final(cap) == (Capture {
            out: final(cap).out,
            last_status: spec_pump_status(*ev),
            ..*old(cap)
        }),
{
    let status: i32 = match start {
        PgStart::Undecodable | PgStart::BadImage => STATUS_DECODE_ERR,
        PgStart::NotVerified => STATUS_VERIFY_ERR,
        PgStart::Refused | PgStart::Outside => STATUS_UNSUPPORTED,
        PgStart::Failed => STATUS_TRAP,
        PgStart::Booted => {
            let mut s: PgSession = PgSession::new();
            let code: i32 = s.settle(cap, ev, stdout);
            assert(stdout@.skip(0) =~= stdout@);
            return (code, Some(s));
        },
    };
    cap.last_status = status;
    (-status, None)
}

/// What a session hands back over its life is the backend's output, without gaps or repeats.
pub proof fn law_session_output_is_contiguous(stdout: Seq<u8>, grown: Seq<u8>, ended: bool)
    requires
        stdout.len() <= grown.len() <= usize::MAX,
        grown.take(stdout.len() as int) == stdout,
    ensures
        stdout + (PgSession { stdout_pos: stdout.len() as usize, ended }).spec_delta(grown) == grown,
{
    assert(stdout + grown.skip(stdout.len() as int) =~= grown);
}

/// Every statement that reaches the backend ends in a newline, and adding one twice changes nothing.
pub proof fn law_query_is_line_terminated(sql: Seq<u8>)
    ensures
        spec_query_input(sql).last() == 10,
        spec_query_input(spec_query_input(sql)) == spec_query_input(sql),
{
}

/// A backend takes queries as long as every stop of it waits for input: any other ends it, and an
/// ended one stays so.
pub proof fn law_ended_backend_takes_no_query(s: PgSession, ev: VcpuEvent, later: VcpuEvent, n: usize)
    ensures
        ev is StdinPark ==> s.pumped(ev) == s,
        !(ev is StdinPark) ==> !takes_query(Some(s.pumped(ev).pumped(later).flushed(n))),
        takes_query(Some(s)) && ev is StdinPark ==> takes_query(Some(s.pumped(ev).flushed(n))),
        takes_query(Some(PgSession { stdout_pos: n, ended: false })),
        !takes_query(None),
{
}

/// A page learns how its backend stopped: zero if it waits for the next query, else the negated
/// status of a backend that is done, trapped or stopped for something that nobody serves.
pub proof fn law_session_answers_how_it_stopped(ev: VcpuEvent)
    ensures
        session_code(spec_pump_status(ev)) == 0 <==> ev is StdinPark,
        ev is Done ==> session_code(spec_pump_status(ev)) == -5,
        ev is Trapped ==> session_code(spec_pump_status(ev)) == -3,
        !(ev is StdinPark) && !(ev is Done) && !(ev is Trapped) ==> session_code(
            spec_pump_status(ev),
        ) == -2,
{
}

/// Output is handed back once: right after it was, there is none, and what is handed back next
/// starts where that ended.
pub proof fn law_output_is_handed_back_once(s: PgSession, stdout: Seq<u8>, more: Seq<u8>)
    requires
        stdout.len() + more.len() <= usize::MAX,
    ensures
        s.flushed(stdout.len() as usize).spec_delta(stdout).len() == 0,
        s.flushed(stdout.len() as usize).spec_delta(stdout + more) == more,
        s.stdout_pos == 0 ==> s.spec_delta(stdout) == stdout,
        s.flushed(stdout.len() as usize).ended == s.ended,
{
    assert((stdout + more).skip(stdout.len() as int) =~= more);
    if s.stdout_pos == 0 {
        assert(stdout.skip(0) =~= stdout);
    }
}

/// A statement reaches the backend as it is, with at most one newline behind it.
pub proof fn law_statement_reaches_the_backend(sql: Seq<u8>)
    ensures
        spec_query_input(sql).len() >= sql.len(),
        spec_query_input(sql).take(sql.len() as int) == sql,
        sql.len() > 0 && sql.last() == 10 ==> spec_query_input(sql).len() == sql.len(),
        sql.len() == 0 || sql.last() != 10 ==> spec_query_input(sql).len() == sql.len() + 1,
{
    assert(spec_query_input(sql).take(sql.len() as int) =~= sql);
}

/// A headless guest's streams, exit and mapping operations reach the handles that serve them, as
/// those of any guest do; nothing else of it is bound.
pub proof fn law_headless_guest_is_bound_alike(name: Seq<char>, h: HeadlessHandles)
    ensures
        ({
            let full = crate::caps::PrefixHandles {
                stdout: h.stdout,
                stdin: h.stdin,
                exit: h.exit,
                memory: h.memory,
                addrspace: h.memory,
            };
            spec_headless_binding(name, h) == crate::caps::spec_binding(name, full, None)
        }),
{
}

/// An open that never came to run is refused by where it failed, and one that did is not refused.
pub proof fn law_open_is_refused_by_where_it_failed(start: PgStart)
    ensures
        pg_refusal(start) is None <==> start is Booted,
        pg_refusal(start) == Some(1i32) <==> start is Undecodable || start is BadImage,
        pg_refusal(start) == Some(2i32) <==> start is Refused || start is Outside,
        pg_refusal(start) == Some(3i32) <==> start is Failed,
        pg_refusal(start) == Some(6i32) <==> start is NotVerified,
{
}

/// A headless guest is started exactly if it can be bound and its image decodes.
pub proof fn law_headless_guest_starts_if_it_can(m: OnrampModule, image_ok: bool)
    ensures
        spec_setup_status(m, image_ok) == 0 <==> (m.imports@.len() == 0 || m.named_entry())
            && image_ok,
        spec_setup_status(m, image_ok) == 1 ==> !image_ok,
        spec_setup_status(m, image_ok) == 2 <==> m.imports@.len() != 0 && !m.named_entry(),
{
}

/// A headless guest finds its arguments at the agreed place, and each of its import slots is bound by
/// its own name.
pub proof fn law_headless_guest_finds_its_arguments(
    setup: HeadlessSetup,
    m: OnrampModule,
    h: HeadlessHandles,
    argv: Seq<Seq<u8>>,
    args_base: nat,
    i: int,
)
    requires
        set_up(setup, m, h, argv, args_base),
        crate::args::nul_free(argv),
        argv.len() <= u32::MAX,
    ensures
        ({
            let block = setup.init_mem@.skip(args_base as int);
            &&& crate::bytes::le_value(block.subrange(0, 4)) == argv.len()
            &&& crate::args::strings_of(block.skip(8), argv.len()) == argv
        }),
        setup.bindings@.len() == m.imports@.len(),
        0 <= i < m.imports@.len() ==> setup.bindings@[i] == spec_headless_binding(m.imports@[i]@, h),
{
    let none = Seq::<Seq<u8>>::empty();
    let blob = spec_args_blob(argv, none);
    crate::args::law_block_lies_at_its_base(args_base, blob, 0);
    crate::args::law_args_blob_round_trip(argv, none);
    assert(argv + none =~= argv);
}

/// A booted session is ready for its first query exactly if it waits for input, and has handed its
/// boot output over; a refused one opens none.
pub proof fn law_booted_session_is_ready(
    before: Capture,
    after: Capture,
    start: PgStart,
    ev: VcpuEvent,
    stdout: Seq<u8>,
    code: int,
    session: Option<PgSession>,
)
    requires
        pg_opened(before, after, start, ev, stdout, code, session),
    ensures
        session is Some <==> start is Booted,
        start is Booted ==> (takes_query(session) <==> ev is StdinPark) && after.out@ == stdout
            && session->0.spec_delta(stdout).len() == 0,
        code == 0 <==> start is Booted && ev is StdinPark,
        code == -after.last_status,
        !(start is Booted) ==> after.out == before.out,
        after.snap == before.snap,
{
}

/// A query reaches a backend that can take it, with its statement, and is refused by any other.
pub proof fn law_query_reaches_a_ready_backend(
    before: Capture,
    after: Capture,
    session: Option<PgSession>,
    sql: Seq<u8>,
    r: Result<Vec<u8>, i32>,
)
    requires
        query_started(before, after, session, sql, r),
    ensures
        r is Ok <==> (session matches Some(s) && !s.ended),
        r matches Ok(input) ==> input@.take(sql.len() as int) == sql && input@.last() == 10 && after
            == before,
        r matches Err(code) ==> code == -2 && after.last_status == 2,
{
    law_statement_reaches_the_backend(sql);
}

/// An image that was asked for is the one kept; without a session the last one stays.
pub proof fn law_kept_image_is_the_sessions(cap: Capture, snap: Vec<u8>, files: Vec<u8>)
    ensures
        snapped(cap, snap, Some(files)).1 == files,
        snapped(cap, snap, Some(files)).2 == 0,
        snapped(cap, snap, Some(files)).0.last_status == 0,
        snapped(cap, snap, None).1 == snap,
        snapped(cap, snap, None).2 == -2,
        snapped(cap, snap, None).0.last_status == 2,
{
}

} // verus!
