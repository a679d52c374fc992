//! Compiler phases as confined children: the text of the parent that spawns one, and the drive loop
//! that runs it.

use vstd::arithmetic::power2::pow2;
use vstd::prelude::*;
use vstd::slice::slice_to_vec;
use vstd::utf8::encode_utf8;

use crate::args::{byte_rows, pg_args_blob, spec_args_blob};
use crate::fmt::{
    dec, hex_escape, hex_escaped, piece_views, push_pieces, rendered, Piece, PieceView,
};
use crate::plan::{
    gives, lays, lemma_contains_back, lemma_contains_transitive, lemma_contains_within,
    lemma_middle, lemma_rendered_concat, stores,
};
use crate::slots::Value;
use crate::text::{contains, texts};
use crate::traps::{first_i64, spec_first_i64, Trap, VcpuEvent};
use crate::window::size_of_log2;

verus! {

/// The arguments as bytes.
pub open spec fn utf8_rows(argv: Seq<Seq<char>>) -> Seq<Seq<u8>> {
    argv.map_values(|s: Seq<char>| encode_utf8(s))
}

/// The arguments as bytes.
pub fn argv_bytes(argv: &[String]) -> (r: Vec<Vec<u8>>)
    ensures
        byte_rows(r@) == utf8_rows(texts(argv@)),
{
    let mut out: Vec<Vec<u8>> = Vec::new();
    let mut i: usize = 0;
    while i < argv.len()
        invariant
            i <= argv.len(),
            out@.len() == i,
            forall|j: int| 0 <= j < i ==> (#[trigger] out@[j])@ == encode_utf8(argv@[j]@),
        decreases argv.len() - i,
    {
        out.push(argv[i].as_str().as_bytes_vec());
        i = i + 1;
    }
    assert(byte_rows(out@) =~= utf8_rows(texts(argv@)));
    out
}

/// How a phase is laid out: the child's window and where it is carved out of its parent's, which is
/// twice as large.
#[derive(Clone, Copy, Debug, PartialEq, Eq, Structural)]
pub struct PhaseLayout {
    /// The child's window, as a power of two.
    pub child_log2: u32,
    /// Where the child's window starts.
    pub carve: u64,
    /// The size of the parent's window.
    pub window: u64,
}

/// The child's window: eight times what its module declares, and no less than sixteen megabytes; a
/// module that declares none counts as declaring sixteen.
pub open spec fn phase_log2(declared: Option<u8>) -> nat {
    let d = (match declared {
        Some(d) => d as nat,
        None => 24,
    });
    if d + 3 > 24 {
        d + 3
    } else {
        24
    }
}

/// `r` lays a phase out whose module declares `declared`.
pub open spec fn laid_out(declared: Option<u8>, r: PhaseLayout) -> bool {
    &&& r.child_log2 == phase_log2(declared)
    &&& r.carve == pow2(phase_log2(declared))
    &&& r.window == 2 * pow2(phase_log2(declared))
}

/// Lays a phase out.
pub fn phase_layout(declared: Option<u8>) -> (r: PhaseLayout)
    requires
        phase_log2(declared) < 63,
    ensures
        laid_out(declared, r),
        r.child_log2 == phase_log2(declared),
        r.carve == pow2(phase_log2(declared)),
        r.window == 2 * pow2(phase_log2(declared)),
{
    let d: u8 = match declared {
        Some(d) => d,
        None => 24,
    };
    let log2: u8 = if d + 3 > 24 {
        d + 3
    } else {
        24
    };
    proof {
        vstd::arithmetic::power2::lemma_pow2_unfold((log2 + 1) as nat);
    }
    PhaseLayout {
        child_log2: log2 as u32,
        carve: size_of_log2(log2),
        window: size_of_log2(log2 + 1),
    }
}

/// The carve and the window above it fill the parent's window, and the child's window is at least
/// eight times what its module declares.
pub proof fn law_phase_has_heap_room(declared: u8)
    ensures
        pow2(phase_log2(Some(declared))) >= 8 * pow2(declared as nat),
        pow2(phase_log2(Some(declared))) >= 0x100_0000,
        pow2(phase_log2(Some(declared)) + 1) == 2 * pow2(phase_log2(Some(declared))),
{
    let n = phase_log2(Some(declared));
    let d = declared as nat;
    vstd::arithmetic::power2::lemma_pow2_adds(d, 3);
    vstd::arithmetic::power2::lemma_pow2_unfold(n + 1);
    vstd::arithmetic::power2::lemma2_to64();
    if d + 3 < n {
        vstd::arithmetic::power2::lemma_pow2_strictly_increases(d + 3, n);
    }
    if 24 < n {
        vstd::arithmetic::power2::lemma_pow2_strictly_increases(24, n);
    }
}

/// The code that writes where a capability's name stands and how long it is.
pub open spec fn grant_pieces(at: nat, name_at: nat, len: nat) -> Seq<PieceView> {
    seq![
        PieceView::Text("  x"@),
        PieceView::Num(at),
        PieceView::Text(" = i64.const "@),
        PieceView::Num(name_at + len * 0x1_0000_0000),
        PieceView::Text("\n  o"@),
        PieceView::Num(at),
        PieceView::Text(" = i64.const "@),
        PieceView::Num(at),
        PieceView::Text("\n  i64.store o"@),
        PieceView::Num(at),
        PieceView::Text(" x"@),
        PieceView::Num(at),
        PieceView::Text("\n"@),
    ]
}

/// The parent's window and data: the capability names and the child's argument block.
pub open spec fn parent_head(child_log2: nat, argv_at: nat, block: Seq<char>) -> Seq<PieceView> {
    seq![
        PieceView::Text("memory "@),
        PieceView::Num(child_log2 + 1),
        PieceView::Text(
            "\ndata 18432 \"fs\"\ndata 18448 \"stdout\"\ndata 18464 \"exit\"\ndata "@,
        ),
        PieceView::Num(argv_at),
        PieceView::Text(" \""@),
        PieceView::Text(block),
        PieceView::Text(
            "\"\nfunc (i32, i32, i32, i32, i32) -> (i64) {\nblock 0 (v0: i32, v1: i32, v2: i32, v3: i32, v4: i32) {\n"@,
        ),
    ]
}

/// The parent's spawn and join.
pub open spec fn parent_tail(child_log2: nat, carve: nat) -> Seq<PieceView> {
    seq![
        PieceView::Text(
            "  he = i64.extend_i32_u v4\n  ohe = i64.const 17448\n  i64.store ohe he\n  vmh = i64.extend_i32_u v1\n  vgptr = i64.const 17408\n  vgn = i64.const 3\n  ventry = i64.const 0\n  voff = i64.const "@,
        ),
        PieceView::Num(carve),
        PieceView::Text("\n  vsl = i64.const "@),
        PieceView::Num(child_log2),
        PieceView::Text(
            "\n  vq = i64.const 0\n  vh = call.cap 6 13 (i64, i64, i64, i64, i64, i64, i64) -> (i32) v0 (vmh, vgptr, vgn, ventry, voff, vsl, vq)\n  vr = call.cap 6 1 (i32) -> (i64) v0 (vh)\n  return vr\n  }\n}\n"@,
        ),
    ]
}

/// The text of the parent that spawns a child with the file system, standard output and exit, and
/// its arguments seeded in its window.
pub open spec fn spec_parent_src(
    child_log2: nat,
    carve: nat,
    args_base: nat,
    argv: Seq<Seq<char>>,
) -> Seq<char> {
    rendered(
        parent_head(
            child_log2,
            carve + args_base,
            hex_escaped(spec_args_blob(utf8_rows(argv), Seq::empty())),
        ),
    ) + rendered(grant_pieces(17408, 18432, 2))
        + "  hf = i64.extend_i32_u v2\n  ohf = i64.const 17416\n  i64.store ohf hf\n"@ + rendered(
        grant_pieces(17424, 18448, 6),
    ) + "  hs = i64.extend_i32_u v3\n  ohs = i64.const 17432\n  i64.store ohs hs\n"@ + rendered(
        grant_pieces(17440, 18464, 4),
    ) + rendered(parent_tail(child_log2, carve))
}

/// Appends the code that writes where a capability's name stands.
fn push_grant(out: &mut String, at: u64, name_at: u64, len: u64)
    requires
        name_at + len * 0x1_0000_0000 <= u64::MAX,
    ensures
        final(out)@ == old(out)@ + rendered(grant_pieces(at as nat, name_at as nat, len as nat)),
{
    let ps: [Piece; 13] = [
        Piece::Text("  x"),
        Piece::Num(at),
        Piece::Text(" = i64.const "),
        Piece::Num(name_at + len * 0x1_0000_0000),
        Piece::Text("\n  o"),
        Piece::Num(at),
        Piece::Text(" = i64.const "),
        Piece::Num(at),
        Piece::Text("\n  i64.store o"),
        Piece::Num(at),
        Piece::Text(" x"),
        Piece::Num(at),
        Piece::Text("\n"),
    ];
    push_pieces(out, ps.as_slice());
    assert(piece_views(ps@) =~= grant_pieces(at as nat, name_at as nat, len as nat));
}

/// The text of the parent that spawns a child.
pub fn op13_parent_src(child_sl: u32, carve_off: u64, args_base: u64, argv: &[String]) -> (r: String)
    requires
        carve_off + args_base <= u64::MAX,
    ensures
        r@ == spec_parent_src(
            child_sl as nat,
            carve_off as nat,
            args_base as nat,
            texts(argv@),
        ),
{
    let rows: Vec<Vec<u8>> = argv_bytes(argv);
    let blob: Vec<u8> = pg_args_blob(rows.as_slice());
    let block: String = hex_escape(blob.as_slice());
    let mut out: String = String::new();
    let head: [Piece; 7] = [
        Piece::Text("memory "),
        Piece::Num(child_sl as u64 + 1),
        Piece::Text("\ndata 18432 \"fs\"\ndata 18448 \"stdout\"\ndata 18464 \"exit\"\ndata "),
        Piece::Num(carve_off + args_base),
        Piece::Text(" \""),
        Piece::Text(block.as_str()),
        Piece::Text(
            "\"\nfunc (i32, i32, i32, i32, i32) -> (i64) {\nblock 0 (v0: i32, v1: i32, v2: i32, v3: i32, v4: i32) {\n",
        ),
    ];
    push_pieces(&mut out, head.as_slice());
    assert(piece_views(head@) =~= parent_head(
        child_sl as nat,
        (carve_off + args_base) as nat,
        block@,
    ));
    push_grant(&mut out, 17408, 18432, 2);
    out.append("  hf = i64.extend_i32_u v2\n  ohf = i64.const 17416\n  i64.store ohf hf\n");
    push_grant(&mut out, 17424, 18448, 6);
    out.append("  hs = i64.extend_i32_u v3\n  ohs = i64.const 17432\n  i64.store ohs hs\n");
    push_grant(&mut out, 17440, 18464, 4);
    let tail: [Piece; 5] = [
        Piece::Text(
            "  he = i64.extend_i32_u v4\n  ohe = i64.const 17448\n  i64.store ohe he\n  vmh = i64.extend_i32_u v1\n  vgptr = i64.const 17408\n  vgn = i64.const 3\n  ventry = i64.const 0\n  voff = i64.const ",
        ),
        Piece::Num(carve_off),
        Piece::Text("\n  vsl = i64.const "),
        Piece::Num(child_sl as u64),
        Piece::Text(
            "\n  vq = i64.const 0\n  vh = call.cap 6 13 (i64, i64, i64, i64, i64, i64, i64) -> (i32) v0 (vmh, vgptr, vgn, ventry, voff, vsl, vq)\n  vr = call.cap 6 1 (i32) -> (i64) v0 (vh)\n  return vr\n  }\n}\n",
        ),
    ];
    push_pieces(&mut out, tail.as_slice());
    assert(piece_views(tail@) =~= parent_tail(child_sl as nat, carve_off as nat));
    assert(out@ =~= spec_parent_src(
        child_sl as nat,
        carve_off as nat,
        args_base as nat,
        texts(argv@),
    ));
    out
}

/// The status that a phase leaves: its exit code or its result; `-1` for a trap, `-2` if it was not
/// run.
pub open spec fn spec_phase_status(ran: Option<Result<Vec<Value>, Trap>>) -> int {
    match ran {
        None => -2,
        Some(Ok(vals)) => spec_first_i64(vals@) as int,
        Some(Err(Trap::Exit(c))) => c as int,
        Some(Err(_)) => -1,
    }
}

/// The status that a phase leaves.
pub fn phase_status(ran: &Option<Result<Vec<Value>, Trap>>) -> (r: i64)
    ensures
        r == spec_phase_status(*ran),
{
    match ran {
        None => -2,
        Some(Ok(vals)) => first_i64(vals.as_slice()),
        Some(Err(Trap::Exit(c))) => *c as i64,
        Some(Err(_)) => -1,
    }
}

/// What the driver of a parent does next.
#[derive(Debug)]
pub enum DriveStep {
    /// The parent is done with this result.
    Return(Result<Vec<Value>, Trap>),
    /// Run a child over its carve, then hand its result to `record_child`.
    Start { module: u32, entry: u32, carve: u64, size_log2: u32, fuel: u64 },
    /// Hand this result of a child to the parent.
    Join(Result<Vec<Value>, Trap>),
}

/// Two results are the same.
pub open spec fn same_result(a: Result<Vec<Value>, Trap>, b: Result<Vec<Value>, Trap>) -> bool {
    match (a, b) {
        (Ok(x), Ok(y)) => x@ == y@,
        (Err(s), Err(t)) => s == t,
        _ => false,
    }
}

/// `step` answers what the parent stopped for.
pub open spec fn drives(
    children: Seq<Result<Vec<Value>, Trap>>,
    ev: VcpuEvent,
    step: DriveStep,
) -> bool {
    match ev {
        VcpuEvent::Done(vals) => step == DriveStep::Return(Ok(vals)),
        VcpuEvent::Trapped(t) => step == DriveStep::Return(Err(t)),
        VcpuEvent::Instantiate { module, entry, carve, size_log2, fuel } => step
            == (DriveStep::Start { module, entry, carve, size_log2, fuel }),
        VcpuEvent::Join { handle } => step matches DriveStep::Join(res) && same_result(
            res,
            children[handle as int],
        ),
        _ => step == DriveStep::Return(Err(Trap::Other)),
    }
}

/// Decides on what the parent stopped for: it may only start children and join them.
pub fn drive_op13(children: &[Result<Vec<Value>, Trap>], ev: VcpuEvent) -> (r: DriveStep)
    requires
        ev matches VcpuEvent::Join { handle } ==> 0 <= handle < children@.len(),
    ensures
        drives(children@, ev, r),
        match ev {
            VcpuEvent::Done(vals) => r == DriveStep::Return(Ok(vals)),
            VcpuEvent::Trapped(t) => r == DriveStep::Return(Err(t)),
            VcpuEvent::Instantiate { module, entry, carve, size_log2, fuel } => r
                == (DriveStep::Start { module, entry, carve, size_log2, fuel }),
            VcpuEvent::Join { handle } => r matches DriveStep::Join(res) && same_result(
                res,
                children@[handle as int],
            ),
            _ => r == DriveStep::Return(Err(Trap::Other)),
        },
{
    match ev {
        VcpuEvent::Done(vals) => DriveStep::Return(Ok(vals)),
        VcpuEvent::Trapped(t) => DriveStep::Return(Err(t)),
        VcpuEvent::Instantiate { module, entry, carve, size_log2, fuel } => DriveStep::Start {
            module,
            entry,
            carve,
            size_log2,
            fuel,
        },
        VcpuEvent::Join { handle } => {
            let res: Result<Vec<Value>, Trap> = match &children[handle as usize] {
                Ok(vals) => Ok(slice_to_vec(vals.as_slice())),
                Err(t) => Err(*t),
            };
            DriveStep::Join(res)
        },
        _ => DriveStep::Return(Err(Trap::Other)),
    }
}

/// The children with one more result, and its handle.
pub open spec fn recorded(
    children: Seq<Result<Vec<Value>, Trap>>,
    res: Result<Vec<Value>, Trap>,
) -> (Seq<Result<Vec<Value>, Trap>>, int) {
    (children.push(res), children.len() as int)
}

/// Keeps the result of a child and returns its handle.
pub fn record_child(
    children: &mut Vec<Result<Vec<Value>, Trap>>,
    res: Result<Vec<Value>, Trap>,
) -> (r: i32)
    requires
        old(children)@.len() <= i32::MAX,
    ensures
        (final(children)@, r as int) == recorded(old(children)@, res),
        r == old(children)@.len(),
        final(children)@ == old(children)@.push(res),
{
    let handle: i32 = children.len() as i32;
    children.push(res);
    handle
}

/// A child's handle joins that child: after it was recorded, and whatever is recorded later.
pub proof fn law_handle_joins_its_child(
    children: Seq<Result<Vec<Value>, Trap>>,
    res: Result<Vec<Value>, Trap>,
    later: Seq<Result<Vec<Value>, Trap>>,
)
    ensures
        (children.push(res) + later)[children.len() as int] == res,
{
}

/// What a request to run a command comes to.
#[derive(Debug)]
pub enum ExecStep {
    /// Not a run: the table of jobs answers.
    Table,
    /// Refused with this error number.
    Refused(i64),
    /// Run the parser with these arguments.
    Run(Vec<String>),
}

/// The command is the parser, the only one that can be run.
pub open spec fn names_parser(argv: Seq<Seq<char>>) -> bool {
    argv.len() > 0 && (argv[0] == "nifler"@ || argv[0] == "/bin/nifler"@)
}

/// What a request comes to.
pub open spec fn spec_make_exec(run: bool, argv: Result<Vec<String>, i64>, eperm: i64) -> ExecStep {
    if !run {
        ExecStep::Table
    } else {
        match argv {
            Err(e) => ExecStep::Refused(e),
            Ok(args) => if names_parser(texts(args@)) {
                ExecStep::Run(args)
            } else {
                ExecStep::Refused(eperm)
            },
        }
    }
}

/// Decides on a request: `run` says whether it asks for a run, `argv` are its arguments or the error
/// in reading them, `eperm` is what a command that is not known gets.
pub fn make_exec(run: bool, argv: Result<Vec<String>, i64>, eperm: i64) -> (r: ExecStep)
    ensures
        r == spec_make_exec(run, argv, eperm),
        match argv {
            _ if !run => r == ExecStep::Table,
            Err(e) => r == ExecStep::Refused(e),
            Ok(args) => if names_parser(texts(args@)) {
                r == ExecStep::Run(args)
            } else {
                r == ExecStep::Refused(eperm)
            },
        },
{
    if !run {
        return ExecStep::Table;
    }
    match argv {
        Err(e) => ExecStep::Refused(e),
        Ok(args) => {
            let known: bool = args.len() > 0 && (crate::text::same_text(args[0].as_str(), "nifler")
                || crate::text::same_text(args[0].as_str(), "/bin/nifler"));
            assert(args@.len() > 0 ==> texts(args@)[0] == args@[0]@);
            if known {
                ExecStep::Run(args)
            } else {
                ExecStep::Refused(eperm)
            }
        },
    }
}

/// A parent joins the child whose handle it got: whatever was recorded in between, the join hands
/// over that child's own result.
pub proof fn law_join_hands_over_its_child(
    children: Seq<Result<Vec<Value>, Trap>>,
    res: Result<Vec<Value>, Trap>,
    later: Seq<Result<Vec<Value>, Trap>>,
    handle: i32,
    step: DriveStep,
)
    requires
        handle == recorded(children, res).1,
        drives(recorded(children, res).0 + later, VcpuEvent::Join { handle }, step),
    ensures
        step matches DriveStep::Join(got) && (res matches Ok(vals) ==> got matches Ok(g) && g@
            == vals@) && (res matches Err(t) ==> got == Err::<Vec<Value>, Trap>(t)),
{
    let all = recorded(children, res).0 + later;
    assert(all[handle as int] == res);
}

/// A parent that ends hands its result back; a child is started with everything its parent asked
/// for; a stop that nobody serves ends the run as a trap.
pub proof fn law_parent_is_driven(
    children: Seq<Result<Vec<Value>, Trap>>,
    ev: VcpuEvent,
    step: DriveStep,
)
    requires
        drives(children, ev, step),
    ensures
        ev matches VcpuEvent::Done(vals) ==> step == DriveStep::Return(Ok(vals)),
        ev matches VcpuEvent::Trapped(t) ==> step == DriveStep::Return(Err(t)),
        ev matches VcpuEvent::Instantiate { module, entry, carve, size_log2, fuel } ==> (
        step matches DriveStep::Start {
            module: m,
            entry: e,
            carve: c,
            size_log2: s,
            fuel: f,
        } && m == module && e == entry && c == carve && s == size_log2 && f == fuel),
        step is Start ==> ev is Instantiate,
        step is Join ==> ev is Join,
        !(ev is Done || ev is Trapped || ev is Instantiate || ev is Join) ==> step
            == DriveStep::Return(Err(Trap::Other)),
{
}

/// A phase leaves its exit code or its result; a trap and a phase that never ran are told apart from
/// each other.
pub proof fn law_phase_status_is_how_it_ended(vals: Vec<Value>, code: i32, x: i64)
    ensures
        spec_phase_status(Some(Err(Trap::Exit(code)))) == code,
        spec_phase_status(Some(Err(Trap::Other))) == -1,
        spec_phase_status(None) == -2,
        vals@.len() > 0 && vals@[0] == Value::I64(x) ==> spec_phase_status(Some(Ok(vals))) == x,
        vals@.len() == 0 ==> spec_phase_status(Some(Ok(vals))) == 0,
{
}

/// Only the parser can be run, with the arguments as they came; everything else is refused with the
/// error that belongs to it, and a request that asks for no run never runs anything.
pub proof fn law_only_the_parser_runs(run: bool, args: Vec<String>, e: i64, eperm: i64)
    ensures
        spec_make_exec(run, Ok(args), eperm) == ExecStep::Run(args) <==> run && args@.len() > 0 && (
        args@[0]@ == "nifler"@ || args@[0]@ == "/bin/nifler"@),
        run && spec_make_exec(run, Ok(args), eperm) != ExecStep::Run(args) ==> spec_make_exec(
            run,
            Ok(args),
            eperm,
        ) == ExecStep::Refused(eperm),
        run ==> spec_make_exec(run, Err(e), eperm) == ExecStep::Refused(e),
        !run ==> spec_make_exec(run, Ok(args), eperm) == ExecStep::Table && spec_make_exec(
            run,
            Err(e),
            eperm,
        ) == ExecStep::Table,
{
    if args@.len() > 0 {
        assert(texts(args@)[0] == args@[0]@);
    }
}

/// Three neighbouring pieces stand next to each other.
proof fn lemma_three_pieces(
    pieces: Seq<PieceView>,
    k: int,
    head: Seq<char>,
    first: Seq<char>,
    last: Seq<char>,
    tail: Seq<char>,
)
    requires
        0 <= k,
        k + 2 < pieces.len(),
        pieces[k].text() == head + first,
        pieces[k + 2].text() == last + tail,
    ensures
        contains(rendered(pieces), first + pieces[k + 1].text() + last),
{
    let a = pieces.take(k);
    let c = pieces.skip(k + 3);
    let three = seq![pieces[k], pieces[k + 1], pieces[k + 2]];
    assert(pieces =~= a + three + c);
    lemma_rendered_concat(a, three);
    lemma_rendered_concat(a + three, c);
    let part = first + pieces[k + 1].text() + last;
    assert(rendered(three) =~= head + part + tail) by {
        let two = three.drop_last();
        let one = two.drop_last();
        assert(two.last() == pieces[k + 1]);
        assert(one.last() == pieces[k]);
        assert(rendered(one.drop_last()) =~= Seq::<char>::empty());
        assert(rendered(one) =~= pieces[k].text());
        assert(rendered(two) =~= pieces[k].text() + pieces[k + 1].text());
    }
    lemma_middle(head, part, tail);
    lemma_contains_within(rendered(a), rendered(three), rendered(c), part);
}

/// The parts of a parent's text stand in it.
proof fn lemma_parent_parts(child_log2: nat, carve: nat, args_base: nat, argv: Seq<Seq<char>>)
    ensures
        ({
            let text = spec_parent_src(child_log2, carve, args_base, argv);
            let block = hex_escaped(spec_args_blob(utf8_rows(argv), Seq::empty()));
            &&& contains(text, rendered(parent_head(child_log2, carve + args_base, block)))
            &&& contains(text, rendered(grant_pieces(17408, 18432, 2)))
            &&& contains(text, rendered(grant_pieces(17424, 18448, 6)))
            &&& contains(text, rendered(grant_pieces(17440, 18464, 4)))
            &&& contains(
                text,
                "  hf = i64.extend_i32_u v2\n  ohf = i64.const 17416\n  i64.store ohf hf\n"@,
            )
            &&& contains(
                text,
                "  hs = i64.extend_i32_u v3\n  ohs = i64.const 17432\n  i64.store ohs hs\n"@,
            )
            &&& contains(text, rendered(parent_tail(child_log2, carve)))
        }),
{
    let text = spec_parent_src(child_log2, carve, args_base, argv);
    let block = hex_escaped(spec_args_blob(utf8_rows(argv), Seq::empty()));
    let a = rendered(parent_head(child_log2, carve + args_base, block));
    let b = rendered(grant_pieces(17408, 18432, 2));
    let c = "  hf = i64.extend_i32_u v2\n  ohf = i64.const 17416\n  i64.store ohf hf\n"@;
    let d = rendered(grant_pieces(17424, 18448, 6));
    let e = "  hs = i64.extend_i32_u v3\n  ohs = i64.const 17432\n  i64.store ohs hs\n"@;
    let f = rendered(grant_pieces(17440, 18464, 4));
    let g = rendered(parent_tail(child_log2, carve));
    let none = Seq::<char>::empty();
    assert(text == a + b + c + d + e + f + g);
    assert(text =~= none + a + (b + c + d + e + f + g));
    lemma_middle(none, a, b + c + d + e + f + g);
    assert(text =~= a + b + (c + d + e + f + g));
    lemma_middle(a, b, c + d + e + f + g);
    assert(text =~= a + b + c + (d + e + f + g));
    lemma_middle(a + b, c, d + e + f + g);
    assert(text =~= a + b + c + d + (e + f + g));
    lemma_middle(a + b + c, d, e + f + g);
    assert(text =~= a + b + c + d + e + (f + g));
    lemma_middle(a + b + c + d, e, f + g);
    lemma_middle(a + b + c + d + e, f, g);
    lemma_contains_back(a + b + c + d + e + f, g);
}

/// A grant record's own lines.
#[verifier::spinoff_prover]
#[verifier::rlimit(50)]
proof fn lemma_grant_lines(at: nat, name_at: nat, len: nat)
    ensures
        ({
            let text = rendered(grant_pieces(at, name_at, len));
            &&& gives(text, "x"@ + dec(at), name_at + len * 0x1_0000_0000)
            &&& gives(text, "o"@ + dec(at), at)
            &&& stores(text, "o"@ + dec(at), "x"@ + dec(at))
        }),
{
    reveal(gives);
    reveal(stores);
    reveal_strlit("  ");
    reveal_strlit("x");
    reveal_strlit("o");
    reveal_strlit(" ");
    reveal_strlit("  x");
    reveal_strlit("\n  o");
    reveal_strlit(" = i64.const ");
    reveal_strlit("\n  i64.store o");
    reveal_strlit("  i64.store ");
    reveal_strlit(" x");
    reveal_strlit("\n");
    let pieces = grant_pieces(at, name_at, len);
    let none = Seq::<char>::empty();
    let value = name_at + len * 0x1_0000_0000;
    let n = dec(at);
    let first = seq![pieces[0], pieces[1], pieces[2], pieces[3]];
    let second = seq![pieces[4], pieces[5], pieces[6], pieces[7]];
    let third = seq![pieces[8], pieces[9], pieces[10], pieces[11], pieces[12]];
    assert(pieces =~= first + second + third);
    lemma_rendered_concat(first, second);
    lemma_rendered_concat(first + second, third);
    lemma_four(first);
    lemma_four(second);
    lemma_four(third.take(4));
    assert(third.drop_last() =~= third.take(4));
    let a = "  "@ + ("x"@ + n) + " = i64.const "@ + dec(value);
    let b = "  "@ + ("o"@ + n) + " = i64.const "@ + n;
    let c = "  i64.store "@ + ("o"@ + n) + " "@ + ("x"@ + n);
    assert(rendered(first) =~= a);
    assert(rendered(second) =~= "\n"@ + b);
    assert(rendered(third) =~= "\n"@ + c + "\n"@);
    let text = rendered(pieces);
    assert(text =~= none + (a + "\n"@) + (b + "\n"@ + c + "\n"@));
    lemma_middle(none, a + "\n"@, b + "\n"@ + c + "\n"@);
    assert(text =~= (a + "\n"@) + (b + "\n"@) + (c + "\n"@));
    lemma_middle(a + "\n"@, b + "\n"@, c + "\n"@);
    lemma_contains_back((a + "\n"@) + (b + "\n"@), c + "\n"@);
}

/// Four pieces stand one after the other.
proof fn lemma_four(pieces: Seq<PieceView>)
    requires
        pieces.len() == 4,
    ensures
        rendered(pieces) == pieces[0].text() + pieces[1].text() + pieces[2].text()
            + pieces[3].text(),
{
    let three = pieces.drop_last();
    let two = three.drop_last();
    let one = two.drop_last();
    assert(three.last() == pieces[2]);
    assert(two.last() == pieces[1]);
    assert(one.last() == pieces[0]);
    assert(rendered(one.drop_last()) =~= Seq::<char>::empty());
    assert(rendered(one) =~= pieces[0].text());
    assert(rendered(two) =~= pieces[0].text() + pieces[1].text());
    assert(rendered(three) =~= pieces[0].text() + pieces[1].text() + pieces[2].text());
}

/// A parent names what it grants its child: each record of its grant list points at the name that
/// the parent's window holds for it, with the name's length, and lies behind the one before.
pub proof fn law_phase_is_granted_by_name(
    child_log2: nat,
    carve: nat,
    args_base: nat,
    argv: Seq<Seq<char>>,
)
    ensures
        ({
            let text = spec_parent_src(child_log2, carve, args_base, argv);
            &&& gives(text, "x"@ + dec(17408), 18432 + "fs"@.len() * 0x1_0000_0000)
            &&& gives(text, "o"@ + dec(17408), 17408)
            &&& stores(text, "o"@ + dec(17408), "x"@ + dec(17408))
            &&& gives(text, "x"@ + dec(17424), 18448 + "stdout"@.len() * 0x1_0000_0000)
            &&& gives(text, "o"@ + dec(17424), 17424)
            &&& stores(text, "o"@ + dec(17424), "x"@ + dec(17424))
            &&& gives(text, "x"@ + dec(17440), 18464 + "exit"@.len() * 0x1_0000_0000)
            &&& gives(text, "o"@ + dec(17440), 17440)
            &&& stores(text, "o"@ + dec(17440), "x"@ + dec(17440))
            &&& contains(
                text,
                "  hf = i64.extend_i32_u v2\n  ohf = i64.const 17416\n  i64.store ohf hf\n"@,
            )
            &&& contains(
                text,
                "  hs = i64.extend_i32_u v3\n  ohs = i64.const 17432\n  i64.store ohs hs\n"@,
            )
        }),
{
    reveal_strlit("fs");
    reveal_strlit("stdout");
    reveal_strlit("exit");
    let text = spec_parent_src(child_log2, carve, args_base, argv);
    lemma_parent_parts(child_log2, carve, args_base, argv);
    lemma_grant_lines(17408, 18432, 2);
    lemma_grant_lines(17424, 18448, 6);
    lemma_grant_lines(17440, 18464, 4);
    lemma_lines_carry(text, 17408, 18432, 2);
    lemma_lines_carry(text, 17424, 18448, 6);
    lemma_lines_carry(text, 17440, 18464, 4);
}

/// The lines of a grant record stand in every text that holds the record.
proof fn lemma_lines_carry(text: Seq<char>, at: nat, name_at: nat, len: nat)
    requires
        contains(text, rendered(grant_pieces(at, name_at, len))),
    ensures
        gives(text, "x"@ + dec(at), name_at + len * 0x1_0000_0000),
        gives(text, "o"@ + dec(at), at),
        stores(text, "o"@ + dec(at), "x"@ + dec(at)),
{
    lemma_grant_lines(at, name_at, len);
    reveal(gives);
    reveal(stores);
    let mid = rendered(grant_pieces(at, name_at, len));
    let value = name_at + len * 0x1_0000_0000;
    lemma_contains_transitive(
        text,
        mid,
        "  "@ + ("x"@ + dec(at)) + " = i64.const "@ + dec(value) + "\n"@,
    );
    lemma_contains_transitive(
        text,
        mid,
        "  "@ + ("o"@ + dec(at)) + " = i64.const "@ + dec(at) + "\n"@,
    );
    lemma_contains_transitive(
        text,
        mid,
        "  i64.store "@ + ("o"@ + dec(at)) + " "@ + ("x"@ + dec(at)) + "\n"@,
    );
}

/// A parent spawns its child over the carve: the window is twice the child's, the child starts where
/// the carve does and has its size, and its arguments lie where it looks for them.
pub proof fn law_phase_runs_in_its_carve(
    child_log2: nat,
    carve: nat,
    args_base: nat,
    argv: Seq<Seq<char>>,
)
    ensures
        ({
            let text = spec_parent_src(child_log2, carve, args_base, argv);
            let block = spec_args_blob(argv.map_values(|s: Seq<char>| encode_utf8(s)), Seq::empty());
            &&& contains(text, "memory "@ + dec(child_log2 + 1) + "\n"@)
            &&& lays(text, carve + args_base, hex_escaped(block))
            &&& gives(text, "voff"@, carve)
            &&& gives(text, "vsl"@, child_log2)
        }),
{
    let text = spec_parent_src(child_log2, carve, args_base, argv);
    let block = hex_escaped(spec_args_blob(utf8_rows(argv), Seq::empty()));
    lemma_parent_parts(child_log2, carve, args_base, argv);
    let head = parent_head(child_log2, carve + args_base, block);
    let tail = parent_tail(child_log2, carve);
    lemma_head_lines(child_log2, carve + args_base, block);
    lemma_tail_lines(child_log2, carve);
    reveal(gives);
    reveal(lays);
    lemma_contains_transitive(text, rendered(head), "memory "@ + dec(child_log2 + 1) + "\n"@);
    lemma_contains_transitive(
        text,
        rendered(head),
        "data "@ + dec(carve + args_base) + " \""@ + block + "\"\n"@,
    );
    lemma_contains_transitive(
        text,
        rendered(tail),
        "  "@ + "voff"@ + " = i64.const "@ + dec(carve) + "\n"@,
    );
    lemma_contains_transitive(
        text,
        rendered(tail),
        "  "@ + "vsl"@ + " = i64.const "@ + dec(child_log2) + "\n"@,
    );
}

/// The window and the argument block of a parent's head.
#[verifier::spinoff_prover]
#[verifier::rlimit(50)]
proof fn lemma_head_lines(child_log2: nat, argv_at: nat, block: Seq<char>)
    ensures
        ({
            let text = rendered(parent_head(child_log2, argv_at, block));
            &&& contains(text, "memory "@ + dec(child_log2 + 1) + "\n"@)
            &&& contains(text, "data "@ + dec(argv_at) + " \""@ + block + "\"\n"@)
        }),
{
    let pieces = parent_head(child_log2, argv_at, block);
    let text = rendered(pieces);
    let names = pieces[2].text();
    let close = pieces[6].text();
    reveal_strlit("\n");
    reveal_strlit("data ");
    reveal_strlit("\"\n");
    reveal_strlit("\ndata 18432 \"fs\"\ndata 18448 \"stdout\"\ndata 18464 \"exit\"\ndata ");
    reveal_strlit(
        "\"\nfunc (i32, i32, i32, i32, i32) -> (i64) {\nblock 0 (v0: i32, v1: i32, v2: i32, v3: i32, v4: i32) {\n",
    );
    let none = Seq::<char>::empty();
    assert(none + pieces[0].text() =~= pieces[0].text());
    assert(names =~= "\n"@ + names.skip(1));
    lemma_three_pieces(pieces, 0, none, "memory "@, "\n"@, names.skip(1));
    let k = names.len() - 5;
    assert(names =~= names.take(k) + "data "@);
    assert(close =~= "\"\n"@ + close.skip(2));
    let front = pieces.take(2);
    let four = seq![pieces[2], pieces[3], pieces[4], pieces[5]];
    assert(pieces =~= front + four + seq![pieces[6]]);
    lemma_rendered_concat(front, four);
    lemma_rendered_concat(front + four, seq![pieces[6]]);
    lemma_four(four);
    assert(rendered(seq![pieces[6]]) =~= close) by {
        assert(seq![pieces[6]].drop_last() =~= Seq::empty());
        assert(rendered(Seq::empty()) =~= Seq::<char>::empty());
    }
    let line = "data "@ + dec(argv_at) + " \""@ + block + "\"\n"@;
    assert(text =~= (rendered(front) + names.take(k)) + line + close.skip(2));
    lemma_middle(rendered(front) + names.take(k), line, close.skip(2));
}

/// Where a parent's tail says that its child lies.
#[verifier::spinoff_prover]
#[verifier::rlimit(50)]
proof fn lemma_tail_lines(child_log2: nat, carve: nat)
    ensures
        ({
            let text = rendered(parent_tail(child_log2, carve));
            &&& contains(text, "  "@ + "voff"@ + " = i64.const "@ + dec(carve) + "\n"@)
            &&& contains(text, "  "@ + "vsl"@ + " = i64.const "@ + dec(child_log2) + "\n"@)
        }),
{
    let pieces = parent_tail(child_log2, carve);
    let open = pieces[0].text();
    let size = pieces[2].text();
    let spawn = pieces[4].text();
    reveal_strlit("  ");
    reveal_strlit("voff");
    reveal_strlit("vsl");
    reveal_strlit(" = i64.const ");
    reveal_strlit("\n");
    reveal_strlit(
        "  he = i64.extend_i32_u v4\n  ohe = i64.const 17448\n  i64.store ohe he\n  vmh = i64.extend_i32_u v1\n  vgptr = i64.const 17408\n  vgn = i64.const 3\n  ventry = i64.const 0\n  voff = i64.const ",
    );
    reveal_strlit("\n  vsl = i64.const ");
    reveal_strlit(
        "\n  vq = i64.const 0\n  vh = call.cap 6 13 (i64, i64, i64, i64, i64, i64, i64) -> (i32) v0 (vmh, vgptr, vgn, ventry, voff, vsl, vq)\n  vr = call.cap 6 1 (i32) -> (i64) v0 (vh)\n  return vr\n  }\n}\n",
    );
    let off = "  "@ + "voff"@ + " = i64.const "@;
    let sl = "  "@ + "vsl"@ + " = i64.const "@;
    let k = open.len() - off.len();
    assert(open =~= open.take(k) + off);
    assert(size =~= "\n"@ + sl);
    assert(spawn =~= "\n"@ + spawn.skip(1));
    lemma_three_pieces(pieces, 0, open.take(k), off, "\n"@, sl);
    lemma_three_pieces(pieces, 2, "\n"@, sl, "\n"@, spawn.skip(1));
}

/// A child's window starts where its parent's own half ends, and fills the other half exactly.
pub proof fn law_carve_is_the_upper_half(declared: Option<u8>, r: PhaseLayout)
    requires
        laid_out(declared, r),
    ensures
        r.carve + pow2(r.child_log2 as nat) == r.window,
        r.carve == pow2(r.child_log2 as nat),
        r.child_log2 >= 24,
        declared matches Some(d) ==> r.child_log2 >= d + 3,
        declared matches Some(d) ==> r.child_log2 == d + 3 || r.child_log2 == 24,
        declared is None ==> r.child_log2 == 27,
{
}

} // verus!
