//! A run as data: the nodes that a generated root guest spawns, each in a window of its own, the
//! capabilities that each is granted by name, and the text of the root.

use vstd::arithmetic::power2::pow2;
use vstd::prelude::*;
use vstd::utf8::encode_utf8;

use crate::args::{
    byte_rows, law_args_blob_round_trip, nul_free, spec_args_blob, strings_of, write_args_blob,
};
use crate::bytes::{le_value, lemma_le_bytes_len};
use crate::fmt::{
    dec, hex_escape, hex_escaped, law_decimal_round_trip, literal, piece_views, push_dec,
    push_pieces, quoted, rendered, Piece, PieceView,
};
use crate::slots::Value;
use crate::text::{chars_of, contains, occurs_at, owned, position_of, push_char, texts};
use crate::window::size_of_log2;

verus! {

/// The root's own window, as a power of two.
pub const ROOT_WINDOW_LOG2: u8 = 16;

/// The size of the root's own window.
pub const ROOT_WINDOW: u64 = 65536;

/// Grant records, of one slot each, above the guard page.
pub const REC_BASE: u64 = 17408;

/// One slot for the name of every root capability.
pub const NAME_BASE: u64 = 18432;

/// The argument blocks of the nodes, back to back.
pub const ARGV_BASE: u64 = 20480;

/// The size of a record and of a name.
pub const SLOT: u64 = 16;

/// One child: a module that the root spawns in a fresh window.
#[derive(Debug)]
pub struct Node {
    /// The node's window has `1 << window_log2` bytes.
    pub window_log2: u8,
    /// The arguments that the child's entry finds.
    pub argv: Vec<String>,
    /// The child's environment, behind its arguments.
    pub env: Vec<Vec<u8>>,
    /// The root capabilities that this node is granted, by name: its whole powerbox.
    pub grants: Vec<String>,
}

/// A run: the root's own capabilities, and the nodes it spawns and joins.
#[derive(Debug)]
pub struct Plan {
    /// The capabilities that the root holds, by name, in the order in which it takes them.
    pub caps: Vec<String>,
    /// Spawned in order, then joined in order; the root returns the last node's result.
    pub nodes: Vec<Node>,
}

/// What a node says.
#[verifier::ext_equal]
pub ghost struct NodeView {
    pub window_log2: u8,
    pub argv: Seq<Seq<char>>,
    pub env: Seq<Seq<u8>>,
    pub grants: Seq<Seq<char>>,
}

/// What a plan says.
#[verifier::ext_equal]
pub ghost struct PlanView {
    pub caps: Seq<Seq<char>>,
    pub nodes: Seq<NodeView>,
}

impl View for Node {
    type V = NodeView;

    open spec fn view(&self) -> NodeView {
        NodeView {
            window_log2: self.window_log2,
            argv: texts(self.argv@),
            env: byte_rows(self.env@),
            grants: texts(self.grants@),
        }
    }
}

impl View for Plan {
    type V = PlanView;

    open spec fn view(&self) -> PlanView {
        PlanView { caps: texts(self.caps@), nodes: self.nodes@.map_values(|n: Node| n@) }
    }
}

impl NodeView {
    /// The block of arguments and environment that the node's entry finds.
    pub open spec fn blob(self) -> Seq<u8> {
        spec_args_blob(self.argv.map_values(|s: Seq<char>| encode_utf8(s)), self.env)
    }
}

/// The sum of the nodes' window sizes.
pub open spec fn windows_total(nodes: Seq<NodeView>) -> nat
    decreases nodes.len(),
{
    if nodes.len() == 0 {
        0
    } else {
        windows_total(nodes.drop_last()) + pow2(nodes.last().window_log2 as nat)
    }
}

/// The part of a sum that the first nodes make up is no more than the whole.
proof fn lemma_windows_total_prefix(nodes: Seq<NodeView>, k: int)
    requires
        0 <= k <= nodes.len(),
    ensures
        windows_total(nodes.take(k)) <= windows_total(nodes),
    decreases nodes.len(),
{
    if k == nodes.len() {
        assert(nodes.take(k) =~= nodes);
    } else {
        lemma_windows_total_prefix(nodes.drop_last(), k);
        assert(nodes.drop_last().take(k) =~= nodes.take(k));
    }
}

/// The end of the argument blocks of the nodes.
pub open spec fn argv_end(nodes: Seq<NodeView>) -> nat
    decreases nodes.len(),
{
    if nodes.len() == 0 {
        ARGV_BASE as nat
    } else {
        argv_end(nodes.drop_last()) + nodes.last().blob().len()
    }
}

/// The names that the nodes are granted, in the order of their records.
pub open spec fn granted(nodes: Seq<NodeView>) -> Seq<Seq<char>>
    decreases nodes.len(),
{
    if nodes.len() == 0 {
        Seq::empty()
    } else {
        granted(nodes.drop_last()) + nodes.last().grants
    }
}

/// The first of `names` that is not good.
pub open spec fn first_not(
    names: Seq<Seq<char>>,
    good: spec_fn(Seq<char>) -> bool,
) -> Option<Seq<char>>
    decreases names.len(),
{
    if names.len() == 0 {
        None
    } else {
        match first_not(names.drop_last(), good) {
            Some(name) => Some(name),
            None => if good(names.last()) {
                None
            } else {
                Some(names.last())
            },
        }
    }
}

/// A prefix that has such a name has the first one.
proof fn lemma_first_not_prefix(
    names: Seq<Seq<char>>,
    good: spec_fn(Seq<char>) -> bool,
    k: int,
)
    requires
        0 <= k <= names.len(),
        first_not(names.take(k), good) is Some,
    ensures
        first_not(names, good) == first_not(names.take(k), good),
    decreases names.len(),
{
    if k == names.len() {
        assert(names.take(k) =~= names);
    } else {
        assert(names.drop_last().take(k) =~= names.take(k));
        lemma_first_not_prefix(names.drop_last(), good, k);
    }
}

/// The name can stand in a data literal and fits its slot: a short word of visible ASCII without
/// quote and backslash.
pub open spec fn plain_name(s: Seq<char>) -> bool {
    &&& 1 <= s.len() <= 16
    &&& forall|i: int|
        0 <= i < s.len() ==> '!' <= #[trigger] s[i] <= '~' && s[i] != '"' && s[i] != '\\'
}

/// Being a plain name.
pub open spec fn plain() -> spec_fn(Seq<char>) -> bool {
    |s: Seq<char>| plain_name(s)
}

/// Being one of `caps`.
pub open spec fn held_by(caps: Seq<Seq<char>>) -> spec_fn(Seq<char>) -> bool {
    |s: Seq<char>| caps.contains(s)
}

/// The first place of `name` in `caps`, or their number.
pub open spec fn cap_place(caps: Seq<Seq<char>>, name: Seq<char>) -> nat
    decreases caps.len(),
{
    if caps.len() == 0 || caps[0] == name {
        0
    } else {
        1 + cap_place(caps.drop_first(), name)
    }
}

/// The first place is where the name stands and nothing in front is the name.
proof fn lemma_cap_place(caps: Seq<Seq<char>>, name: Seq<char>, i: int)
    requires
        0 <= i < caps.len(),
        caps[i] == name,
        forall|j: int| 0 <= j < i ==> #[trigger] caps[j] != name,
    ensures
        cap_place(caps, name) == i,
    decreases caps.len(),
{
    if i > 0 {
        let rest = caps.drop_first();
        assert(caps[0] != name);
        assert forall|j: int| 0 <= j < i - 1 implies #[trigger] rest[j] != name by {
            assert(caps[j + 1] != name);
        }
        lemma_cap_place(rest, name, i - 1);
    }
}

/// The root parameter that holds the capability at place `i`, for `n` nodes.
pub open spec fn cap_param(n: nat, i: nat) -> nat {
    2 + n + i
}

/// The number behind a name of the node `k`; the first node's names have none.
pub open spec fn node_mark(k: nat) -> Seq<char> {
    if k == 0 {
        Seq::empty()
    } else {
        seq!['_'] + dec(k)
    }
}

/// A data literal: `text` at `at`.
pub open spec fn data_pieces(at: nat, text: Seq<char>) -> Seq<PieceView> {
    seq![
        PieceView::Text("data "@),
        PieceView::Num(at),
        PieceView::Text(" \""@),
        PieceView::Text(text),
        PieceView::Text("\"\n"@),
    ]
}

/// The data literals of the capability names.
pub open spec fn names_text(caps: Seq<Seq<char>>) -> Seq<char>
    decreases caps.len(),
{
    if caps.len() == 0 {
        Seq::empty()
    } else {
        names_text(caps.drop_last()) + rendered(
            data_pieces((NAME_BASE + (caps.len() - 1) * SLOT) as nat, caps.last()),
        )
    }
}

/// The data literals of the nodes' argument blocks.
pub open spec fn argv_text(nodes: Seq<NodeView>) -> Seq<char>
    decreases nodes.len(),
{
    if nodes.len() == 0 {
        Seq::empty()
    } else {
        argv_text(nodes.drop_last()) + rendered(
            data_pieces(argv_end(nodes.drop_last()), hex_escaped(nodes.last().blob())),
        )
    }
}

/// The code that fills the record at `at` with the name's place and length and the handle in the
/// parameter `v`.
pub open spec fn record_pieces(at: nat, word: nat, v: nat) -> Seq<PieceView> {
    seq![
        PieceView::Text("  xr"@),
        PieceView::Num(at),
        PieceView::Text(" = i64.const "@),
        PieceView::Num(word),
        PieceView::Text("\n  or"@),
        PieceView::Num(at),
        PieceView::Text(" = i64.const "@),
        PieceView::Num(at),
        PieceView::Text("\n  i64.store or"@),
        PieceView::Num(at),
        PieceView::Text(" xr"@),
        PieceView::Num(at),
        PieceView::Text("\n  h"@),
        PieceView::Num(at),
        PieceView::Text(" = i64.extend_i32_u v"@),
        PieceView::Num(v),
        PieceView::Text("\n  oh"@),
        PieceView::Num(at),
        PieceView::Text(" = i64.const "@),
        PieceView::Num(at + 8),
        PieceView::Text("\n  i64.store oh"@),
        PieceView::Num(at),
        PieceView::Text(" h"@),
        PieceView::Num(at),
        PieceView::Text("\n"@),
    ]
}

/// The first word of a record: where the name stands, and its length in the upper half.
pub open spec fn name_word(i: nat, len: nat) -> nat {
    (NAME_BASE + i * SLOT + len * 0x1_0000_0000) as nat
}

/// The code that fills the records of `names`, for a root with `n` nodes.
pub open spec fn records_text(names: Seq<Seq<char>>, caps: Seq<Seq<char>>, n: nat) -> Seq<char>
    decreases names.len(),
{
    if names.len() == 0 {
        Seq::empty()
    } else {
        let i = cap_place(caps, names.last());
        records_text(names.drop_last(), caps, n) + rendered(
            record_pieces(
                (REC_BASE + (names.len() - 1) * SLOT) as nat,
                name_word(i, names.last().len()),
                cap_param(n, i),
            ),
        )
    }
}

/// The code that takes the module of the node `k`.
pub open spec fn module_pieces(k: nat) -> Seq<PieceView> {
    seq![
        PieceView::Text("  vmh"@),
        PieceView::Text(node_mark(k)),
        PieceView::Text(" = i64.extend_i32_u v"@),
        PieceView::Num(1 + k),
        PieceView::Text("\n"@),
    ]
}

/// The code that takes the budget of `n` nodes.
pub open spec fn budget_pieces(n: nat) -> Seq<PieceView> {
    seq![
        PieceView::Text("  vmin = i64.extend_i32_u v"@),
        PieceView::Num(1 + n),
        PieceView::Text("\n"@),
    ]
}

/// The operands of the spawn of a node: its records, its window and its argument block.
pub open spec fn operand_pieces(
    mark: Seq<char>,
    rec: nat,
    grants: nat,
    log2: nat,
    at: nat,
    len: nat,
) -> Seq<PieceView> {
    seq![
        PieceView::Text("  vgptr"@),
        PieceView::Text(mark),
        PieceView::Text(" = i64.const "@),
        PieceView::Num(rec),
        PieceView::Text("\n  vgn"@),
        PieceView::Text(mark),
        PieceView::Text(" = i64.const "@),
        PieceView::Num(grants),
        PieceView::Text("\n  ventry"@),
        PieceView::Text(mark),
        PieceView::Text(" = i64.const 0\n  vlog"@),
        PieceView::Text(mark),
        PieceView::Text(" = i64.const "@),
        PieceView::Num(log2),
        PieceView::Text("\n  vq"@),
        PieceView::Text(mark),
        PieceView::Text(" = i64.const 0\n  vap"@),
        PieceView::Text(mark),
        PieceView::Text(" = i64.const "@),
        PieceView::Num(at),
        PieceView::Text("\n  val"@),
        PieceView::Text(mark),
        PieceView::Text(" = i64.const "@),
        PieceView::Num(len),
    ]
}

/// The spawn of a node.
pub open spec fn spawn_pieces(mark: Seq<char>) -> Seq<PieceView> {
    seq![
        PieceView::Text("\n  vh"@),
        PieceView::Text(mark),
        PieceView::Text(
            " = call.cap 6 15 (i64, i64, i64, i64, i64, i64, i64, i64, i64) -> (i32) v0 (vmin, vmh"@,
        ),
        PieceView::Text(mark),
        PieceView::Text(", vgptr"@),
        PieceView::Text(mark),
        PieceView::Text(", vgn"@),
        PieceView::Text(mark),
        PieceView::Text(", ventry"@),
        PieceView::Text(mark),
        PieceView::Text(", vlog"@),
        PieceView::Text(mark),
        PieceView::Text(", vq"@),
        PieceView::Text(mark),
        PieceView::Text(", vap"@),
        PieceView::Text(mark),
        PieceView::Text(", val"@),
        PieceView::Text(mark),
        PieceView::Text(")\n"@),
    ]
}

/// The code for the node `k` of `n`; the budget is taken with the first node.
pub open spec fn spawn_text(
    k: nat,
    n: nat,
    rec: nat,
    grants: nat,
    log2: nat,
    at: nat,
    len: nat,
) -> Seq<char> {
    rendered(module_pieces(k)) + (if k == 0 {
        rendered(budget_pieces(n))
    } else {
        Seq::empty()
    }) + rendered(operand_pieces(node_mark(k), rec, grants, log2, at, len)) + rendered(
        spawn_pieces(node_mark(k)),
    )
}

/// The code that joins a node.
pub open spec fn join_pieces(mark: Seq<char>) -> Seq<PieceView> {
    seq![
        PieceView::Text("  vr"@),
        PieceView::Text(mark),
        PieceView::Text(" = call.cap 6 1 (i32) -> (i64) v0 (vh"@),
        PieceView::Text(mark),
        PieceView::Text(")\n"@),
    ]
}

/// One more parameter, after `k` others.
pub open spec fn param_pieces(k: nat) -> Seq<PieceView> {
    seq![
        PieceView::Text(
            if k == 0 {
                "v"@
            } else {
                ", v"@
            },
        ),
        PieceView::Num(k),
        PieceView::Text(": i32"@),
    ]
}

/// The code that spawns the first `k` nodes.
pub open spec fn spawns_text(nodes: Seq<NodeView>, k: nat) -> Seq<char>
    decreases k,
{
    if k == 0 {
        Seq::empty()
    } else {
        let before = nodes.take(k - 1);
        let node = nodes[k - 1];
        spawns_text(nodes, (k - 1) as nat) + spawn_text(
            (k - 1) as nat,
            nodes.len(),
            (REC_BASE + granted(before).len() * SLOT) as nat,
            node.grants.len(),
            node.window_log2 as nat,
            argv_end(before),
            node.blob().len(),
        )
    }
}

/// The code that joins the first `k` nodes.
pub open spec fn joins_text(k: nat) -> Seq<char>
    decreases k,
{
    if k == 0 {
        Seq::empty()
    } else {
        joins_text((k - 1) as nat) + rendered(join_pieces(node_mark((k - 1) as nat)))
    }
}

/// The types of `k` parameters.
pub open spec fn types_text(k: nat) -> Seq<char>
    decreases k,
{
    if k == 0 {
        Seq::empty()
    } else if k == 1 {
        "i32"@
    } else {
        types_text((k - 1) as nat) + ", i32"@
    }
}

/// The names and types of `k` parameters.
pub open spec fn params_text(k: nat) -> Seq<char>
    decreases k,
{
    if k == 0 {
        Seq::empty()
    } else {
        params_text((k - 1) as nat) + rendered(param_pieces((k - 1) as nat))
    }
}

impl PlanView {
    /// How many parameters the root takes: the instantiator, a module for every node, the budget
    /// and the capabilities.
    pub open spec fn param_count(self) -> nat {
        2 + self.nodes.len() + self.caps.len()
    }

    /// The text of the root.
    pub open spec fn root_text(self) -> Seq<char> {
        let n = self.nodes.len();
        "memory 16\n"@ + names_text(self.caps) + argv_text(self.nodes) + "func ("@ + types_text(
            self.param_count(),
        ) + ") -> (i64) {\nblock 0 ("@ + params_text(self.param_count()) + ") {\n"@ + records_text(
            granted(self.nodes),
            self.caps,
            n,
        ) + spawns_text(self.nodes, n) + joins_text(n) + "  return vr"@ + node_mark((n - 1) as nat)
            + "\n  }\n}\n"@
    }

    /// The text of the root, or what does not fit or resolve: the first of these that applies.
    pub open spec fn root_src(self) -> Result<Seq<char>, Seq<char>> {
        let bad = first_not(self.caps, plain());
        let unheld = first_not(granted(self.nodes), held_by(self.caps));
        if self.nodes.len() == 0 {
            Err("a plan spawns at least one node"@)
        } else if NAME_BASE + self.caps.len() * SLOT > ARGV_BASE {
            Err(dec(self.caps.len()) + " root capabilities do not fit"@)
        } else if bad is Some {
            Err(bad_name(literal(bad->0)))
        } else if argv_end(self.nodes) > ROOT_WINDOW {
            Err("the nodes' argv does not fit the root's window"@)
        } else if unheld is Some {
            Err(not_held(literal(unheld->0)))
        } else if REC_BASE + granted(self.nodes).len() * SLOT > NAME_BASE {
            Err(dec(granted(self.nodes).len()) + " grant records do not fit"@)
        } else {
            Ok(self.root_text())
        }
    }
}

/// The root's arguments in the order of its parameters.
pub open spec fn spec_root_args(inst: i32, modules: Seq<i32>, budget: i32, caps: Seq<i32>) -> Seq<
    Value,
> {
    (seq![inst] + modules + seq![budget] + caps).map_values(|h: i32| Value::I32(h))
}

/// What is said of a capability name that cannot stand in the root, given as a quoted literal.
pub open spec fn bad_name(literal: Seq<char>) -> Seq<char> {
    "capability name "@ + literal + " is not a short ASCII word"@
}

/// What is said of a granted name that the root does not hold, given as a quoted literal.
pub open spec fn not_held(literal: Seq<char>) -> Seq<char> {
    "a node is granted "@ + literal + ", which the root does not hold"@
}

/// What is said of a capability name that cannot stand in the root.
pub fn bad_name_message(literal: &str) -> (r: String)
    ensures
        r@ == bad_name(literal@),
{
    let mut s: String = "capability name ".to_owned();
    s.append(literal);
    s.append(" is not a short ASCII word");
    s
}

/// What is said of a granted name that the root does not hold.
pub fn not_held_message(literal: &str) -> (r: String)
    ensures
        r@ == not_held(literal@),
{
    let mut s: String = "a node is granted ".to_owned();
    s.append(literal);
    s.append(", which the root does not hold");
    s
}

/// Whether the name can stand in a data literal and fits its slot.
fn is_plain_name(name: &str) -> (r: bool)
    ensures
        r == plain_name(name@),
{
    let s: Vec<char> = chars_of(name);
    if s.len() == 0 || s.len() > 16 {
        return false;
    }
    let mut i: usize = 0;
    while i < s.len()
        invariant
            i <= s.len(),
            s@ == name@,
            forall|j: int|
                0 <= j < i ==> '!' <= #[trigger] s@[j] <= '~' && s@[j] != '"' && s@[j] != '\\',
        decreases s.len() - i,
    {
        let c: char = s[i];
        if c < '!' || c > '~' || c == '"' || c == '\\' {
            assert(!('!' <= name@[i as int] <= '~' && name@[i as int] != '"' && name@[i as int]
                != '\\'));
            return false;
        }
        i = i + 1;
    }
    true
}

/// The number behind a name of the node `k`.
fn mark_of(k: u64) -> (r: String)
    ensures
        r@ == node_mark(k as nat),
{
    let mut s: String = String::new();
    if k > 0 {
        push_char(&mut s, '_');
        push_dec(&mut s, k);
        assert(s@ =~= node_mark(k as nat));
    }
    s
}

/// Appends the data literal `text` at `at`.
fn push_data(out: &mut String, at: u64, text: &str)
    ensures
        final(out)@ == old(out)@ + rendered(data_pieces(at as nat, text@)),
{
    let ps: [Piece; 5] = [
        Piece::Text("data "),
        Piece::Num(at),
        Piece::Text(" \""),
        Piece::Text(text),
        Piece::Text("\"\n"),
    ];
    push_pieces(out, ps.as_slice());
    assert(piece_views(ps@) =~= data_pieces(at as nat, text@));
}

/// Appends the code that fills a record.
fn push_record(out: &mut String, at: u64, word: u64, v: u64)
    requires
        at + 8 <= u64::MAX,
    ensures
        final(out)@ == old(out)@ + rendered(record_pieces(at as nat, word as nat, v as nat)),
{
    let ps: [Piece; 25] = [
        Piece::Text("  xr"),
        Piece::Num(at),
        Piece::Text(" = i64.const "),
        Piece::Num(word),
        Piece::Text("\n  or"),
        Piece::Num(at),
        Piece::Text(" = i64.const "),
        Piece::Num(at),
        Piece::Text("\n  i64.store or"),
        Piece::Num(at),
        Piece::Text(" xr"),
        Piece::Num(at),
        Piece::Text("\n  h"),
        Piece::Num(at),
        Piece::Text(" = i64.extend_i32_u v"),
        Piece::Num(v),
        Piece::Text("\n  oh"),
        Piece::Num(at),
        Piece::Text(" = i64.const "),
        Piece::Num(at + 8),
        Piece::Text("\n  i64.store oh"),
        Piece::Num(at),
        Piece::Text(" h"),
        Piece::Num(at),
        Piece::Text("\n"),
    ];
    push_pieces(out, ps.as_slice());
    assert(piece_views(ps@) =~= record_pieces(at as nat, word as nat, v as nat));
}

/// Appends the code that takes the node's module, and for the first node the budget.
fn push_module(out: &mut String, k: u64, n: u64, mark: &str)
    requires
        k < n < u64::MAX,
        mark@ == node_mark(k as nat),
    ensures
        final(out)@ == old(out)@ + rendered(module_pieces(k as nat)) + (if k == 0 {
            rendered(budget_pieces(n as nat))
        } else {
            Seq::empty()
        }),
{
    let ghost start = out@;
    let ps: [Piece; 5] = [
        Piece::Text("  vmh"),
        Piece::Text(mark),
        Piece::Text(" = i64.extend_i32_u v"),
        Piece::Num(1 + k),
        Piece::Text("\n"),
    ];
    push_pieces(out, ps.as_slice());
    assert(piece_views(ps@) =~= module_pieces(k as nat));
    if k == 0 {
        let qs: [Piece; 3] = [
            Piece::Text("  vmin = i64.extend_i32_u v"),
            Piece::Num(1 + n),
            Piece::Text("\n"),
        ];
        push_pieces(out, qs.as_slice());
        assert(piece_views(qs@) =~= budget_pieces(n as nat));
    } else {
        assert(out@ =~= start + rendered(module_pieces(k as nat)) + Seq::<char>::empty());
    }
}

/// Appends the operands of a spawn.
fn push_operands(out: &mut String, mark: &str, rec: u64, grants: u64, log2: u8, at: u64, len: u64)
    ensures
        final(out)@ == old(out)@ + rendered(
            operand_pieces(
                mark@,
                rec as nat,
                grants as nat,
                log2 as nat,
                at as nat,
                len as nat,
            ),
        ),
{
    let ps: [Piece; 24] = [
        Piece::Text("  vgptr"),
        Piece::Text(mark),
        Piece::Text(" = i64.const "),
        Piece::Num(rec),
        Piece::Text("\n  vgn"),
        Piece::Text(mark),
        Piece::Text(" = i64.const "),
        Piece::Num(grants),
        Piece::Text("\n  ventry"),
        Piece::Text(mark),
        Piece::Text(" = i64.const 0\n  vlog"),
        Piece::Text(mark),
        Piece::Text(" = i64.const "),
        Piece::Num(log2 as u64),
        Piece::Text("\n  vq"),
        Piece::Text(mark),
        Piece::Text(" = i64.const 0\n  vap"),
        Piece::Text(mark),
        Piece::Text(" = i64.const "),
        Piece::Num(at),
        Piece::Text("\n  val"),
        Piece::Text(mark),
        Piece::Text(" = i64.const "),
        Piece::Num(len),
    ];
    push_pieces(out, ps.as_slice());
    assert(piece_views(ps@) =~= operand_pieces(
        mark@,
        rec as nat,
        grants as nat,
        log2 as nat,
        at as nat,
        len as nat,
    ));
}

/// Appends a spawn.
fn push_spawn(out: &mut String, mark: &str)
    ensures
        final(out)@ == old(out)@ + rendered(spawn_pieces(mark@)),
{
    let ps: [Piece; 19] = [
        Piece::Text("\n  vh"),
        Piece::Text(mark),
        Piece::Text(
            " = call.cap 6 15 (i64, i64, i64, i64, i64, i64, i64, i64, i64) -> (i32) v0 (vmin, vmh",
        ),
        Piece::Text(mark),
        Piece::Text(", vgptr"),
        Piece::Text(mark),
        Piece::Text(", vgn"),
        Piece::Text(mark),
        Piece::Text(", ventry"),
        Piece::Text(mark),
        Piece::Text(", vlog"),
        Piece::Text(mark),
        Piece::Text(", vq"),
        Piece::Text(mark),
        Piece::Text(", vap"),
        Piece::Text(mark),
        Piece::Text(", val"),
        Piece::Text(mark),
        Piece::Text(")\n"),
    ];
    push_pieces(out, ps.as_slice());
    assert(piece_views(ps@) =~= spawn_pieces(mark@));
}

/// Appends the code that joins the first `k` nodes.
fn push_joins(out: &mut String, k: u64)
    ensures
        final(out)@ == old(out)@ + joins_text(k as nat),
    decreases k,
{
    let ghost start = out@;
    if k > 0 {
        push_joins(out, k - 1);
        let mark: String = mark_of(k - 1);
        let ps: [Piece; 5] = [
            Piece::Text("  vr"),
            Piece::Text(mark.as_str()),
            Piece::Text(" = call.cap 6 1 (i32) -> (i64) v0 (vh"),
            Piece::Text(mark.as_str()),
            Piece::Text(")\n"),
        ];
        push_pieces(out, ps.as_slice());
        assert(piece_views(ps@) =~= join_pieces(mark@));
        assert(out@ =~= start + joins_text(k as nat));
    } else {
        assert(out@ =~= start + joins_text(0));
    }
}

/// Appends the types of `k` parameters.
fn push_types(out: &mut String, k: u64)
    ensures
        final(out)@ == old(out)@ + types_text(k as nat),
    decreases k,
{
    let ghost start = out@;
    if k == 0 {
        assert(out@ =~= start + types_text(0));
    } else if k == 1 {
        out.append("i32");
    } else {
        push_types(out, k - 1);
        out.append(", i32");
        assert(out@ =~= start + types_text(k as nat));
    }
}

/// Appends the names and types of `k` parameters.
fn push_params(out: &mut String, k: u64)
    ensures
        final(out)@ == old(out)@ + params_text(k as nat),
    decreases k,
{
    let ghost start = out@;
    if k > 0 {
        push_params(out, k - 1);
        let head: &str = if k == 1 {
            "v"
        } else {
            ", v"
        };
        let ps: [Piece; 3] = [Piece::Text(head), Piece::Num(k - 1), Piece::Text(": i32")];
        push_pieces(out, ps.as_slice());
        assert(piece_views(ps@) =~= param_pieces((k - 1) as nat));
        assert(out@ =~= start + params_text(k as nat));
    } else {
        assert(out@ =~= start + params_text(0));
    }
}

/// The blocks of the first nodes end before those of all.
proof fn lemma_argv_end_prefix(nodes: Seq<NodeView>, k: int)
    requires
        0 <= k <= nodes.len(),
    ensures
        argv_end(nodes.take(k)) <= argv_end(nodes),
    decreases nodes.len(),
{
    if k == nodes.len() {
        assert(nodes.take(k) =~= nodes);
    } else {
        lemma_argv_end_prefix(nodes.drop_last(), k);
        assert(nodes.drop_last().take(k) =~= nodes.take(k));
    }
}

/// The names of the first nodes come first.
proof fn lemma_granted_prefix(nodes: Seq<NodeView>, k: int)
    requires
        0 <= k <= nodes.len(),
    ensures
        granted(nodes.take(k)).len() <= granted(nodes).len(),
        granted(nodes).take(granted(nodes.take(k)).len() as int) == granted(nodes.take(k)),
    decreases nodes.len(),
{
    if k == nodes.len() {
        assert(nodes.take(k) =~= nodes);
        assert(granted(nodes).take(granted(nodes).len() as int) =~= granted(nodes));
    } else {
        lemma_granted_prefix(nodes.drop_last(), k);
        assert(nodes.drop_last().take(k) =~= nodes.take(k));
        assert(granted(nodes).take(granted(nodes.take(k)).len() as int) =~= granted(
            nodes.drop_last(),
        ).take(granted(nodes.take(k)).len() as int));
    }
}

impl Node {
    /// The block of arguments and environment that the node's entry finds.
    pub fn blob(&self) -> (r: Vec<u8>)
        ensures
            r@ == self@.blob(),
            r@.len() >= 8,
    {
        let mut argv: Vec<Vec<u8>> = Vec::new();
        let mut i: usize = 0;
        while i < self.argv.len()
            invariant
                i <= self.argv.len(),
                argv@.len() == i,
                forall|j: int| 0 <= j < i ==> (#[trigger] argv@[j])@ == encode_utf8(self.argv@[j]@),
            decreases self.argv.len() - i,
        {
            argv.push(self.argv[i].as_str().as_bytes_vec());
            i = i + 1;
        }
        assert(byte_rows(argv@) =~= self@.argv.map_values(|s: Seq<char>| encode_utf8(s)));
        proof {
            lemma_le_bytes_len(argv@.len(), 4);
            lemma_le_bytes_len(self.env@.len(), 4);
        }
        write_args_blob(argv.as_slice(), self.env.as_slice())
    }
}

impl Plan {
    /// The data literals of the capability names, or what is said of the first bad one.
    fn names_data(&self) -> (r: Result<String, String>)
        requires
            NAME_BASE + self.caps@.len() * SLOT <= ARGV_BASE,
        ensures
            match r {
                Ok(s) => first_not(self@.caps, plain()) is None && s@ == names_text(self@.caps),
                Err(e) => first_not(self@.caps, plain()) matches Some(name) && e@ == bad_name(
                    literal(name),
                ),
            },
    {
        let mut data: String = String::new();
        let mut i: usize = 0;
        while i < self.caps.len()
            invariant
                i <= self.caps.len(),
                NAME_BASE + self.caps@.len() * SLOT <= ARGV_BASE,
                first_not(self@.caps.take(i as int), plain()) is None,
                data@ == names_text(self@.caps.take(i as int)),
            decreases self.caps.len() - i,
        {
            let name: &String = &self.caps[i];
            proof {
                let now = self@.caps.take(i as int + 1);
                assert(now.drop_last() =~= self@.caps.take(i as int));
                assert(now.last() == name@);
                assert(plain()(name@) == plain_name(name@));
            }
            if !is_plain_name(name.as_str()) {
                proof {
                    lemma_first_not_prefix(self@.caps, plain(), i as int + 1);
                }
                let shown: String = quoted(name.as_str());
                return Err(bad_name_message(shown.as_str()));
            }
            push_data(&mut data, NAME_BASE + i as u64 * SLOT, name.as_str());
            i = i + 1;
        }
        assert(self@.caps.take(self@.caps.len() as int) =~= self@.caps);
        Ok(data)
    }

    /// The data literals of the argument blocks with the place and length of each, if they fit the
    /// root's window.
    fn argv_data(&self) -> (r: Option<(String, Vec<(u64, u64)>)>)
        ensures
            r is Some <==> argv_end(self@.nodes) <= ROOT_WINDOW,
            r matches Some((data, places)) ==> {
                &&& data@ == argv_text(self@.nodes)
                &&& places@.len() == self@.nodes.len()
                &&& ARGV_BASE + 8 * self@.nodes.len() <= ROOT_WINDOW
                &&& forall|k: int|
                    0 <= k < places@.len() ==> (#[trigger] places@[k]).0 == argv_end(
                        self@.nodes.take(k),
                    ) && places@[k].1 == self@.nodes[k].blob().len()
            },
    {
        let mut data: String = String::new();
        let mut places: Vec<(u64, u64)> = Vec::new();
        let mut off: u64 = ARGV_BASE;
        let mut i: usize = 0;
        while i < self.nodes.len()
            invariant
                i <= self.nodes.len(),
                self@.nodes.len() == self.nodes@.len(),
                off == argv_end(self@.nodes.take(i as int)),
                ARGV_BASE + 8 * i <= off <= ROOT_WINDOW,
                data@ == argv_text(self@.nodes.take(i as int)),
                places@.len() == i,
                forall|k: int|
                    0 <= k < i ==> (#[trigger] places@[k]).0 == argv_end(self@.nodes.take(k))
                        && places@[k].1 == self@.nodes[k].blob().len(),
            decreases self.nodes.len() - i,
        {
            let blob: Vec<u8> = self.nodes[i].blob();
            proof {
                let now = self@.nodes.take(i as int + 1);
                assert(now.drop_last() =~= self@.nodes.take(i as int));
                assert(now.last() == self.nodes@[i as int]@);
                lemma_argv_end_prefix(self@.nodes, i as int + 1);
            }
            if blob.len() as u64 > ROOT_WINDOW - off {
                return None;
            }
            let text: String = hex_escape(blob.as_slice());
            push_data(&mut data, off, text.as_str());
            places.push((off, blob.len() as u64));
            off = off + blob.len() as u64;
            i = i + 1;
        }
        assert(self@.nodes.take(self@.nodes.len() as int) =~= self@.nodes);
        Some((data, places))
    }

    /// The code that fills the records with the place of every node's first record, or what is said
    /// of the first name that is not held.
    fn record_code(&self) -> (r: Result<(String, Vec<u64>), String>)
        requires
            self@.caps.len() <= 128,
            self@.nodes.len() <= 0x1_0000,
            first_not(self@.caps, plain()) is None,
            REC_BASE + granted(self@.nodes).len() * SLOT <= u64::MAX,
        ensures
            match r {
                Ok((code, places)) => {
                    &&& first_not(granted(self@.nodes), held_by(self@.caps)) is None
                    &&& code@ == records_text(
                        granted(self@.nodes),
                        self@.caps,
                        self@.nodes.len(),
                    )
                    &&& places@.len() == self@.nodes.len() + 1
                    &&& forall|k: int|
                        0 <= k < places@.len() ==> #[trigger] places@[k] == REC_BASE + granted(
                            self@.nodes.take(k),
                        ).len() * SLOT
                },
                Err(e) => first_not(granted(self@.nodes), held_by(self@.caps)) matches Some(name)
                    && e@ == not_held(literal(name)),
            },
    {
        let mut code: String = String::new();
        let mut places: Vec<u64> = Vec::new();
        let mut at: u64 = REC_BASE;
        let mut k: usize = 0;
        let ghost all = granted(self@.nodes);
        let ghost caps = self@.caps;
        let ghost n = self@.nodes.len();
        assert(granted(self@.nodes.take(0)) =~= Seq::empty());
        places.push(at);
        while k < self.nodes.len()
            invariant
                k <= self.nodes.len(),
                all == granted(self@.nodes),
                caps == self@.caps,
                n == self@.nodes.len() == self.nodes@.len(),
                n <= 0x1_0000,
                caps.len() <= 128,
                first_not(caps, plain()) is None,
                REC_BASE + all.len() * SLOT <= u64::MAX,
                at == REC_BASE + granted(self@.nodes.take(k as int)).len() * SLOT,
                code@ == records_text(granted(self@.nodes.take(k as int)), caps, n),
                first_not(granted(self@.nodes.take(k as int)), held_by(caps)) is None,
                places@.len() == k + 1,
                forall|j: int|
                    0 <= j <= k ==> #[trigger] places@[j] == REC_BASE + granted(
                        self@.nodes.take(j),
                    ).len() * SLOT,
            decreases self.nodes.len() - k,
        {
            let node: &Node = &self.nodes[k];
            let ghost before = granted(self@.nodes.take(k as int));
            proof {
                let now = self@.nodes.take(k as int + 1);
                assert(now.drop_last() =~= self@.nodes.take(k as int));
                assert(now.last() == node@);
                assert(granted(now) == before + node@.grants);
                lemma_granted_prefix(self@.nodes, k as int + 1);
                assert(before + node@.grants.take(0) =~= before);
            }
            let mut g: usize = 0;
            while g < node.grants.len()
                invariant
                    g <= node.grants.len(),
                    n <= 0x1_0000,
                    n == self@.nodes.len(),
                    caps == texts(self.caps@),
                    caps.len() <= 128,
                    first_not(caps, plain()) is None,
                    node@.grants.len() == node.grants@.len(),
                    all.take((before + node@.grants).len() as int) == before + node@.grants,
                    (before + node@.grants).len() <= all.len(),
                    REC_BASE + all.len() * SLOT <= u64::MAX,
                    at == REC_BASE + (before.len() + g) * SLOT,
                    code@ == records_text(before + node@.grants.take(g as int), caps, n),
                    first_not(before + node@.grants.take(g as int), held_by(caps)) is None,
                    all == granted(self@.nodes),
                    self@.caps == caps,
                decreases node.grants.len() - g,
            {
                let name: &String = &node.grants[g];
                let ghost now = before + node@.grants.take(g as int + 1);
                proof {
                    assert(now.drop_last() =~= before + node@.grants.take(g as int));
                    assert(now.last() == name@);
                    assert(held_by(caps)(name@) == caps.contains(name@));
                }
                match position_of(self.caps.as_slice(), name.as_str()) {
                    None => {
                        proof {
                            if caps.contains(name@) {
                                let j = choose|j: int| 0 <= j < caps.len() && caps[j] == name@;
                                assert(self.caps@[j]@ == name@);
                            }
                            assert(all.take(now.len() as int) =~= all.take(
                                (before + node@.grants).len() as int,
                            ).take(now.len() as int));
                            assert((before + node@.grants).take(now.len() as int) =~= now);
                            lemma_first_not_prefix(all, held_by(caps), now.len() as int);
                        }
                        let shown: String = quoted(name.as_str());
                        return Err(not_held_message(shown.as_str()));
                    },
                    Some(i) => {
                        proof {
                            assert(caps[i as int] == name@);
                            assert forall|j: int| 0 <= j < i implies #[trigger] caps[j] != name@ by {
                                assert(self.caps@[j]@ != name@);
                            }
                            lemma_cap_place(caps, name@, i as int);
                            lemma_all_good(caps, plain(), i as int);
                            assert(plain()(name@) == plain_name(name@));
                        }
                        let len: usize = name.as_str().unicode_len();
                        let word: u64 = NAME_BASE + i as u64 * SLOT + len as u64 * 0x1_0000_0000;
                        push_record(
                            &mut code,
                            at,
                            word,
                            2 + self.nodes.len() as u64 + i as u64,
                        );
                        at = at + SLOT;
                    },
                }
                g = g + 1;
            }
            assert(node@.grants.take(node@.grants.len() as int) =~= node@.grants);
            places.push(at);
            k = k + 1;
        }
        assert(self@.nodes.take(self@.nodes.len() as int) =~= self@.nodes);
        Ok((code, places))
    }
}

/// Where none is bad, every one is good.
proof fn lemma_all_good(names: Seq<Seq<char>>, good: spec_fn(Seq<char>) -> bool, i: int)
    requires
        first_not(names, good) is None,
        0 <= i < names.len(),
    ensures
        good(names[i]),
    decreases names.len(),
{
    if i < names.len() - 1 {
        lemma_all_good(names.drop_last(), good, i);
    }
}

/// The plan of one node that is granted every root capability.
pub open spec fn spec_single(
    window_log2: u8,
    argv: Seq<Seq<char>>,
    caps: Seq<Seq<char>>,
) -> PlanView {
    PlanView {
        caps,
        nodes: seq![NodeView { window_log2, argv, env: Seq::empty(), grants: caps }],
    }
}

impl Plan {
    /// One node granted every root capability, in order.
    pub fn single(window_log2: u8, argv: &[&str], caps: &[&str]) -> (r: Plan)
        ensures
            r@ == spec_single(
                window_log2,
                argv@.map_values(|s: &str| s@),
                caps@.map_values(|s: &str| s@),
            ),
    {
        let node: Node = Node {
            window_log2,
            argv: owned(argv),
            env: Vec::new(),
            grants: owned(caps),
        };
        let mut nodes: Vec<Node> = Vec::new();
        assert(byte_rows(node.env@) =~= Seq::empty());
        let ghost view = node@;
        nodes.push(node);
        let r: Plan = Plan { caps: owned(caps), nodes };
        assert(r@.nodes =~= seq![view]);
        r
    }

    /// What the root's budget must hold to mint every node's window.
    pub fn window_bytes(&self) -> (r: u64)
        requires
            forall|i: int| 0 <= i < self@.nodes.len() ==> (#[trigger] self@.nodes[i]).window_log2 < 64,
            windows_total(self@.nodes) <= u64::MAX,
        ensures
            r == windows_total(self@.nodes),
    {
        let mut sum: u64 = 0;
        let mut i: usize = 0;
        while i < self.nodes.len()
            invariant
                i <= self.nodes.len(),
                self@.nodes.len() == self.nodes@.len(),
                forall|i: int|
                    0 <= i < self@.nodes.len() ==> (#[trigger] self@.nodes[i]).window_log2 < 64,
                windows_total(self@.nodes) <= u64::MAX,
                sum == windows_total(self@.nodes.take(i as int)),
            decreases self.nodes.len() - i,
        {
            proof {
                let now = self@.nodes.take(i as int + 1);
                assert(now.drop_last() =~= self@.nodes.take(i as int));
                assert(now.last() == self.nodes@[i as int]@);
                assert(self@.nodes[i as int].window_log2 < 64);
                lemma_windows_total_prefix(self@.nodes, i as int + 1);
            }
            sum = sum + size_of_log2(self.nodes[i].window_log2);
            i = i + 1;
        }
        assert(self@.nodes.take(self@.nodes.len() as int) =~= self@.nodes);
        sum
    }

    /// The text of the root. Its parameters are the instantiator, the modules, the budget and the
    /// capabilities. `Err` says what does not fit or resolve.
    pub fn root_src(&self) -> (r: Result<String, String>)
        requires
            REC_BASE + granted(self@.nodes).len() * SLOT <= u64::MAX,
        ensures
            match r {
                Ok(text) => self@.root_src() == Ok::<Seq<char>, Seq<char>>(text@),
                Err(e) => self@.root_src() == Err::<Seq<char>, Seq<char>>(e@),
            },
    {
        let n: usize = self.nodes.len();
        if n == 0 {
            return Err("a plan spawns at least one node".to_owned());
        }
        if self.caps.len() > 128 {
            let mut e: String = String::new();
            push_dec(&mut e, self.caps.len() as u64);
            e.append(" root capabilities do not fit");
            assert(e@ =~= dec(self@.caps.len()) + " root capabilities do not fit"@);
            return Err(e);
        }
        let names: String = match self.names_data() {
            Ok(data) => data,
            Err(e) => {
                return Err(e);
            },
        };
        let (argv, argv_at) = match self.argv_data() {
            Some(x) => x,
            None => {
                return Err("the nodes' argv does not fit the root's window".to_owned());
            },
        };
        let (records, rec_at) = match self.record_code() {
            Ok(x) => x,
            Err(e) => {
                return Err(e);
            },
        };
        assert(self@.nodes.take(n as int) =~= self@.nodes);
        let end: u64 = rec_at[n];
        assert(end == REC_BASE + granted(self@.nodes).len() * SLOT);
        if end > NAME_BASE {
            let mut e: String = String::new();
            push_dec(&mut e, (end - REC_BASE) / SLOT);
            e.append(" grant records do not fit");
            assert(e@ =~= dec(granted(self@.nodes).len()) + " grant records do not fit"@);
            return Err(e);
        }
        let params: u64 = 2 + n as u64 + self.caps.len() as u64;
        let mut out: String = "memory 16\n".to_owned();
        out.append(names.as_str());
        out.append(argv.as_str());
        out.append("func (");
        push_types(&mut out, params);
        out.append(") -> (i64) {\nblock 0 (");
        push_params(&mut out, params);
        out.append(") {\n");
        out.append(records.as_str());
        let ghost head = out@;
        let mut k: usize = 0;
        assert(head + spawns_text(self@.nodes, 0) =~= head);
        while k < n
            invariant
                k <= n,
                n == self.nodes@.len() == self@.nodes.len(),
                n <= 0x1_0000,
                out@ == head + spawns_text(self@.nodes, k as nat),
                argv_at@.len() == n,
                rec_at@.len() == n + 1,
                forall|k: int|
                    0 <= k < argv_at@.len() ==> (#[trigger] argv_at@[k]).0 == argv_end(
                        self@.nodes.take(k),
                    ) && argv_at@[k].1 == self@.nodes[k].blob().len(),
                forall|k: int|
                    0 <= k < rec_at@.len() ==> #[trigger] rec_at@[k] == REC_BASE + granted(
                        self@.nodes.take(k),
                    ).len() * SLOT,
            decreases n - k,
        {
            let mark: String = mark_of(k as u64);
            let ghost start = out@;
            assert(self@.nodes[k as int] == self.nodes@[k as int]@);
            push_module(&mut out, k as u64, n as u64, mark.as_str());
            push_operands(
                &mut out,
                mark.as_str(),
                rec_at[k],
                self.nodes[k].grants.len() as u64,
                self.nodes[k].window_log2,
                argv_at[k].0,
                argv_at[k].1,
            );
            push_spawn(&mut out, mark.as_str());
            assert(out@ =~= start + spawn_text(
                k as nat,
                n as nat,
                rec_at@[k as int] as nat,
                self@.nodes[k as int].grants.len(),
                self@.nodes[k as int].window_log2 as nat,
                argv_at@[k as int].0 as nat,
                argv_at@[k as int].1 as nat,
            ));
            assert(out@ =~= head + spawns_text(self@.nodes, k as nat + 1));
            k = k + 1;
        }
        push_joins(&mut out, n as u64);
        out.append("  return vr");
        let last: String = mark_of(n as u64 - 1);
        out.append(last.as_str());
        out.append("\n  }\n}\n");
        assert(out@ =~= self@.root_text());
        Ok(out)
    }

    /// The root's arguments in the order of its parameters: the instantiator, the modules in node
    /// order, the budget, then the capabilities.
    pub fn root_args(&self, inst: i32, modules: &[i32], budget: i32, caps: &[i32]) -> (r: Vec<Value>)
        requires
            modules@.len() == self.nodes@.len(),
            caps@.len() == self.caps@.len(),
        ensures
            r@ == spec_root_args(inst, modules@, budget, caps@),
            r@ == (seq![inst] + modules@ + seq![budget] + caps@).map_values(|h: i32| Value::I32(h)),
    {
        let mut out: Vec<Value> = Vec::new();
        out.push(Value::I32(inst));
        let mut i: usize = 0;
        while i < modules.len()
            invariant
                i <= modules.len(),
                out@ == (seq![inst] + modules@.take(i as int)).map_values(|h: i32| Value::I32(h)),
            decreases modules.len() - i,
        {
            out.push(Value::I32(modules[i]));
            assert(out@ =~= (seq![inst] + modules@.take(i as int + 1)).map_values(
                |h: i32| Value::I32(h),
            ));
            i = i + 1;
        }
        out.push(Value::I32(budget));
        let ghost head = seq![inst] + modules@ + seq![budget];
        assert(out@ =~= (head + caps@.take(0)).map_values(|h: i32| Value::I32(h)));
        let mut j: usize = 0;
        while j < caps.len()
            invariant
                j <= caps.len(),
                out@ == (head + caps@.take(j as int)).map_values(|h: i32| Value::I32(h)),
            decreases caps.len() - j,
        {
            out.push(Value::I32(caps[j]));
            assert(out@ =~= (head + caps@.take(j as int + 1)).map_values(|h: i32| Value::I32(h)));
            j = j + 1;
        }
        assert(caps@.take(caps@.len() as int) =~= caps@);
        out
    }
}

/// The root finds each argument in the parameter that its text reads: the module of every node, the
/// budget, and each capability at its place.
pub proof fn law_root_args_match_params(
    p: PlanView,
    inst: i32,
    modules: Seq<i32>,
    budget: i32,
    caps: Seq<i32>,
)
    requires
        modules.len() == p.nodes.len(),
        caps.len() == p.caps.len(),
    ensures
        ({
            let args = seq![inst] + modules + seq![budget] + caps;
            &&& args.len() == p.param_count()
            &&& args[0] == inst
            &&& forall|k: int| 0 <= k < modules.len() ==> args[1 + k] == #[trigger] modules[k]
            &&& args[1 + modules.len() as int] == budget
            &&& forall|i: int|
                0 <= i < caps.len() ==> args[cap_param(p.nodes.len(), i as nat) as int]
                    == #[trigger] caps[i]
        }),
{
}

/// A plan that does not fit is refused, not cut: in the root of an accepted plan the records end
/// before the names, the names before the argument blocks, and these within the window.
pub proof fn law_accepted_plan_fits(p: PlanView)
    requires
        p.root_src() is Ok,
    ensures
        p.nodes.len() > 0,
        REC_BASE + granted(p.nodes).len() * SLOT <= NAME_BASE,
        NAME_BASE + p.caps.len() * SLOT <= ARGV_BASE,
        argv_end(p.nodes) <= ROOT_WINDOW,
        p.root_src() == Ok::<Seq<char>, Seq<char>>(p.root_text()),
{
}

/// No node is granted anything that the root does not hold: an accepted plan grants only names of
/// the root's capabilities.
pub proof fn law_grants_come_from_the_root(p: PlanView, k: int, g: int)
    requires
        p.root_src() is Ok,
        0 <= k < p.nodes.len(),
        0 <= g < p.nodes[k].grants.len(),
    ensures
        p.caps.contains(p.nodes[k].grants[g]),
{
    let before = p.nodes.take(k);
    let now = p.nodes.take(k + 1);
    assert(now.drop_last() =~= before);
    lemma_granted_prefix(p.nodes, k + 1);
    let all = granted(p.nodes);
    let i = granted(before).len() as int + g;
    assert(granted(now)[i] == p.nodes[k].grants[g]);
    assert(all.take(granted(now).len() as int)[i] == all[i]);
    lemma_all_good(all, held_by(p.caps), i);
    assert(held_by(p.caps)(all[i]) == p.caps.contains(all[i]));
}

/// Where every one is good, none is bad.
proof fn lemma_none_bad(names: Seq<Seq<char>>, good: spec_fn(Seq<char>) -> bool)
    requires
        forall|i: int| 0 <= i < names.len() ==> good(#[trigger] names[i]),
    ensures
        first_not(names, good) is None,
    decreases names.len(),
{
    if names.len() > 0 {
        let less = names.drop_last();
        assert(forall|i: int| 0 <= i < less.len() ==> #[trigger] less[i] == names[i]);
        lemma_none_bad(less, good);
        assert(good(names[names.len() - 1]));
    }
}

/// A single node's plan is accepted exactly when its capability names are plain, its records fit,
/// and its argument block fits the root's window.
pub proof fn law_single_is_accepted_if_it_fits(
    window_log2: u8,
    argv: Seq<Seq<char>>,
    caps: Seq<Seq<char>>,
)
    ensures
        ({
            let p = spec_single(window_log2, argv, caps);
            p.root_src() is Ok <==> {
                &&& forall|i: int| 0 <= i < caps.len() ==> plain_name(#[trigger] caps[i])
                &&& caps.len() <= 64
                &&& ARGV_BASE + p.nodes[0].blob().len() <= ROOT_WINDOW
            }
        }),
{
    let p = spec_single(window_log2, argv, caps);
    let none = p.nodes.drop_last();
    assert(none =~= Seq::empty());
    assert(granted(none) =~= Seq::empty());
    assert(granted(p.nodes) =~= caps);
    assert(argv_end(none) == ARGV_BASE);
    assert forall|i: int| 0 <= i < caps.len() implies held_by(caps)(#[trigger] caps[i]) by {
        assert(caps.contains(caps[i]));
    }
    lemma_none_bad(caps, held_by(caps));
    if forall|i: int| 0 <= i < caps.len() ==> plain_name(#[trigger] caps[i]) {
        assert forall|i: int| 0 <= i < caps.len() implies plain()(#[trigger] caps[i]) by {}
        lemma_none_bad(caps, plain());
    } else if first_not(caps, plain()) is None {
        let i = choose|i: int| 0 <= i < caps.len() && !plain_name(#[trigger] caps[i]);
        lemma_all_good(caps, plain(), i);
        assert(plain()(caps[i]) == plain_name(caps[i]));
    }
}

/// The argument blocks lie back to back: each starts where the one before it ends.
pub proof fn law_argv_blocks_are_contiguous(nodes: Seq<NodeView>, k: int)
    requires
        0 <= k < nodes.len(),
    ensures
        argv_end(nodes.take(k)) + nodes[k].blob().len() == argv_end(nodes.take(k + 1)),
        ARGV_BASE <= argv_end(nodes.take(k)),
        argv_end(nodes.take(k + 1)) <= argv_end(nodes),
{
    assert(nodes.take(k + 1).drop_last() =~= nodes.take(k));
    lemma_argv_end_prefix(nodes, k + 1);
    lemma_argv_end_prefix(nodes.take(k), 0);
    assert(nodes.take(k).take(0) =~= Seq::empty());
    assert(argv_end(nodes.take(k).take(0)) == ARGV_BASE);
}

/// The text gives `name` the constant `value`.
#[verifier::opaque]
pub open spec fn gives(text: Seq<char>, name: Seq<char>, value: nat) -> bool {
    contains(text, "  "@ + name + " = i64.const "@ + dec(value) + "\n"@)
}

/// The text takes `name` from the parameter `param`.
#[verifier::opaque]
pub open spec fn takes(text: Seq<char>, name: Seq<char>, param: nat) -> bool {
    contains(text, "  "@ + name + " = i64.extend_i32_u v"@ + dec(param) + "\n"@)
}

/// The text stores `name` at the address that `at` holds.
#[verifier::opaque]
pub open spec fn stores(text: Seq<char>, at: Seq<char>, name: Seq<char>) -> bool {
    contains(text, "  i64.store "@ + at + " "@ + name + "\n"@)
}

/// The text puts `literal` into the window at `at`.
#[verifier::opaque]
pub open spec fn lays(text: Seq<char>, at: nat, literal: Seq<char>) -> bool {
    contains(text, "data "@ + dec(at) + " \""@ + literal + "\"\n"@)
}

/// What stands in a part stands in the whole.
pub proof fn lemma_contains_within(a: Seq<char>, b: Seq<char>, c: Seq<char>, part: Seq<char>)
    requires
        contains(b, part),
    ensures
        contains(a + b + c, part),
{
    let at = choose|at: int| occurs_at(b, part, at);
    let whole = a + b + c;
    assert(whole.subrange(a.len() + at, a.len() + at + part.len()) =~= b.subrange(
        at,
        at + part.len(),
    ));
    assert(occurs_at(whole, part, a.len() + at));
}

/// What stands in a part of a part stands in the whole.
pub proof fn lemma_contains_transitive(whole: Seq<char>, mid: Seq<char>, part: Seq<char>)
    requires
        contains(whole, mid),
        contains(mid, part),
    ensures
        contains(whole, part),
{
    let at = choose|at: int| occurs_at(whole, mid, at);
    let a = whole.take(at);
    let c = whole.skip(at + mid.len());
    assert(whole.subrange(at, at + mid.len()) == mid);
    assert(whole =~= a + mid + c);
    lemma_contains_within(a, mid, c, part);
}

/// A middle stands in its whole.
pub proof fn lemma_middle(a: Seq<char>, b: Seq<char>, c: Seq<char>)
    ensures
        contains(a + b + c, b),
{
    assert((a + b + c).subrange(a.len() as int, (a.len() + b.len()) as int) =~= b);
    assert(occurs_at(a + b + c, b, a.len() as int));
}

/// Two runs of pieces are rendered one after the other.
pub proof fn lemma_rendered_concat(a: Seq<PieceView>, b: Seq<PieceView>)
    ensures
        rendered(a + b) == rendered(a) + rendered(b),
    decreases b.len(),
{
    if b.len() == 0 {
        assert(a + b =~= a);
        assert(rendered(a) + rendered(b) =~= rendered(a));
    } else {
        lemma_rendered_concat(a, b.drop_last());
        assert((a + b).drop_last() =~= a + b.drop_last());
        assert(rendered(a + b) =~= rendered(a) + rendered(b));
    }
}

/// Five pieces in a row stand in the rendered text as they are.
proof fn lemma_five_pieces(
    pieces: Seq<PieceView>,
    k: int,
    head: Seq<char>,
    first: Seq<char>,
    last: Seq<char>,
    tail: Seq<char>,
)
    requires
        0 <= k,
        k + 4 < pieces.len(),
        pieces[k].text() == head + first,
        pieces[k + 4].text() == last + tail,
    ensures
        contains(
            rendered(pieces),
            first + pieces[k + 1].text() + pieces[k + 2].text() + pieces[k + 3].text() + last,
        ),
{
    let a = pieces.take(k);
    let c = pieces.skip(k + 5);
    let five = seq![pieces[k], pieces[k + 1], pieces[k + 2], pieces[k + 3], pieces[k + 4]];
    assert(pieces =~= a + five + c);
    lemma_rendered_concat(a, five);
    lemma_rendered_concat(a + five, c);
    let part = first + pieces[k + 1].text() + pieces[k + 2].text() + pieces[k + 3].text() + last;
    assert(rendered(five) =~= head + part + tail) by {
        let four = five.drop_last();
        let three = four.drop_last();
        let two = three.drop_last();
        let one = two.drop_last();
        assert(four.last() == pieces[k + 3]);
        assert(three.last() == pieces[k + 2]);
        assert(two.last() == pieces[k + 1]);
        assert(one.last() == pieces[k]);
        assert(rendered(one.drop_last()) =~= Seq::<char>::empty());
        assert(rendered(one) =~= pieces[k].text());
        assert(rendered(two) =~= pieces[k].text() + pieces[k + 1].text());
        assert(rendered(three) =~= pieces[k].text() + pieces[k + 1].text() + pieces[k + 2].text());
        assert(rendered(four) =~= pieces[k].text() + pieces[k + 1].text() + pieces[k + 2].text()
            + pieces[k + 3].text());
    }
    lemma_middle(head, part, tail);
    lemma_contains_within(rendered(a), rendered(five), rendered(c), part);
}

/// Everything that is written for one node.
spec fn node_pieces(k: nat, n: nat, rec: nat, grants: nat, log2: nat, at: nat, len: nat) -> Seq<
    PieceView,
> {
    module_pieces(k) + (if k == 0 {
        budget_pieces(n)
    } else {
        Seq::empty()
    }) + operand_pieces(node_mark(k), rec, grants, log2, at, len) + spawn_pieces(node_mark(k))
}

/// The text of a node is its pieces.
proof fn lemma_spawn_text(k: nat, n: nat, rec: nat, grants: nat, log2: nat, at: nat, len: nat)
    ensures
        spawn_text(k, n, rec, grants, log2, at, len) == rendered(
            node_pieces(k, n, rec, grants, log2, at, len),
        ),
{
    let m = module_pieces(k);
    let b = if k == 0 {
        budget_pieces(n)
    } else {
        Seq::empty()
    };
    let o = operand_pieces(node_mark(k), rec, grants, log2, at, len);
    lemma_rendered_concat(m, b);
    lemma_rendered_concat(m + b, o);
    lemma_rendered_concat(m + b + o, spawn_pieces(node_mark(k)));
    assert(rendered(Seq::<PieceView>::empty()) =~= Seq::<char>::empty());
}

/// The text of every node stands in the text of all spawns.
proof fn lemma_spawns_hold(nodes: Seq<NodeView>, n: nat, k: nat)
    requires
        k < n <= nodes.len(),
    ensures
        contains(
            spawns_text(nodes, n),
            spawn_text(
                k,
                nodes.len(),
                (REC_BASE + granted(nodes.take(k as int)).len() * SLOT) as nat,
                nodes[k as int].grants.len(),
                nodes[k as int].window_log2 as nat,
                argv_end(nodes.take(k as int)),
                nodes[k as int].blob().len(),
            ),
        ),
    decreases n,
{
    let m = (n - 1) as nat;
    let part = spawn_text(
        m,
        nodes.len(),
        (REC_BASE + granted(nodes.take(m as int)).len() * SLOT) as nat,
        nodes[m as int].grants.len(),
        nodes[m as int].window_log2 as nat,
        argv_end(nodes.take(m as int)),
        nodes[m as int].blob().len(),
    );
    let none = Seq::<char>::empty();
    assert(spawns_text(nodes, n) =~= spawns_text(nodes, m) + part + none);
    if k == m {
        lemma_middle(spawns_text(nodes, m), part, none);
    } else {
        lemma_spawns_hold(nodes, m, k);
        let inner = spawn_text(
            k,
            nodes.len(),
            (REC_BASE + granted(nodes.take(k as int)).len() * SLOT) as nat,
            nodes[k as int].grants.len(),
            nodes[k as int].window_log2 as nat,
            argv_end(nodes.take(k as int)),
            nodes[k as int].blob().len(),
        );
        assert(spawns_text(nodes, n) =~= none + spawns_text(nodes, m) + part);
        lemma_contains_within(none, spawns_text(nodes, m), part, inner);
    }
}

/// What stands in a text stands in it with more behind.
pub proof fn lemma_contains_front(a: Seq<char>, b: Seq<char>, part: Seq<char>)
    requires
        contains(a, part),
    ensures
        contains(a + b, part),
{
    let none = Seq::<char>::empty();
    assert(none + a + b =~= a + b);
    lemma_contains_within(none, a, b, part);
}

/// An end stands in its whole.
pub proof fn lemma_contains_back(a: Seq<char>, b: Seq<char>)
    ensures
        contains(a + b, b),
{
    let none = Seq::<char>::empty();
    assert(a + b + none =~= a + b);
    lemma_middle(a, b, none);
}

/// The parts of the root's text stand in it.
proof fn lemma_root_parts(p: PlanView)
    requires
        p.nodes.len() > 0,
    ensures
        contains(p.root_text(), names_text(p.caps)),
        contains(p.root_text(), argv_text(p.nodes)),
        contains(p.root_text(), records_text(granted(p.nodes), p.caps, p.nodes.len())),
        contains(p.root_text(), spawns_text(p.nodes, p.nodes.len())),
        contains(p.root_text(), joins_text(p.nodes.len())),
{
    let n = p.nodes.len();
    lemma_parts_in_concat(
        "memory 16\n"@,
        names_text(p.caps),
        argv_text(p.nodes),
        "func ("@,
        types_text(p.param_count()),
        ") -> (i64) {\nblock 0 ("@,
        params_text(p.param_count()),
        ") {\n"@,
        records_text(granted(p.nodes), p.caps, n),
        spawns_text(p.nodes, n),
        joins_text(n),
        "  return vr"@,
        node_mark((n - 1) as nat),
        "\n  }\n}\n"@,
    );
}

/// As [`lemma_root_parts`], of any texts.
proof fn lemma_parts_in_concat(
    t0: Seq<char>,
    names: Seq<char>,
    argv: Seq<char>,
    t3: Seq<char>,
    t4: Seq<char>,
    t5: Seq<char>,
    t6: Seq<char>,
    t7: Seq<char>,
    records: Seq<char>,
    spawns: Seq<char>,
    joins: Seq<char>,
    t11: Seq<char>,
    t12: Seq<char>,
    t13: Seq<char>,
)
    ensures
        ({
            let text = t0 + names + argv + t3 + t4 + t5 + t6 + t7 + records + spawns + joins + t11
                + t12 + t13;
            &&& contains(text, names)
            &&& contains(text, argv)
            &&& contains(text, records)
            &&& contains(text, spawns)
            &&& contains(text, joins)
        }),
{
    let s1 = t0 + names;
    let s2 = s1 + argv;
    let s7 = s2 + t3 + t4 + t5 + t6 + t7;
    let s8 = s7 + records;
    let s9 = s8 + spawns;
    let s10 = s9 + joins;
    lemma_contains_back(t0, names);
    lemma_contains_front(s1, argv, names);
    lemma_contains_back(s1, argv);
    lemma_five_behind(s2, t3, t4, t5, t6, t7, names);
    lemma_five_behind(s2, t3, t4, t5, t6, t7, argv);
    lemma_contains_front(s7, records, names);
    lemma_contains_front(s7, records, argv);
    lemma_contains_back(s7, records);
    lemma_contains_front(s8, spawns, names);
    lemma_contains_front(s8, spawns, argv);
    lemma_contains_front(s8, spawns, records);
    lemma_contains_back(s8, spawns);
    lemma_contains_front(s9, joins, names);
    lemma_contains_front(s9, joins, argv);
    lemma_contains_front(s9, joins, records);
    lemma_contains_front(s9, joins, spawns);
    lemma_contains_back(s9, joins);
    lemma_three_behind(s10, t11, t12, t13, names);
    lemma_three_behind(s10, t11, t12, t13, argv);
    lemma_three_behind(s10, t11, t12, t13, records);
    lemma_three_behind(s10, t11, t12, t13, spawns);
    lemma_three_behind(s10, t11, t12, t13, joins);
}

/// What stands in a text stands in it with three more behind.
proof fn lemma_three_behind(
    s: Seq<char>,
    a: Seq<char>,
    b: Seq<char>,
    c: Seq<char>,
    part: Seq<char>,
)
    requires
        contains(s, part),
    ensures
        contains(s + a + b + c, part),
{
    lemma_contains_front(s, a, part);
    lemma_contains_front(s + a, b, part);
    lemma_contains_front(s + a + b, c, part);
}

/// What stands in a text stands in it with five more behind.
proof fn lemma_five_behind(
    s: Seq<char>,
    a: Seq<char>,
    b: Seq<char>,
    c: Seq<char>,
    d: Seq<char>,
    e: Seq<char>,
    part: Seq<char>,
)
    requires
        contains(s, part),
    ensures
        contains(s + a + b + c + d + e, part),
{
    lemma_three_behind(s, a, b, c, part);
    lemma_contains_front(s + a + b + c, d, part);
    lemma_contains_front(s + a + b + c + d, e, part);
}

/// The line of a data literal.
proof fn lemma_data_line(at: nat, text: Seq<char>)
    ensures
        lays(rendered(data_pieces(at, text)), at, text),
{
    reveal(lays);
    let pieces = data_pieces(at, text);
    let none = Seq::<char>::empty();
    assert("data "@ =~= none + "data "@);
    assert("\"\n"@ =~= "\"\n"@ + none);
    lemma_five_pieces(pieces, 0, none, "data "@, "\"\n"@, none);
}

/// The block of every node is laid where the blocks before it end.
proof fn lemma_argv_laid(nodes: Seq<NodeView>, k: int)
    requires
        0 <= k < nodes.len(),
    ensures
        lays(argv_text(nodes), argv_end(nodes.take(k)), hex_escaped(nodes[k].blob())),
    decreases nodes.len(),
{
    reveal(lays);
    let less = nodes.drop_last();
    let part = rendered(data_pieces(argv_end(less), hex_escaped(nodes.last().blob())));
    let none = Seq::<char>::empty();
    if k == less.len() {
        assert(nodes.take(k) =~= less);
        lemma_data_line(argv_end(less), hex_escaped(nodes.last().blob()));
        assert(argv_text(nodes) =~= argv_text(less) + part + none);
        lemma_contains_within(
            argv_text(less),
            part,
            none,
            "data "@ + dec(argv_end(less)) + " \""@ + hex_escaped(nodes[k].blob()) + "\"\n"@,
        );
    } else {
        assert(less.take(k) =~= nodes.take(k));
        lemma_argv_laid(less, k);
        assert(argv_text(nodes) =~= none + argv_text(less) + part);
        lemma_contains_within(
            none,
            argv_text(less),
            part,
            "data "@ + dec(argv_end(nodes.take(k))) + " \""@ + hex_escaped(nodes[k].blob())
                + "\"\n"@,
        );
    }
}

/// The name of every capability is laid in its slot.
proof fn lemma_name_laid(caps: Seq<Seq<char>>, i: int)
    requires
        0 <= i < caps.len(),
    ensures
        lays(names_text(caps), (NAME_BASE + i * SLOT) as nat, caps[i]),
    decreases caps.len(),
{
    reveal(lays);
    let less = caps.drop_last();
    let at = (NAME_BASE + (caps.len() - 1) * SLOT) as nat;
    let part = rendered(data_pieces(at, caps.last()));
    let none = Seq::<char>::empty();
    let line = "data "@ + dec((NAME_BASE + i * SLOT) as nat) + " \""@ + caps[i] + "\"\n"@;
    if i == less.len() {
        lemma_data_line(at, caps.last());
        assert(names_text(caps) =~= names_text(less) + part + none);
        lemma_contains_within(names_text(less), part, none, line);
    } else {
        lemma_name_laid(less, i);
        assert(names_text(caps) =~= none + names_text(less) + part);
        lemma_contains_within(none, names_text(less), part, line);
    }
}

/// The lines of a node's operands.
#[verifier::spinoff_prover]
#[verifier::rlimit(80)]
proof fn lemma_node_lines(k: nat, n: nat, rec: nat, grants: nat, log2: nat, at: nat, len: nat)
    ensures
        ({
            let text = spawn_text(k, n, rec, grants, log2, at, len);
            let mark = node_mark(k);
            &&& takes(text, "vmh"@ + mark, 1 + k)
            &&& k == 0 ==> takes(text, "vmin"@, 1 + n)
            &&& gives(text, "vgptr"@ + mark, rec)
            &&& gives(text, "vgn"@ + mark, grants)
            &&& gives(text, "vlog"@ + mark, log2)
            &&& gives(text, "vap"@ + mark, at)
            &&& gives(text, "val"@ + mark, len)
        }),
{
    reveal(gives);
    reveal(takes);
    let mark = node_mark(k);
    let pieces = node_pieces(k, n, rec, grants, log2, at, len);
    let text = rendered(pieces);
    lemma_spawn_text(k, n, rec, grants, log2, at, len);
    let none = Seq::<char>::empty();
    let nl = "\n"@;
    let c = " = i64.const "@;
    reveal_strlit("\n");
    reveal_strlit("  ");
    reveal_strlit("  vmh");
    reveal_strlit("vmh");
    reveal_strlit("  vgptr");
    reveal_strlit("vgptr");
    reveal_strlit("\n  vgn");
    reveal_strlit("vgn");
    reveal_strlit("\n  ventry");
    reveal_strlit(" = i64.const 0\n  vlog");
    reveal_strlit(" = i64.const 0\n");
    reveal_strlit("vlog");
    reveal_strlit("\n  vq");
    reveal_strlit(" = i64.const 0\n  vap");
    reveal_strlit("vap");
    reveal_strlit("\n  val");
    reveal_strlit("val");
    reveal_strlit("\n  vh");
    reveal_strlit("  vmin = i64.extend_i32_u v");
    reveal_strlit("  vmin");
    reveal_strlit("vmin");
    reveal_strlit(" = i64.extend_i32_u v");
    // where the operands start
    let o: int = if k == 0 {
        8
    } else {
        5
    };
    assert(pieces[0].text() =~= none + ("  "@ + "vmh"@));
    assert(pieces[4].text() =~= nl + none);
    lemma_five_pieces(pieces, 0, none, "  "@ + "vmh"@, nl, none);
    assert("  "@ + "vmh"@ + pieces[1].text() + pieces[2].text() + pieces[3].text() + nl =~= "  "@ + (
    "vmh"@ + mark) + " = i64.extend_i32_u v"@ + dec(1 + k) + nl);
    if k == 0 {
        let b = budget_pieces(n);
        let a = module_pieces(k);
        let rest = operand_pieces(mark, rec, grants, log2, at, len) + spawn_pieces(mark);
        assert(pieces =~= a + b + rest);
        lemma_rendered_concat(a, b);
        lemma_rendered_concat(a + b, rest);
        let line = "  "@ + "vmin"@ + " = i64.extend_i32_u v"@ + dec(1 + n) + nl;
        assert("  vmin = i64.extend_i32_u v"@ =~= "  "@ + "vmin"@ + " = i64.extend_i32_u v"@);
        assert(rendered(b) =~= line) by {
            let two = b.drop_last();
            let one = two.drop_last();
            assert(two.last() == b[1]);
            assert(one.last() == b[0]);
            assert(rendered(one.drop_last()) =~= none);
            assert(rendered(one) =~= b[0].text());
            assert(rendered(two) =~= b[0].text() + b[1].text());
            assert(rendered(b) =~= b[0].text() + b[1].text() + b[2].text());
        }
        lemma_middle(rendered(a), line, rendered(rest));
    }
    assert(pieces[o].text() =~= none + ("  "@ + "vgptr"@));
    assert(pieces[o + 4].text() =~= nl + ("  "@ + "vgn"@));
    lemma_five_pieces(pieces, o, none, "  "@ + "vgptr"@, nl, "  "@ + "vgn"@);
    assert("  "@ + "vgptr"@ + pieces[o + 1].text() + pieces[o + 2].text() + pieces[o + 3].text()
        + nl =~= "  "@ + ("vgptr"@ + mark) + c + dec(rec) + nl);
    let ventry = pieces[o + 8].text().skip(1);
    assert(pieces[o + 8].text() =~= nl + ventry);
    lemma_five_pieces(pieces, o + 4, nl, "  "@ + "vgn"@, nl, ventry);
    assert("  "@ + "vgn"@ + pieces[o + 5].text() + pieces[o + 6].text() + pieces[o + 7].text() + nl
        =~= "  "@ + ("vgn"@ + mark) + c + dec(grants) + nl);
    assert(pieces[o + 10].text() =~= " = i64.const 0\n"@ + ("  "@ + "vlog"@));
    let vq = pieces[o + 14].text().skip(1);
    assert(pieces[o + 14].text() =~= nl + vq);
    lemma_five_pieces(pieces, o + 10, " = i64.const 0\n"@, "  "@ + "vlog"@, nl, vq);
    assert("  "@ + "vlog"@ + pieces[o + 11].text() + pieces[o + 12].text() + pieces[o + 13].text()
        + nl =~= "  "@ + ("vlog"@ + mark) + c + dec(log2) + nl);
    assert(pieces[o + 16].text() =~= " = i64.const 0\n"@ + ("  "@ + "vap"@));
    assert(pieces[o + 20].text() =~= nl + ("  "@ + "val"@));
    lemma_five_pieces(pieces, o + 16, " = i64.const 0\n"@, "  "@ + "vap"@, nl, "  "@ + "val"@);
    assert("  "@ + "vap"@ + pieces[o + 17].text() + pieces[o + 18].text() + pieces[o + 19].text()
        + nl =~= "  "@ + ("vap"@ + mark) + c + dec(at) + nl);
    let vh = pieces[o + 24].text().skip(1);
    assert(pieces[o + 24].text() =~= nl + vh);
    lemma_five_pieces(pieces, o + 20, nl, "  "@ + "val"@, nl, vh);
    assert("  "@ + "val"@ + pieces[o + 21].text() + pieces[o + 22].text() + pieces[o + 23].text()
        + nl =~= "  "@ + ("val"@ + mark) + c + dec(len) + nl);
}

/// The lines of a node stand in the root.
proof fn lemma_node_in_root(p: PlanView, k: nat, line: Seq<char>)
    requires
        k < p.nodes.len(),
        contains(
            spawn_text(
                k,
                p.nodes.len(),
                (REC_BASE + granted(p.nodes.take(k as int)).len() * SLOT) as nat,
                p.nodes[k as int].grants.len(),
                p.nodes[k as int].window_log2 as nat,
                argv_end(p.nodes.take(k as int)),
                p.nodes[k as int].blob().len(),
            ),
            line,
        ),
    ensures
        contains(p.root_text(), line),
{
    lemma_root_parts(p);
    lemma_spawns_hold(p.nodes, p.nodes.len(), k);
    let inner = spawn_text(
        k,
        p.nodes.len(),
        (REC_BASE + granted(p.nodes.take(k as int)).len() * SLOT) as nat,
        p.nodes[k as int].grants.len(),
        p.nodes[k as int].window_log2 as nat,
        argv_end(p.nodes.take(k as int)),
        p.nodes[k as int].blob().len(),
    );
    lemma_contains_transitive(spawns_text(p.nodes, p.nodes.len()), inner, line);
    lemma_contains_transitive(p.root_text(), spawns_text(p.nodes, p.nodes.len()), line);
}

/// The operands of a node's spawn, as the root gives them.
#[verifier::spinoff_prover]
#[verifier::rlimit(50)]
proof fn lemma_node_facts(p: PlanView, k: nat)
    requires
        k < p.nodes.len(),
    ensures
        ({
            let text = p.root_text();
            let mark = node_mark(k);
            let node = p.nodes[k as int];
            &&& takes(text, "vmh"@ + mark, 1 + k)
            &&& k == 0 ==> takes(text, "vmin"@, 1 + p.nodes.len())
            &&& gives(
                text,
                "vgptr"@ + mark,
                (REC_BASE + granted(p.nodes.take(k as int)).len() * SLOT) as nat,
            )
            &&& gives(text, "vgn"@ + mark, node.grants.len())
            &&& gives(text, "vlog"@ + mark, node.window_log2 as nat)
            &&& gives(text, "vap"@ + mark, argv_end(p.nodes.take(k as int)))
            &&& gives(text, "val"@ + mark, node.blob().len())
        }),
{
    reveal(gives);
    reveal(takes);
    let nodes = p.nodes;
    let n = nodes.len();
    let node = nodes[k as int];
    let mark = node_mark(k);
    let rec = (REC_BASE + granted(nodes.take(k as int)).len() * SLOT) as nat;
    let at = argv_end(nodes.take(k as int));
    let c = " = i64.const "@;
    let x = " = i64.extend_i32_u v"@;
    let nl = "\n"@;
    lemma_node_lines(
        k,
        n,
        rec,
        node.grants.len(),
        node.window_log2 as nat,
        at,
        node.blob().len(),
    );
    lemma_node_in_root(p, k, "  "@ + ("vmh"@ + mark) + x + dec(1 + k) + nl);
    if k == 0 {
        lemma_node_in_root(p, k, "  "@ + "vmin"@ + x + dec(1 + n) + nl);
    }
    lemma_node_in_root(p, k, "  "@ + ("vgptr"@ + mark) + c + dec(rec) + nl);
    lemma_node_in_root(p, k, "  "@ + ("vgn"@ + mark) + c + dec(node.grants.len()) + nl);
    lemma_node_in_root(p, k, "  "@ + ("vlog"@ + mark) + c + dec(node.window_log2 as nat) + nl);
    lemma_node_in_root(p, k, "  "@ + ("vap"@ + mark) + c + dec(at) + nl);
    lemma_node_in_root(p, k, "  "@ + ("val"@ + mark) + c + dec(node.blob().len()) + nl);
}

/// Every node finds its own arguments: the address and the length that its spawn is given delimit,
/// in the root's data, exactly the block that encodes its own argv and environment, inside the
/// root's window and clear of every other node's block.
pub proof fn law_node_finds_its_own_arguments(p: PlanView, k: nat, j: nat)
    requires
        p.root_src() is Ok,
        k < p.nodes.len(),
        j < k,
    ensures
        ({
            let text = p.root_src()->Ok_0;
            let block = spec_args_blob(
                p.nodes[k as int].argv.map_values(|s: Seq<char>| encode_utf8(s)),
                p.nodes[k as int].env,
            );
            let before = spec_args_blob(
                p.nodes[j as int].argv.map_values(|s: Seq<char>| encode_utf8(s)),
                p.nodes[j as int].env,
            );
            exists|at: nat, other: nat|
                {
                    &&& #[trigger] gives(text, "vap"@ + node_mark(k), at)
                    &&& gives(text, "val"@ + node_mark(k), block.len())
                    &&& lays(text, at, hex_escaped(block))
                    &&& at + block.len() <= ROOT_WINDOW
                    &&& #[trigger] gives(text, "vap"@ + node_mark(j), other)
                    &&& gives(text, "val"@ + node_mark(j), before.len())
                    &&& lays(text, other, hex_escaped(before))
                    &&& other + before.len() <= at
                }
        }),
{
    lemma_node_block(p, k);
    lemma_node_block(p, j);
    let nodes = p.nodes;
    let at = argv_end(nodes.take(k as int));
    let other = argv_end(nodes.take(j as int));
    assert(nodes.take(j as int + 1).drop_last() =~= nodes.take(j as int));
    lemma_argv_end_prefix(nodes.take(k as int), j as int + 1);
    assert(nodes.take(k as int).take(j as int + 1) =~= nodes.take(j as int + 1));
    let text = p.root_src()->Ok_0;
    assert(gives(text, "vap"@ + node_mark(k), at));
    assert(gives(text, "vap"@ + node_mark(j), other));
}

/// As [`law_node_finds_its_own_arguments`], of one node, the first included.
pub proof fn law_block_of_a_node_is_its_own(p: PlanView, k: nat)
    requires
        p.root_src() is Ok,
        k < p.nodes.len(),
    ensures
        ({
            let text = p.root_src()->Ok_0;
            let block = spec_args_blob(
                p.nodes[k as int].argv.map_values(|s: Seq<char>| encode_utf8(s)),
                p.nodes[k as int].env,
            );
            exists|at: nat|
                {
                    &&& #[trigger] gives(text, "vap"@ + node_mark(k), at)
                    &&& gives(text, "val"@ + node_mark(k), block.len())
                    &&& lays(text, at, hex_escaped(block))
                    &&& 20480 <= at
                    &&& at + block.len() <= 65536
                }
        }),
{
    lemma_node_block(p, k);
    let text = p.root_src()->Ok_0;
    assert(gives(text, "vap"@ + node_mark(k), argv_end(p.nodes.take(k as int))));
}

/// The block of a node lies where its spawn says.
proof fn lemma_node_block(p: PlanView, k: nat)
    requires
        p.root_src() is Ok,
        k < p.nodes.len(),
    ensures
        ({
            let text = p.root_text();
            let at = argv_end(p.nodes.take(k as int));
            let block = p.nodes[k as int].blob();
            &&& gives(text, "vap"@ + node_mark(k), at)
            &&& gives(text, "val"@ + node_mark(k), block.len())
            &&& lays(text, at, hex_escaped(block))
            &&& ARGV_BASE <= at
            &&& at + block.len() <= ROOT_WINDOW
        }),
{
    reveal(lays);
    let nodes = p.nodes;
    let at = argv_end(nodes.take(k as int));
    let block = nodes[k as int].blob();
    lemma_node_facts(p, k);
    lemma_argv_laid(nodes, k as int);
    lemma_root_parts(p);
    lemma_contains_transitive(
        p.root_text(),
        argv_text(nodes),
        "data "@ + dec(at) + " \""@ + hex_escaped(block) + "\"\n"@,
    );
    law_argv_blocks_are_contiguous(nodes, k as int);
}

/// Every node runs its own module in a window of its own size: its spawn takes the parameter in which
/// the root finds that module, and gives the window that the plan says; the budget is the parameter
/// behind the modules.
pub proof fn law_node_runs_its_own_module(
    p: PlanView,
    k: nat,
    inst: i32,
    modules: Seq<i32>,
    budget: i32,
    caps: Seq<i32>,
)
    requires
        p.root_src() is Ok,
        k < p.nodes.len(),
        modules.len() == p.nodes.len(),
        caps.len() == p.caps.len(),
    ensures
        ({
            let text = p.root_src()->Ok_0;
            let args = seq![inst] + modules + seq![budget] + caps;
            &&& takes(text, "vmh"@ + node_mark(k), k + 1)
            &&& args[k + 1int] == modules[k as int]
            &&& takes(text, "vmin"@, modules.len() + 1)
            &&& args[modules.len() + 1int] == budget
            &&& gives(text, "vlog"@ + node_mark(k), p.nodes[k as int].window_log2 as nat)
        }),
{
    let nodes = p.nodes;
    let text = p.root_text();
    lemma_node_facts(p, k);
    lemma_node_facts(p, 0);
    assert(p.root_src()->Ok_0 == text);
    let args = seq![inst] + modules + seq![budget] + caps;
    assert(args[1 + k as int] == modules[k as int]);
    assert(args[1 + modules.len() as int] == budget);
}

/// The lines of a grant record.
proof fn lemma_record_lines(at: nat, word: nat, v: nat)
    ensures
        ({
            let text = rendered(record_pieces(at, word, v));
            let n = dec(at);
            &&& gives(text, "xr"@ + n, word)
            &&& gives(text, "or"@ + n, at)
            &&& stores(text, "or"@ + n, "xr"@ + n)
            &&& takes(text, "h"@ + n, v)
            &&& gives(text, "oh"@ + n, at + 8)
            &&& stores(text, "oh"@ + n, "h"@ + n)
        }),
{
    reveal(gives);
    reveal(takes);
    reveal(stores);
    let pieces = record_pieces(at, word, v);
    let n = dec(at);
    let none = Seq::<char>::empty();
    let nl = "\n"@;
    reveal_strlit("\n");
    reveal_strlit("  ");
    reveal_strlit(" ");
    reveal_strlit("  xr");
    reveal_strlit("xr");
    reveal_strlit("\n  or");
    reveal_strlit("or");
    reveal_strlit("\n  i64.store or");
    reveal_strlit("  i64.store ");
    reveal_strlit(" xr");
    reveal_strlit("\n  h");
    reveal_strlit("h");
    reveal_strlit("\n  oh");
    reveal_strlit("oh");
    reveal_strlit("\n  i64.store oh");
    reveal_strlit(" h");
    assert(pieces[0].text() =~= none + ("  "@ + "xr"@));
    assert(pieces[4].text() =~= nl + ("  "@ + "or"@));
    lemma_five_pieces(pieces, 0, none, "  "@ + "xr"@, nl, "  "@ + "or"@);
    assert("  "@ + "xr"@ + pieces[1].text() + pieces[2].text() + pieces[3].text() + nl =~= "  "@ + (
    "xr"@ + n) + " = i64.const "@ + dec(word) + nl);
    assert(pieces[8].text() =~= nl + ("  i64.store "@ + "or"@));
    lemma_five_pieces(pieces, 4, nl, "  "@ + "or"@, nl, "  i64.store "@ + "or"@);
    assert("  "@ + "or"@ + pieces[5].text() + pieces[6].text() + pieces[7].text() + nl =~= "  "@ + (
    "or"@ + n) + " = i64.const "@ + dec(at) + nl);
    assert(pieces[12].text() =~= nl + ("  "@ + "h"@));
    lemma_five_pieces(pieces, 8, nl, "  i64.store "@ + "or"@, nl, "  "@ + "h"@);
    assert("  i64.store "@ + "or"@ + pieces[9].text() + pieces[10].text() + pieces[11].text() + nl
        =~= "  i64.store "@ + ("or"@ + n) + " "@ + ("xr"@ + n) + nl);
    assert(pieces[16].text() =~= nl + ("  "@ + "oh"@));
    lemma_five_pieces(pieces, 12, nl, "  "@ + "h"@, nl, "  "@ + "oh"@);
    assert("  "@ + "h"@ + pieces[13].text() + pieces[14].text() + pieces[15].text() + nl =~= "  "@
        + ("h"@ + n) + " = i64.extend_i32_u v"@ + dec(v) + nl);
    assert(pieces[20].text() =~= nl + ("  i64.store "@ + "oh"@));
    lemma_five_pieces(pieces, 16, nl, "  "@ + "oh"@, nl, "  i64.store "@ + "oh"@);
    assert("  "@ + "oh"@ + pieces[17].text() + pieces[18].text() + pieces[19].text() + nl =~= "  "@
        + ("oh"@ + n) + " = i64.const "@ + dec(at + 8) + nl);
    assert(pieces[24].text() =~= nl + none);
    lemma_five_pieces(pieces, 20, nl, "  i64.store "@ + "oh"@, nl, none);
    assert("  i64.store "@ + "oh"@ + pieces[21].text() + pieces[22].text() + pieces[23].text() + nl
        =~= "  i64.store "@ + ("oh"@ + n) + " "@ + ("h"@ + n) + nl);
}

/// The record of every granted name stands in the text of all records.
proof fn lemma_records_hold(names: Seq<Seq<char>>, caps: Seq<Seq<char>>, n: nat, g: int)
    requires
        0 <= g < names.len(),
    ensures
        contains(
            records_text(names, caps, n),
            rendered(
                record_pieces(
                    (REC_BASE + g * SLOT) as nat,
                    name_word(cap_place(caps, names[g]), names[g].len()),
                    cap_param(n, cap_place(caps, names[g])),
                ),
            ),
        ),
    decreases names.len(),
{
    let less = names.drop_last();
    let m = names.len() - 1;
    let part = rendered(
        record_pieces(
            (REC_BASE + m * SLOT) as nat,
            name_word(cap_place(caps, names[m]), names[m].len()),
            cap_param(n, cap_place(caps, names[m])),
        ),
    );
    let none = Seq::<char>::empty();
    if g == m {
        assert(records_text(names, caps, n) =~= records_text(less, caps, n) + part + none);
        lemma_middle(records_text(less, caps, n), part, none);
    } else {
        lemma_records_hold(less, caps, n, g);
        assert(records_text(names, caps, n) =~= none + records_text(less, caps, n) + part);
        lemma_contains_within(
            none,
            records_text(less, caps, n),
            part,
            rendered(
                record_pieces(
                    (REC_BASE + g * SLOT) as nat,
                    name_word(cap_place(caps, less[g]), less[g].len()),
                    cap_param(n, cap_place(caps, less[g])),
                ),
            ),
        );
    }
}

/// Where a name stands among the capabilities.
proof fn lemma_cap_found(caps: Seq<Seq<char>>, name: Seq<char>)
    requires
        caps.contains(name),
    ensures
        cap_place(caps, name) < caps.len(),
        caps[cap_place(caps, name) as int] == name,
    decreases caps.len(),
{
    if caps[0] != name {
        let i = choose|i: int| 0 <= i < caps.len() && caps[i] == name;
        assert(caps.drop_first()[i - 1] == name);
        lemma_cap_found(caps.drop_first(), name);
    }
}

/// Every node is granted the capabilities that the plan names, in order, and no more: its spawn is
/// given as many records as it has grants, and the record of a grant holds where its name lies in the
/// root's data, how long the name is, and the handle of the root's capability with that name. The
/// result says where the node's records start, which capability it is, and where its name lies.
pub proof fn law_node_is_granted_what_it_names(
    p: PlanView,
    k: nat,
    g: nat,
    inst: i32,
    modules: Seq<i32>,
    budget: i32,
    caps: Seq<i32>,
) -> (r: (nat, nat, nat))
    requires
        p.root_src() is Ok,
        k < p.nodes.len(),
        g < p.nodes[k as int].grants.len(),
        modules.len() == p.nodes.len(),
        caps.len() == p.caps.len(),
    ensures
        ({
            let text = p.root_src()->Ok_0;
            let node = p.nodes[k as int];
            let name = node.grants[g as int];
            let args = seq![inst] + modules + seq![budget] + caps;
            let (rec, i, place) = r;
            let at = rec + 16 * g;
            &&& gives(text, "vgn"@ + node_mark(k), node.grants.len())
            &&& gives(text, "vgptr"@ + node_mark(k), rec)
            &&& i < p.caps.len()
            &&& p.caps[i as int] == name
            &&& lays(text, place, name)
            &&& gives(text, "xr"@ + dec(at), place + name.len() * 0x1_0000_0000)
            &&& gives(text, "or"@ + dec(at), at)
            &&& stores(text, "or"@ + dec(at), "xr"@ + dec(at))
            &&& takes(text, "h"@ + dec(at), 2 + p.nodes.len() + i)
            &&& args[(2 + p.nodes.len() + i) as int] == caps[i as int]
            &&& gives(text, "oh"@ + dec(at), at + 8)
            &&& stores(text, "oh"@ + dec(at), "h"@ + dec(at))
        }),
{
    let nodes = p.nodes;
    let n = nodes.len();
    let node = nodes[k as int];
    let name = node.grants[g as int];
    let text = p.root_text();
    let before = granted(nodes.take(k as int));
    let rec = (REC_BASE + before.len() * SLOT) as nat;
    let i = cap_place(p.caps, name);
    let place = (NAME_BASE + i * SLOT) as nat;
    let slot = before.len() as int + g;
    lemma_node_facts(p, k);
    law_grants_come_from_the_root(p, k as int, g as int);
    lemma_cap_found(p.caps, name);
    lemma_granted_at(nodes, k as int, g as int);
    assert((REC_BASE + slot * SLOT) as nat == rec + 16 * g);
    lemma_record_facts(p, slot);
    assert(p.root_src()->Ok_0 == text);
    let args = seq![inst] + modules + seq![budget] + caps;
    assert(args[(2 + n + i) as int] == caps[i as int]);
    (rec, i, place)
}

/// A grant of a node stands among all grants behind those of the nodes before it.
proof fn lemma_granted_at(nodes: Seq<NodeView>, k: int, g: int)
    requires
        0 <= k < nodes.len(),
        0 <= g < nodes[k].grants.len(),
    ensures
        granted(nodes.take(k)).len() + g < granted(nodes).len(),
        granted(nodes)[granted(nodes.take(k)).len() + g] == nodes[k].grants[g],
{
    let all = granted(nodes);
    let slot = granted(nodes.take(k)).len() + g;
    let now = nodes.take(k + 1);
    assert(now.drop_last() =~= nodes.take(k));
    lemma_granted_prefix(nodes, k + 1);
    assert(granted(now)[slot] == nodes[k].grants[g]);
    assert(all.take(granted(now).len() as int)[slot] == all[slot]);
}

/// The record of a grant, as the root fills it.
#[verifier::spinoff_prover]
#[verifier::rlimit(50)]
proof fn lemma_record_facts(p: PlanView, slot: int)
    requires
        p.nodes.len() > 0,
        0 <= slot < granted(p.nodes).len(),
        p.caps.contains(granted(p.nodes)[slot]),
    ensures
        ({
            let text = p.root_text();
            let name = granted(p.nodes)[slot];
            let at = (REC_BASE + slot * SLOT) as nat;
            let i = cap_place(p.caps, name);
            let place = (NAME_BASE + i * SLOT) as nat;
            &&& lays(text, place, p.caps[i as int])
            &&& gives(text, "xr"@ + dec(at), place + name.len() * 0x1_0000_0000)
            &&& gives(text, "or"@ + dec(at), at)
            &&& stores(text, "or"@ + dec(at), "xr"@ + dec(at))
            &&& takes(text, "h"@ + dec(at), 2 + p.nodes.len() + i)
            &&& gives(text, "oh"@ + dec(at), at + 8)
            &&& stores(text, "oh"@ + dec(at), "h"@ + dec(at))
        }),
{
    reveal(gives);
    reveal(takes);
    reveal(stores);
    reveal(lays);
    let n = p.nodes.len();
    let text = p.root_text();
    let all = granted(p.nodes);
    let name = all[slot];
    let at = (REC_BASE + slot * SLOT) as nat;
    let i = cap_place(p.caps, name);
    let place = (NAME_BASE + i * SLOT) as nat;
    lemma_cap_found(p.caps, name);
    lemma_records_hold(all, p.caps, n, slot);
    let word = name_word(i, name.len());
    let param = cap_param(n, i);
    let record = rendered(record_pieces(at, word, param));
    lemma_record_lines(at, word, param);
    lemma_root_parts(p);
    lemma_contains_transitive(text, records_text(all, p.caps, n), record);
    let d = dec(at);
    let c = " = i64.const "@;
    let nl = "\n"@;
    assert(word == place + name.len() * 0x1_0000_0000);
    lemma_contains_transitive(text, record, "  "@ + ("xr"@ + d) + c + dec(word) + nl);
    lemma_contains_transitive(text, record, "  "@ + ("or"@ + d) + c + dec(at) + nl);
    lemma_contains_transitive(text, record, "  i64.store "@ + ("or"@ + d) + " "@ + ("xr"@ + d) + nl);
    lemma_contains_transitive(
        text,
        record,
        "  "@ + ("h"@ + d) + " = i64.extend_i32_u v"@ + dec(param) + nl,
    );
    lemma_contains_transitive(text, record, "  "@ + ("oh"@ + d) + c + dec(at + 8) + nl);
    lemma_contains_transitive(text, record, "  i64.store "@ + ("oh"@ + d) + " "@ + ("h"@ + d) + nl);
    lemma_name_laid(p.caps, i as int);
    lemma_contains_transitive(
        text,
        names_text(p.caps),
        "data "@ + dec(place) + " \""@ + p.caps[i as int] + "\"\n"@,
    );
}

/// The names of different nodes are different, so no node's spawn reads another's operands.
pub proof fn law_node_names_are_distinct(j: nat, k: nat)
    requires
        j != k,
    ensures
        node_mark(j) != node_mark(k),
{
    law_decimal_round_trip(j);
    law_decimal_round_trip(k);
    if node_mark(j) == node_mark(k) {
        if j == 0 {
            assert(node_mark(k)[0] == '_');
        } else if k == 0 {
            assert(node_mark(j)[0] == '_');
        } else {
            assert(node_mark(j).skip(1) =~= dec(j));
            assert(node_mark(k).skip(1) =~= dec(k));
        }
    }
}

/// A node reads its arguments and its environment back from its block as the plan gives them.
pub proof fn law_node_reads_its_arguments(node: NodeView)
    requires
        nul_free(node.argv.map_values(|s: Seq<char>| encode_utf8(s))),
        nul_free(node.env),
        node.argv.len() <= u32::MAX,
        node.env.len() <= u32::MAX,
    ensures
        le_value(node.blob().subrange(0, 4)) == node.argv.len(),
        le_value(node.blob().subrange(4, 8)) == node.env.len(),
        strings_of(node.blob().skip(8), node.argv.len() + node.env.len()) == node.argv.map_values(
            |s: Seq<char>| encode_utf8(s),
        ) + node.env,
{
    law_args_blob_round_trip(node.argv.map_values(|s: Seq<char>| encode_utf8(s)), node.env);
}

/// The budget covers every node's window: one more node costs exactly its window, and a plan without
/// nodes nothing.
pub proof fn law_budget_is_the_sum_of_windows(nodes: Seq<NodeView>, node: NodeView)
    ensures
        windows_total(Seq::empty()) == 0,
        windows_total(nodes.push(node)) == windows_total(nodes) + pow2(node.window_log2 as nat),
{
    assert(nodes.push(node).drop_last() =~= nodes);
}

/// The root returns what its last node returned, and joins every node by the handle that its own
/// spawn gave.
pub proof fn law_root_joins_its_nodes(p: PlanView, k: nat)
    requires
        p.root_src() is Ok,
        k < p.nodes.len(),
    ensures
        ({
            let text = p.root_src()->Ok_0;
            let mark = node_mark(k);
            let end = "  return vr"@ + node_mark((p.nodes.len() - 1) as nat) + "\n  }\n}\n"@;
            &&& contains(
                text,
                "  vr"@ + mark + " = call.cap 6 1 (i32) -> (i64) v0 (vh"@ + mark + ")\n"@,
            )
            &&& occurs_at(text, end, text.len() - end.len())
        }),
{
    let n = p.nodes.len();
    let text = p.root_text();
    let end = "  return vr"@ + node_mark((n - 1) as nat) + "\n  }\n}\n"@;
    lemma_root_parts(p);
    lemma_joins_hold(n, k);
    lemma_contains_transitive(
        text,
        joins_text(n),
        "  vr"@ + node_mark(k) + " = call.cap 6 1 (i32) -> (i64) v0 (vh"@ + node_mark(k) + ")\n"@,
    );
    assert(text.subrange(text.len() - end.len(), text.len() as int) =~= end);
}

/// The join of every node stands in the text of all joins.
proof fn lemma_joins_hold(n: nat, k: nat)
    requires
        k < n,
    ensures
        contains(
            joins_text(n),
            "  vr"@ + node_mark(k) + " = call.cap 6 1 (i32) -> (i64) v0 (vh"@ + node_mark(k) + ")\n"@,
        ),
    decreases n,
{
    let m = (n - 1) as nat;
    let none = Seq::<char>::empty();
    let part = rendered(join_pieces(node_mark(m)));
    let line = "  vr"@ + node_mark(k) + " = call.cap 6 1 (i32) -> (i64) v0 (vh"@ + node_mark(k)
        + ")\n"@;
    if k == m {
        assert("  vr"@ =~= none + "  vr"@);
        assert(")\n"@ =~= ")\n"@ + none);
        lemma_five_pieces(join_pieces(node_mark(m)), 0, none, "  vr"@, ")\n"@, none);
        assert(joins_text(n) =~= joins_text(m) + part + none);
        lemma_contains_within(joins_text(m), part, none, line);
    } else {
        lemma_joins_hold(m, k);
        assert(joins_text(n) =~= none + joins_text(m) + part);
        lemma_contains_within(none, joins_text(m), part, line);
    }
}

/// The first item without a property is the one before which every item has it.
proof fn lemma_first_without(items: Seq<Seq<char>>, p: spec_fn(Seq<char>) -> bool, i: int)
    ensures
        (0 <= i < items.len() && !p(items[i]) && forall|j: int| 0 <= j < i ==> p(#[trigger] items[j]))
            ==> first_not(items, p) == Some(items[i]),
        first_not(items, p) is None <==> forall|j: int| 0 <= j < items.len() ==> p(#[trigger] items[j]),
    decreases items.len(),
{
    if items.len() > 0 {
        let less = items.drop_last();
        let n = less.len() as int;
        lemma_first_without(less, p, i);
        assert(forall|j: int| 0 <= j < n ==> less[j] == items[j]);
        if forall|j: int| 0 <= j < n ==> p(#[trigger] less[j]) {
            assert forall|j: int| 0 <= j < n implies p(#[trigger] items[j]) by {
                assert(p(less[j]));
            }
            assert(first_not(less, p) is None);
            if p(items[n]) {
                assert forall|j: int| 0 <= j < items.len() implies p(#[trigger] items[j]) by {
                    if j < n {
                        assert(p(less[j]));
                    }
                }
            }
        } else {
            let j = choose|j: int| 0 <= j < n && !p(#[trigger] less[j]);
            assert(!p(items[j]));
        }
    }
}

/// A plan is accepted exactly if it has a node, its capabilities and their plain names fit, its
/// argument blocks fit, and every grant is of a capability that the root holds and has room.
pub proof fn law_plan_is_accepted_exactly(p: PlanView)
    ensures
        p.root_src() is Ok <==> {
            &&& p.nodes.len() > 0
            &&& p.caps.len() <= 128
            &&& forall|i: int| 0 <= i < p.caps.len() ==> plain_name(#[trigger] p.caps[i])
            &&& argv_end(p.nodes) <= 65536
            &&& forall|i: int|
                0 <= i < granted(p.nodes).len() ==> p.caps.contains(#[trigger] granted(p.nodes)[i])
            &&& granted(p.nodes).len() <= 64
        },
{
    lemma_first_without(p.caps, plain(), 0);
    lemma_first_without(granted(p.nodes), held_by(p.caps), 0);
    assert(forall|i: int|
        0 <= i < p.caps.len() ==> plain()(#[trigger] p.caps[i]) == plain_name(p.caps[i]));
    assert(forall|i: int|
        0 <= i < granted(p.nodes).len() ==> held_by(p.caps)(#[trigger] granted(p.nodes)[i])
            == p.caps.contains(granted(p.nodes)[i]));
}

/// A refusal names what it refuses: the first name that cannot stand in the root, and the first grant
/// that the root does not hold.
pub proof fn law_refusal_names_the_first_offender(p: PlanView, i: int)
    requires
        p.nodes.len() > 0,
        p.caps.len() <= 128,
    ensures
        (0 <= i < p.caps.len() && !plain_name(p.caps[i]) && forall|j: int|
            0 <= j < i ==> plain_name(#[trigger] p.caps[j])) ==> p.root_src() == Err::<
            Seq<char>,
            Seq<char>,
        >("capability name "@ + literal(p.caps[i]) + " is not a short ASCII word"@),
        ((forall|j: int| 0 <= j < p.caps.len() ==> plain_name(#[trigger] p.caps[j])) && argv_end(
            p.nodes,
        ) <= 65536 && 0 <= i < granted(p.nodes).len() && !p.caps.contains(granted(p.nodes)[i])
            && forall|j: int|
            0 <= j < i ==> p.caps.contains(#[trigger] granted(p.nodes)[j])) ==> p.root_src()
            == Err::<Seq<char>, Seq<char>>(
            "a node is granted "@ + literal(granted(p.nodes)[i]) + ", which the root does not hold"@,
        ),
{
    lemma_first_without(p.caps, plain(), i);
    lemma_first_without(granted(p.nodes), held_by(p.caps), i);
    assert(forall|j: int|
        0 <= j < p.caps.len() ==> plain()(#[trigger] p.caps[j]) == plain_name(p.caps[j]));
    assert(forall|j: int|
        0 <= j < granted(p.nodes).len() ==> held_by(p.caps)(#[trigger] granted(p.nodes)[j])
            == p.caps.contains(granted(p.nodes)[j]));
}

/// A plain name is up to sixteen printable characters without a quote or a backslash.
pub proof fn law_plain_names_stand_for_themselves(s: Seq<char>, c: char)
    ensures
        plain_name(s) ==> s.len() > 0 && s.len() <= 16 && !s.contains('"') && !s.contains('\\')
            && !s.contains(' '),
        plain_name(s) && s.len() < 16 && '!' <= c <= '~' && c != '"' && c != '\\' ==> plain_name(
            s.push(c),
        ),
        !plain_name(Seq::empty()),
{
}

/// The root is handed each argument in the parameter that its text reads: the instantiator first, then
/// the module of every node, the budget, and each capability at its place.
pub proof fn law_root_is_handed_its_arguments(
    p: PlanView,
    inst: i32,
    modules: Seq<i32>,
    budget: i32,
    caps: Seq<i32>,
    k: int,
    i: int,
)
    requires
        modules.len() == p.nodes.len(),
        caps.len() == p.caps.len(),
    ensures
        ({
            let args = spec_root_args(inst, modules, budget, caps);
            &&& args.len() == p.nodes.len() + p.caps.len() + 2
            &&& args.len() == p.param_count()
            &&& args[0] == Value::I32(inst)
            &&& 0 <= k < modules.len() ==> args[1 + k] == Value::I32(modules[k])
            &&& args[1 + modules.len() as int] == Value::I32(budget)
            &&& 0 <= i < caps.len() ==> args[cap_param(p.nodes.len(), i as nat) as int]
                == Value::I32(caps[i])
        }),
{
}

/// The root declares as many parameters as it is handed arguments, each a 32-bit number under its own
/// number.
pub proof fn law_root_declares_its_parameters(k: nat)
    ensures
        types_text(0).len() == 0,
        types_text(1) == "i32"@,
        types_text(k + 2) == types_text(k + 1) + ", i32"@,
        params_text(0).len() == 0,
        params_text(1) == "v"@ + dec(0) + ": i32"@,
        params_text(k + 2) == params_text(k + 1) + ", v"@ + dec(k + 1) + ": i32"@,
{
    lemma_param_text(0);
    lemma_param_text(k + 1);
    assert(params_text(0) + rendered(param_pieces(0)) =~= rendered(param_pieces(0)));
    assert(params_text(1) =~= "v"@ + dec(0) + ": i32"@);
    assert(params_text(k + 2) =~= params_text(k + 1) + ", v"@ + dec(k + 1) + ": i32"@);
}

/// One parameter's text.
proof fn lemma_param_text(k: nat)
    ensures
        rendered(param_pieces(k)) == (if k == 0 {
            "v"@
        } else {
            ", v"@
        }) + dec(k) + ": i32"@,
{
    let p = param_pieces(k);
    let two = p.drop_last();
    let one = two.drop_last();
    assert(two.last() == p[1]);
    assert(one.last() == p[0]);
    assert(rendered(one.drop_last()) =~= Seq::<char>::empty());
    assert(rendered(one) =~= p[0].text());
    assert(rendered(two) =~= p[0].text() + p[1].text());
}

} // verus!
