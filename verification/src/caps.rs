//! Which capabilities a guest is granted, and what its imports bind to.

use vstd::arithmetic::power2::pow2;
use vstd::prelude::*;

use crate::text::{has_prefix, same_text, starts_with};
use crate::window::size_of_log2;

verus! {

/// The dispatch table of a guest that submits its own units has `1 << 10` slots.
pub const ONRAMP_JIT_TABLE_LOG2: u8 = 10;

/// An interface that a capability handle can name.
#[derive(Clone, Copy, Debug, PartialEq, Eq, Structural)]
pub enum CapKind {
    Stream,
    Exit,
    AddressSpace,
    SharedRegion,
    Jit,
}

/// An operation of an interface.
#[derive(Clone, Copy, Debug, PartialEq, Eq, Structural)]
pub struct CapOp {
    pub kind: CapKind,
    pub op: u32,
}

/// The operation that an import name stands for.
pub open spec fn spec_onramp_cap_resolver(name: Seq<char>) -> Option<CapOp> {
    if name == "write"@ {
        Some(CapOp { kind: CapKind::Stream, op: 1 })
    } else if name == "read"@ {
        Some(CapOp { kind: CapKind::Stream, op: 0 })
    } else if name == "exit"@ {
        Some(CapOp { kind: CapKind::Exit, op: 0 })
    } else if name == "vm_map"@ {
        Some(CapOp { kind: CapKind::AddressSpace, op: 0 })
    } else if name == "vm_unmap"@ {
        Some(CapOp { kind: CapKind::AddressSpace, op: 1 })
    } else if name == "vm_protect"@ {
        Some(CapOp { kind: CapKind::AddressSpace, op: 2 })
    } else if name == "vm_page_size"@ {
        Some(CapOp { kind: CapKind::AddressSpace, op: 3 })
    } else if name == "vm_region_create"@ {
        Some(CapOp { kind: CapKind::AddressSpace, op: 5 })
    } else if name == "vm_region_map"@ {
        Some(CapOp { kind: CapKind::SharedRegion, op: 0 })
    } else if name == "vm_region_unmap"@ {
        Some(CapOp { kind: CapKind::SharedRegion, op: 1 })
    } else if name == "vm_region_page_size"@ {
        Some(CapOp { kind: CapKind::SharedRegion, op: 3 })
    } else if name == "vm_jit_compile"@ {
        Some(CapOp { kind: CapKind::Jit, op: 0 })
    } else if name == "vm_jit_compile_linked"@ {
        Some(CapOp { kind: CapKind::Jit, op: 5 })
    } else if name == "vm_jit_invoke2"@ {
        Some(CapOp { kind: CapKind::Jit, op: 1 })
    } else if name == "vm_jit_release"@ {
        Some(CapOp { kind: CapKind::Jit, op: 2 })
    } else if name == "vm_jit_install"@ {
        Some(CapOp { kind: CapKind::Jit, op: 3 })
    } else if name == "vm_jit_uninstall"@ {
        Some(CapOp { kind: CapKind::Jit, op: 4 })
    } else {
        None
    }
}

/// The operation that an import name stands for; `None` for a name outside the policy.
pub fn onramp_cap_resolver(name: &str) -> (r: Option<CapOp>)
    ensures
        r == spec_onramp_cap_resolver(name@),
{
    if same_text(name, "write") {
        Some(CapOp { kind: CapKind::Stream, op: 1 })
    } else if same_text(name, "read") {
        Some(CapOp { kind: CapKind::Stream, op: 0 })
    } else if same_text(name, "exit") {
        Some(CapOp { kind: CapKind::Exit, op: 0 })
    } else if same_text(name, "vm_map") {
        Some(CapOp { kind: CapKind::AddressSpace, op: 0 })
    } else if same_text(name, "vm_unmap") {
        Some(CapOp { kind: CapKind::AddressSpace, op: 1 })
    } else if same_text(name, "vm_protect") {
        Some(CapOp { kind: CapKind::AddressSpace, op: 2 })
    } else if same_text(name, "vm_page_size") {
        Some(CapOp { kind: CapKind::AddressSpace, op: 3 })
    } else if same_text(name, "vm_region_create") {
        Some(CapOp { kind: CapKind::AddressSpace, op: 5 })
    } else if same_text(name, "vm_region_map") {
        Some(CapOp { kind: CapKind::SharedRegion, op: 0 })
    } else if same_text(name, "vm_region_unmap") {
        Some(CapOp { kind: CapKind::SharedRegion, op: 1 })
    } else if same_text(name, "vm_region_page_size") {
        Some(CapOp { kind: CapKind::SharedRegion, op: 3 })
    } else if same_text(name, "vm_jit_compile") {
        Some(CapOp { kind: CapKind::Jit, op: 0 })
    } else if same_text(name, "vm_jit_compile_linked") {
        Some(CapOp { kind: CapKind::Jit, op: 5 })
    } else if same_text(name, "vm_jit_invoke2") {
        Some(CapOp { kind: CapKind::Jit, op: 1 })
    } else if same_text(name, "vm_jit_release") {
        Some(CapOp { kind: CapKind::Jit, op: 2 })
    } else if same_text(name, "vm_jit_install") {
        Some(CapOp { kind: CapKind::Jit, op: 3 })
    } else if same_text(name, "vm_jit_uninstall") {
        Some(CapOp { kind: CapKind::Jit, op: 4 })
    } else {
        None
    }
}

/// An exported function.
#[derive(Debug)]
pub struct ExportEntry {
    pub name: String,
    pub func: u32,
}

/// What the powerbox reads of a module.
#[derive(Debug)]
pub struct OnrampModule {
    /// The parameter count of function 0, if the module has functions.
    pub entry_params: Option<usize>,
    /// The names of the imports, by slot.
    pub imports: Vec<String>,
    pub exports: Vec<ExportEntry>,
    /// The declared window, as a power of two.
    pub memory_log2: Option<u8>,
}

impl OnrampModule {
    /// Function 0 is exported as `_start`.
    pub open spec fn exports_start(self) -> bool {
        exists|i: int|
            0 <= i < self.exports@.len() && (#[trigger] self.exports@[i]).name@ == "_start"@
                && self.exports@[i].func == 0
    }

    /// The entry takes no parameters and is exported as `_start`.
    pub open spec fn named_entry(self) -> bool {
        self.entry_params == Some(0usize) && self.exports_start()
    }

    /// The module may run under the powerbox.
    pub open spec fn spec_bindable(self) -> bool {
        self.imports@.len() == 0 || self.named_entry()
    }

    /// Some import asks for the unit compiler.
    pub open spec fn spec_wants_jit(self) -> bool {
        exists|i: int|
            0 <= i < self.imports@.len() && starts_with(
                (#[trigger] self.imports@[i])@,
                "vm_jit_"@,
            )
    }

    /// What the unit compiler is granted for: the declared window, and the size of its table.
    pub open spec fn spec_jit_grant(self) -> Option<(Option<u8>, u8)> {
        if self.spec_wants_jit() {
            Some((self.memory_log2, ONRAMP_JIT_TABLE_LOG2))
        } else {
            None
        }
    }

    /// What the unit compiler is granted for, if the module asks for it at all: the declared window,
    /// and the size of its table.
    pub fn jit_grant(&self) -> (r: Option<(Option<u8>, u8)>)
        ensures
            r == self.spec_jit_grant(),
    {
        if self.wants_jit() {
            Some((self.memory_log2, ONRAMP_JIT_TABLE_LOG2))
        } else {
            None
        }
    }

    /// Whether some import asks for the unit compiler.
    pub fn wants_jit(&self) -> (r: bool)
        ensures
            r == self.spec_wants_jit(),
    {
        let mut i: usize = 0;
        while i < self.imports.len()
            invariant
                i <= self.imports.len(),
                forall|j: int|
                    0 <= j < i ==> !starts_with((#[trigger] self.imports@[j])@, "vm_jit_"@),
            decreases self.imports.len() - i,
        {
            if has_prefix(self.imports[i].as_str(), "vm_jit_") {
                return true;
            }
            i = i + 1;
        }
        false
    }

    /// The bytes of the declared window, zero if there is none.
    pub fn window_bytes(&self) -> (r: u64)
        requires
            self.memory_log2 matches Some(k) ==> k < 64,
        ensures
            r == (match self.memory_log2 {
                Some(k) => pow2(k as nat),
                None => 0,
            }),
    {
        match self.memory_log2 {
            Some(k) => size_of_log2(k),
            None => 0,
        }
    }

    /// The window of a run that wants at least `2^win_log2` bytes.
    pub open spec fn spec_enlarged_log2(self, win_log2: u8) -> u8 {
        match self.memory_log2 {
            Some(k) => if k < win_log2 {
                win_log2
            } else {
                k
            },
            None => win_log2,
        }
    }

    /// `r` is the function exported as `name`, the first one if there are several.
    pub open spec fn resolves(self, name: Seq<char>, r: Option<u32>) -> bool {
        &&& r is None <==> forall|i: int|
            0 <= i < self.exports@.len() ==> (#[trigger] self.exports@[i]).name@ != name
        &&& r matches Some(f) ==> exists|i: int|
            0 <= i < self.exports@.len() && (#[trigger] self.exports@[i]).name@ == name
                && self.exports@[i].func == f && forall|j: int|
                0 <= j < i ==> (#[trigger] self.exports@[j]).name@ != name
    }

    /// The window of a run that wants at least `2^win_log2` bytes.
    pub fn enlarged_log2(&self, win_log2: u8) -> (r: u8)
        ensures
            r == self.spec_enlarged_log2(win_log2),
            r == (match self.memory_log2 {
                Some(k) => if k < win_log2 { win_log2 } else { k },
                None => win_log2,
            }),
    {
        match self.memory_log2 {
            Some(k) => {
                if k < win_log2 {
                    win_log2
                } else {
                    k
                }
            },
            None => win_log2,
        }
    }

    /// The function exported as `name`, the first one if there are several.
    pub fn resolve_export(&self, name: &str) -> (r: Option<u32>)
        ensures
            self.resolves(name@, r),
            r is None <==> forall|i: int|
                0 <= i < self.exports@.len() ==> (#[trigger] self.exports@[i]).name@ != name@,
            r matches Some(f) ==> exists|i: int|
                0 <= i < self.exports@.len() && (#[trigger] self.exports@[i]).name@ == name@
                    && self.exports@[i].func == f && forall|j: int|
                    0 <= j < i ==> (#[trigger] self.exports@[j]).name@ != name@,
    {
        let mut i: usize = 0;
        while i < self.exports.len()
            invariant
                i <= self.exports.len(),
                forall|j: int| 0 <= j < i ==> (#[trigger] self.exports@[j]).name@ != name@,
            decreases self.exports.len() - i,
        {
            if same_text(self.exports[i].name.as_str(), name) {
                return Some(self.exports[i].func);
            }
            i = i + 1;
        }
        None
    }
}

/// Whether a module may run under the powerbox: one with imports must have the named entry through
/// which they bind.
pub fn onramp_check(m: &OnrampModule) -> (r: Result<(), ()>)
    ensures
        r is Ok <==> m.spec_bindable(),
        r is Ok <==> m.imports@.len() == 0 || m.named_entry(),
{
    if m.imports.len() == 0 {
        return Ok(());
    }
    let paramless: bool = match m.entry_params {
        Some(n) => n == 0,
        None => false,
    };
    if !paramless {
        return Err(());
    }
    let mut i: usize = 0;
    while i < m.exports.len()
        invariant
            i <= m.exports.len(),
            m.imports@.len() != 0,
            m.entry_params == Some(0usize),
            forall|j: int|
                0 <= j < i ==> !((#[trigger] m.exports@[j]).name@ == "_start"@ && m.exports@[j].func
                    == 0),
        decreases m.exports.len() - i,
    {
        if m.exports[i].func == 0 && same_text(m.exports[i].name.as_str(), "_start") {
            assert(m.exports_start());
            return Ok(());
        }
        i = i + 1;
    }
    Err(())
}

/// What an import slot is bound to.
#[derive(Clone, Copy, Debug, PartialEq, Eq, Structural)]
pub enum Binding {
    /// Nothing: a call through the slot fails.
    Unbound,
    /// This operation on this handle.
    Required { cap: CapOp, handle: i32 },
}

/// The handles of the fixed powerbox prefix.
#[derive(Clone, Copy, Debug)]
pub struct PrefixHandles {
    pub stdout: i32,
    pub stdin: i32,
    pub exit: i32,
    pub memory: i32,
    pub addrspace: i32,
}

impl PrefixHandles {
    /// The handle of a capability.
    pub open spec fn of(self, cap: PrefixCap) -> i32 {
        match cap {
            PrefixCap::Stdout => self.stdout,
            PrefixCap::Stdin => self.stdin,
            PrefixCap::Exit => self.exit,
            PrefixCap::Memory => self.memory,
            PrefixCap::AddrSpace => self.addrspace,
        }
    }
}

/// The handle that an operation goes to.
///
/// Writing goes to standard output and any other stream operation to standard input; the mapping
/// operations go to the whole window and the region operations to the sized address space.
pub open spec fn spec_handle_for(cap: CapOp, h: PrefixHandles, jit: Option<i32>) -> Option<i32> {
    match cap.kind {
        CapKind::Stream => Some(
            if cap.op == 1 {
                h.stdout
            } else {
                h.stdin
            },
        ),
        CapKind::Exit => Some(h.exit),
        CapKind::AddressSpace => Some(
            if cap.op <= 3 {
                h.memory
            } else {
                h.addrspace
            },
        ),
        CapKind::Jit => jit,
        CapKind::SharedRegion => None,
    }
}

/// What the import `name` binds to.
pub open spec fn spec_binding(name: Seq<char>, h: PrefixHandles, jit: Option<i32>) -> Binding {
    match spec_onramp_cap_resolver(name) {
        None => Binding::Unbound,
        Some(cap) => match spec_handle_for(cap, h, jit) {
            None => Binding::Unbound,
            Some(handle) => Binding::Required { cap, handle },
        },
    }
}

/// What the import `name` binds to.
pub fn binding_for(name: &str, h: &PrefixHandles, jit: Option<i32>) -> (r: Binding)
    ensures
        r == spec_binding(name@, *h, jit),
{
    let cap: CapOp = match onramp_cap_resolver(name) {
        None => {
            return Binding::Unbound;
        },
        Some(c) => c,
    };
    let handle: Option<i32> = match cap.kind {
        CapKind::Stream => if cap.op == 1 {
            Some(h.stdout)
        } else {
            Some(h.stdin)
        },
        CapKind::Exit => Some(h.exit),
        CapKind::AddressSpace => if cap.op <= 3 {
            Some(h.memory)
        } else {
            Some(h.addrspace)
        },
        CapKind::Jit => jit,
        CapKind::SharedRegion => None,
    };
    match handle {
        None => Binding::Unbound,
        Some(handle) => Binding::Required { cap, handle },
    }
}

/// What the imports of a module bind to, slot by slot.
pub open spec fn spec_grants(m: OnrampModule, h: PrefixHandles, jit: Option<i32>) -> Seq<Binding> {
    Seq::new(m.imports@.len(), |i: int| spec_binding(m.imports@[i]@, h, jit))
}

/// Binds every import of a module, slot by slot.
///
/// `jit` is the unit compiler's handle: there is one exactly for a module that is
/// [granted](OnrampModule::jit_grant) the compiler.
pub fn grant_onramp_caps(m: &OnrampModule, h: &PrefixHandles, jit: Option<i32>) -> (r: Vec<Binding>)
    requires
        jit is Some <==> m.spec_wants_jit(),
    ensures
        r@ == spec_grants(*m, *h, jit),
        r@.len() == m.imports@.len(),
        forall|i: int|
            0 <= i < m.imports@.len() ==> #[trigger] r@[i] == spec_binding(
                m.imports@[i]@,
                *h,
                jit,
            ),
{
    let mut out: Vec<Binding> = Vec::with_capacity(m.imports.len());
    let mut i: usize = 0;
    while i < m.imports.len()
        invariant
            i <= m.imports.len(),
            out@.len() == i,
            forall|j: int|
                0 <= j < i ==> #[trigger] out@[j] == spec_binding(m.imports@[j]@, *h, jit),
        decreases m.imports.len() - i,
    {
        out.push(binding_for(m.imports[i].as_str(), h, jit));
        i = i + 1;
    }
    assert(out@ =~= spec_grants(*m, *h, jit));
    out
}

/// A capability of the fixed powerbox prefix.
#[derive(Clone, Copy, Debug, PartialEq, Eq, Structural)]
pub enum PrefixCap {
    Stdout,
    Stdin,
    Exit,
    Memory,
    AddrSpace,
}

/// The capabilities of the fixed powerbox prefix, in grant order.
pub open spec fn prefix_order() -> Seq<PrefixCap> {
    seq![
        PrefixCap::Stdout,
        PrefixCap::Stdin,
        PrefixCap::Exit,
        PrefixCap::Memory,
        PrefixCap::AddrSpace,
    ]
}

/// The capabilities of the fixed powerbox prefix, in grant order.
pub fn prefix_grants() -> (r: Vec<PrefixCap>)
    ensures
        r@ == prefix_order(),
{
    let mut out: Vec<PrefixCap> = Vec::new();
    out.push(PrefixCap::Stdout);
    out.push(PrefixCap::Stdin);
    out.push(PrefixCap::Exit);
    out.push(PrefixCap::Memory);
    out.push(PrefixCap::AddrSpace);
    out
}

impl PrefixCap {
    /// The name that a guest resolves this capability by.
    pub open spec fn spec_name(self) -> Seq<char> {
        match self {
            PrefixCap::Stdout => "stdout"@,
            PrefixCap::Stdin => "stdin"@,
            PrefixCap::Exit => "exit"@,
            PrefixCap::Memory => "memory"@,
            PrefixCap::AddrSpace => "addrspace"@,
        }
    }

    /// The name that a guest resolves this capability by.
    pub fn name(&self) -> (r: &'static str)
        ensures
            r@ == self.spec_name(),
    {
        match self {
            PrefixCap::Stdout => "stdout",
            PrefixCap::Stdin => "stdin",
            PrefixCap::Exit => "exit",
            PrefixCap::Memory => "memory",
            PrefixCap::AddrSpace => "addrspace",
        }
    }
}

/// The handles of a prefix that was granted in order.
pub open spec fn spec_prefix_handles(granted: Seq<i32>) -> PrefixHandles {
    PrefixHandles {
        stdout: granted[0],
        stdin: granted[1],
        exit: granted[2],
        memory: granted[3],
        addrspace: granted[4],
    }
}

/// The handles of a prefix that was granted in order.
pub fn prefix_handles(granted: [i32; 5]) -> (r: PrefixHandles)
    ensures
        r == spec_prefix_handles(granted@),
        forall|i: int|
            0 <= i < 5 ==> #[trigger] r.of(prefix_order()[i]) == granted@[i],
{
    let r: PrefixHandles = PrefixHandles {
        stdout: granted[0],
        stdin: granted[1],
        exit: granted[2],
        memory: granted[3],
        addrspace: granted[4],
    };
    r
}

/// A capability of the arity-driven powerbox.
#[derive(Clone, Copy, Debug, PartialEq, Eq, Structural)]
pub enum PowerboxCap {
    Stdout,
    Stdin,
    Exit,
    Stderr,
    Clock,
}

/// The capabilities of the arity-driven powerbox, in grant order.
pub open spec fn powerbox_order() -> Seq<PowerboxCap> {
    seq![
        PowerboxCap::Stdout,
        PowerboxCap::Stdin,
        PowerboxCap::Exit,
        PowerboxCap::Stderr,
        PowerboxCap::Clock,
    ]
}

/// The capabilities that an entry with `arity` parameters is granted.
pub open spec fn spec_powerbox_grants(arity: nat) -> Seq<PowerboxCap> {
    powerbox_order().take(
        if arity < 5 {
            arity as int
        } else {
            5
        },
    )
}

/// The capabilities that an entry with `arity` parameters is granted: one for each parameter, in
/// grant order, as far as there are any.
pub fn powerbox_grants(arity: usize) -> (r: Vec<PowerboxCap>)
    ensures
        r@ == spec_powerbox_grants(arity as nat),
        r@ == powerbox_order().take(
            if arity < 5 {
                arity as int
            } else {
                5
            },
        ),
{
    let mut out: Vec<PowerboxCap> = Vec::new();
    if arity >= 1 {
        out.push(PowerboxCap::Stdout);
    }
    if arity >= 2 {
        out.push(PowerboxCap::Stdin);
    }
    if arity >= 3 {
        out.push(PowerboxCap::Exit);
    }
    if arity >= 4 {
        out.push(PowerboxCap::Stderr);
    }
    if arity >= 5 {
        out.push(PowerboxCap::Clock);
    }
    out
}

impl PowerboxCap {
    /// The name that a guest resolves this capability by.
    pub open spec fn spec_name(self) -> Seq<char> {
        match self {
            PowerboxCap::Stdout => "stdout"@,
            PowerboxCap::Stdin => "stdin"@,
            PowerboxCap::Exit => "exit"@,
            PowerboxCap::Stderr => "stderr"@,
            PowerboxCap::Clock => "clock"@,
        }
    }

    /// The name that a guest resolves this capability by.
    pub fn name(&self) -> (r: &'static str)
        ensures
            r@ == self.spec_name(),
    {
        match self {
            PowerboxCap::Stdout => "stdout",
            PowerboxCap::Stdin => "stdin",
            PowerboxCap::Exit => "exit",
            PowerboxCap::Stderr => "stderr",
            PowerboxCap::Clock => "clock",
        }
    }
}

/// Least authority: the unit compiler is granted exactly to a module that asks for it, for its own
/// window and a full table, and without the grant no slot is bound to it.
pub proof fn law_no_jit_without_grant(m: OnrampModule, name: Seq<char>, h: PrefixHandles)
    ensures
        m.spec_jit_grant() is Some <==> exists|i: int|
            0 <= i < m.imports@.len() && starts_with((#[trigger] m.imports@[i])@, "vm_jit_"@),
        m.spec_jit_grant() matches Some(g) ==> g == (m.memory_log2, 10u8),
        spec_binding(name, h, None) matches Binding::Required { cap, .. } ==> cap.kind
            != CapKind::Jit,
{
}

/// Fewer parameters never change which capability a parameter gets: the grants of a smaller entry
/// are a prefix of those of a larger one.
pub proof fn law_powerbox_grants_are_positional(small: nat, large: nat)
    requires
        small <= large <= 5,
    ensures
        powerbox_order().take(small as int) == powerbox_order().take(large as int).take(
            small as int,
        ),
{
    assert(powerbox_order().take(large as int).take(small as int) =~= powerbox_order().take(
        small as int,
    ));
}

/// Every operation of the policy that is bound goes to the handle that serves it.
pub proof fn law_bound_operation_reaches_its_handle(
    name: Seq<char>,
    h: PrefixHandles,
    jit: Option<i32>,
)
    ensures
        spec_binding(name, h, jit) matches Binding::Required { cap, handle } ==> Some(cap)
            == spec_onramp_cap_resolver(name) && Some(handle) == spec_handle_for(cap, h, jit),
        spec_onramp_cap_resolver(name) is None ==> spec_binding(name, h, jit) == Binding::Unbound,
{
}

/// No two names of the policy stand for the same operation.
pub proof fn law_policy_names_are_distinct_operations(a: Seq<char>, b: Seq<char>)
    requires
        spec_onramp_cap_resolver(a) is Some,
        spec_onramp_cap_resolver(a) == spec_onramp_cap_resolver(b),
    ensures
        a == b,
{
}

/// A name of the unit compiler's is one that asks for it, and no other name is bound to it.
#[verifier::spinoff_prover]
#[verifier::rlimit(50)]
pub proof fn law_compiler_operations_ask_for_the_compiler(name: Seq<char>)
    ensures
        spec_onramp_cap_resolver(name) matches Some(cap) ==> (cap.kind == CapKind::Jit
            <==> starts_with(name, "vm_jit_"@)),
{
    reveal_strlit("write");
    reveal_strlit("read");
    reveal_strlit("exit");
    reveal_strlit("vm_map");
    reveal_strlit("vm_unmap");
    reveal_strlit("vm_protect");
    reveal_strlit("vm_page_size");
    reveal_strlit("vm_region_create");
    reveal_strlit("vm_region_map");
    reveal_strlit("vm_region_unmap");
    reveal_strlit("vm_region_page_size");
    reveal_strlit("vm_jit_compile");
    reveal_strlit("vm_jit_compile_linked");
    reveal_strlit("vm_jit_invoke2");
    reveal_strlit("vm_jit_release");
    reveal_strlit("vm_jit_install");
    reveal_strlit("vm_jit_uninstall");
    reveal_strlit("vm_jit_");
    if let Some(cap) = spec_onramp_cap_resolver(name) {
        if cap.kind == CapKind::Jit {
            assert(name.take(7) =~= "vm_jit_"@);
        } else if name.len() >= 7 {
            assert(name.take(7)[3] == name[3]);
        }
    }
}

/// Of the streams, writing reaches standard output and reading standard input; of the address space,
/// the page operations reach the whole window and a region's creation the sized one; an exit, the
/// exit. Region operations are bound to nothing.
pub proof fn law_operations_reach_what_serves_them(h: PrefixHandles, jit: Option<i32>, op: u32)
    ensures
        spec_handle_for(CapOp { kind: CapKind::Stream, op: 1 }, h, jit) == Some(h.stdout),
        op != 1 ==> spec_handle_for(CapOp { kind: CapKind::Stream, op }, h, jit) == Some(h.stdin),
        spec_handle_for(CapOp { kind: CapKind::Exit, op }, h, jit) == Some(h.exit),
        op < 4 ==> spec_handle_for(CapOp { kind: CapKind::AddressSpace, op }, h, jit) == Some(
            h.memory,
        ),
        op >= 4 ==> spec_handle_for(CapOp { kind: CapKind::AddressSpace, op }, h, jit) == Some(
            h.addrspace,
        ),
        spec_handle_for(CapOp { kind: CapKind::Jit, op }, h, jit) == jit,
        spec_handle_for(CapOp { kind: CapKind::SharedRegion, op }, h, jit) is None,
{
}

/// A guest's imports bind to what their names say, whichever handles were granted.
#[verifier::spinoff_prover]
#[verifier::rlimit(50)]
pub proof fn law_imports_bind_by_name(h: PrefixHandles, j: i32, jit: Option<i32>)
    ensures
        spec_binding("write"@, h, jit) == (Binding::Required {
            cap: CapOp { kind: CapKind::Stream, op: 1 },
            handle: h.stdout,
        }),
        spec_binding("read"@, h, jit) == (Binding::Required {
            cap: CapOp { kind: CapKind::Stream, op: 0 },
            handle: h.stdin,
        }),
        spec_binding("exit"@, h, jit) == (Binding::Required {
            cap: CapOp { kind: CapKind::Exit, op: 0 },
            handle: h.exit,
        }),
        spec_binding("vm_map"@, h, jit) == (Binding::Required {
            cap: CapOp { kind: CapKind::AddressSpace, op: 0 },
            handle: h.memory,
        }),
        spec_binding("vm_unmap"@, h, jit) == (Binding::Required {
            cap: CapOp { kind: CapKind::AddressSpace, op: 1 },
            handle: h.memory,
        }),
        spec_binding("vm_protect"@, h, jit) == (Binding::Required {
            cap: CapOp { kind: CapKind::AddressSpace, op: 2 },
            handle: h.memory,
        }),
        spec_binding("vm_page_size"@, h, jit) == (Binding::Required {
            cap: CapOp { kind: CapKind::AddressSpace, op: 3 },
            handle: h.memory,
        }),
        spec_binding("vm_region_create"@, h, jit) == (Binding::Required {
            cap: CapOp { kind: CapKind::AddressSpace, op: 5 },
            handle: h.addrspace,
        }),
        spec_binding("vm_region_map"@, h, jit) == Binding::Unbound,
        spec_binding("vm_jit_compile"@, h, Some(j)) == (Binding::Required {
            cap: CapOp { kind: CapKind::Jit, op: 0 },
            handle: j,
        }),
        spec_binding("vm_jit_invoke2"@, h, Some(j)) == (Binding::Required {
            cap: CapOp { kind: CapKind::Jit, op: 1 },
            handle: j,
        }),
        spec_binding("vm_jit_release"@, h, Some(j)) == (Binding::Required {
            cap: CapOp { kind: CapKind::Jit, op: 2 },
            handle: j,
        }),
        spec_binding("vm_jit_install"@, h, Some(j)) == (Binding::Required {
            cap: CapOp { kind: CapKind::Jit, op: 3 },
            handle: j,
        }),
        spec_binding("vm_jit_uninstall"@, h, Some(j)) == (Binding::Required {
            cap: CapOp { kind: CapKind::Jit, op: 4 },
            handle: j,
        }),
        spec_binding("vm_jit_compile_linked"@, h, Some(j)) == (Binding::Required {
            cap: CapOp { kind: CapKind::Jit, op: 5 },
            handle: j,
        }),
{
    reveal_strlit("write");
    reveal_strlit("read");
    reveal_strlit("exit");
    reveal_strlit("vm_map");
    reveal_strlit("vm_unmap");
    reveal_strlit("vm_protect");
    reveal_strlit("vm_page_size");
    reveal_strlit("vm_region_create");
    reveal_strlit("vm_region_map");
    reveal_strlit("vm_region_unmap");
    reveal_strlit("vm_region_page_size");
    reveal_strlit("vm_jit_compile");
    reveal_strlit("vm_jit_compile_linked");
    reveal_strlit("vm_jit_invoke2");
    reveal_strlit("vm_jit_release");
    reveal_strlit("vm_jit_install");
    reveal_strlit("vm_jit_uninstall");
    assert("vm_map"@.len() == 6);
    assert("write"@[0] == 'w');
    assert("read"@[0] == 'r');
    assert("exit"@[0] == 'e');
    assert("vm_protect"@[3] == 'p');
    assert("vm_unmap"@[3] == 'u');
    assert("vm_page_size"@[4] == 'a');
    assert("vm_jit_compile"@[7] == 'c');
    assert("vm_jit_compile"@.len() == 14);
    assert("vm_jit_compile_linked"@.len() == 21);
    assert("vm_jit_invoke2"@[7] == 'i');
    assert("vm_jit_release"@[7] == 'r');
    assert("vm_jit_install"@[9] == 's');
    assert("vm_jit_invoke2"@[9] == 'v');
    assert("vm_jit_uninstall"@[7] == 'u');
    assert("vm_region_create"@.len() == 16);
    assert("vm_region_create"@[3] == 'r');
    assert("vm_jit_uninstall"@[3] == 'j');
    assert("vm_region_map"@.len() == 13);
}

/// An export resolves to the first function of its name, and to none exactly if no export has it.
pub proof fn law_export_resolves_to_its_first(
    m: OnrampModule,
    name: Seq<char>,
    r: Option<u32>,
    k: int,
)
    requires
        m.resolves(name, r),
        0 <= k < m.exports@.len(),
        m.exports@[k].name@ == name,
        forall|j: int| 0 <= j < k ==> (#[trigger] m.exports@[j]).name@ != name,
    ensures
        r == Some(m.exports@[k].func),
{
    let f = r->0;
    let i = choose|i: int|
        0 <= i < m.exports@.len() && (#[trigger] m.exports@[i]).name@ == name
            && m.exports@[i].func == f && forall|j: int|
            0 <= j < i ==> (#[trigger] m.exports@[j]).name@ != name;
    assert(i == k);
}

/// A run's window is the smallest that holds both what the guest declares and what the run wants.
pub proof fn law_enlarged_window_holds_both(m: OnrampModule, win_log2: u8)
    ensures
        m.spec_enlarged_log2(win_log2) >= win_log2,
        m.memory_log2 matches Some(k) ==> m.spec_enlarged_log2(win_log2) >= k && (
        m.spec_enlarged_log2(win_log2) == k || m.spec_enlarged_log2(win_log2) == win_log2),
        m.memory_log2 is None ==> m.spec_enlarged_log2(win_log2) == win_log2,
{
}

/// An entry is granted one capability for each parameter, at most five: the standard output first,
/// then the standard input, the exit, the error stream and the clock.
pub proof fn law_parameter_names_its_capability(arity: nat)
    ensures
        spec_powerbox_grants(arity).len() == (if arity < 5 {
            arity
        } else {
            5
        }),
        arity >= 1 ==> spec_powerbox_grants(arity)[0].spec_name() == "stdout"@,
        arity >= 2 ==> spec_powerbox_grants(arity)[1].spec_name() == "stdin"@,
        arity >= 3 ==> spec_powerbox_grants(arity)[2].spec_name() == "exit"@,
        arity >= 4 ==> spec_powerbox_grants(arity)[3].spec_name() == "stderr"@,
        arity >= 5 ==> spec_powerbox_grants(arity)[4].spec_name() == "clock"@,
{
}

/// A guest that resolves a capability by name gets the handle that was granted under it.
pub proof fn law_prefix_handle_is_granted_under_its_name(granted: Seq<i32>)
    requires
        granted.len() == 5,
    ensures
        ({
            let h = spec_prefix_handles(granted);
            let order = prefix_order();
            &&& order.len() == 5
            &&& order[0].spec_name() == "stdout"@ && h.stdout == granted[0]
            &&& order[1].spec_name() == "stdin"@ && h.stdin == granted[1]
            &&& order[2].spec_name() == "exit"@ && h.exit == granted[2]
            &&& order[3].spec_name() == "memory"@ && h.memory == granted[3]
            &&& order[4].spec_name() == "addrspace"@ && h.addrspace == granted[4]
            &&& forall|i: int| 0 <= i < 5 ==> #[trigger] h.of(order[i]) == granted[i]
        }),
{
}

/// A module may run if it imports nothing, or if its first function takes nothing and is exported as
/// its start.
pub proof fn law_bindable_module_has_a_start(m: OnrampModule, k: int)
    ensures
        m.imports@.len() == 0 ==> m.spec_bindable(),
        m.imports@.len() > 0 && m.entry_params != Some(0usize) ==> !m.spec_bindable(),
        m.imports@.len() > 0 && (forall|i: int|
            0 <= i < m.exports@.len() ==> (#[trigger] m.exports@[i]).name@ != "_start"@
                || m.exports@[i].func != 0) ==> !m.spec_bindable(),
        m.entry_params == Some(0usize) && 0 <= k < m.exports@.len() && m.exports@[k].name@
            == "_start"@ && m.exports@[k].func == 0 ==> m.spec_bindable(),
{
}

/// Every import slot is bound by its own name: equal names bind alike, wherever they stand, and a slot
/// of a name outside the policy stays unbound.
pub proof fn law_slots_are_bound_by_their_names(
    m: OnrampModule,
    h: PrefixHandles,
    jit: Option<i32>,
    i: int,
    j: int,
)
    requires
        0 <= i < m.imports@.len(),
        0 <= j < m.imports@.len(),
    ensures
        spec_grants(m, h, jit).len() == m.imports@.len(),
        m.imports@[i]@ == m.imports@[j]@ ==> spec_grants(m, h, jit)[i] == spec_grants(m, h, jit)[j],
        spec_grants(m, h, jit)[i] == spec_binding(m.imports@[i]@, h, jit),
        spec_onramp_cap_resolver(m.imports@[i]@) is None ==> spec_grants(m, h, jit)[i]
            == Binding::Unbound,
{
}

} // verus!
