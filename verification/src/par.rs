//! The parallel driver: which recipe a run uses, how many virtual CPUs may live, and what each
//! virtual-CPU event means to the host.

use vstd::arithmetic::power2::pow2;
use vstd::prelude::*;

use crate::eligible::{any, spec_any, spec_tierup_eligible, tierup_eligible, Sig};
use crate::window::{exact_log2, is_pow2};

verus! {

/// The virtual CPU finished; operand `a` is its result.
pub const PAR_DONE: i32 = 0;

/// It trapped.
pub const PAR_TRAP: i32 = 1;

/// It spawns a thread.
pub const PAR_SPAWN: i32 = 2;

/// It joins a thread.
pub const PAR_JOIN: i32 = 3;

/// It waits on a futex word.
pub const PAR_WAIT: i32 = 4;

/// It notifies a futex word.
pub const PAR_NOTIFY: i32 = 5;

/// It starts a confined child.
pub const PAR_INSTANTIATE: i32 = 6;

/// It calls a function that has an emitted body.
pub const PAR_TIERUP: i32 = 7;

/// It invokes a submitted unit that has an emitted body.
pub const PAR_JIT_INVOKE: i32 = 8;

/// The dispatch table of a parallel run has `1 << 4` slots.
pub const PAR_JIT_TABLE_LOG2: u8 = 4;

/// The slots of that table.
pub const PAR_JIT_TABLE_SLOTS: usize = 16;

/// Stands in the table mirror for a slot that no unit is installed at.
pub const NO_CODE: i32 = -1;

/// How many virtual CPUs may live at a time.
pub const PAR_MAX_VCPUS: u32 = 256;

/// A gate that lets one expensive emit run once per run generation.
#[derive(Clone, Copy, Debug)]
pub struct EmitGate {
    /// The generation of the last emit; `u32::MAX` before the first.
    pub done_gen: u32,
    /// What that emit returned.
    pub result: i32,
}

impl EmitGate {
    /// A gate that no generation has passed yet.
    pub fn new() -> (r: EmitGate)
        ensures
            r.done_gen == u32::MAX,
            r.result == 0,
    {
        EmitGate { done_gen: u32::MAX, result: 0 }
    }

    /// What an emit of `generation` already returned.
    pub open spec fn spec_cached(self, generation: u32) -> Option<i32> {
        if self.done_gen == generation {
            Some(self.result)
        } else {
            None
        }
    }

    /// The result of this generation's emit, if it has run.
    pub fn cached(&self, generation: u32) -> (r: Option<i32>)
        ensures
            r == self.spec_cached(generation),
    {
        if self.done_gen == generation {
            Some(self.result)
        } else {
            None
        }
    }

    /// This one once that generation's emit came to `result`.
    pub open spec fn recorded(self, generation: u32, result: i32) -> EmitGate {
        EmitGate { done_gen: generation, result }
    }

    /// Records that this generation's emit has run.
    pub fn record(&mut self, generation: u32, result: i32)
        ensures
            *final(self) == old(self).recorded(generation, result),
            final(self).done_gen == generation,
            final(self).result == result,
    {
        self.done_gen = generation;
        self.result = result;
    }
}

/// Once an emit is recorded, every later request of the same generation gets its result, and the
/// next generation emits anew.
pub proof fn law_emit_once_per_generation(generation: u32, result: i32, other: u32)
    requires
        other != generation,
    ensures
        (EmitGate { done_gen: generation, result }).spec_cached(generation) == Some(result),
        (EmitGate { done_gen: generation, result }).spec_cached(other) is None,
{
}

/// The grants of a run with one fixed submitted unit.
#[derive(Clone, Copy, Debug)]
pub struct PbGrant {
    pub jit: i32,
    pub code: i32,
}

/// The grants of a run that starts confined children.
#[derive(Debug)]
pub struct InstGrant {
    /// The bytes of the window that carves come from.
    pub win_size: u64,
    /// The parameter counts of the functions of the module that children run, if one was given.
    pub module: Option<Vec<usize>>,
}

/// Whether and how direct calls run on emitted bodies.
#[derive(Clone, Copy, Debug, PartialEq, Eq, Structural)]
pub enum TierMode {
    /// Everything is interpreted.
    Interpret,
    /// Eligible calls tier up while one number states the committed extent.
    Scalar,
    /// Eligible calls tier up over a page-state table.
    Paged,
}

/// How to build the root of a run.
#[derive(Clone, Copy, Debug, PartialEq, Eq, Structural)]
pub enum RootPlan {
    /// Its own powerbox: an instantiator over the window, then the child module if there is one.
    Confiner { win_size: u64, with_module: bool },
    /// The shared compiler host; the root gets the compiler handle.
    Compiler { jit: i32 },
    /// The shared output host; the root gets the output handle.
    Output { out: i32, tier: TierMode },
    /// The fixed unit; the root gets the compiler and the code handle.
    FixedUnit { jit: i32, code: i32, tier: TierMode },
    /// No capabilities.
    Plain { tier: TierMode },
}

/// Which host a spawned thread calls into.
#[derive(Clone, Copy, Debug, PartialEq, Eq, Structural)]
pub enum ChildHost {
    Compiler,
    Output,
    Own,
}

/// How to build a spawned thread.
#[derive(Clone, Copy, Debug, PartialEq, Eq, Structural)]
pub struct ChildPlan {
    pub size_log2: u8,
    pub host: ChildHost,
    pub tier: TierMode,
}

/// The state that all virtual CPUs of one page share.
#[derive(Debug)]
pub struct ParState {
    /// Counts the published runs, modulo `2^32`.
    pub generation: u32,
    /// The fixed-unit recipe.
    pub pb: Option<PbGrant>,
    /// The confined-children recipe.
    pub inst: Option<InstGrant>,
    /// The shared-output recipe: the output handle.
    pub io: Option<i32>,
    /// The runtime-compile recipe: the compiler handle.
    pub rt: Option<i32>,
    /// Whether an invoked unit may run on its emitted body.
    pub codegen: bool,
    /// Which fixed unit the next recipe submits.
    pub service: i32,
    /// Whether runtime units dispatch through the shared table.
    pub b2: bool,
    /// Which functions tier up, once that is published.
    pub eligible: Option<Vec<bool>>,
    /// Whether the tier-up body consults a page-state table.
    pub paged: bool,
    /// Which functions of the child module have an emitted body.
    pub inst_eligible: Option<Vec<bool>>,
    /// The child module's emitted body.
    pub inst_wasm: Vec<u8>,
    /// The fixed unit's emitted body.
    pub unit_wasm: Vec<u8>,
    pub tierup_gate: EmitGate,
    pub unit_gate: EmitGate,
    pub inst_gate: EmitGate,
    /// How many virtual CPUs live.
    pub live: u32,
    /// The code handle installed at each dispatch slot, [`NO_CODE`] where none is.
    pub slot_code: Vec<i32>,
}

/// `after` is `before` with `code` at `slot` of the table mirror; a slot past the table holds nothing.
pub open spec fn slot_set(before: ParState, after: ParState, slot: nat, code: i32) -> bool {
    &&& after == (ParState { slot_code: after.slot_code, ..before })
    &&& slot < PAR_JIT_TABLE_SLOTS ==> after.spec_slot_code(slot) == code
    &&& forall|s: nat|
        s != slot ==> #[trigger] after.spec_slot_code(s) == before.spec_slot_code(s)
}

/// How many recipes are published.
pub open spec fn recipe_count(s: ParState) -> nat {
    (if s.pb is Some {
        1nat
    } else {
        0nat
    }) + (if s.inst is Some {
        1nat
    } else {
        0nat
    }) + (if s.io is Some {
        1nat
    } else {
        0nat
    }) + (if s.rt is Some {
        1nat
    } else {
        0nat
    })
}

impl ParState {
    /// At most one recipe is published, and the table mirror is empty or full-sized.
    pub open spec fn wf(self) -> bool {
        &&& recipe_count(self) <= 1
        &&& self.slot_code@.len() == 0 || self.slot_code@.len() == PAR_JIT_TABLE_SLOTS
    }

    /// This state in the generation after it.
    pub open spec fn bumped(self) -> ParState {
        ParState { generation: ((self.generation + 1) % 0x1_0000_0000) as u32, ..self }
    }

    /// This state with every recipe withdrawn.
    pub open spec fn withdrawn(self) -> ParState {
        ParState { pb: None, inst: None, io: None, rt: None, ..self }
    }

    /// This state after a fixed-unit recipe for the interpreter was offered, and the answer.
    pub open spec fn unit_published(self, grant: Option<PbGrant>) -> (ParState, i32) {
        match grant {
            Some(_) => (
                ParState { pb: grant, codegen: false, ..self.bumped().withdrawn() },
                1i32,
            ),
            None => (self.bumped(), 0i32),
        }
    }

    /// This state after a fixed-unit recipe with an emitted unit was offered, and the answer.
    pub open spec fn emitted_unit_published(self, grant: Option<PbGrant>, emitted: i32) -> (
        ParState,
        i32,
    ) {
        if grant is Some && emitted == 1 {
            (ParState { pb: grant, ..self.withdrawn() }, 1i32)
        } else {
            (self, 0i32)
        }
    }

    /// This state after a confined-children recipe was offered, and the answer.
    pub open spec fn confiner_published(self, grant: Option<InstGrant>) -> (ParState, i32) {
        match grant {
            Some(_) => (ParState { inst: grant, ..self.bumped().withdrawn() }, 1i32),
            None => (self.bumped(), 0i32),
        }
    }

    /// This state after the shared-output recipe was published.
    pub open spec fn output_published(self, out: i32) -> ParState {
        ParState { io: Some(out), ..self.bumped().withdrawn() }
    }

    /// This state after every recipe was withdrawn for a plain run.
    pub open spec fn plain_published(self) -> ParState {
        ParState { codegen: false, ..self.bumped().withdrawn() }
    }

    /// This state after a runtime-compile recipe was offered, and the answer.
    pub open spec fn compiler_published(self, jit: Option<i32>) -> (ParState, i32) {
        match jit {
            Some(_) => (
                ParState { rt: jit, codegen: true, ..self.bumped().withdrawn() },
                1i32,
            ),
            None => (self.bumped(), 0i32),
        }
    }

    /// The state of a page that has published nothing.
    pub fn new() -> (r: ParState)
        ensures
            r.wf(),
            recipe_count(r) == 0,
            r.generation == 0,
            !r.codegen,
            r.service == 0,
            !r.b2,
            r.eligible is None,
            !r.paged,
            r.inst_eligible is None,
            r.inst_wasm@.len() == 0,
            r.unit_wasm@.len() == 0,
            r.tierup_gate.done_gen == u32::MAX,
            r.unit_gate.done_gen == u32::MAX,
            r.inst_gate.done_gen == u32::MAX,
            r.live == 0,
            r.slot_code@.len() == 0,
    {
        ParState {
            generation: 0,
            pb: None,
            inst: None,
            io: None,
            rt: None,
            codegen: false,
            service: 0,
            b2: false,
            eligible: None,
            paged: false,
            inst_eligible: None,
            inst_wasm: Vec::new(),
            unit_wasm: Vec::new(),
            tierup_gate: EmitGate::new(),
            unit_gate: EmitGate::new(),
            inst_gate: EmitGate::new(),
            live: 0,
            slot_code: Vec::new(),
        }
    }

    /// Starts a new run generation.
    pub fn par_run_gen_bump(&mut self)
        ensures
            *final(self) == old(self).bumped(),
    {
        if self.generation == u32::MAX {
            self.generation = 0;
        } else {
            self.generation = self.generation + 1;
        }
    }

    /// Whether an invoked unit may run on its emitted body.
    pub fn par_jit_codegen(&self) -> (r: bool)
        ensures
            r == self.codegen,
    {
        self.codegen
    }

    /// Whether runtime units dispatch through the shared table.
    pub fn par_jit_b2(&self) -> (r: bool)
        ensures
            r == self.b2,
    {
        self.b2
    }

    /// Says which fixed unit the next recipe submits.
    pub fn svm_par_jit_codegen_service(&mut self, kind: i32)
        ensures
            *final(self) == old(self).with_service(kind),
            *final(self) == (ParState { service: kind, ..*old(self) }),
    {
        self.service = kind;
    }

    /// Says whether an invoked unit may run on its emitted body.
    pub fn svm_par_jit_set_codegen(&mut self, on: i32)
        ensures
            *final(self) == old(self).with_codegen(on),
            *final(self) == (ParState { codegen: on != 0, ..*old(self) }),
    {
        self.codegen = on != 0;
    }

    /// Says whether runtime units dispatch through the shared table.
    pub fn svm_par_jit_set_b2(&mut self, on: i32)
        ensures
            *final(self) == old(self).with_b2(on),
            *final(self) == (ParState { b2: on != 0, ..*old(self) }),
    {
        self.b2 = on != 0;
    }

    /// Publishes the fixed-unit recipe on the interpreter; `0`, and no recipe changed, if the guest
    /// or the unit was refused.
    pub fn svm_par_powerbox(&mut self, grant: Option<PbGrant>) -> (r: i32)
        requires
            old(self).wf(),
        ensures
            final(self).wf(),
            (*final(self), r) == old(self).unit_published(grant),
            r == (if grant is Some { 1i32 } else { 0i32 }),
            grant is None ==> *final(self) == old(self).bumped(),
            grant is Some ==> *final(self) == (ParState {
                pb: grant,
                codegen: false,
                ..old(self).bumped().withdrawn()
            }),
    {
        self.par_run_gen_bump();
        match grant {
            None => 0,
            Some(g) => {
                self.pb = Some(g);
                self.inst = None;
                self.io = None;
                self.rt = None;
                self.codegen = false;
                1
            },
        }
    }

    /// Publishes the fixed-unit recipe with an emitted unit, in a generation that has been started.
    ///
    /// `emitted` is what the unit's emit of this generation returned; the code-generation flag is
    /// that emit's to set.
    pub fn svm_par_powerbox_jit_codegen(&mut self, grant: Option<PbGrant>, emitted: i32) -> (r: i32)
        requires
            old(self).wf(),
        ensures
            final(self).wf(),
            (*final(self), r) == old(self).emitted_unit_published(grant, emitted),
            r == (if grant is Some && emitted == 1 { 1i32 } else { 0i32 }),
            r == 0 ==> *final(self) == *old(self),
            r == 1 ==> *final(self) == (ParState { pb: grant, ..old(self).withdrawn() }),
    {
        match grant {
            Some(g) => {
                if emitted != 1 {
                    return 0;
                }
                self.pb = Some(g);
                self.inst = None;
                self.io = None;
                self.rt = None;
                1
            },
            None => 0,
        }
    }

    /// Publishes the confined-children recipe; `0` if a module was given and does not decode.
    pub fn svm_par_powerbox_inst(&mut self, grant: Option<InstGrant>) -> (r: i32)
        requires
            old(self).wf(),
        ensures
            final(self).wf(),
            (*final(self), r) == old(self).confiner_published(grant),
            r == (if grant is Some { 1i32 } else { 0i32 }),
            grant is None ==> *final(self) == old(self).bumped(),
            grant is Some ==> *final(self) == (ParState {
                inst: grant,
                ..old(self).bumped().withdrawn()
            }),
    {
        self.par_run_gen_bump();
        match grant {
            None => 0,
            Some(g) => {
                self.inst = Some(g);
                self.pb = None;
                self.io = None;
                self.rt = None;
                1
            },
        }
    }

    /// Publishes the shared-output recipe.
    pub fn svm_par_powerbox_io(&mut self, out: i32) -> (r: i32)
        requires
            old(self).wf(),
        ensures
            final(self).wf(),
            r == 1,
            *final(self) == old(self).output_published(out),
            *final(self) == (ParState { io: Some(out), ..old(self).bumped().withdrawn() }),
    {
        self.par_run_gen_bump();
        self.io = Some(out);
        self.inst = None;
        self.pb = None;
        self.rt = None;
        1
    }

    /// Withdraws every recipe: a plain compute run.
    pub fn svm_par_powerbox_none(&mut self)
        requires
            old(self).wf(),
        ensures
            final(self).wf(),
            *final(self) == old(self).plain_published(),
            *final(self) == (ParState { codegen: false, ..old(self).bumped().withdrawn() }),
    {
        self.par_run_gen_bump();
        self.pb = None;
        self.inst = None;
        self.io = None;
        self.rt = None;
        self.codegen = false;
    }

    /// Publishes the runtime-compile recipe; `0` if the guest does not decode.
    pub fn svm_par_powerbox_jit_runtime(&mut self, jit: Option<i32>) -> (r: i32)
        requires
            old(self).wf(),
        ensures
            final(self).wf(),
            (*final(self), r) == old(self).compiler_published(jit),
            r == (if jit is Some { 1i32 } else { 0i32 }),
            jit is None ==> *final(self) == old(self).bumped(),
            jit is Some ==> *final(self) == (ParState {
                rt: jit,
                codegen: true,
                ..old(self).bumped().withdrawn()
            }),
    {
        self.par_run_gen_bump();
        match jit {
            None => 0,
            Some(h) => {
                self.rt = Some(h);
                self.pb = None;
                self.inst = None;
                self.io = None;
                self.codegen = true;
                1
            },
        }
    }

    /// Takes a place among the live virtual CPUs, if one is free.
    pub fn par_vcpu_admit(&mut self) -> (r: bool)
        ensures
            (r, *final(self)) == old(self).admitted(),
            r == (old(self).live < PAR_MAX_VCPUS),
            r ==> *final(self) == (ParState { live: (old(self).live + 1) as u32, ..*old(self) }),
            !r ==> *final(self) == *old(self),
    {
        if self.live >= PAR_MAX_VCPUS {
            return false;
        }
        self.live = self.live + 1;
        true
    }

    /// This state with another fixed unit to submit.
    pub open spec fn with_service(self, kind: i32) -> ParState {
        ParState { service: kind, ..self }
    }

    /// This state with emitted bodies of invoked units on or off.
    pub open spec fn with_codegen(self, on: i32) -> ParState {
        ParState { codegen: on != 0, ..self }
    }

    /// This state with dispatch through the shared table on or off.
    pub open spec fn with_b2(self, on: i32) -> ParState {
        ParState { b2: on != 0, ..self }
    }

    /// Whether the child module's function `entry` has an emitted body, as a number.
    pub open spec fn spec_inst_eligible(self, entry: nat) -> i32 {
        match self.inst_eligible {
            Some(e) => if entry < e@.len() && e@[entry as int] {
                1i32
            } else {
                0i32
            },
            None => 0i32,
        }
    }

    /// How many parameters the child module's function `entry` takes.
    pub open spec fn spec_inst_nparams(self, entry: nat) -> usize {
        match self.inst {
            Some(InstGrant { module: Some(counts), .. }) => if entry < counts@.len() {
                counts@[entry as int]
            } else {
                0
            },
            _ => 0,
        }
    }

    /// What comes of a thread over a window of `win_size` bytes.
    pub open spec fn threaded(self, win_size: nat, r: Option<ChildPlan>, after: ParState) -> bool {
        match r {
            Some(plan) => self.admitted() == (true, after) && win_size == pow2(
                plan.size_log2 as nat,
            ) && plan == self.spec_child_plan(plan.size_log2),
            None => after == self && !(self.admitted().0 && is_pow2(win_size)),
        }
    }

    /// What comes of a confined child over a carve of `2^size_log2` bytes.
    pub open spec fn confined(self, size_log2: nat, r: Option<u64>, after: ParState) -> bool {
        match r {
            Some(size) => self.admitted() == (true, after) && size_log2 < 64 && size == pow2(
                size_log2,
            ),
            None => after == self && !(self.admitted().0 && size_log2 < 64),
        }
    }

    /// This state once an admitted build came to `built`.
    pub open spec fn settled(self, built: bool) -> ParState {
        if built {
            self
        } else {
            self.retired()
        }
    }

    /// Whether a place among the live virtual CPUs was free, and this state with it taken.
    pub open spec fn admitted(self) -> (bool, ParState) {
        if self.live < PAR_MAX_VCPUS {
            (true, ParState { live: (self.live + 1) as u32, ..self })
        } else {
            (false, self)
        }
    }

    /// This state with one live virtual CPU fewer; the count is a 32-bit counter and wraps.
    pub open spec fn retired(self) -> ParState {
        ParState {
            live: if self.live == 0 {
                u32::MAX
            } else {
                (self.live - 1) as u32
            },
            ..self
        }
    }

    /// Gives a place back.
    pub fn par_vcpu_retire(&mut self)
        ensures
            *final(self) == old(self).retired(),
    {
        if self.live == 0 {
            self.live = u32::MAX;
        } else {
            self.live = self.live - 1;
        }
    }

    /// The code handle that the mirror holds for `slot`, [`NO_CODE`] for none.
    pub open spec fn spec_slot_code(self, slot: nat) -> i32 {
        if slot < self.slot_code@.len() {
            self.slot_code@[slot as int]
        } else {
            NO_CODE
        }
    }

    /// Records that `code` was installed at `slot`; a slot past the table is ignored.
    pub fn par_jit_slot_record(&mut self, slot: usize, code: i32)
        requires
            old(self).wf(),
        ensures
            final(self).wf(),
            slot_set(*old(self), *final(self), slot as nat, code),
            *final(self) == (ParState { slot_code: final(self).slot_code, ..*old(self) }),
            final(self).slot_code@.len() == PAR_JIT_TABLE_SLOTS,
            forall|s: nat|
                #![trigger final(self).spec_slot_code(s)]
                final(self).spec_slot_code(s) == if s == slot && slot < PAR_JIT_TABLE_SLOTS {
                    code
                } else {
                    old(self).spec_slot_code(s)
                },
    {
        let ghost start = *self;
        while self.slot_code.len() < PAR_JIT_TABLE_SLOTS
            invariant
                start.wf(),
                *self == (ParState { slot_code: self.slot_code, ..start }),
                start.slot_code@.len() <= self.slot_code@.len() <= PAR_JIT_TABLE_SLOTS,
                forall|s: nat|
                    #![trigger self.spec_slot_code(s)]
                    self.spec_slot_code(s) == start.spec_slot_code(s),
            decreases PAR_JIT_TABLE_SLOTS - self.slot_code.len(),
        {
            let ghost before = *self;
            self.slot_code.push(NO_CODE);
            assert forall|s: nat|
                #![trigger self.spec_slot_code(s)]
                self.spec_slot_code(s) == start.spec_slot_code(s) by {
                assert(before.spec_slot_code(s) == start.spec_slot_code(s));
            }
        }
        let ghost mid = *self;
        if slot < self.slot_code.len() {
            self.slot_code[slot] = code;
        }
        assert forall|s: nat|
            #![trigger self.spec_slot_code(s)]
            self.spec_slot_code(s) == if s == slot && slot < PAR_JIT_TABLE_SLOTS {
                code
            } else {
                start.spec_slot_code(s)
            } by {
            assert(mid.spec_slot_code(s) == start.spec_slot_code(s));
        }
    }

    /// Records that `slot` was emptied.
    pub fn par_jit_slot_clear(&mut self, slot: usize)
        requires
            old(self).wf(),
        ensures
            final(self).wf(),
            slot_set(*old(self), *final(self), slot as nat, NO_CODE),
            *final(self) == (ParState { slot_code: final(self).slot_code, ..*old(self) }),
            final(self).slot_code@.len() == old(self).slot_code@.len(),
            forall|s: nat|
                #![trigger final(self).spec_slot_code(s)]
                final(self).spec_slot_code(s) == if s == slot {
                    NO_CODE
                } else {
                    old(self).spec_slot_code(s)
                },
    {
        if slot < self.slot_code.len() {
            self.slot_code[slot] = NO_CODE;
        }
    }

    /// The code handle installed at `slot`, [`NO_CODE`] for none.
    pub fn svm_par_jit_slot_code(&self, slot: u32) -> (r: i32)
        ensures
            r == self.spec_slot_code(slot as nat),
    {
        let i: usize = slot as usize;
        if i < self.slot_code.len() {
            self.slot_code[i]
        } else {
            NO_CODE
        }
    }

    /// Publishes the tier-up set of the run's module and its emitted body, once per generation.
    ///
    /// `module` holds the signatures of the decoded module and which functions were emitted; `None`
    /// if it does not decode or emit. `wasm` is what was emitted, and `slot` where the page reads it.
    /// Returns `1` iff some function tiers up.
    pub fn svm_par_enable_jit(
        &mut self,
        slot: &mut Vec<u8>,
        module: Option<(&[Sig], &[bool])>,
        wasm: Vec<u8>,
        paged: bool,
    ) -> (r: i32)
        requires
            old(self).wf(),
            module matches Some((sigs, emit)) ==> sigs@.len() <= emit@.len(),
        ensures
            final(self).wf(),
            tierup_enabled(
                *old(self),
                *old(slot),
                module_view(module),
                wasm,
                paged,
                *final(self),
                *final(slot),
                r,
            ),
    {
        match self.tierup_gate.cached(self.generation) {
            Some(done) => {
                return done;
            },
            None => {},
        }
        let mut result: i32 = 0;
        match module {
            Some((sigs, emit)) => {
                let eligible: Vec<bool> = tierup_eligible(emit, sigs);
                if any(eligible.as_slice()) {
                    self.eligible = Some(eligible);
                    self.paged = paged;
                    *slot = wasm;
                    result = 1;
                }
            },
            None => {},
        }
        self.tierup_gate.record(self.generation, result);
        result
    }

    /// Publishes the fixed unit's emitted body, once per generation, and turns code generation on.
    ///
    /// `wasm` is the body, `None` if the unit did not emit.
    pub fn svm_par_enable_jit_codegen(&mut self, wasm: Option<Vec<u8>>) -> (r: i32)
        requires
            old(self).wf(),
        ensures
            final(self).wf(),
            (*final(self), r) == old(self).unit_enabled(wasm),
    {
        match self.unit_gate.cached(self.generation) {
            Some(done) => {
                return done;
            },
            None => {},
        }
        let mut result: i32 = 0;
        match wasm {
            Some(w) => {
                self.unit_wasm = w;
                self.codegen = true;
                result = 1;
            },
            None => {},
        }
        self.unit_gate.record(self.generation, result);
        result
    }

    /// This state after the fixed unit's emit was asked for, and the answer.
    pub open spec fn unit_enabled(self, wasm: Option<Vec<u8>>) -> (ParState, i32) {
        match self.unit_gate.spec_cached(self.generation) {
            Some(done) => (self, done),
            None => {
                let result = if wasm is Some {
                    1i32
                } else {
                    0i32
                };
                (
                    ParState {
                        unit_gate: EmitGate { done_gen: self.generation, result },
                        unit_wasm: match wasm {
                            Some(w) => w,
                            None => self.unit_wasm,
                        },
                        codegen: self.codegen || wasm is Some,
                        ..self
                    },
                    result,
                )
            },
        }
    }

    /// The published recipe starts children of a module.
    pub open spec fn has_child_module(self) -> bool {
        self.inst matches Some(g) && g.module is Some
    }

    /// Publishes which functions of the child module have an emitted body, and the bodies, once per
    /// generation.
    pub fn svm_par_enable_inst_codegen(&mut self, emitted: Option<(Vec<bool>, Vec<u8>)>) -> (r: i32)
        requires
            old(self).wf(),
        ensures
            final(self).wf(),
            (*final(self), r) == old(self).inst_enabled(emitted),
    {
        match self.inst_gate.cached(self.generation) {
            Some(done) => {
                return done;
            },
            None => {},
        }
        let mut result: i32 = 0;
        let has_module: bool = match &self.inst {
            Some(g) => g.module.is_some(),
            None => false,
        };
        if has_module {
            match emitted {
                Some((e, w)) => {
                    self.inst_eligible = Some(e);
                    self.inst_wasm = w;
                    result = 1;
                },
                None => {},
            }
        }
        self.inst_gate.record(self.generation, result);
        result
    }

    /// This state after the child module's emit was asked for, and the answer.
    pub open spec fn inst_enabled(self, emitted: Option<(Vec<bool>, Vec<u8>)>) -> (ParState, i32) {
        match self.inst_gate.spec_cached(self.generation) {
            Some(done) => (self, done),
            None => match emitted {
                Some((e, w)) if self.has_child_module() => (
                    ParState {
                        inst_gate: EmitGate { done_gen: self.generation, result: 1 },
                        inst_eligible: Some(e),
                        inst_wasm: w,
                        ..self
                    },
                    1i32,
                ),
                _ => (
                    ParState {
                        inst_gate: EmitGate { done_gen: self.generation, result: 0 },
                        ..self
                    },
                    0i32,
                ),
            },
        }
    }

    /// `1` iff the child module's function `entry` has an emitted body.
    pub fn svm_par_inst_eligible(&self, entry: u32) -> (r: i32)
        ensures
            r == self.spec_inst_eligible(entry as nat),
            r == (if (self.inst_eligible matches Some(e) && entry < e@.len() && e@[entry as int]) {
                1i32
            } else {
                0i32
            }),
    {
        match &self.inst_eligible {
            Some(e) => {
                let i: usize = entry as usize;
                if i < e.len() && e[i] {
                    1
                } else {
                    0
                }
            },
            None => 0,
        }
    }

    /// The parameter count of the child module's function `entry`, zero if there is none.
    pub fn svm_par_inst_nparams(&self, entry: u32) -> (r: usize)
        ensures
            r == self.spec_inst_nparams(entry as nat),
            r == (match self.inst {
                Some(InstGrant { module: Some(counts), .. }) => if entry < counts@.len() {
                    counts@[entry as int]
                } else {
                    0
                },
                _ => 0,
            }),
    {
        match &self.inst {
            Some(InstGrant { module: Some(counts), .. }) => {
                let i: usize = entry as usize;
                if i < counts.len() {
                    counts[i]
                } else {
                    0
                }
            },
            _ => 0,
        }
    }

    /// How the plain compute paths of this run tier up.
    pub open spec fn spec_tier_mode(self) -> TierMode {
        if self.eligible is None {
            TierMode::Interpret
        } else if self.paged {
            TierMode::Paged
        } else {
            TierMode::Scalar
        }
    }

    /// How the plain compute paths of this run tier up.
    pub fn with_tierup(&self) -> (r: TierMode)
        ensures
            r == self.spec_tier_mode(),
    {
        if self.eligible.is_none() {
            TierMode::Interpret
        } else if self.paged {
            TierMode::Paged
        } else {
            TierMode::Scalar
        }
    }

    /// How the published recipe builds the root.
    pub open spec fn spec_root_plan(self) -> RootPlan {
        match (self.inst, self.rt, self.io, self.pb) {
            (Some(g), _, _, _) => RootPlan::Confiner {
                win_size: g.win_size,
                with_module: g.module is Some,
            },
            (None, Some(jit), _, _) => RootPlan::Compiler { jit },
            (None, None, Some(out), _) => RootPlan::Output { out, tier: self.spec_tier_mode() },
            (None, None, None, Some(g)) => RootPlan::FixedUnit {
                jit: g.jit,
                code: g.code,
                tier: self.spec_tier_mode(),
            },
            (None, None, None, None) => RootPlan::Plain { tier: self.spec_tier_mode() },
        }
    }

    /// Admits a root and says how to build it; `None` if no place is free.
    pub fn svm_par_root(&mut self) -> (r: Option<RootPlan>)
        ensures
            (r is Some, *final(self)) == old(self).admitted(),
            r is Some <==> old(self).live < PAR_MAX_VCPUS,
            r matches Some(plan) ==> plan == old(self).spec_root_plan() && *final(self) == (
            ParState { live: (old(self).live + 1) as u32, ..*old(self) }),
            r is None ==> *final(self) == *old(self),
    {
        if !self.par_vcpu_admit() {
            return None;
        }
        match &self.inst {
            Some(g) => {
                return Some(
                    RootPlan::Confiner { win_size: g.win_size, with_module: g.module.is_some() },
                );
            },
            None => {},
        }
        match self.rt {
            Some(jit) => {
                return Some(RootPlan::Compiler { jit });
            },
            None => {},
        }
        let tier: TierMode = self.with_tierup();
        match (self.io, self.pb) {
            (Some(out), _) => Some(RootPlan::Output { out, tier }),
            (None, Some(g)) => Some(RootPlan::FixedUnit { jit: g.jit, code: g.code, tier }),
            (None, None) => Some(RootPlan::Plain { tier }),
        }
    }

    /// How this run builds a spawned thread over a window of `2^size_log2` bytes.
    pub open spec fn spec_child_plan(self, size_log2: u8) -> ChildPlan {
        if self.rt is Some {
            ChildPlan { size_log2, host: ChildHost::Compiler, tier: TierMode::Interpret }
        } else if self.io is Some {
            ChildPlan { size_log2, host: ChildHost::Output, tier: self.spec_tier_mode() }
        } else {
            ChildPlan { size_log2, host: ChildHost::Own, tier: self.spec_tier_mode() }
        }
    }

    /// Admits a spawned thread over its spawner's window and says how to build it.
    ///
    /// `None`, with no place taken, if no place is free or the window size is no power of two.
    pub fn svm_par_child(&mut self, win_size: usize) -> (r: Option<ChildPlan>)
        ensures
            old(self).threaded(win_size as nat, r, *final(self)),
            r is Some <==> old(self).live < PAR_MAX_VCPUS && is_pow2(win_size as nat),
            r matches Some(plan) ==> win_size == pow2(plan.size_log2 as nat) && plan == old(
                self,
            ).spec_child_plan(plan.size_log2) && *final(self) == (ParState {
                live: (old(self).live + 1) as u32,
                ..*old(self)
            }),
            r is None ==> *final(self) == *old(self),
    {
        if !self.par_vcpu_admit() {
            return None;
        }
        let size_log2: u8 = match exact_log2(win_size) {
            Some(k) => k,
            None => {
                self.par_vcpu_retire();
                return None;
            },
        };
        if self.rt.is_some() {
            return Some(
                ChildPlan { size_log2, host: ChildHost::Compiler, tier: TierMode::Interpret },
            );
        }
        let host: ChildHost = if self.io.is_some() {
            ChildHost::Output
        } else {
            ChildHost::Own
        };
        Some(ChildPlan { size_log2, host, tier: self.with_tierup() })
    }

    /// Admits a confined child over a carve of `2^size_log2` bytes; the carve's size, or `None`
    /// with no place taken.
    pub fn svm_par_child_confined(&mut self, size_log2: u32) -> (r: Option<u64>)
        ensures
            old(self).confined(size_log2 as nat, r, *final(self)),
            r is Some <==> size_log2 < 64 && old(self).live < PAR_MAX_VCPUS,
            r matches Some(size) ==> size == pow2(size_log2 as nat) && *final(self) == (ParState {
                live: (old(self).live + 1) as u32,
                ..*old(self)
            }),
            r is None ==> *final(self) == *old(self),
    {
        if size_log2 >= 64 || !self.par_vcpu_admit() {
            return None;
        }
        Some(crate::window::size_of_log2(size_log2 as u8))
    }

    /// Settles an admitted build: a failed one gives its place back.
    pub fn par_vcpu_settle(&mut self, built: bool)
        ensures
            *final(self) == old(self).settled(built),
            built ==> *final(self) == *old(self),
            !built ==> *final(self) == old(self).retired(),
    {
        if !built {
            self.par_vcpu_retire();
        }
    }
}

/// What a tier-up request reads of an emitted module.
pub open spec fn module_view(module: Option<(&[Sig], &[bool])>) -> Option<(Seq<Sig>, Seq<bool>)> {
    match module {
        Some((sigs, emit)) => Some((sigs@, emit@)),
        None => None,
    }
}

/// `after` and `kept` are the state and the page's module after the tier-up of a run was asked for,
/// and `r` is the answer. The first request of a generation decides; a later one changes nothing.
pub open spec fn tierup_enabled(
    before: ParState,
    slot: Vec<u8>,
    module: Option<(Seq<Sig>, Seq<bool>)>,
    wasm: Vec<u8>,
    paged: bool,
    after: ParState,
    kept: Vec<u8>,
    r: i32,
) -> bool {
    match before.tierup_gate.spec_cached(before.generation) {
        Some(done) => r == done && after == before && kept == slot,
        None => {
            let found = module matches Some((sigs, emit)) && spec_any(
                spec_tierup_eligible(emit, sigs),
            );
            &&& r == (if found {
                1i32
            } else {
                0i32
            })
            &&& after == (ParState {
                tierup_gate: EmitGate { done_gen: before.generation, result: r },
                eligible: after.eligible,
                paged: if found {
                    paged
                } else {
                    before.paged
                },
                ..before
            })
            &&& !found ==> after.eligible == before.eligible && kept == slot
            &&& found ==> kept == wasm && (after.eligible matches Some(e) && module matches Some(
                (sigs, emit),
            ) && e@ == spec_tierup_eligible(emit, sigs))
        },
    }
}

/// One emit per run: once a request was answered, every later one of the same generation gets the
/// same answer, whatever it brings, and neither the published set nor the emitted module changes.
///
/// `later` is the state at the second request: anything may have happened to it but a new generation
/// or another tier-up request.
pub proof fn law_second_enable_changes_nothing(
    before: ParState,
    slot: Vec<u8>,
    module: Option<(Seq<Sig>, Seq<bool>)>,
    wasm: Vec<u8>,
    paged: bool,
    after: ParState,
    kept: Vec<u8>,
    r: i32,
    later: ParState,
    module2: Option<(Seq<Sig>, Seq<bool>)>,
    wasm2: Vec<u8>,
    paged2: bool,
    last: ParState,
    kept2: Vec<u8>,
    r2: i32,
)
    requires
        tierup_enabled(before, slot, module, wasm, paged, after, kept, r),
        later.generation == after.generation,
        later.tierup_gate == after.tierup_gate,
        tierup_enabled(later, kept, module2, wasm2, paged2, last, kept2, r2),
    ensures
        r2 == r,
        last == later,
        kept2 == kept,
{
}

/// As [`law_second_enable_changes_nothing`], of the fixed unit's and the child module's bodies.
pub proof fn law_bodies_are_emitted_once(
    before: ParState,
    unit: Option<Vec<u8>>,
    unit2: Option<Vec<u8>>,
    inst: Option<(Vec<bool>, Vec<u8>)>,
    inst2: Option<(Vec<bool>, Vec<u8>)>,
)
    ensures
        before.unit_enabled(unit).0.unit_enabled(unit2) == before.unit_enabled(unit),
        before.inst_enabled(inst).0.inst_enabled(inst2) == before.inst_enabled(inst),
{
}

/// Publishing a recipe makes it the run's: the next root follows it and no earlier one.
pub proof fn law_last_published_recipe_wins(
    before: ParState,
    pb: PbGrant,
    inst: InstGrant,
    out: i32,
    jit: i32,
)
    requires
        before.wf(),
    ensures
        (ParState { pb: Some(pb), ..before.withdrawn() }).spec_root_plan() == (
        RootPlan::FixedUnit { jit: pb.jit, code: pb.code, tier: before.spec_tier_mode() }),
        (ParState { inst: Some(inst), ..before.withdrawn() }).spec_root_plan() == (
        RootPlan::Confiner { win_size: inst.win_size, with_module: inst.module is Some }),
        (ParState { io: Some(out), ..before.withdrawn() }).spec_root_plan() == (RootPlan::Output {
            out,
            tier: before.spec_tier_mode(),
        }),
        (ParState { rt: Some(jit), ..before.withdrawn() }).spec_root_plan() == (
        RootPlan::Compiler { jit }),
        before.withdrawn().spec_root_plan() == (RootPlan::Plain { tier: before.spec_tier_mode() }),
{
}

/// An admitted virtual CPU that retires leaves the live count as it was, so the bound on live
/// virtual CPUs is never worn down.
pub proof fn law_retire_undoes_admit(before: ParState)
    requires
        before.live < PAR_MAX_VCPUS,
    ensures
        (ParState { live: (before.live + 1) as u32, ..before }).retired() == before,
{
}

/// The root of a run is built by the recipe that is published: over the window and with the module
/// that it names, or with the handles that it grants.
pub proof fn law_root_is_built_by_its_recipe(s: ParState, g: InstGrant, pb: PbGrant, h: i32)
    requires
        s.wf(),
    ensures
        s.inst == Some(g) ==> s.spec_root_plan() == (RootPlan::Confiner {
            win_size: g.win_size,
            with_module: g.module is Some,
        }),
        s.rt == Some(h) ==> s.spec_root_plan() == (RootPlan::Compiler { jit: h }),
        s.io == Some(h) ==> (s.spec_root_plan() matches RootPlan::Output { out, tier } && out == h
            && tier == s.spec_tier_mode()),
        s.pb == Some(pb) ==> (s.spec_root_plan() matches RootPlan::FixedUnit { jit, code, tier }
            && jit == pb.jit && code == pb.code && tier == s.spec_tier_mode()),
        recipe_count(s) == 0 ==> s.spec_root_plan() == (RootPlan::Plain { tier: s.spec_tier_mode() }),
{
}

/// A thread calls into the host that its run shares, and into its own where the run shares none; it
/// tiers up as its run does, except where units are compiled at run time.
pub proof fn law_thread_shares_its_runs_host(s: ParState, size_log2: u8)
    requires
        s.wf(),
    ensures
        ({
            let plan = s.spec_child_plan(size_log2);
            &&& plan.size_log2 == size_log2
            &&& plan.host == ChildHost::Compiler <==> s.rt is Some
            &&& plan.host == ChildHost::Output <==> s.io is Some
            &&& s.rt is Some ==> plan.tier == TierMode::Interpret
            &&& s.rt is None ==> plan.tier == s.spec_tier_mode()
        }),
{
}

/// Calls tier up exactly once a set of functions was published, over a page table exactly if that
/// set was emitted for one.
pub proof fn law_tier_follows_what_was_published(s: ParState)
    ensures
        s.spec_tier_mode() == TierMode::Interpret <==> s.eligible is None,
        s.spec_tier_mode() == TierMode::Paged <==> s.eligible is Some && s.paged,
        s.spec_tier_mode() == TierMode::Scalar <==> s.eligible is Some && !s.paged,
{
}

/// Publishing a recipe makes exactly that one the run's, with the handles given, in a generation of
/// its own; one that is refused leaves the recipe as it was.
pub proof fn law_published_recipe_is_the_runs(
    s: ParState,
    pb: PbGrant,
    g: InstGrant,
    h: i32,
)
    requires
        s.wf(),
    ensures
        ({
            let (t, r) = s.unit_published(Some(pb));
            &&& r == 1
            &&& t.wf()
            &&& t.pb == Some(pb)
            &&& recipe_count(t) == 1
            &&& !t.codegen
            &&& t.generation != s.generation
        }),
        ({
            let (t, r) = s.emitted_unit_published(Some(pb), 1);
            &&& r == 1
            &&& t.pb == Some(pb)
            &&& recipe_count(t) == 1
            &&& t.codegen == s.codegen
            &&& t.generation == s.generation
        }),
        ({
            let (t, r) = s.confiner_published(Some(g));
            &&& r == 1
            &&& t.inst == Some(g)
            &&& recipe_count(t) == 1
            &&& t.codegen == s.codegen
            &&& t.generation != s.generation
        }),
        ({
            let t = s.output_published(h);
            &&& t.io == Some(h)
            &&& recipe_count(t) == 1
            &&& t.codegen == s.codegen
            &&& t.generation != s.generation
        }),
        ({
            let (t, r) = s.compiler_published(Some(h));
            &&& r == 1
            &&& t.rt == Some(h)
            &&& recipe_count(t) == 1
            &&& t.codegen
            &&& t.generation != s.generation
        }),
        ({
            let t = s.plain_published();
            &&& recipe_count(t) == 0
            &&& !t.codegen
            &&& t.generation != s.generation
        }),
        ({
            let bumped = ParState { generation: s.bumped().generation, ..s };
            &&& s.unit_published(None) == (bumped, 0i32)
            &&& s.confiner_published(None) == (bumped, 0i32)
            &&& s.compiler_published(None) == (bumped, 0i32)
            &&& s.emitted_unit_published(None, h) == (s, 0i32)
            &&& h != 1 ==> s.emitted_unit_published(Some(pb), h) == (s, 0i32)
        }),
{
}

/// Generations count up by one and wrap, so two runs in a row never share one.
pub proof fn law_generations_count_up(s: ParState)
    ensures
        s.generation < u32::MAX ==> s.bumped().generation == s.generation + 1,
        s.generation == u32::MAX ==> s.bumped().generation == 0,
        s.bumped() == (ParState { generation: s.bumped().generation, ..s }),
        s.withdrawn() == (ParState { pb: None, inst: None, io: None, rt: None, ..s }),
{
}

/// At most so many virtual CPUs live at a time: a place is given exactly while one is free, and a
/// place that was given back can be taken again.
pub proof fn law_no_more_live_than_places(s: ParState)
    requires
        s.live <= 256,
    ensures
        s.admitted().0 <==> s.live < 256,
        s.admitted().1.live <= 256,
        s.admitted().0 ==> s.admitted().1.live == s.live + 1 && s.admitted().1.retired() == s,
        !s.admitted().0 ==> s.admitted().1 == s,
        s.live > 0 ==> s.retired().live == s.live - 1 && s.retired().admitted().0,
{
}

/// The table mirror holds at every slot what was last put there, and nothing where nothing was.
pub proof fn law_mirror_holds_the_last_install(
    a: ParState,
    b: ParState,
    c: ParState,
    slot: nat,
    other: nat,
    code: i32,
)
    requires
        slot_set(a, b, slot, code),
        slot_set(b, c, slot, NO_CODE),
        slot < PAR_JIT_TABLE_SLOTS,
        other != slot,
    ensures
        b.spec_slot_code(slot) == code,
        b.spec_slot_code(other) == a.spec_slot_code(other),
        c.spec_slot_code(slot) == NO_CODE,
        c.spec_slot_code(other) == a.spec_slot_code(other),
        a.slot_code@.len() == 0 ==> a.spec_slot_code(other) == NO_CODE,
{
}

/// A tier-up that is published names exactly the functions that were emitted and take and return
/// nothing but 64-bit integers; the page reads what was emitted for them.
pub proof fn law_enabled_set_is_what_can_tier_up(
    before: ParState,
    slot: Vec<u8>,
    sigs: Seq<Sig>,
    emit: Seq<bool>,
    wasm: Vec<u8>,
    paged: bool,
    after: ParState,
    kept: Vec<u8>,
    r: i32,
)
    requires
        before.tierup_gate.done_gen != before.generation,
        tierup_enabled(before, slot, Some((sigs, emit)), wasm, paged, after, kept, r),
    ensures
        r == 1 <==> exists|i: int|
            0 <= i < sigs.len() && #[trigger] spec_tierup_eligible(emit, sigs)[i],
        r == 1 ==> kept == wasm && after.paged == paged && (after.eligible matches Some(e) && e@.len()
            == sigs.len() && forall|i: int|
            0 <= i < sigs.len() ==> (#[trigger] e@[i] <==> spec_tierup_eligible(emit, sigs)[i])),
        r != 1 ==> r == 0 && kept == slot && after.eligible == before.eligible && after.paged
            == before.paged,
        after.tierup_gate.spec_cached(before.generation) == Some(r),
        (after.pb, after.inst, after.io, after.rt) == (before.pb, before.inst, before.io, before.rt),
        after.generation == before.generation,
{
    assert(spec_tierup_eligible(emit, sigs).len() == sigs.len());
}

/// A body that was emitted is the one that is kept: the fixed unit's turns code generation on, the
/// child module's is taken only for a recipe that has one.
pub proof fn law_emitted_bodies_are_kept(
    s: ParState,
    w: Vec<u8>,
    e: Vec<bool>,
)
    requires
        s.unit_gate.done_gen != s.generation,
        s.inst_gate.done_gen != s.generation,
    ensures
        s.unit_enabled(Some(w)).1 == 1,
        s.unit_enabled(Some(w)).0.unit_wasm == w,
        s.unit_enabled(Some(w)).0.codegen,
        s.unit_enabled(None).1 == 0,
        s.unit_enabled(None).0.unit_wasm == s.unit_wasm,
        s.unit_enabled(None).0.codegen == s.codegen,
        (s.inst matches Some(g) && g.module is Some) ==> s.inst_enabled(Some((e, w))).1 == 1
            && s.inst_enabled(Some((e, w))).0.inst_wasm == w && s.inst_enabled(
            Some((e, w)),
        ).0.inst_eligible == Some(e),
        !(s.inst matches Some(g) && g.module is Some) ==> s.inst_enabled(Some((e, w))).1 == 0
            && s.inst_enabled(Some((e, w))).0.inst_wasm == s.inst_wasm,
        s.inst_enabled(None).1 == 0,
        s.inst_enabled(None).0.inst_wasm == s.inst_wasm,
{
}

/// A switch is what it was last set to, and setting one touches no other.
pub proof fn law_switches_are_as_last_set(s: ParState, a: i32, b: i32)
    ensures
        s.with_codegen(a).with_codegen(b).codegen <==> b != 0,
        s.with_b2(a).with_b2(b).b2 <==> b != 0,
        s.with_service(a).with_service(b).service == b,
        s.with_codegen(a).b2 == s.b2,
        s.with_b2(a).codegen == s.codegen,
        s.with_service(a).codegen == s.codegen,
        s.with_codegen(a).spec_root_plan() == s.spec_root_plan(),
        s.with_b2(a).generation == s.generation,
{
}

/// What the page asks of a child's function is that function's own: past the last there is no body
/// and no parameter.
pub proof fn law_child_functions_are_asked_by_number(
    s: ParState,
    e: Vec<bool>,
    counts: Vec<usize>,
    g: InstGrant,
    entry: nat,
)
    requires
        s.inst_eligible == Some(e),
        s.inst == Some(g),
        g.module == Some(counts),
    ensures
        entry < e@.len() ==> (s.spec_inst_eligible(entry) == 1 <==> e@[entry as int]),
        s.spec_inst_eligible(entry) == 0 || s.spec_inst_eligible(entry) == 1,
        entry >= e@.len() ==> s.spec_inst_eligible(entry) == 0,
        entry < counts@.len() ==> s.spec_inst_nparams(entry) == counts@[entry as int],
        entry >= counts@.len() ==> s.spec_inst_nparams(entry) == 0,
{
}

/// A thread or a confined child takes a place exactly if it is admitted, over a window of exactly the
/// size asked for; a build that fails gives the place back.
pub proof fn law_child_takes_one_place(
    s: ParState,
    win_size: nat,
    size_log2: nat,
    r: Option<ChildPlan>,
    q: Option<u64>,
    a: ParState,
    b: ParState,
)
    requires
        s.live < u32::MAX,
        s.threaded(win_size, r, a),
        s.confined(size_log2, q, b),
    ensures
        r is Some <==> s.live < 256 && is_pow2(win_size),
        q is Some <==> s.live < 256 && size_log2 < 64,
        r matches Some(plan) ==> win_size == pow2(plan.size_log2 as nat) && a.live == s.live + 1,
        q matches Some(size) ==> size == pow2(size_log2) && b.live == s.live + 1,
        r is None ==> a == s,
        q is None ==> b == s,
        r is Some ==> a.settled(false) == s && a.settled(true) == a,
        q is Some ==> b.settled(false) == s && b.settled(true) == b,
{
}

/// An emit that was recorded is answered from the record in its own generation, and in no other.
pub proof fn law_recorded_emit_answers_its_generation(g: EmitGate, generation: u32, other: u32, r: i32)
    requires
        other != generation,
    ensures
        g.recorded(generation, r).spec_cached(generation) == Some(r),
        g.recorded(generation, r).spec_cached(other) is None,
{
}

} // verus!
