//! A powerbox whose capabilities the page itself implements: names are bound to slots, and a guest's
//! imports are bound to the slots of their names.

use vstd::prelude::*;
use vstd::utf8::{decode_utf8, decode_utf8_encode_utf8, encode_utf8, valid_utf8};

use crate::caps::{law_export_resolves_to_its_first, OnrampModule};
use crate::capture::Capture;
use crate::slots::Value;
use crate::status::{
    judge_returned, returned_verdict, Verdict, STATUS_BAD_RESULT, STATUS_DECODE_ERR, STATUS_EXIT,
    STATUS_OK, STATUS_TRAP, STATUS_UNSUPPORTED, STATUS_VERIFY_ERR,
};
use crate::text::{first_place, from_utf8, join, listed, position_of, spec_join, texts};

verus! {

/// What a capability call returns when no servicer is installed.
pub const ENOSYS: i64 = -38;

/// What [`JsPowerbox::temen_jspb_bind`] returns for a name that it refuses.
pub const NOT_BOUND: i32 = -1;

/// The capabilities that the page has named, by slot, and why the last run refused to run.
#[derive(Debug)]
pub struct JsPowerbox {
    pub caps: Vec<String>,
    pub err: String,
}

/// A module as far as it got before its imports are looked at.
#[derive(Debug)]
pub enum Loaded {
    /// It does not decode, for this reason.
    Undecodable(String),
    /// It does not verify, for this reason.
    Unverified(String),
    /// It imports these names.
    Ready(Vec<String>),
}

/// How a bound run ended.
#[derive(Debug)]
pub enum JsRunEnd {
    Unsupported,
    Exited(i32),
    /// It trapped, described by this text.
    Trapped(String),
    Returned(Vec<Value>),
}

/// The names of `imports` that no capability has, in order.
pub open spec fn missing(imports: Seq<String>, caps: Seq<String>) -> Seq<Seq<char>>
    decreases imports.len(),
{
    if imports.len() == 0 {
        Seq::empty()
    } else {
        let before = missing(imports.drop_last(), caps);
        if listed(caps, imports.last()@) {
            before
        } else {
            before.push(imports.last()@)
        }
    }
}

/// The refusal of a module with unbound imports.
pub open spec fn missing_message(gone: Seq<Seq<char>>, caps: Seq<String>) -> Seq<char> {
    "unbound import"@ + (if gone.len() == 1 {
        ""@
    } else {
        "s"@
    }) + ": "@ + spec_join(gone, ", "@) + " — the page defined ["@ + spec_join(texts(caps), ", "@)
        + "]"@
}

/// Slot `slots[i]` is the capability that import `i` names.
pub open spec fn bound_slots(slots: Seq<usize>, imports: Seq<String>, caps: Seq<String>) -> bool {
    &&& slots.len() == imports.len()
    &&& forall|i: int|
        0 <= i < imports.len() ==> first_place(caps, imports[i]@, #[trigger] slots[i] as int)
}

/// Where nothing is missing, every import is bound.
proof fn lemma_none_missing(imports: Seq<String>, caps: Seq<String>, i: int)
    requires
        missing(imports, caps).len() == 0,
        0 <= i < imports.len(),
    ensures
        listed(caps, imports[i]@),
    decreases imports.len(),
{
    if i < imports.len() - 1 {
        lemma_none_missing(imports.drop_last(), caps, i);
    }
}

/// A run is refused exactly if some import names no capability.
pub proof fn law_refused_iff_some_import_unbound(imports: Seq<String>, caps: Seq<String>)
    ensures
        missing(imports, caps).len() > 0 <==> exists|i: int|
            0 <= i < imports.len() && !listed(caps, (#[trigger] imports[i])@),
{
    if missing(imports, caps).len() == 0 {
        assert forall|i: int| 0 <= i < imports.len() implies listed(
            caps,
            (#[trigger] imports[i])@,
        ) by {
            lemma_none_missing(imports, caps, i);
        }
    } else if forall|i: int| 0 <= i < imports.len() ==> listed(caps, (#[trigger] imports[i])@) {
        lemma_all_bound(imports, caps);
    }
}

/// Where every import is bound, nothing is missing.
proof fn lemma_all_bound(imports: Seq<String>, caps: Seq<String>)
    requires
        forall|i: int| 0 <= i < imports.len() ==> listed(caps, (#[trigger] imports[i])@),
    ensures
        missing(imports, caps).len() == 0,
    decreases imports.len(),
{
    if imports.len() > 0 {
        assert forall|i: int| 0 <= i < imports.drop_last().len() implies listed(
            caps,
            (#[trigger] imports.drop_last()[i])@,
        ) by {
            assert(imports[i] == imports.drop_last()[i]);
        }
        lemma_all_bound(imports.drop_last(), caps);
    }
}

/// `after` and `r` are what looking at a module's imports comes to.
pub open spec fn imports_bound(
    before: JsPowerbox,
    loaded: Loaded,
    after: JsPowerbox,
    r: Result<Vec<usize>, i32>,
) -> bool {
    &&& after.caps == before.caps
    &&& match loaded {
        Loaded::Undecodable(why) => r == Err::<Vec<usize>, i32>(STATUS_DECODE_ERR) && after.err@
            == "decode error: "@ + why@,
        Loaded::Unverified(why) => r == Err::<Vec<usize>, i32>(STATUS_VERIFY_ERR) && after.err@
            == "verify error: "@ + why@,
        Loaded::Ready(imports) => {
            let gone = missing(imports@, before.caps@);
            if gone.len() > 0 {
                r == Err::<Vec<usize>, i32>(STATUS_UNSUPPORTED) && after.err@ == missing_message(
                    gone,
                    before.caps@,
                )
            } else {
                (r matches Ok(slots) && bound_slots(slots@, imports@, before.caps@)) && after.err@
                    == Seq::<char>::empty()
            }
        },
    }
}

/// The powerbox, the slots and the value once a bound run ended so.
pub open spec fn run_ended(
    before: JsPowerbox,
    cap: Capture,
    end: JsRunEnd,
    after: JsPowerbox,
    done: Capture,
    value: i64,
) -> bool {
    &&& after.caps == before.caps
    &&& done == (Capture { last_status: done.last_status, exit_code: done.exit_code, ..cap })
    &&& match end {
        JsRunEnd::Unsupported => value == 0 && done.last_status == STATUS_UNSUPPORTED && after.err@
            == "the bytecode engine does not support this module"@ && done.exit_code
            == cap.exit_code,
        JsRunEnd::Exited(code) => value == 0 && done.last_status == STATUS_EXIT && done.exit_code
            == code && after.err == before.err,
        JsRunEnd::Trapped(why) => value == 0 && done.last_status == STATUS_TRAP && after.err@
            == "trap: "@ + why@ && done.exit_code == cap.exit_code,
        JsRunEnd::Returned(vals) => {
            let v = returned_verdict(vals@, STATUS_BAD_RESULT);
            &&& value == v.value
            &&& done.last_status == v.status
            &&& done.exit_code == cap.exit_code
            &&& after.err@ == (if v.status == STATUS_OK {
                before.err@
            } else {
                "the entry returned no i32/i64 result"@
            })
        },
    }
}

impl JsPowerbox {
    /// No name is empty, and every name is bound once.
    pub open spec fn wf(self) -> bool {
        &&& forall|i: int| 0 <= i < self.caps@.len() ==> (#[trigger] self.caps@[i])@.len() > 0
        &&& forall|i: int, j: int|
            0 <= i < j < self.caps@.len() ==> (#[trigger] self.caps@[i])@ != (
            #[trigger] self.caps@[j])@
        &&& self.caps@.len() <= i32::MAX
    }

    /// A powerbox without capabilities.
    pub fn new() -> (r: JsPowerbox)
        ensures
            r.wf(),
            r.caps@.len() == 0,
            r.err@ == Seq::<char>::empty(),
    {
        JsPowerbox { caps: Vec::new(), err: String::new() }
    }

    /// Drops every binding and the last error.
    pub fn temen_jspb_reset(&mut self)
        ensures
            final(self).wf(),
            final(self).caps@.len() == 0,
            final(self).err@ == Seq::<char>::empty(),
    {
        self.caps.clear();
        self.err = String::new();
    }

    /// The name is text, not empty, and not bound yet.
    pub open spec fn can_bind(self, name: Seq<u8>) -> bool {
        name.len() > 0 && valid_utf8(name) && !listed(self.caps@, decode_utf8(name))
    }

    /// Binds a name to the next slot and returns the slot; [`NOT_BOUND`] for a name that is empty,
    /// no text, or bound already.
    pub fn temen_jspb_bind(&mut self, name: &[u8]) -> (r: i32)
        requires
            old(self).wf(),
            old(self).caps@.len() < i32::MAX,
        ensures
            final(self).wf(),
            final(self).err == old(self).err,
            texts(final(self).caps@) == names_after(texts(old(self).caps@), name@),
            r == slot_answer(texts(old(self).caps@), name@),
            old(self).can_bind(name@) ==> r == old(self).caps@.len() && texts(final(self).caps@)
                == texts(old(self).caps@).push(decode_utf8(name@)),
            !old(self).can_bind(name@) ==> r == NOT_BOUND && final(self).caps == old(self).caps,
    {
        let ghost names = texts(self.caps@);
        proof {
            if valid_utf8(name@) {
                let t = decode_utf8(name@);
                if listed(self.caps@, t) {
                    let j = choose|j: int| 0 <= j < self.caps@.len() && (#[trigger] self.caps@[j])@ == t;
                    assert(names[j] == t);
                }
                if names.contains(t) {
                    let j = choose|j: int| 0 <= j < names.len() && names[j] == t;
                    assert(self.caps@[j]@ == t);
                }
                assert(names.push(t).len() != names.len());
                if name@.len() > 0 {
                    lemma_name_not_empty(name@);
                }
            }
        }
        if name.len() == 0 {
            return NOT_BOUND;
        }
        let text: String = match from_utf8(name) {
            None => {
                return NOT_BOUND;
            },
            Some(t) => t,
        };
        if position_of(self.caps.as_slice(), text.as_str()).is_some() {
            return NOT_BOUND;
        }
        let slot: i32 = self.caps.len() as i32;
        self.caps.push(text);
        assert(texts(self.caps@) =~= texts(old(self).caps@).push(decode_utf8(name@)));
        slot
    }

    /// The slots that a module's imports bind to, or the status that refuses it.
    ///
    /// All unbound imports are named at once, and a refused module does not run.
    pub fn bind_imports(&mut self, loaded: Loaded) -> (r: Result<Vec<usize>, i32>)
        ensures
            imports_bound(*old(self), loaded, *final(self), r),
            final(self).caps == old(self).caps,
            match loaded {
                Loaded::Undecodable(why) => r == Err::<Vec<usize>, i32>(STATUS_DECODE_ERR)
                    && final(self).err@ == "decode error: "@ + why@,
                Loaded::Unverified(why) => r == Err::<Vec<usize>, i32>(STATUS_VERIFY_ERR)
                    && final(self).err@ == "verify error: "@ + why@,
                Loaded::Ready(imports) => if missing(imports@, old(self).caps@).len() > 0 {
                    r == Err::<Vec<usize>, i32>(STATUS_UNSUPPORTED) && final(self).err@
                        == missing_message(
                        missing(imports@, old(self).caps@),
                        old(self).caps@,
                    )
                } else {
                    (r matches Ok(slots) && bound_slots(slots@, imports@, old(self).caps@))
                        && final(self).err@ == Seq::<char>::empty()
                },
            },
    {
        self.err = String::new();
        let imports: Vec<String> = match loaded {
            Loaded::Undecodable(why) => {
                self.err.append("decode error: ");
                self.err.append(why.as_str());
                assert(self.err@ =~= "decode error: "@ + why@);
                return Err(STATUS_DECODE_ERR);
            },
            Loaded::Unverified(why) => {
                self.err.append("verify error: ");
                self.err.append(why.as_str());
                assert(self.err@ =~= "verify error: "@ + why@);
                return Err(STATUS_VERIFY_ERR);
            },
            Loaded::Ready(imports) => imports,
        };
        let mut slots: Vec<usize> = Vec::with_capacity(imports.len());
        let mut gone: Vec<String> = Vec::new();
        let mut i: usize = 0;
        while i < imports.len()
            invariant
                i <= imports.len(),
                self.caps == old(self).caps,
                self.err@ == Seq::<char>::empty(),
                texts(gone@) == missing(imports@.take(i as int), self.caps@),
                gone@.len() == 0 ==> bound_slots(slots@, imports@.take(i as int), self.caps@),
            decreases imports.len() - i,
        {
            proof {
                let now = imports@.take(i as int + 1);
                assert(now.drop_last() =~= imports@.take(i as int));
                assert(now.last() == imports@[i as int]);
                assert(forall|j: int|
                    0 <= j < i ==> imports@.take(i as int)[j] == #[trigger] now[j]);
            }
            match position_of(self.caps.as_slice(), imports[i].as_str()) {
                Some(slot) => {
                    slots.push(slot);
                },
                None => {
                    gone.push(imports[i].clone());
                    assert(texts(gone@) =~= missing(imports@.take(i as int), self.caps@).push(
                        imports@[i as int]@,
                    ));
                },
            }
            i = i + 1;
        }
        assert(imports@.take(imports@.len() as int) =~= imports@);
        if gone.len() > 0 {
            let mut msg: String = String::new();
            msg.append("unbound import");
            if gone.len() != 1 {
                msg.append("s");
            }
            msg.append(": ");
            msg.append(join(gone.as_slice(), ", ").as_str());
            msg.append(" — the page defined [");
            msg.append(join(self.caps.as_slice(), ", ").as_str());
            msg.append("]");
            proof {
                reveal_strlit("");
                assert(""@ =~= Seq::<char>::empty());
                assert(msg@ =~= missing_message(texts(gone@), self.caps@));
            }
            self.err = msg;
            return Err(STATUS_UNSUPPORTED);
        }
        Ok(slots)
    }

    /// Ends a bound run: records its status, its exit code and its error text, and returns its
    /// value. A run that returned or exited leaves the error text as it is.
    pub fn temen_jspb_run(&mut self, cap: &mut Capture, end: JsRunEnd) -> (r: i64)
        ensures
            run_ended(*old(self), *old(cap), end, *final(self), *final(cap), r),
            final(self).caps == old(self).caps,
            match end {
                JsRunEnd::Unsupported => r == 0 && final(cap).last_status == STATUS_UNSUPPORTED
                    && final(self).err@ == "the bytecode engine does not support this module"@
                    && final(cap).exit_code == old(cap).exit_code,
                JsRunEnd::Exited(code) => r == 0 && final(cap).last_status == STATUS_EXIT
                    && final(cap).exit_code == code && final(self).err == old(self).err,
                JsRunEnd::Trapped(why) => r == 0 && final(cap).last_status == STATUS_TRAP
                    && final(self).err@ == "trap: "@ + why@ && final(cap).exit_code
                    == old(cap).exit_code,
                JsRunEnd::Returned(vals) => {
                    let v = returned_verdict(vals@, STATUS_BAD_RESULT);
                    &&& r == v.value
                    &&& final(cap).last_status == v.status
                    &&& final(cap).exit_code == old(cap).exit_code
                    &&& final(self).err@ == (if v.status == STATUS_OK {
                        old(self).err@
                    } else {
                        "the entry returned no i32/i64 result"@
                    })
                },
            },
            *final(cap) == (Capture {
                last_status: final(cap).last_status,
                exit_code: final(cap).exit_code,
                ..*old(cap)
            }),
    {
        match end {
            JsRunEnd::Unsupported => {
                cap.last_status = STATUS_UNSUPPORTED;
                self.err = "the bytecode engine does not support this module".to_owned();
                0
            },
            JsRunEnd::Exited(code) => {
                cap.last_status = STATUS_EXIT;
                cap.exit_code = code;
                0
            },
            JsRunEnd::Trapped(why) => {
                cap.last_status = STATUS_TRAP;
                self.err = "trap: ".to_owned();
                self.err.append(why.as_str());
                0
            },
            JsRunEnd::Returned(vals) => {
                let v: Verdict = judge_returned(vals.as_slice(), STATUS_BAD_RESULT);
                cap.last_status = v.status;
                if v.status != STATUS_OK {
                    self.err = "the entry returned no i32/i64 result".to_owned();
                }
                v.value
            },
        }
    }
}

/// The names once `name` was offered too: appended, unless it is empty, no text, or there already.
pub open spec fn names_after(names: Seq<Seq<char>>, name: Seq<u8>) -> Seq<Seq<char>> {
    if name.len() > 0 && valid_utf8(name) && !names.contains(decode_utf8(name)) {
        names.push(decode_utf8(name))
    } else {
        names
    }
}

/// The slot that a name is answered with, [`NOT_BOUND`] if it is refused.
pub open spec fn slot_answer(names: Seq<Seq<char>>, name: Seq<u8>) -> int {
    if names_after(names, name) == names {
        NOT_BOUND as int
    } else {
        names.len() as int
    }
}

/// The names after the first `n` of a series of offers since a reset.
pub open spec fn names_bound(offers: Seq<Seq<u8>>, n: nat) -> Seq<Seq<char>>
    decreases n,
{
    if n == 0 {
        Seq::empty()
    } else {
        names_after(names_bound(offers, (n - 1) as nat), offers[n - 1])
    }
}

/// Bytes that encode some text are some.
proof fn lemma_name_not_empty(name: Seq<u8>)
    requires
        name.len() > 0,
        valid_utf8(name),
    ensures
        decode_utf8(name).len() > 0,
{
    if decode_utf8(name).len() == 0 {
        decode_utf8_encode_utf8(name);
        assert(encode_utf8(decode_utf8(name)).len() == 0);
    }
}

/// Whatever is offered after a reset, no bound name is empty, none is bound twice, and slot `i` is
/// the `i`-th name from then on: later offers only append.
pub proof fn law_bound_names(offers: Seq<Seq<u8>>, m: nat, n: nat)
    requires
        m <= n,
    ensures
        ({
            let names = names_bound(offers, n);
            &&& forall|i: int| 0 <= i < names.len() ==> (#[trigger] names[i]).len() > 0
            &&& names.no_duplicates()
            &&& names_bound(offers, m).len() <= names.len()
            &&& names_bound(offers, m) == names.take(names_bound(offers, m).len() as int)
        }),
    decreases n,
{
    let names = names_bound(offers, n);
    if m == n {
        assert(names.take(names.len() as int) =~= names);
    }
    if n > 0 {
        let k = (n - 1) as nat;
        let before = names_bound(offers, k);
        let name = offers[n - 1];
        law_bound_names(offers, if m < n { m } else { k }, k);
        if name.len() > 0 && valid_utf8(name) {
            lemma_name_not_empty(name);
        }
        if m < n {
            let old_len = names_bound(offers, m).len() as int;
            assert(names.take(old_len) =~= before.take(old_len));
        }
    }
}

/// An import is bound to the one capability with its name: no other slot carries it.
pub proof fn law_import_binds_to_the_only_slot(p: JsPowerbox, name: Seq<char>, a: int, b: int)
    requires
        p.wf(),
        first_place(p.caps@, name, a),
        0 <= b < p.caps@.len(),
        p.caps@[b]@ == name,
    ensures
        a == b,
{
}

/// A run of `m` starts at `r`.
pub open spec fn starts_at(m: OnrampModule, r: u32) -> bool {
    m.resolves("_start"@, Some(r)) || (m.resolves("_start"@, None) && r == 0)
}

/// The function that a run starts at: the one exported as `_start`, else the first.
pub fn start_func(m: &OnrampModule) -> (r: u32)
    ensures
        starts_at(*m, r),
        (forall|i: int| 0 <= i < m.exports@.len() ==> (#[trigger] m.exports@[i]).name@ != "_start"@)
            ==> r == 0,
        (exists|i: int| 0 <= i < m.exports@.len() && (#[trigger] m.exports@[i]).name@ == "_start"@)
            ==> exists|i: int|
            0 <= i < m.exports@.len() && (#[trigger] m.exports@[i]).name@ == "_start"@
                && m.exports@[i].func == r && forall|j: int|
                0 <= j < i ==> (#[trigger] m.exports@[j]).name@ != "_start"@,
{
    match m.resolve_export("_start") {
        Some(f) => f,
        None => 0,
    }
}

/// What a capability call returns.
pub open spec fn spec_call_reply(answer: Option<i64>) -> i64 {
    match answer {
        Some(x) => x,
        None => ENOSYS,
    }
}

/// What a capability call returns: the page's answer, or [`ENOSYS`] if no page answers.
pub fn call_reply(answer: Option<i64>) -> (r: i64)
    ensures
        r == spec_call_reply(answer),
        r == (match answer {
            Some(x) => x,
            None => ENOSYS,
        }),
{
    match answer {
        Some(x) => x,
        None => ENOSYS,
    }
}

/// A call reaches the capability that its import names: the slot of every bound import carries the
/// import's own name.
pub proof fn law_import_reaches_its_capability(
    before: JsPowerbox,
    imports: Vec<String>,
    after: JsPowerbox,
    slots: Vec<usize>,
    i: int,
)
    requires
        imports_bound(before, Loaded::Ready(imports), after, Ok(slots)),
        0 <= i < imports@.len(),
    ensures
        slots@.len() == imports@.len(),
        slots@[i] < before.caps@.len(),
        before.caps@[slots@[i] as int]@ == imports@[i]@,
        after.caps == before.caps,
        after.err@.len() == 0,
{
}

/// A module is refused for what it lacks: one that does not load with its own reason, one with an
/// import that names no capability as unsupported; any other is bound.
pub proof fn law_refusal_says_why(
    before: JsPowerbox,
    loaded: Loaded,
    after: JsPowerbox,
    r: Result<Vec<usize>, i32>,
)
    requires
        imports_bound(before, loaded, after, r),
    ensures
        loaded is Undecodable ==> r == Err::<Vec<usize>, i32>(1),
        loaded is Unverified ==> r == Err::<Vec<usize>, i32>(6),
        loaded matches Loaded::Undecodable(why) ==> after.err@.skip(14) == why@,
        loaded matches Loaded::Unverified(why) ==> after.err@.skip(14) == why@,
        loaded matches Loaded::Ready(imports) ==> (r is Ok <==> forall|i: int|
            0 <= i < imports@.len() ==> listed(before.caps@, (#[trigger] imports@[i])@)),
        loaded is Ready && r is Err ==> r == Err::<Vec<usize>, i32>(2),
{
    reveal_strlit("decode error: ");
    reveal_strlit("verify error: ");
    match loaded {
        Loaded::Undecodable(why) => {
            assert(after.err@.skip(14) =~= why@);
        },
        Loaded::Unverified(why) => {
            assert(after.err@.skip(14) =~= why@);
        },
        Loaded::Ready(imports) => {
            law_refused_iff_some_import_unbound(imports@, before.caps@);
        },
    }
}

/// The names that a refusal lists are the imports that no capability has, in the order of the
/// imports, each as often as it is imported.
pub proof fn law_refusal_lists_the_unbound(a: Seq<String>, b: Seq<String>, caps: Seq<String>)
    ensures
        missing(a + b, caps) == missing(a, caps) + missing(b, caps),
        b.len() == 1 && listed(caps, b[0]@) ==> missing(b, caps) == Seq::<Seq<char>>::empty(),
        b.len() == 1 && !listed(caps, b[0]@) ==> missing(b, caps) == seq![b[0]@],
    decreases b.len(),
{
    if b.len() == 0 {
        assert(a + b =~= a);
        assert(missing(a, caps) + missing(b, caps) =~= missing(a, caps));
    } else {
        law_refusal_lists_the_unbound(a, b.drop_last(), caps);
        assert((a + b).drop_last() =~= a + b.drop_last());
        assert(missing(a + b, caps) =~= missing(a, caps) + missing(b, caps));
        if b.len() == 1 {
            assert(b.drop_last() =~= Seq::empty());
            assert(missing(b.drop_last(), caps) =~= Seq::empty());
            if !listed(caps, b[0]@) {
                assert(missing(b, caps) =~= seq![b[0]@]);
            }
        }
    }
}

/// A refusal's text names every missing import and every capability that the page defined.
pub proof fn law_refusal_text_carries_the_names(gone: Seq<Seq<char>>, caps: Seq<String>)
    requires
        gone.len() > 0,
    ensures
        ({
            let s: nat = if gone.len() == 1 {
                0
            } else {
                1
            };
            let at = (16 + s) as int;
            let names = spec_join(gone, ", "@);
            let defined = spec_join(texts(caps), ", "@);
            let text = missing_message(gone, caps);
            &&& text.subrange(at, (at + names.len()) as int) == names
            &&& text.subrange(
                (at + names.len() + 21) as int,
                (at + names.len() + 21 + defined.len()) as int,
            ) == defined
        }),
{
    reveal_strlit("unbound import");
    reveal_strlit("");
    reveal_strlit("s");
    reveal_strlit(": ");
    reveal_strlit(" — the page defined [");
    reveal_strlit("]");
    let s: nat = if gone.len() == 1 {
        0
    } else {
        1
    };
    let at = (16 + s) as int;
    let names = spec_join(gone, ", "@);
    let defined = spec_join(texts(caps), ", "@);
    let text = missing_message(gone, caps);
    assert(text.subrange(at, (at + names.len()) as int) =~= names);
    assert(text.subrange(
        (at + names.len() + 21) as int,
        (at + names.len() + 21 + defined.len()) as int,
    ) =~= defined);
}

/// A bound run is reported as it ended: its value or exit code under the status that says so, the
/// reason of a trap in the error text; nothing else of the page's slots changes.
pub proof fn law_bound_run_is_reported(
    before: JsPowerbox,
    cap: Capture,
    end: JsRunEnd,
    after: JsPowerbox,
    done: Capture,
    value: i64,
)
    requires
        run_ended(before, cap, end, after, done, value),
    ensures
        end matches JsRunEnd::Exited(code) ==> done.last_status == 5 && done.exit_code == code
            && value == 0 && after.err == before.err,
        end matches JsRunEnd::Trapped(why) ==> done.last_status == 3 && after.err@.skip(6) == why@,
        end is Unsupported ==> done.last_status == 2,
        end matches JsRunEnd::Returned(vals) ==> (vals@.len() > 0 && vals@[0] is I64 ==> value
            == vals@[0]->I64_0 && done.last_status == 0 && after.err@ == before.err@),
        end matches JsRunEnd::Returned(vals) ==> (vals@.len() > 0 && vals@[0] is I32 ==> value
            == vals@[0]->I32_0 && done.last_status == 0 && after.err@ == before.err@),
        end matches JsRunEnd::Returned(vals) ==> (vals@.len() == 0 ==> done.last_status == 4),
        !(end is Exited) ==> done.exit_code == cap.exit_code,
        done.last_status != 0 ==> value == 0,
        (done.out, done.err, done.snap, done.run_value) == (
            cap.out,
            cap.err,
            cap.snap,
            cap.run_value,
        ),
        done.same_frame(cap),
        after.caps == before.caps,
{
    reveal_strlit("trap: ");
    if let JsRunEnd::Trapped(why) = end {
        assert(after.err@.skip(6) =~= why@);
    }
}

/// A run starts at the first function exported as `_start`, and at the first function if there is
/// none.
pub proof fn law_run_starts_at_start(m: OnrampModule, r: u32, k: int)
    requires
        starts_at(m, r),
    ensures
        (0 <= k < m.exports@.len() && m.exports@[k].name@ == "_start"@ && forall|j: int|
            0 <= j < k ==> (#[trigger] m.exports@[j]).name@ != "_start"@) ==> r
            == m.exports@[k].func,
        (forall|j: int| 0 <= j < m.exports@.len() ==> (#[trigger] m.exports@[j]).name@ != "_start"@)
            ==> r == 0,
{
    if 0 <= k < m.exports@.len() && m.exports@[k].name@ == "_start"@ && forall|j: int|
        0 <= j < k ==> (#[trigger] m.exports@[j]).name@ != "_start"@ {
        assert(!m.resolves("_start"@, None));
        law_export_resolves_to_its_first(m, "_start"@, Some(r), k);
    }
}

/// A capability call returns what the page answers, and an error if no page answers.
pub proof fn law_call_returns_the_pages_answer(x: i64)
    ensures
        spec_call_reply(Some(x)) == x,
        spec_call_reply(None) == -38,
{
}

/// A name is answered with the slot that carries it from then on, and refused exactly if it is
/// empty, no text or bound already; a refusal changes nothing.
pub proof fn law_bound_name_is_at_its_slot(names: Seq<Seq<char>>, name: Seq<u8>)
    ensures
        ({
            let slot = slot_answer(names, name);
            let after = names_after(names, name);
            &&& slot == -1 <==> name.len() == 0 || !valid_utf8(name) || names.contains(
                decode_utf8(name),
            )
            &&& slot == -1 ==> after == names
            &&& slot != -1 ==> slot == names.len() && after.len() == names.len() + 1 && after[slot]
                == decode_utf8(name) && after.take(slot) == names
        }),
{
    let after = names_after(names, name);
    if after.len() == names.len() + 1 {
        assert(after.take(names.len() as int) =~= names);
    } else {
        assert(after == names);
    }
}

} // verus!
