//! The front end of live editing: parse a source text, link a program against a library, and report
//! each failure.

use vstd::prelude::*;
use vstd::utf8::{decode_utf8, encode_utf8, valid_utf8};

use crate::caps::ExportEntry;
use crate::capture::Capture;
use crate::entries::run_settled;
use crate::status::{PbOutcome, STATUS_DECODE_ERR, STATUS_UNSUPPORTED};
use crate::text::{from_utf8, starts_with};

verus! {

/// How a unit is written.
#[derive(Debug)]
pub enum UnitForm {
    /// A binary object.
    Object,
    /// Program text.
    Text(String),
    /// Neither: not an object and no text.
    Neither,
}

/// The bytes that a binary object opens with.
pub open spec fn object_magic() -> Seq<u8> {
    seq![0x53u8, 0x56u8, 0x4du8, 0u8]
}

/// Tells a binary object from program text: text cannot hold the object's opening.
pub fn unit_form(bytes: &[u8]) -> (r: UnitForm)
    ensures
        written_as(bytes@, r),
        r is Object <==> starts_with(bytes@, object_magic()),
        r is Text <==> !starts_with(bytes@, object_magic()) && valid_utf8(bytes@),
        r matches UnitForm::Text(t) ==> t@ == decode_utf8(bytes@),
{
    if bytes.len() >= 4 && bytes[0] == 0x53 && bytes[1] == 0x56 && bytes[2] == 0x4d && bytes[3]
        == 0 {
        assert(bytes@.subrange(0, 4) =~= object_magic());
        return UnitForm::Object;
    }
    proof {
        if starts_with(bytes@, object_magic()) {
            let head = bytes@.subrange(0, 4);
            assert(head[0] == bytes@[0] && head[1] == bytes@[1] && head[2] == bytes@[2] && head[3]
                == bytes@[3]);
        }
    }
    match from_utf8(bytes) {
        Some(t) => UnitForm::Text(t),
        None => UnitForm::Neither,
    }
}

/// `exports` has the first function under the name `entry`, and nothing else.
pub open spec fn exports_entry(exports: Seq<ExportEntry>, entry: Seq<char>) -> bool {
    &&& exports.len() == 1
    &&& exports[0].name@ == entry
    &&& exports[0].func == 0
}

/// `form` is how the unit `bytes` is written.
pub open spec fn written_as(bytes: Seq<u8>, form: UnitForm) -> bool {
    match form {
        UnitForm::Object => starts_with(bytes, object_magic()),
        UnitForm::Text(t) => !starts_with(bytes, object_magic()) && valid_utf8(bytes) && t@
            == decode_utf8(bytes),
        UnitForm::Neither => !starts_with(bytes, object_magic()) && !valid_utf8(bytes),
    }
}

/// The exports that a program unit is linked with: its function 0 under the entry name.
pub fn program_exports(entry: String) -> (r: Vec<ExportEntry>)
    ensures
        exports_entry(r@, entry@),
        r@.len() == 1,
        r@[0].name == entry,
        r@[0].func == 0,
{
    let mut out: Vec<ExportEntry> = Vec::new();
    out.push(ExportEntry { name: entry, func: 0 });
    out
}

/// The name of the entry to run, if it is text.
pub fn entry_name(bytes: &[u8]) -> (r: Option<String>)
    ensures
        r is Some <==> valid_utf8(bytes@),
        r matches Some(t) ==> t@ == decode_utf8(bytes@),
{
    from_utf8(bytes)
}

/// Which steps of a link succeeded; what lies behind the first that did not is not looked at.
#[derive(Clone, Copy, Debug, PartialEq, Eq, Structural)]
pub struct LinkSteps {
    /// The program loads.
    pub program: bool,
    /// The library loads.
    pub library: bool,
    /// The two link.
    pub linked: bool,
    /// The linked program exports the entry.
    pub entry: bool,
    /// A start function can be made for it.
    pub start: bool,
    /// The result verifies.
    pub verified: bool,
}

/// The status of a program that did not come to run: an entry name that is no text, a program or a
/// library that does not load are undecodable, and every later refusal is unsupported.
pub open spec fn link_refusal(entry: Seq<u8>, steps: LinkSteps) -> Option<i32> {
    if !valid_utf8(entry) || !steps.program || !steps.library {
        Some(STATUS_DECODE_ERR)
    } else if !steps.linked || !steps.entry || !steps.start || !steps.verified {
        Some(STATUS_UNSUPPORTED)
    } else {
        None
    }
}

/// Ends a link-and-run: records the status and, of a program that ran, its streams and exit code;
/// returns its value, zero if it did not run. `ran` is the outcome of a program that was not
/// refused.
pub fn svm_link_run(cap: &mut Capture, entry: &[u8], steps: LinkSteps, ran: PbOutcome) -> (r: i64)
    ensures
        run_settled(
            *old(cap),
            *final(cap),
            match link_refusal(entry@, steps) {
                Some(status) => Err(status),
                None => Ok(ran),
            },
            r,
        ),
        link_refusal(entry@, steps) matches Some(status) ==> r == 0 && *final(cap) == (Capture {
            last_status: status,
            ..*old(cap)
        }),
        link_refusal(entry@, steps) is None ==> r == ran.value && *final(cap) == (Capture {
            last_status: ran.status,
            out: ran.stdout,
            err: ran.stderr,
            exit_code: ran.exit_code,
            ..*old(cap)
        }),
{
    if entry_name(entry).is_none() || !steps.program || !steps.library {
        cap.last_status = STATUS_DECODE_ERR;
        return 0;
    }
    if !steps.linked || !steps.entry || !steps.start || !steps.verified {
        cap.last_status = STATUS_UNSUPPORTED;
        return 0;
    }
    cap.last_status = ran.status;
    cap.out = ran.stdout;
    cap.err = ran.stderr;
    cap.exit_code = ran.exit_code;
    ran.value
}

/// How far a source text got.
#[derive(Debug)]
pub enum ParseEnd {
    /// It is no text, for this reason.
    NotText(String),
    /// It does not parse; this says why in full.
    Unparsed(String),
    /// It does not verify, for this reason.
    Unverified(String),
    /// It is this module.
    Encoded(Vec<u8>),
}

/// The message of a source text that was refused.
pub open spec fn parse_message(end: ParseEnd) -> Seq<char> {
    match end {
        ParseEnd::NotText(why) => "source is not UTF-8: "@ + why@,
        ParseEnd::Unparsed(why) => why@,
        ParseEnd::Unverified(why) => "verify error: "@ + why@,
        ParseEnd::Encoded(_) => Seq::empty(),
    }
}

/// What is reported of a source text that got so far.
pub open spec fn parsed(end: ParseEnd, code: i32, bytes: Seq<u8>) -> bool {
    match end {
        ParseEnd::Encoded(module) => code == 1 && bytes == module@,
        _ => code == 0 && bytes == encode_utf8(parse_message(end)),
    }
}

/// Reports a source text: `1` with the module, or `0` with a message that says what failed.
pub fn svm_parse(end: ParseEnd) -> (r: (i32, Vec<u8>))
    ensures
        parsed(end, r.0, r.1@),
        r.0 == (if end is Encoded { 1i32 } else { 0i32 }),
        end matches ParseEnd::Encoded(module) ==> r.1 == module,
        !(end is Encoded) ==> r.1@ == encode_utf8(parse_message(end)),
{
    let mut msg: String = String::new();
    match end {
        ParseEnd::NotText(why) => {
            msg.append("source is not UTF-8: ");
            msg.append(why.as_str());
            assert(msg@ =~= "source is not UTF-8: "@ + why@);
        },
        ParseEnd::Unparsed(why) => {
            msg.append(why.as_str());
            assert(msg@ =~= why@);
        },
        ParseEnd::Unverified(why) => {
            msg.append("verify error: ");
            msg.append(why.as_str());
            assert(msg@ =~= "verify error: "@ + why@);
        },
        ParseEnd::Encoded(module) => {
            return (1, module);
        },
    }
    (0, msg.as_str().as_bytes_vec())
}

/// A source text is reported with its module, or with a text that ends with the reason.
pub proof fn law_parse_reports_module_or_reason(
    end: ParseEnd,
    code: i32,
    bytes: Seq<u8>,
)
    requires
        parsed(end, code, bytes),
    ensures
        code == 1 <==> end is Encoded,
        code == 0 <==> !(end is Encoded),
        end matches ParseEnd::Encoded(module) ==> bytes == module@,
        end matches ParseEnd::Unparsed(why) ==> bytes == encode_utf8(why@),
        end matches ParseEnd::NotText(why) ==> parse_message(end).skip(21) == why@,
        end matches ParseEnd::Unverified(why) ==> parse_message(end).skip(14) == why@,
{
    reveal_strlit("source is not UTF-8: ");
    reveal_strlit("verify error: ");
    match end {
        ParseEnd::NotText(why) => {
            assert(parse_message(end).skip(21) =~= why@);
        },
        ParseEnd::Unverified(why) => {
            assert(parse_message(end).skip(14) =~= why@);
        },
        _ => {},
    }
}

/// A linked program runs exactly if every step succeeded; what does not load is undecodable, what
/// does not fit together unsupported.
pub proof fn law_link_runs_if_every_step_did(entry: Seq<u8>, steps: LinkSteps)
    ensures
        link_refusal(entry, steps) is None <==> valid_utf8(entry) && steps.program && steps.library
            && steps.linked && steps.entry && steps.start && steps.verified,
        link_refusal(entry, steps) == Some(1i32) <==> !valid_utf8(entry) || !steps.program
            || !steps.library,
        link_refusal(entry, steps) is None || link_refusal(entry, steps) == Some(1i32)
            || link_refusal(entry, steps) == Some(2i32),
{
}

/// No program text is taken for an object.
pub proof fn law_object_opens_with_its_mark(bytes: Seq<u8>)
    ensures
        starts_with(bytes, object_magic()) <==> bytes.len() >= 4 && bytes[0] == 0x53 && bytes[1]
            == 0x56 && bytes[2] == 0x4d && bytes[3] == 0,
{
    if bytes.len() >= 4 {
        let head = bytes.subrange(0, 4);
        if bytes[0] == 0x53 && bytes[1] == 0x56 && bytes[2] == 0x4d && bytes[3] == 0 {
            assert(head =~= object_magic());
        }
        if starts_with(bytes, object_magic()) {
            assert(head[0] == bytes[0] && head[1] == bytes[1] && head[2] == bytes[2] && head[3]
                == bytes[3]);
        }
    }
}

/// Every unit has exactly one form: an object by its mark, else the text that it is, else none.
pub proof fn law_unit_has_one_form(bytes: Seq<u8>, form: UnitForm)
    requires
        written_as(bytes, form),
    ensures
        form is Object <==> bytes.len() >= 4 && bytes[0] == 0x53 && bytes[1] == 0x56 && bytes[2]
            == 0x4d && bytes[3] == 0,
        form matches UnitForm::Text(t) ==> encode_utf8(t@) == bytes,
        !(form is Object) && valid_utf8(bytes) ==> form is Text,
        !(form is Object) && !valid_utf8(bytes) ==> form is Neither,
{
    law_object_opens_with_its_mark(bytes);
    if valid_utf8(bytes) {
        vstd::utf8::decode_utf8_encode_utf8(bytes);
    }
}

/// A program unit is linked with its first function as the entry: that is what the entry's name
/// resolves to.
pub proof fn law_entry_is_the_first_function(
    m: crate::caps::OnrampModule,
    entry: Seq<char>,
    r: Option<u32>,
)
    requires
        exports_entry(m.exports@, entry),
        m.resolves(entry, r),
    ensures
        r == Some(0u32),
{
    crate::caps::law_export_resolves_to_its_first(m, entry, r, 0);
}

} // verus!
