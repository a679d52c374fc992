//! The compiler driver: crawl the imports of a program, compile its modules in order, and link them.
//!
//! The phases themselves are guests. The driver says which one to run with which arguments, and is
//! told how it ended and what the shared file system holds.

use vstd::prelude::*;

use crate::card::{files_view, MemFile};
use crate::fmt::{dec_int, push_int};
use crate::imports::{parse_imports, spec_parse_imports};
use crate::modnames::{module_suffix, spec_module_suffix};
use crate::sorted::{law_put_changes_one_key, place, TextMap, TextMapView};
use crate::status::{STATUS_EXIT, STATUS_OK};
use crate::text::{
    chars_of, find_last, from_utf8_lossy, has_prefix, last_at, lemma_last_at, owned, same_text,
    starts_with, text_from, text_of, texts,
};
use crate::toposort::{
    all_deps, deps_of, law_dependencies_come_first, law_order_is_complete, names_of, no_circle,
    spec_toposort, toposort, Mod, ModView, Mods, Role,
};

verus! {

/// The guest that runs a phase.
#[derive(Clone, Copy, Debug, PartialEq, Eq, Structural)]
pub enum Guest {
    /// The parser, in the driver's own powerbox.
    Parser,
    /// The parser as a confined child.
    ParserChild,
    /// The semantic checker.
    Sem,
    /// The code generator.
    Hexer,
}

/// A compiled module.
#[derive(Debug)]
pub struct Unit {
    pub stem: String,
    pub src: String,
}

/// A source file that is still to be parsed.
#[derive(Debug)]
pub struct WorkItem {
    pub file: String,
    pub role: Role,
}

/// Where a build stands.
#[derive(Clone, Copy, Debug, PartialEq, Eq, Structural)]
pub enum Stage {
    /// Parsing modules and following their imports.
    Crawl,
    /// Checking the modules in order.
    Sem,
    /// Generating code for the modules in order.
    Hexer,
    /// The build is over.
    Over,
}

/// What the driver asks for next.
#[derive(Debug)]
pub enum NimStep {
    /// Nothing: go on.
    Again,
    /// Run a phase and report its status.
    Run { guest: Guest, argv: Vec<String> },
    /// Link these modules, in this order, and run the program.
    Link(Vec<Unit>),
    /// The build failed.
    Failed(String),
}

/// What a step says.
pub ghost enum StepView {
    Again,
    Run { guest: Guest, argv: Seq<Seq<char>> },
    Link(Seq<(Seq<char>, Seq<char>)>),
    Failed(Seq<char>),
}

/// The contents of compiled modules.
pub open spec fn units_view(units: Seq<Unit>) -> Seq<(Seq<char>, Seq<char>)> {
    units.map_values(|u: Unit| (u.stem@, u.src@))
}

/// The contents of the work list.
pub open spec fn work_view(work: Seq<WorkItem>) -> Seq<(Seq<char>, Role)> {
    work.map_values(|w: WorkItem| (w.file@, w.role))
}

impl View for NimStep {
    type V = StepView;

    open spec fn view(&self) -> StepView {
        match *self {
            NimStep::Again => StepView::Again,
            NimStep::Run { guest, argv } => StepView::Run { guest, argv: texts(argv@) },
            NimStep::Link(units) => StepView::Link(units_view(units@)),
            NimStep::Failed(e) => StepView::Failed(e@),
        }
    }
}

/// A build.
#[derive(Debug)]
pub struct NimBuild {
    /// Whether the parser runs as a confined child.
    pub child: bool,
    pub stage: Stage,
    /// Whether a phase was asked for whose status is still owed.
    pub waiting: bool,
    /// The files to parse; the last one is next.
    pub work: Vec<WorkItem>,
    /// The modules that were parsed, by their stems.
    pub mods: TextMap<Mod>,
    /// The order of compilation.
    pub order: Vec<String>,
    /// The stem of the program itself.
    pub main_stem: String,
    /// The module whose turn it is.
    pub at: usize,
    /// The modules that were compiled.
    pub units: Vec<Unit>,
}

/// The state of a build.
#[verifier::ext_equal]
pub ghost struct NimView {
    pub child: bool,
    pub stage: Stage,
    pub waiting: bool,
    pub work: Seq<(Seq<char>, Role)>,
    pub mods: Mods,
    pub order: Seq<Seq<char>>,
    pub main_stem: Seq<char>,
    pub at: nat,
    pub units: Seq<(Seq<char>, Seq<char>)>,
}

impl View for NimBuild {
    type V = NimView;

    open spec fn view(&self) -> NimView {
        NimView {
            child: self.child,
            stage: self.stage,
            waiting: self.waiting,
            work: work_view(self.work@),
            mods: self.mods@,
            order: texts(self.order@),
            main_stem: self.main_stem@,
            at: self.at as nat,
            units: units_view(self.units@),
        }
    }
}

/// The contents of the first file with the key `k`.
pub open spec fn file_at(files: Seq<(Seq<char>, Seq<u8>)>, k: Seq<char>) -> Option<Seq<u8>>
    decreases files.len(),
{
    if files.len() == 0 {
        None
    } else if files[0].0 == k {
        Some(files[0].1)
    } else {
        file_at(files.drop_first(), k)
    }
}

/// The place of the first file with the key `k`.
fn find_file(files: &[MemFile], k: &str) -> (r: Option<usize>)
    ensures
        r is Some <==> file_at(files_view(files@), k@) is Some,
        r matches Some(i) ==> i < files@.len() && file_at(files_view(files@), k@) == Some(
            files@[i as int].bytes@,
        ),
{
    let ghost all = files_view(files@);
    let mut i: usize = 0;
    assert(all.skip(0) =~= all);
    while i < files.len()
        invariant
            i <= files.len(),
            all == files_view(files@),
            file_at(all, k@) == file_at(all.skip(i as int), k@),
        decreases files.len() - i,
    {
        assert(all.skip(i as int)[0] == (files@[i as int].key@, files@[i as int].bytes@));
        if same_text(files[i].key.as_str(), k) {
            return Some(i);
        }
        assert(all.skip(i as int).drop_first() =~= all.skip(i as int + 1));
        i = i + 1;
    }
    None
}

/// The key of a cached form of a module.
pub open spec fn cached(stem: Seq<char>, ext: Seq<char>) -> Seq<char> {
    "nimcache/"@ + stem + ext
}

/// The key of a cached form of a module.
fn cached_key(stem: &str, ext: &str) -> (r: String)
    ensures
        r@ == cached(stem@, ext@),
{
    let mut s: String = "nimcache/".to_owned();
    s.append(stem);
    s.append(ext);
    s
}

/// The status is one that a phase leaves when all is well.
pub open spec fn fine_status(code: int) -> bool {
    code == 0 || code == 5
}

/// What is said of a phase that failed.
pub open spec fn failed_on(tool: Seq<char>, what: Seq<char>, code: int) -> Seq<char> {
    tool + " failed on "@ + what + " (code "@ + dec_int(code) + ")"@
}

/// What is said of a phase that failed.
fn failure(tool: &str, what: &str, code: i64) -> (r: String)
    ensures
        r@ == failed_on(tool@, what@, code as int),
{
    let mut s: String = tool.to_owned();
    s.append(" failed on ");
    s.append(what);
    s.append(" (code ");
    push_int(&mut s, code);
    s.append(")");
    s
}

/// What is said of a phase that left no output.
pub open spec fn nothing_from(tool: Seq<char>, what: Seq<char>) -> Seq<char> {
    tool + " produced no "@ + what
}

/// What is said of a phase that left no output.
fn no_output(tool: &str, what: &str) -> (r: String)
    ensures
        r@ == nothing_from(tool@, what@),
{
    let mut s: String = tool.to_owned();
    s.append(" produced no ");
    s.append(what);
    s
}

/// The directory of a file.
pub open spec fn dir_of(file: Seq<char>) -> Seq<char> {
    match last_at(file, '/') {
        None => Seq::empty(),
        Some(i) => file.take(i as int),
    }
}

/// The directory of a file.
fn dir_name(file: &str) -> (r: String)
    ensures
        r@ == dir_of(file@),
{
    let c: Vec<char> = chars_of(file);
    match find_last(c.as_slice(), '/') {
        None => {
            let s: String = String::new();
            assert(s@ =~= Seq::empty());
            s
        },
        Some(i) => {
            assert(c@.subrange(0, i as int) =~= c@.take(i as int));
            text_of(vstd::slice::slice_subrange(c.as_slice(), 0, i))
        },
    }
}

/// The files that a parsed module imports, by its dependency listing; none if it left no listing.
pub open spec fn imports_in(files: Seq<(Seq<char>, Seq<u8>)>, file: Seq<char>) -> Seq<Seq<char>> {
    let listing = (match file_at(files, cached(spec_module_suffix(file), ".p.deps.nif"@)) {
        Some(bytes) => text_from(bytes),
        None => Seq::empty(),
    });
    spec_parse_imports(listing, dir_of(file))
}

/// The stems of files.
pub open spec fn stems(files: Seq<Seq<char>>) -> Seq<Seq<char>> {
    files.map_values(|f: Seq<char>| spec_module_suffix(f))
}

/// Files as imports on the work list.
pub open spec fn as_work(files: Seq<Seq<char>>) -> Seq<(Seq<char>, Role)> {
    files.map_values(|f: Seq<char>| (f, Role::Import))
}

impl NimView {
    /// The build after the parsed file that was next: it is a module, and its imports are work.
    pub open spec fn absorbed(self, files: Seq<(Seq<char>, Seq<u8>)>) -> NimView {
        let (file, role) = self.work.last();
        let stem = spec_module_suffix(file);
        let found = imports_in(files, file);
        NimView {
            waiting: false,
            work: self.work.drop_last() + as_work(found),
            mods: self.mods.put(stem, ModView { stem, role, deps: stems(found) }),
            ..self
        }
    }

    /// The build that failed.
    pub open spec fn over(self) -> NimView {
        NimView { stage: Stage::Over, waiting: false, ..self }
    }
}

/// The arguments of the parser.
pub open spec fn parse_argv(file: Seq<char>, stem: Seq<char>) -> Seq<Seq<char>> {
    seq![
        "nifler"@,
        "--portablePaths"@,
        "--deps"@,
        "parse"@,
        file,
        "/nimcache/"@ + stem + ".p.nif"@,
    ]
}

/// The arguments of the semantic checker.
pub open spec fn sem_argv(stem: Seq<char>, role: Role) -> Seq<Seq<char>> {
    seq!["nimsem"@, "--define:nimNativeAlloc"@, "--define:nimNativeIo"@, "m"@] + (match role {
        Role::System => seq!["--isSystem"@],
        Role::Main => seq!["--isMain"@],
        Role::Import => Seq::empty(),
    }) + seq![cached(stem, ".p.nif"@)]
}

/// The arguments of the code generator; the program itself gets the entry of an application.
pub open spec fn hexer_argv(stem: Seq<char>, main: Seq<char>) -> Seq<Seq<char>> {
    if stem == main {
        seq![
            "hexer"@,
            "c"@,
            "--bits:64"@,
            "--cpu:le"@,
            "--flags:br"@,
            "--isMain"@,
            "--app:console"@,
            "--outdir:nimcache/"@ + main,
            cached(stem, ".s.nif"@),
        ]
    } else {
        seq!["hexer"@, "c"@, cached(stem, ".s.nif"@)]
    }
}

/// The key under which the code generator leaves a module; the program itself has a directory.
pub open spec fn hexer_key(stem: Seq<char>, main: Seq<char>) -> Seq<char> {
    if stem == main {
        "nimcache/"@ + main + "/"@ + stem + ".x.nif"@
    } else {
        cached(stem, ".x.nif"@)
    }
}

/// The stem of the first module that is the program itself.
pub open spec fn main_of(vals: Seq<ModView>) -> Option<Seq<char>>
    decreases vals.len(),
{
    if vals.len() == 0 {
        None
    } else if vals[0].role == Role::Main {
        Some(vals[0].stem)
    } else {
        main_of(vals.drop_first())
    }
}

/// The modules of one class: whether they are the program itself, and whether they are the system
/// module.
pub open spec fn class_of(
    units: Seq<(Seq<char>, Seq<char>)>,
    main: Seq<char>,
    is_main: bool,
    is_sys: bool,
) -> Seq<(Seq<char>, Seq<char>)>
    decreases units.len(),
{
    if units.len() == 0 {
        Seq::empty()
    } else {
        let less = class_of(units.drop_last(), main, is_main, is_sys);
        let stem = units.last().0;
        if (stem == main) == is_main && starts_with(stem, "sysv"@) == is_sys {
            less.push(units.last())
        } else {
            less
        }
    }
}

/// The order of linking: the program itself first, the system module last.
pub open spec fn spec_link_order(
    units: Seq<(Seq<char>, Seq<char>)>,
    main: Seq<char>,
) -> Seq<(Seq<char>, Seq<char>)> {
    class_of(units, main, true, false) + class_of(units, main, true, true) + class_of(
        units,
        main,
        false,
        false,
    ) + class_of(units, main, false, true)
}

/// One step of the crawl: the next file is skipped if its module is known, parsed unless it was
/// parsed before, and then its imports are followed.
pub open spec fn crawl_step(
    v: NimView,
    files: Seq<(Seq<char>, Seq<u8>)>,
    code: Option<i64>,
) -> (NimView, StepView) {
    if v.work.len() == 0 {
        match main_of(v.mods.vals) {
            None => (v.over(), StepView::Failed("no main module"@)),
            Some(main) => (
                NimView {
                    stage: Stage::Sem,
                    order: spec_toposort(v.mods),
                    main_stem: main,
                    at: 0,
                    ..v
                },
                StepView::Again,
            ),
        }
    } else {
        let (file, role) = v.work.last();
        let stem = spec_module_suffix(file);
        if v.waiting {
            let c = code->0 as int;
            if fine_status(c) {
                (v.absorbed(files), StepView::Again)
            } else {
                (v.over(), StepView::Failed(failed_on("nifler"@, file, c)))
            }
        } else if v.mods.has(stem) {
            (NimView { work: v.work.drop_last(), ..v }, StepView::Again)
        } else if file_at(files, cached(stem, ".p.nif"@)) is None {
            (
                NimView { waiting: true, ..v },
                StepView::Run {
                    guest: if v.child {
                        Guest::ParserChild
                    } else {
                        Guest::Parser
                    },
                    argv: parse_argv(file, stem),
                },
            )
        } else {
            (v.absorbed(files), StepView::Again)
        }
    }
}

/// One step of the semantic check: every module in order, each of which must leave its form.
pub open spec fn sem_step(
    v: NimView,
    files: Seq<(Seq<char>, Seq<u8>)>,
    code: Option<i64>,
) -> (NimView, StepView) {
    if v.at >= v.order.len() {
        (NimView { stage: Stage::Hexer, at: 0, ..v }, StepView::Again)
    } else {
        let stem = v.order[v.at as int];
        if !v.waiting {
            (
                NimView { waiting: true, ..v },
                StepView::Run { guest: Guest::Sem, argv: sem_argv(stem, v.mods.at(stem).role) },
            )
        } else {
            let c = code->0 as int;
            if !fine_status(c) {
                (v.over(), StepView::Failed(failed_on("nimsem"@, stem, c)))
            } else if file_at(files, cached(stem, ".s.nif"@)) is None {
                (v.over(), StepView::Failed(nothing_from("nimsem"@, stem + ".s.nif"@)))
            } else {
                (NimView { waiting: false, at: v.at + 1, ..v }, StepView::Again)
            }
        }
    }
}

/// One step of code generation: every module in order, each of which must leave its code.
pub open spec fn hexer_step(
    v: NimView,
    files: Seq<(Seq<char>, Seq<u8>)>,
    code: Option<i64>,
) -> (NimView, StepView) {
    if v.at >= v.order.len() {
        (v.over(), StepView::Link(spec_link_order(v.units, v.main_stem)))
    } else {
        let stem = v.order[v.at as int];
        if !v.waiting {
            (
                NimView { waiting: true, ..v },
                StepView::Run { guest: Guest::Hexer, argv: hexer_argv(stem, v.main_stem) },
            )
        } else {
            let c = code->0 as int;
            let key = hexer_key(stem, v.main_stem);
            if !fine_status(c) {
                (v.over(), StepView::Failed(failed_on("hexer"@, stem, c)))
            } else {
                match file_at(files, key) {
                    None => (v.over(), StepView::Failed(nothing_from("hexer"@, key))),
                    Some(bytes) => (
                        NimView {
                            waiting: false,
                            at: v.at + 1,
                            units: v.units.push((stem, text_from(bytes))),
                            ..v
                        },
                        StepView::Again,
                    ),
                }
            }
        }
    }
}

/// One step of a build.
pub open spec fn spec_step(
    v: NimView,
    files: Seq<(Seq<char>, Seq<u8>)>,
    code: Option<i64>,
) -> (NimView, StepView) {
    match v.stage {
        Stage::Crawl => crawl_step(v, files, code),
        Stage::Sem => sem_step(v, files, code),
        Stage::Hexer => hexer_step(v, files, code),
        Stage::Over => (v, StepView::Again),
    }
}

/// A file with the stem `stem` is still to be parsed.
pub open spec fn pending(work: Seq<(Seq<char>, Role)>, stem: Seq<char>) -> bool {
    exists|i: int| 0 <= i < work.len() && spec_module_suffix((#[trigger] work[i]).0) == stem
}

/// Some module is the program itself.
pub open spec fn has_main(vals: Seq<ModView>) -> bool {
    exists|k: int| 0 <= k < vals.len() && (#[trigger] vals[k]).role == Role::Main
}

impl NimView {
    /// Nothing is lost: whatever a module imports is a module or still to be parsed.
    pub open spec fn closed_under_imports(self) -> bool {
        forall|k: int, j: int|
            0 <= k < self.mods.vals.len() && 0 <= j < self.mods.vals[k].deps.len() ==> {
                let d = #[trigger] self.mods.vals[k].deps[j];
                self.mods.has(d) || pending(self.work, d)
            }
    }

    /// The build is sound.
    pub open spec fn wf(self) -> bool {
        &&& self.mods.wf()
        &&& forall|k: int|
            0 <= k < self.mods.keys.len() ==> (#[trigger] self.mods.vals[k]).stem
                == self.mods.keys[k]
        &&& self.closed_under_imports()
        &&& self.stage == Stage::Crawl ==> {
            &&& self.waiting ==> self.work.len() > 0 && !self.mods.has(
                spec_module_suffix(self.work.last().0),
            )
            &&& has_main(self.mods.vals) || (self.mods.keys.len() == 0 && self.work.len() > 0
                && self.work.last().1 == Role::Main)
        }
        &&& self.stage == Stage::Sem || self.stage == Stage::Hexer ==> {
            &&& self.work.len() == 0
            &&& self.order == spec_toposort(self.mods)
            &&& main_of(self.mods.vals) == Some(self.main_stem)
            &&& self.at <= self.order.len()
            &&& self.waiting ==> self.at < self.order.len()
        }
    }
}

/// Putting a module keeps every other one and adds nothing else.
proof fn lemma_put_vals(mods: Mods, stem: Seq<char>, m: ModView, k: int)
    requires
        mods.wf(),
        0 <= k < mods.put(stem, m).vals.len(),
    ensures
        ({
            let n = mods.put(stem, m);
            ||| n.vals[k] == m && n.keys[k] == stem
            ||| exists|i: int|
                0 <= i < mods.vals.len() && n.vals[k] == #[trigger] mods.vals[i] && n.keys[k]
                    == mods.keys[i]
        }),
{
    let n = mods.put(stem, m);
    let at = place(mods.keys, stem) as int;
    crate::sorted::lemma_place(mods.keys, stem);
    if at < mods.keys.len() && mods.keys[at] == stem {
        if k != at {
            assert(n.vals[k] == mods.vals[k] && n.keys[k] == mods.keys[k]);
        }
    } else if k < at {
        assert(n.vals[k] == mods.vals[k] && n.keys[k] == mods.keys[k]);
    } else if k > at {
        assert(n.vals[k] == mods.vals[k - 1] && n.keys[k] == mods.keys[k - 1]);
    }
}

/// What was a module stays one.
proof fn lemma_put_has(mods: Mods, stem: Seq<char>, m: ModView, x: Seq<char>)
    requires
        mods.wf(),
    ensures
        mods.put(stem, m).wf(),
        mods.put(stem, m).has(stem),
        mods.has(x) ==> mods.put(stem, m).has(x),
{
    assert((seq!['x'] + stem).len() != stem.len());
    law_put_changes_one_key(mods, stem, m, seq!['x'] + stem);
    if x != stem {
        law_put_changes_one_key(mods, stem, m, x);
    }
}

/// A parsed file leaves the build sound.
proof fn lemma_absorbed_wf(v: NimView, files: Seq<(Seq<char>, Seq<u8>)>)
    requires
        v.wf(),
        v.stage == Stage::Crawl,
        v.work.len() > 0,
        !v.mods.has(spec_module_suffix(v.work.last().0)),
    ensures
        v.absorbed(files).wf(),
{
    let n = v.absorbed(files);
    let (file, role) = v.work.last();
    let stem = spec_module_suffix(file);
    let found = imports_in(files, file);
    let m = ModView { stem, role, deps: stems(found) };
    lemma_put_has(v.mods, stem, m, stem);
    let at = place(v.mods.keys, stem) as int;
    crate::sorted::lemma_place(v.mods.keys, stem);
    assert(n.mods.vals == v.mods.vals.insert(at, m)) by {
        if at < v.mods.keys.len() && v.mods.keys[at] == stem {
            assert(v.mods.has(stem));
        }
    }
    if has_main(v.mods.vals) {
        let k = choose|k: int|
            0 <= k < v.mods.vals.len() && (#[trigger] v.mods.vals[k]).role == Role::Main;
        if k < at {
            assert(n.mods.vals[k] == v.mods.vals[k]);
        } else {
            assert(n.mods.vals[k + 1] == v.mods.vals[k]);
        }
    } else {
        assert(n.mods.vals[at] == m);
    }
    assert forall|k: int| 0 <= k < n.mods.keys.len() implies (#[trigger] n.mods.vals[k]).stem
        == n.mods.keys[k] by {
        lemma_put_vals(v.mods, stem, m, k);
    }
    assert forall|k: int, j: int|
        0 <= k < n.mods.vals.len() && 0 <= j < n.mods.vals[k].deps.len() implies {
        let d = #[trigger] n.mods.vals[k].deps[j];
        n.mods.has(d) || pending(n.work, d)
    } by {
        let d = n.mods.vals[k].deps[j];
        lemma_put_vals(v.mods, stem, m, k);
        lemma_put_has(v.mods, stem, m, d);
        if n.mods.vals[k] == m {
            let w = n.work[v.work.len() - 1 + j];
            assert(w == as_work(found)[j]);
            assert(spec_module_suffix(w.0) == d);
        } else {
            let i = choose|i: int|
                0 <= i < v.mods.vals.len() && n.mods.vals[k] == #[trigger] v.mods.vals[i]
                    && n.mods.keys[k] == v.mods.keys[i];
            assert(v.mods.has(v.mods.vals[i].deps[j]) || pending(v.work, v.mods.vals[i].deps[j]));
            if !v.mods.has(d) {
                let p = choose|p: int|
                    0 <= p < v.work.len() && spec_module_suffix((#[trigger] v.work[p]).0) == d;
                if p < v.work.len() - 1 {
                    assert(n.work[p] == v.work[p]);
                }
            }
        }
    }
}

/// A file whose module is known can be dropped.
proof fn lemma_skipped_wf(v: NimView)
    requires
        v.wf(),
        v.stage == Stage::Crawl,
        !v.waiting,
        v.work.len() > 0,
        v.mods.has(spec_module_suffix(v.work.last().0)),
    ensures
        (NimView { work: v.work.drop_last(), ..v }).wf(),
{
    let n = NimView { work: v.work.drop_last(), ..v };
    let i = choose|i: int|
        0 <= i < v.mods.keys.len() && v.mods.keys[i] == spec_module_suffix(v.work.last().0);
    assert(has_main(v.mods.vals));
    assert forall|k: int, j: int|
        0 <= k < n.mods.vals.len() && 0 <= j < n.mods.vals[k].deps.len() implies {
        let d = #[trigger] n.mods.vals[k].deps[j];
        n.mods.has(d) || pending(n.work, d)
    } by {
        let d = v.mods.vals[k].deps[j];
        assert(v.mods.has(d) || pending(v.work, d));
        if !v.mods.has(d) {
            let p = choose|p: int|
                0 <= p < v.work.len() && spec_module_suffix((#[trigger] v.work[p]).0) == d;
            assert(p < v.work.len() - 1);
            assert(n.work[p] == v.work[p]);
        }
    }
}

/// What stands among all imports is imported by some module.
proof fn lemma_all_deps_come_from(vals: Seq<ModView>, x: Seq<char>)
    requires
        all_deps(vals).contains(x),
    ensures
        exists|k: int, j: int|
            0 <= k < vals.len() && 0 <= j < vals[k].deps.len() && #[trigger] vals[k].deps[j] == x,
    decreases vals.len(),
{
    let less = all_deps(vals.drop_last());
    let last = vals.last().deps;
    let i = choose|i: int| 0 <= i < all_deps(vals).len() && all_deps(vals)[i] == x;
    if i < less.len() {
        assert(less[i] == x);
        lemma_all_deps_come_from(vals.drop_last(), x);
        let (k, j) = choose|k: int, j: int|
            0 <= k < vals.len() - 1 && 0 <= j < vals.drop_last()[k].deps.len()
                && #[trigger] vals.drop_last()[k].deps[j] == x;
        assert(vals[k].deps[j] == x);
    } else {
        assert(vals[vals.len() - 1].deps[i - less.len()] == x);
    }
}

/// When the crawl is done, the order of compilation holds modules only.
proof fn lemma_order_holds_modules(v: NimView, i: int)
    requires
        v.wf(),
        v.work.len() == 0,
        0 <= i < spec_toposort(v.mods).len(),
    ensures
        v.mods.has(spec_toposort(v.mods)[i]),
{
    let x = spec_toposort(v.mods)[i];
    law_order_is_complete(v.mods);
    assert(spec_toposort(v.mods).contains(x));
    let all = names_of(v.mods);
    let p = choose|p: int| 0 <= p < all.len() && all[p] == x;
    if p < v.mods.keys.len() {
        assert(v.mods.keys[p] == x);
    } else {
        assert(all_deps(v.mods.vals)[p - v.mods.keys.len()] == x);
        lemma_all_deps_come_from(v.mods.vals, x);
        let (k, j) = choose|k: int, j: int|
            0 <= k < v.mods.vals.len() && 0 <= j < v.mods.vals[k].deps.len()
                && #[trigger] v.mods.vals[k].deps[j] == x;
        let d = v.mods.vals[k].deps[j];
        assert(v.mods.has(d) || pending(v.work, d));
    }
}

/// The arguments of the parser.
fn parse_argv_of(file: &str, stem: &str) -> (r: Vec<String>)
    ensures
        texts(r@) == parse_argv(file@, stem@),
{
    let mut out: String = "/nimcache/".to_owned();
    out.append(stem);
    out.append(".p.nif");
    let items: [&str; 6] = ["nifler", "--portablePaths", "--deps", "parse", file, out.as_str()];
    let r: Vec<String> = owned(items.as_slice());
    assert(texts(r@) =~= parse_argv(file@, stem@));
    r
}

/// The arguments of the semantic checker.
fn sem_argv_of(stem: &str, role: Role) -> (r: Vec<String>)
    ensures
        texts(r@) == sem_argv(stem@, role),
{
    let items: [&str; 4] = ["nimsem", "--define:nimNativeAlloc", "--define:nimNativeIo", "m"];
    let mut r: Vec<String> = owned(items.as_slice());
    assert(texts(r@) =~= seq![
        "nimsem"@,
        "--define:nimNativeAlloc"@,
        "--define:nimNativeIo"@,
        "m"@,
    ]);
    let ghost head = r@;
    match role {
        Role::System => r.push("--isSystem".to_owned()),
        Role::Main => r.push("--isMain".to_owned()),
        Role::Import => {},
    }
    let ghost flagged = r@;
    r.push(cached_key(stem, ".p.nif"));
    assert(texts(flagged) =~= texts(head) + (match role {
        Role::System => seq!["--isSystem"@],
        Role::Main => seq!["--isMain"@],
        Role::Import => Seq::empty(),
    }));
    assert(texts(r@) =~= texts(flagged).push(cached(stem@, ".p.nif"@)));
    assert(texts(r@) =~= sem_argv(stem@, role));
    r
}

/// The arguments of the code generator.
fn hexer_argv_of(stem: &str, main: &str) -> (r: Vec<String>)
    ensures
        texts(r@) == hexer_argv(stem@, main@),
{
    let form: String = cached_key(stem, ".s.nif");
    if same_text(stem, main) {
        let mut dir: String = "--outdir:nimcache/".to_owned();
        dir.append(main);
        let items: [&str; 9] = [
            "hexer",
            "c",
            "--bits:64",
            "--cpu:le",
            "--flags:br",
            "--isMain",
            "--app:console",
            dir.as_str(),
            form.as_str(),
        ];
        let r: Vec<String> = owned(items.as_slice());
        assert(texts(r@) =~= hexer_argv(stem@, main@));
        r
    } else {
        let items: [&str; 3] = ["hexer", "c", form.as_str()];
        let r: Vec<String> = owned(items.as_slice());
        assert(texts(r@) =~= hexer_argv(stem@, main@));
        r
    }
}

/// The key under which the code generator leaves a module.
fn hexer_key_of(stem: &str, main: &str) -> (r: String)
    ensures
        r@ == hexer_key(stem@, main@),
{
    if same_text(stem, main) {
        let mut s: String = "nimcache/".to_owned();
        s.append(main);
        s.append("/");
        s.append(stem);
        s.append(".x.nif");
        s
    } else {
        cached_key(stem, ".x.nif")
    }
}

/// The stem of the first module that is the program itself.
fn find_main(mods: &TextMap<Mod>) -> (r: Option<String>)
    ensures
        r is Some <==> main_of(mods@.vals) is Some,
        r matches Some(s) ==> main_of(mods@.vals) == Some(s@),
{
    let ghost all = mods@.vals;
    let mut i: usize = 0;
    assert(all.skip(0) =~= all);
    while i < mods.vals.len()
        invariant
            i <= mods.vals.len(),
            all == mods@.vals,
            all.len() == mods.vals@.len(),
            main_of(all) == main_of(all.skip(i as int)),
        decreases mods.vals.len() - i,
    {
        assert(all.skip(i as int)[0] == mods.vals@[i as int].deep_view());
        if mods.vals[i].role == Role::Main {
            return Some(mods.vals[i].stem.clone());
        }
        assert(all.skip(i as int).drop_first() =~= all.skip(i as int + 1));
        i = i + 1;
    }
    None
}

/// Appends the modules of one class.
fn push_class(out: &mut Vec<Unit>, units: &[Unit], main: &str, is_main: bool, is_sys: bool)
    ensures
        units_view(final(out)@) == units_view(old(out)@) + class_of(
            units_view(units@),
            main@,
            is_main,
            is_sys,
        ),
{
    let ghost start = units_view(out@);
    let ghost all = units_view(units@);
    let mut i: usize = 0;
    assert(start + class_of(all.take(0), main@, is_main, is_sys) =~= start);
    while i < units.len()
        invariant
            i <= units.len(),
            all == units_view(units@),
            units_view(out@) == start + class_of(all.take(i as int), main@, is_main, is_sys),
        decreases units.len() - i,
    {
        let u: &Unit = &units[i];
        proof {
            let now = all.take(i as int + 1);
            assert(now.drop_last() =~= all.take(i as int));
            assert(now.last() == (u.stem@, u.src@));
        }
        if same_text(u.stem.as_str(), main) == is_main && has_prefix(u.stem.as_str(), "sysv")
            == is_sys {
            let ghost before = out@;
            out.push(Unit { stem: u.stem.clone(), src: u.src.clone() });
            assert(units_view(out@) =~= units_view(before).push((u.stem@, u.src@)));
            assert(units_view(out@) =~= start + class_of(
                all.take(i as int + 1),
                main@,
                is_main,
                is_sys,
            ));
        }
        i = i + 1;
    }
    assert(all.take(all.len() as int) =~= all);
}

/// The order of linking.
pub fn link_order(units: &[Unit], main: &str) -> (r: Vec<Unit>)
    ensures
        units_view(r@) == spec_link_order(units_view(units@), main@),
{
    let mut out: Vec<Unit> = Vec::new();
    assert(units_view(out@) =~= Seq::empty());
    push_class(&mut out, units, main, true, false);
    push_class(&mut out, units, main, true, true);
    push_class(&mut out, units, main, false, false);
    push_class(&mut out, units, main, false, true);
    assert(units_view(out@) =~= spec_link_order(units_view(units@), main@));
    out
}

impl NimBuild {
    /// Takes the parsed file that was next off the work list and follows its imports.
    fn absorb(&mut self, files: &[MemFile])
        requires
            old(self)@.wf(),
            old(self)@.stage == Stage::Crawl,
            old(self)@.work.len() > 0,
            !old(self)@.mods.has(spec_module_suffix(old(self)@.work.last().0)),
        ensures
            final(self)@ == old(self)@.absorbed(files_view(files@)),
            final(self)@.wf(),
    {
        let ghost v = self@;
        proof {
            lemma_absorbed_wf(v, files_view(files@));
        }
        let item: WorkItem = match self.work.pop() {
            Some(item) => item,
            None => {
                return;
            },
        };
        assert(v.work.last() == (item.file@, item.role));
        assert(work_view(self.work@) =~= v.work.drop_last());
        let stem: String = module_suffix(item.file.as_str());
        let key: String = cached_key(stem.as_str(), ".p.deps.nif");
        let listing: String = match find_file(files, key.as_str()) {
            Some(i) => from_utf8_lossy(files[i].bytes.as_slice()),
            None => {
                let s: String = String::new();
                assert(s@ =~= Seq::empty());
                s
            },
        };
        let dir: String = dir_name(item.file.as_str());
        let found: Vec<String> = parse_imports(listing.as_str(), dir.as_str());
        assert(texts(found@) == imports_in(files_view(files@), item.file@));
        let ghost work = self.work@;
        let mut deps: Vec<String> = Vec::new();
        let ghost all = texts(found@);
        let mut j: usize = 0;
        while j < found.len()
            invariant
                j <= found.len(),
                all == texts(found@),
                deps@.len() == j,
                self.work@.len() == work.len() + j,
                forall|k: int|
                    0 <= k < j ==> (#[trigger] deps@[k])@ == spec_module_suffix(found@[k]@),
                forall|k: int| 0 <= k < work.len() ==> #[trigger] self.work@[k] == work[k],
                forall|k: int|
                    work.len() <= k < self.work@.len() ==> (#[trigger] self.work@[k]).file@
                        == found@[k - work.len()]@ && self.work@[k].role == Role::Import,
                self.mods@ == v.mods,
                self.mods@.wf(),
                self.stage == v.stage,
                self.child == v.child,
                texts(self.order@) == v.order,
                self.main_stem@ == v.main_stem,
                self.at == v.at,
                units_view(self.units@) == v.units,
            decreases found.len() - j,
        {
            deps.push(module_suffix(found[j].as_str()));
            self.work.push(WorkItem { file: found[j].clone(), role: Role::Import });
            j = j + 1;
        }
        assert(texts(deps@) =~= stems(all));
        assert(work_view(self.work@) =~= v.work.drop_last() + as_work(all));
        let m: Mod = Mod { stem: stem.clone(), role: item.role, deps };
        self.mods.insert(stem, m);
        self.waiting = false;
        assert(self@ =~= v.absorbed(files_view(files@)));
    }

    /// One step of the crawl.
    fn crawl(&mut self, files: &[MemFile], code: Option<i64>) -> (r: NimStep)
        requires
            old(self)@.wf(),
            old(self)@.stage == Stage::Crawl,
            old(self)@.waiting ==> code is Some,
        ensures
            crawl_step(old(self)@, files_view(files@), code) == (final(self)@, r@),
            final(self)@.wf(),
    {
        let ghost v = self@;
        if self.work.len() == 0 {
            match find_main(&self.mods) {
                None => {
                    self.stage = Stage::Over;
                    self.waiting = false;
                    assert(self@ =~= v.over());
                    return NimStep::Failed("no main module".to_owned());
                },
                Some(main) => {
                    self.stage = Stage::Sem;
                    self.order = toposort(&self.mods);
                    self.main_stem = main;
                    self.at = 0;
                    assert(self@ =~= (NimView {
                        stage: Stage::Sem,
                        order: spec_toposort(v.mods),
                        main_stem: main@,
                        at: 0,
                        ..v
                    }));
                    return NimStep::Again;
                },
            }
        }
        let last: usize = self.work.len() - 1;
        assert(v.work.last() == (self.work@[last as int].file@, self.work@[last as int].role));
        if self.waiting {
            let c: i64 = match code {
                Some(c) => c,
                None => 0,
            };
            if c != 0 && c != 5 {
                let e: String = failure("nifler", self.work[last].file.as_str(), c);
                self.stage = Stage::Over;
                self.waiting = false;
                assert(self@ =~= v.over());
                return NimStep::Failed(e);
            }
            self.absorb(files);
            return NimStep::Again;
        }
        let stem: String = module_suffix(self.work[last].file.as_str());
        if self.mods.contains_key(stem.as_str()) {
            proof {
                lemma_skipped_wf(v);
            }
            let _ = self.work.pop();
            assert(work_view(self.work@) =~= v.work.drop_last());
            assert(self@ =~= (NimView { work: v.work.drop_last(), ..v }));
            return NimStep::Again;
        }
        let key: String = cached_key(stem.as_str(), ".p.nif");
        if find_file(files, key.as_str()).is_none() {
            let argv: Vec<String> = parse_argv_of(self.work[last].file.as_str(), stem.as_str());
            self.waiting = true;
            assert(self@ =~= (NimView { waiting: true, ..v }));
            let guest: Guest = if self.child {
                Guest::ParserChild
            } else {
                Guest::Parser
            };
            return NimStep::Run { guest, argv };
        }
        self.absorb(files);
        NimStep::Again
    }

    /// One step of the semantic check.
    fn check(&mut self, files: &[MemFile], code: Option<i64>) -> (r: NimStep)
        requires
            old(self)@.wf(),
            old(self)@.stage == Stage::Sem,
            old(self)@.waiting ==> code is Some,
        ensures
            sem_step(old(self)@, files_view(files@), code) == (final(self)@, r@),
            final(self)@.wf(),
    {
        let ghost v = self@;
        if self.at >= self.order.len() {
            self.stage = Stage::Hexer;
            self.at = 0;
            assert(self@ =~= (NimView { stage: Stage::Hexer, at: 0, ..v }));
            return NimStep::Again;
        }
        let at: usize = self.at;
        assert(v.order[at as int] == self.order@[at as int]@);
        if !self.waiting {
            proof {
                lemma_order_holds_modules(v, at as int);
            }
            let (i, _) = self.mods.find(self.order[at].as_str());
            assert(v.mods.vals[i as int] == self.mods.vals@[i as int].deep_view());
            let argv: Vec<String> = sem_argv_of(self.order[at].as_str(), self.mods.vals[i].role);
            self.waiting = true;
            assert(self@ =~= (NimView { waiting: true, ..v }));
            return NimStep::Run { guest: Guest::Sem, argv };
        }
        let c: i64 = match code {
            Some(c) => c,
            None => 0,
        };
        if c != 0 && c != 5 {
            let e: String = failure("nimsem", self.order[at].as_str(), c);
            self.stage = Stage::Over;
            self.waiting = false;
            assert(self@ =~= v.over());
            return NimStep::Failed(e);
        }
        let key: String = cached_key(self.order[at].as_str(), ".s.nif");
        if find_file(files, key.as_str()).is_none() {
            let mut what: String = self.order[at].clone();
            what.append(".s.nif");
            let e: String = no_output("nimsem", what.as_str());
            self.stage = Stage::Over;
            self.waiting = false;
            assert(self@ =~= v.over());
            return NimStep::Failed(e);
        }
        self.waiting = false;
        self.at = at + 1;
        assert(self@ =~= (NimView { waiting: false, at: v.at + 1, ..v }));
        NimStep::Again
    }

    /// One step of code generation.
    fn generate(&mut self, files: &[MemFile], code: Option<i64>) -> (r: NimStep)
        requires
            old(self)@.wf(),
            old(self)@.stage == Stage::Hexer,
            old(self)@.waiting ==> code is Some,
        ensures
            hexer_step(old(self)@, files_view(files@), code) == (final(self)@, r@),
            final(self)@.wf(),
    {
        let ghost v = self@;
        if self.at >= self.order.len() {
            let units: Vec<Unit> = link_order(self.units.as_slice(), self.main_stem.as_str());
            self.stage = Stage::Over;
            self.waiting = false;
            assert(self@ =~= v.over());
            return NimStep::Link(units);
        }
        let at: usize = self.at;
        assert(v.order[at as int] == self.order@[at as int]@);
        if !self.waiting {
            let argv: Vec<String> = hexer_argv_of(self.order[at].as_str(), self.main_stem.as_str());
            self.waiting = true;
            assert(self@ =~= (NimView { waiting: true, ..v }));
            return NimStep::Run { guest: Guest::Hexer, argv };
        }
        let c: i64 = match code {
            Some(c) => c,
            None => 0,
        };
        if c != 0 && c != 5 {
            let e: String = failure("hexer", self.order[at].as_str(), c);
            self.stage = Stage::Over;
            self.waiting = false;
            assert(self@ =~= v.over());
            return NimStep::Failed(e);
        }
        let key: String = hexer_key_of(self.order[at].as_str(), self.main_stem.as_str());
        match find_file(files, key.as_str()) {
            None => {
                let e: String = no_output("hexer", key.as_str());
                self.stage = Stage::Over;
                self.waiting = false;
                assert(self@ =~= v.over());
                NimStep::Failed(e)
            },
            Some(i) => {
                let src: String = from_utf8_lossy(files[i].bytes.as_slice());
                let stem: String = self.order[at].clone();
                let ghost unit = (stem@, src@);
                self.units.push(Unit { stem, src });
                self.waiting = false;
                self.at = at + 1;
                assert(units_view(self.units@) =~= v.units.push(unit));
                assert(self@ =~= (NimView {
                    waiting: false,
                    at: v.at + 1,
                    units: v.units.push(unit),
                    ..v
                }));
                NimStep::Again
            },
        }
    }

    /// Takes the build one step on: `files` is what the file system holds, `code` the status of the
    /// phase that was asked for, if one was.
    pub fn step(&mut self, files: &[MemFile], code: Option<i64>) -> (r: NimStep)
        requires
            old(self)@.wf(),
            old(self)@.waiting ==> code is Some,
        ensures
            spec_step(old(self)@, files_view(files@), code) == (final(self)@, r@),
            final(self)@.wf(),
    {
        match self.stage {
            Stage::Crawl => self.crawl(files, code),
            Stage::Sem => self.check(files, code),
            Stage::Hexer => self.generate(files, code),
            Stage::Over => NimStep::Again,
        }
    }
}

/// A build at its start: the system module and the program are to be parsed, the program first.
pub open spec fn build_start(child: bool, main_nim: Seq<char>) -> NimView {
    NimView {
        child,
        stage: Stage::Crawl,
        waiting: false,
        work: seq![("/lib/std/system.nim"@, Role::System), ("/"@ + main_nim, Role::Main)],
        mods: TextMapView::empty(),
        order: Seq::empty(),
        main_stem: Seq::empty(),
        at: 0,
        units: Seq::empty(),
    }
}

/// What is said of the first phase module that could not be read or verified.
pub open spec fn load_fault(
    nifler: bool,
    nifler_ce: Option<(bool, bool)>,
    nimsem: bool,
    hexer: bool,
) -> Option<Seq<char>> {
    if !nifler {
        Some("decode nifler"@)
    } else if nifler_ce is Some && !(nifler_ce->0).0 {
        Some("decode nifler_ce"@)
    } else if nifler_ce is Some && !(nifler_ce->0).1 {
        Some("verify nifler_ce"@)
    } else if !nimsem {
        Some("decode nimsem"@)
    } else if !hexer {
        Some("decode hexer"@)
    } else {
        None
    }
}

/// Starts a build of `main_nim` with a parser that may run as a confined child. Each phase module
/// says whether it could be read, the child's also whether it was verified; `Err` names the first
/// that could not.
pub fn compile_nim_ce(
    nifler: bool,
    nifler_ce: Option<(bool, bool)>,
    nimsem: bool,
    hexer: bool,
    main_nim: &str,
) -> (r: Result<NimBuild, String>)
    ensures
        match r {
            Ok(b) => load_fault(nifler, nifler_ce, nimsem, hexer) is None && b@ == build_start(
                nifler_ce is Some,
                main_nim@,
            ),
            Err(e) => load_fault(nifler, nifler_ce, nimsem, hexer) == Some(e@),
        },
        match r {
            Ok(b) => {
                &&& nifler && nimsem && hexer
                &&& nifler_ce matches Some((decoded, verified)) ==> decoded && verified
                &&& b@ == build_start(nifler_ce is Some, main_nim@)
                &&& b@.wf()
            },
            Err(e) => e@ == (if !nifler {
                "decode nifler"@
            } else if nifler_ce is Some && !(nifler_ce->0).0 {
                "decode nifler_ce"@
            } else if nifler_ce is Some && !(nifler_ce->0).1 {
                "verify nifler_ce"@
            } else if !nimsem {
                "decode nimsem"@
            } else {
                "decode hexer"@
            }),
        },
        r is Err <==> !nifler || !nimsem || !hexer || (nifler_ce is Some && !((nifler_ce->0).0
            && (nifler_ce->0).1)),
{
    if !nifler {
        return Err("decode nifler".to_owned());
    }
    if let Some((decoded, verified)) = nifler_ce {
        if !decoded {
            return Err("decode nifler_ce".to_owned());
        }
        if !verified {
            return Err("verify nifler_ce".to_owned());
        }
    }
    if !nimsem {
        return Err("decode nimsem".to_owned());
    }
    if !hexer {
        return Err("decode hexer".to_owned());
    }
    let mut main: String = "/".to_owned();
    main.append(main_nim);
    let ghost path = main@;
    let mut work: Vec<WorkItem> = Vec::new();
    work.push(WorkItem { file: "/lib/std/system.nim".to_owned(), role: Role::System });
    work.push(WorkItem { file: main, role: Role::Main });
    let b: NimBuild = NimBuild {
        child: nifler_ce.is_some(),
        stage: Stage::Crawl,
        waiting: false,
        work,
        mods: TextMap::new(),
        order: Vec::new(),
        main_stem: String::new(),
        at: 0,
        units: Vec::new(),
    };
    assert(b@ =~= build_start(nifler_ce is Some, main_nim@));
    Ok(b)
}

/// Starts a build of `main_nim` with a parser in the driver's own powerbox.
pub fn compile_nim(nifler: bool, nimsem: bool, hexer: bool, main_nim: &str) -> (r: Result<
    NimBuild,
    String,
>)
    ensures
        match r {
            Ok(b) => load_fault(nifler, None, nimsem, hexer) is None && b@ == build_start(
                false,
                main_nim@,
            ),
            Err(e) => load_fault(nifler, None, nimsem, hexer) == Some(e@),
        },
        match r {
            Ok(b) => nifler && nimsem && hexer && b@ == build_start(false, main_nim@) && b@.wf(),
            Err(e) => e@ == (if !nifler {
                "decode nifler"@
            } else if !nimsem {
                "decode nimsem"@
            } else {
                "decode hexer"@
            }),
        },
        r is Err <==> !nifler || !nimsem || !hexer,
{
    compile_nim_ce(nifler, None, nimsem, hexer, main_nim)
}

/// What a build says of a program that could not be linked.
pub open spec fn spec_link_refused(reason: Seq<char>) -> Seq<char> {
    "nim→powerbox link: "@ + reason
}

/// What a build says of a program that was not verified.
pub open spec fn spec_verify_refused(reason: Seq<char>) -> Seq<char> {
    "verify: "@ + reason
}

/// What a build says of a program that could not be linked.
pub fn link_refused(reason: &str) -> (r: String)
    ensures
        r@ == spec_link_refused(reason@),
        r@ == "nim→powerbox link: "@ + reason@,
{
    let mut s: String = "nim→powerbox link: ".to_owned();
    s.append(reason);
    s
}

/// What a build says of a program that was not verified.
pub fn verify_refused(reason: &str) -> (r: String)
    ensures
        r@ == spec_verify_refused(reason@),
        r@ == "verify: "@ + reason@,
{
    let mut s: String = "verify: ".to_owned();
    s.append(reason);
    s
}

/// `r` is what a build returns for a run that ended with `status`.
pub open spec fn judged(status: i32, stdout: Seq<u8>, r: Result<String, String>) -> bool {
    match r {
        Ok(text) => (status == STATUS_OK || status == STATUS_EXIT) && text@ == text_from(stdout),
        Err(e) => status != STATUS_OK && status != STATUS_EXIT && e@ == "run failed (status "@
            + dec_int(status as int) + ")"@,
    }
}

/// What a build returns for the run of its program: its output if it returned or exited.
pub fn nim_verdict(status: i32, stdout: &[u8]) -> (r: Result<String, String>)
    ensures
        judged(status, stdout@, r),
        match r {
            Ok(text) => (status == STATUS_OK || status == STATUS_EXIT) && text@ == text_from(
                stdout@,
            ),
            Err(e) => status != STATUS_OK && status != STATUS_EXIT && e@ == "run failed (status "@
                + dec_int(status as int) + ")"@,
        },
{
    if status != STATUS_OK && status != STATUS_EXIT {
        let mut e: String = "run failed (status ".to_owned();
        push_int(&mut e, status as i64);
        e.append(")");
        return Err(e);
    }
    Ok(from_utf8_lossy(stdout))
}

/// A main module is found exactly where there is one.
proof fn lemma_main_of(vals: Seq<ModView>)
    ensures
        main_of(vals) is Some <==> has_main(vals),
    decreases vals.len(),
{
    if vals.len() > 0 {
        let rest = vals.drop_first();
        lemma_main_of(rest);
        if vals[0].role != Role::Main {
            if has_main(vals) {
                let k = choose|k: int| 0 <= k < vals.len() && (#[trigger] vals[k]).role == Role::Main;
                assert(rest[k - 1] == vals[k]);
            }
            if has_main(rest) {
                let k = choose|k: int| 0 <= k < rest.len() && (#[trigger] rest[k]).role == Role::Main;
                assert(vals[k + 1] == rest[k]);
            }
        }
    }
}

/// A crawl that has nothing left to parse has the program among its modules.
pub proof fn law_crawl_finds_the_program(v: NimView, files: Seq<(Seq<char>, Seq<u8>)>, code: Option<
    i64,
>)
    requires
        v.wf(),
        v.stage == Stage::Crawl,
        v.work.len() == 0,
    ensures
        main_of(v.mods.vals) is Some,
        spec_step(v, files, code).1 == StepView::Again,
{
    lemma_main_of(v.mods.vals);
}

/// A build that goes on to compile has lost nothing: everything that a module imports is a module.
pub proof fn law_modules_are_closed_under_imports(v: NimView, k: int, j: int)
    requires
        v.wf(),
        v.stage == Stage::Sem || v.stage == Stage::Hexer,
        0 <= k < v.mods.vals.len(),
        0 <= j < v.mods.vals[k].deps.len(),
    ensures
        v.mods.has(v.mods.vals[k].deps[j]),
{
    let d = v.mods.vals[k].deps[j];
    assert(v.mods.has(d) || pending(v.work, d));
}

/// A module is parsed at most once: a step asks for the parser only where the module is not known
/// and was not parsed before.
pub proof fn law_known_module_is_not_parsed(
    v: NimView,
    files: Seq<(Seq<char>, Seq<u8>)>,
    code: Option<i64>,
)
    requires
        v.wf(),
        v.stage == Stage::Crawl,
        spec_step(v, files, code).1 is Run,
    ensures
        ({
            let file = v.work.last().0;
            let stem = spec_module_suffix(file);
            &&& !v.mods.has(stem)
            &&& file_at(files, cached(stem, ".p.nif"@)) is None
            &&& spec_step(v, files, code).1->argv == parse_argv(file, stem)
        }),
{
}

/// Where the parser runs makes no difference but where it runs: the build goes on in the same way
/// and asks for the same arguments.
pub proof fn law_parser_routes_agree(
    v: NimView,
    files: Seq<(Seq<char>, Seq<u8>)>,
    code: Option<i64>,
)
    ensures
        ({
            let (a, x) = spec_step(NimView { child: false, ..v }, files, code);
            let (b, y) = spec_step(NimView { child: true, ..v }, files, code);
            &&& a == NimView { child: false, ..b }
            &&& match (x, y) {
                (
                    StepView::Run { guest, argv },
                    StepView::Run { guest: other, argv: same },
                ) => argv == same && (guest == other || (guest == Guest::Parser && other
                    == Guest::ParserChild)),
                _ => x == y,
            }
        }),
{
}

/// What running a phase leaves: the files and its status.
pub ghost struct Ran {
    pub files: Seq<(Seq<char>, Seq<u8>)>,
    pub code: i64,
}

/// How a build ends within `fuel` steps, and the files that it leaves; `None` if it has not ended by
/// then. `phase` says what running a guest does.
pub open spec fn build_end(
    v: NimView,
    files: Seq<(Seq<char>, Seq<u8>)>,
    code: Option<i64>,
    phase: spec_fn(Guest, Seq<Seq<char>>, Seq<(Seq<char>, Seq<u8>)>) -> Ran,
    fuel: nat,
) -> Option<(StepView, Seq<(Seq<char>, Seq<u8>)>)>
    decreases fuel,
{
    if fuel == 0 {
        None
    } else {
        let (w, step) = spec_step(v, files, code);
        match step {
            StepView::Again => build_end(w, files, None, phase, (fuel - 1) as nat),
            StepView::Run { guest, argv } => {
                let ran = phase(guest, argv, files);
                build_end(w, ran.files, Some(ran.code), phase, (fuel - 1) as nat)
            },
            StepView::Link(units) => Some((step, files)),
            StepView::Failed(e) => Some((step, files)),
        }
    }
}

/// As [`law_child_parser_builds_the_same`], from any state of the build.
proof fn lemma_routes_end_alike(
    v: NimView,
    files: Seq<(Seq<char>, Seq<u8>)>,
    code: Option<i64>,
    phase: spec_fn(Guest, Seq<Seq<char>>, Seq<(Seq<char>, Seq<u8>)>) -> Ran,
    fuel: nat,
)
    requires
        forall|argv: Seq<Seq<char>>, fs: Seq<(Seq<char>, Seq<u8>)>| #[trigger]
            phase(Guest::ParserChild, argv, fs) == phase(Guest::Parser, argv, fs),
    ensures
        build_end(NimView { child: true, ..v }, files, code, phase, fuel) == build_end(
            NimView { child: false, ..v },
            files,
            code,
            phase,
            fuel,
        ),
    decreases fuel,
{
    if fuel > 0 {
        law_parser_routes_agree(v, files, code);
        let (a, x) = spec_step(NimView { child: false, ..v }, files, code);
        let (b, y) = spec_step(NimView { child: true, ..v }, files, code);
        assert(b == NimView { child: true, ..b });
        match y {
            StepView::Again => {
                lemma_routes_end_alike(b, files, None, phase, (fuel - 1) as nat);
            },
            StepView::Run { guest, argv } => {
                let ran = phase(guest, argv, files);
                lemma_routes_end_alike(b, ran.files, Some(ran.code), phase, (fuel - 1) as nat);
            },
            _ => {},
        }
    }
}

/// A build with a confined parser ends as one with the parser in the driver's own powerbox: where
/// the parser does the same in both places, the same modules are linked in the same order, or the
/// same failure is told, over the same files.
pub proof fn law_child_parser_builds_the_same(
    main_nim: Seq<char>,
    files: Seq<(Seq<char>, Seq<u8>)>,
    phase: spec_fn(Guest, Seq<Seq<char>>, Seq<(Seq<char>, Seq<u8>)>) -> Ran,
    fuel: nat,
)
    requires
        forall|argv: Seq<Seq<char>>, fs: Seq<(Seq<char>, Seq<u8>)>| #[trigger]
            phase(Guest::ParserChild, argv, fs) == phase(Guest::Parser, argv, fs),
    ensures
        build_end(build_start(true, main_nim), files, None, phase, fuel) == build_end(
            build_start(false, main_nim),
            files,
            None,
            phase,
            fuel,
        ),
{
    lemma_routes_end_alike(build_start(true, main_nim), files, None, phase, fuel);
}

/// The system module is compiled before every other one.
pub proof fn law_system_is_compiled_first(mods: Mods, i: int)
    requires
        mods.wf(),
        0 <= i < mods.keys.len(),
        mods.at(mods.keys[i]).role == Role::System,
    ensures
        spec_toposort(mods).len() > 0,
        crate::toposort::is_system(mods, spec_toposort(mods)[0]),
{
    crate::toposort::lemma_system_first(mods, i);
}

/// A class holds only its own, and a module of the class is in it.
proof fn lemma_class_of(
    units: Seq<(Seq<char>, Seq<char>)>,
    main: Seq<char>,
    is_main: bool,
    is_sys: bool,
)
    ensures
        forall|k: int|
            0 <= k < class_of(units, main, is_main, is_sys).len() ==> {
                let stem = (#[trigger] class_of(units, main, is_main, is_sys)[k]).0;
                (stem == main) == is_main && starts_with(stem, "sysv"@) == is_sys
            },
        forall|i: int|
            0 <= i < units.len() && ((#[trigger] units[i]).0 == main) == is_main && starts_with(
                units[i].0,
                "sysv"@,
            ) == is_sys ==> class_of(units, main, is_main, is_sys).len() > 0,
    decreases units.len(),
{
    if units.len() > 0 {
        let less = units.drop_last();
        lemma_class_of(less, main, is_main, is_sys);
        let p = class_of(less, main, is_main, is_sys);
        let r = class_of(units, main, is_main, is_sys);
        assert forall|k: int| 0 <= k < r.len() implies {
            let stem = (#[trigger] r[k]).0;
            (stem == main) == is_main && starts_with(stem, "sysv"@) == is_sys
        } by {
            if k < p.len() {
                assert(r[k] == p[k]);
            }
        }
        assert forall|i: int|
            0 <= i < units.len() && ((#[trigger] units[i]).0 == main) == is_main && starts_with(
                units[i].0,
                "sysv"@,
            ) == is_sys implies class_of(units, main, is_main, is_sys).len() > 0 by {
            if i < less.len() {
                assert(less[i] == units[i]);
            }
        }
    }
}

/// The program itself is linked first.
pub proof fn law_program_is_linked_first(
    units: Seq<(Seq<char>, Seq<char>)>,
    main: Seq<char>,
    i: int,
)
    requires
        0 <= i < units.len(),
        units[i].0 == main,
    ensures
        spec_link_order(units, main).len() > 0,
        spec_link_order(units, main)[0].0 == main,
{
    lemma_class_of(units, main, true, false);
    lemma_class_of(units, main, true, true);
    let a = class_of(units, main, true, false);
    let b = class_of(units, main, true, true);
    let all = spec_link_order(units, main);
    if a.len() > 0 {
        assert(all[0] == a[0]);
    } else {
        assert(b.len() > 0);
        assert(all[0] == b[0]);
    }
}

/// The system module is linked last: behind a system module other than the program stand only
/// system modules.
pub proof fn law_system_is_linked_last(
    units: Seq<(Seq<char>, Seq<char>)>,
    main: Seq<char>,
    i: int,
    j: int,
)
    requires
        0 <= i < j < spec_link_order(units, main).len(),
        starts_with(spec_link_order(units, main)[i].0, "sysv"@),
        spec_link_order(units, main)[i].0 != main,
    ensures
        starts_with(spec_link_order(units, main)[j].0, "sysv"@),
{
    lemma_class_of(units, main, true, false);
    lemma_class_of(units, main, true, true);
    lemma_class_of(units, main, false, false);
    lemma_class_of(units, main, false, true);
    let a = class_of(units, main, true, false);
    let b = class_of(units, main, true, true);
    let c = class_of(units, main, false, false);
    let d = class_of(units, main, false, true);
    let all = spec_link_order(units, main);
    let n = (a.len() + b.len() + c.len()) as int;
    if i < a.len() {
        assert(all[i] == a[i]);
    } else if i < a.len() + b.len() {
        assert(all[i] == b[i - a.len()]);
    } else if i < n {
        assert(all[i] == c[i - a.len() - b.len()]);
    }
    assert(i >= n);
    assert(all[j] == d[j - n]);
}

/// Linking keeps every module, once: it only changes their order.
pub proof fn law_linking_keeps_every_module(units: Seq<(Seq<char>, Seq<char>)>, main: Seq<char>)
    ensures
        spec_link_order(units, main).to_multiset() == units.to_multiset(),
    decreases units.len(),
{
    broadcast use vstd::seq_lib::group_to_multiset_ensures;

    let a = class_of(units, main, true, false);
    let b = class_of(units, main, true, true);
    let c = class_of(units, main, false, false);
    let d = class_of(units, main, false, true);
    vstd::seq_lib::lemma_multiset_commutative(a, b);
    vstd::seq_lib::lemma_multiset_commutative(a + b, c);
    vstd::seq_lib::lemma_multiset_commutative(a + b + c, d);
    if units.len() == 0 {
        assert(spec_link_order(units, main) =~= units);
    } else {
        let less = units.drop_last();
        law_linking_keeps_every_module(less, main);
        let a0 = class_of(less, main, true, false);
        let b0 = class_of(less, main, true, true);
        let c0 = class_of(less, main, false, false);
        let d0 = class_of(less, main, false, true);
        vstd::seq_lib::lemma_multiset_commutative(a0, b0);
        vstd::seq_lib::lemma_multiset_commutative(a0 + b0, c0);
        vstd::seq_lib::lemma_multiset_commutative(a0 + b0 + c0, d0);
        assert(units =~= less.push(units.last()));
        let x = units.last();
        assert(spec_link_order(units, main).to_multiset() =~= spec_link_order(
            less,
            main,
        ).to_multiset().insert(x));
    }
}

/// A file is found by its key, and the first of several counts.
pub proof fn law_first_file_of_a_key_counts(
    files: Seq<(Seq<char>, Seq<u8>)>,
    k: Seq<char>,
    i: int,
)
    ensures
        0 <= i < files.len() && files[i].0 == k && (forall|j: int|
            0 <= j < i ==> (#[trigger] files[j]).0 != k) ==> file_at(files, k) == Some(files[i].1),
        (forall|j: int| 0 <= j < files.len() ==> (#[trigger] files[j]).0 != k) ==> file_at(files, k)
            is None,
    decreases files.len(),
{
    if files.len() > 0 {
        let rest = files.drop_first();
        law_first_file_of_a_key_counts(rest, k, i - 1);
        assert(forall|j: int| 0 <= j < rest.len() ==> #[trigger] rest[j] == files[j + 1]);
        if forall|j: int| 0 <= j < files.len() ==> (#[trigger] files[j]).0 != k {
            assert(files[0].0 != k);
            assert forall|j: int| 0 <= j < rest.len() implies (#[trigger] rest[j]).0 != k by {
                assert(files[j + 1].0 != k);
            }
        }
        if 0 < i < files.len() && (forall|j: int| 0 <= j < i ==> (#[trigger] files[j]).0 != k) {
            assert(files[0].0 != k);
            assert forall|j: int| 0 <= j < i - 1 implies (#[trigger] rest[j]).0 != k by {
                assert(files[j + 1].0 != k);
            }
        }
    }
}

/// The directory of a path is what stands before its last slash.
pub proof fn law_directory_is_what_precedes_the_name(dir: Seq<char>, name: Seq<char>)
    requires
        forall|i: int| 0 <= i < name.len() ==> #[trigger] name[i] != '/',
    ensures
        dir_of(dir + seq!['/'] + name) == dir,
        dir_of(name) == Seq::<char>::empty(),
{
    let p = dir + seq!['/'] + name;
    lemma_last_at(p, '/');
    lemma_last_at(name, '/');
    match last_at(p, '/') {
        None => {
            assert(p[dir.len() as int] == '/');
        },
        Some(i) => {
            assert(p[dir.len() as int] == '/');
            if i > dir.len() {
                assert(p[i as int] == name[i - dir.len() - 1]);
            }
            assert(i == dir.len());
            assert(p.take(i as int) =~= dir);
        },
    }
}

/// The build reads the next file's module: it is new, and the parser left its form or was run well.
pub open spec fn reads_module(
    v: NimView,
    files: Seq<(Seq<char>, Seq<u8>)>,
    code: Option<i64>,
) -> bool {
    &&& v.stage == Stage::Crawl
    &&& v.work.len() > 0
    &&& !v.mods.has(spec_module_suffix(v.work.last().0))
    &&& if v.waiting {
        code == Some(0i64) || code == Some(5i64)
    } else {
        file_at(
            files,
            "nimcache/"@ + spec_module_suffix(v.work.last().0) + ".p.nif"@,
        ) is Some
    }
}

/// A module that is read is recorded under its stem with its role and with every file that its
/// listing imports: their stems, all of them and in order, are what it depends on. Each of these
/// files is to be parsed in turn, nothing that was to be parsed is lost, and no other module
/// changes.
pub proof fn law_module_depends_on_every_import(
    v: NimView,
    files: Seq<(Seq<char>, Seq<u8>)>,
    code: Option<i64>,
    listing: Seq<u8>,
    other: Seq<char>,
)
    requires
        v.wf(),
        reads_module(v, files, code),
        file_at(
            files,
            "nimcache/"@ + spec_module_suffix(v.work.last().0) + ".p.deps.nif"@,
        ) == Some(listing),
        other != spec_module_suffix(v.work.last().0),
    ensures
        ({
            let (file, role) = v.work.last();
            let stem = spec_module_suffix(file);
            let imports = spec_parse_imports(text_from(listing), dir_of(file));
            let (w, step) = spec_step(v, files, code);
            let m = w.mods.at(stem);
            let n = v.work.len() - 1;
            &&& step == StepView::Again
            &&& w.stage == Stage::Crawl
            &&& !w.waiting
            &&& w.mods.has(stem)
            &&& m.stem == stem
            &&& m.role == role
            &&& m.deps.len() == imports.len()
            &&& forall|i: int|
                0 <= i < imports.len() ==> #[trigger] m.deps[i] == spec_module_suffix(imports[i])
            &&& w.work.len() == n + imports.len()
            &&& forall|i: int| 0 <= i < n ==> #[trigger] w.work[i] == v.work[i]
            &&& forall|i: int|
                0 <= i < imports.len() ==> w.work[n + i] == (#[trigger] imports[i], Role::Import)
            &&& w.mods.has(other) == v.mods.has(other)
            &&& v.mods.has(other) ==> w.mods.at(other) == v.mods.at(other)
        }),
{
    let (file, role) = v.work.last();
    let stem = spec_module_suffix(file);
    let found = imports_in(files, file);
    law_put_changes_one_key(v.mods, stem, ModView { stem, role, deps: stems(found) }, other);
}

/// A module without a listing imports nothing.
pub proof fn law_module_without_listing_imports_nothing(
    v: NimView,
    files: Seq<(Seq<char>, Seq<u8>)>,
    code: Option<i64>,
)
    requires
        v.wf(),
        reads_module(v, files, code),
        file_at(
            files,
            "nimcache/"@ + spec_module_suffix(v.work.last().0) + ".p.deps.nif"@,
        ) is None,
    ensures
        ({
            let (file, role) = v.work.last();
            let w = spec_step(v, files, code).0;
            let m = w.mods.at(spec_module_suffix(file));
            let imports = spec_parse_imports(Seq::empty(), dir_of(file));
            &&& m.role == role
            &&& m.deps == imports.map_values(|f: Seq<char>| spec_module_suffix(f))
            &&& w.work.len() == v.work.len() - 1 + imports.len()
        }),
{
    let (file, role) = v.work.last();
    let stem = spec_module_suffix(file);
    let found = imports_in(files, file);
    assert((seq!['x'] + stem).len() != stem.len());
    law_put_changes_one_key(
        v.mods,
        stem,
        ModView { stem, role, deps: stems(found) },
        seq!['x'] + stem,
    );
}

/// A step keeps the build sound.
proof fn lemma_step_wf(v: NimView, files: Seq<(Seq<char>, Seq<u8>)>, code: Option<i64>)
    requires
        v.wf(),
        v.waiting ==> code is Some,
    ensures
        spec_step(v, files, code).0.wf(),
{
    if v.stage == Stage::Crawl {
        if v.work.len() == 0 {
            lemma_main_of(v.mods.vals);
        } else {
            let stem = spec_module_suffix(v.work.last().0);
            if !v.mods.has(stem) {
                lemma_absorbed_wf(v, files);
            } else if !v.waiting {
                lemma_skipped_wf(v);
            }
        }
    }
}

/// What is recorded of a module stays: no step forgets or changes it.
pub proof fn law_recorded_module_is_kept(
    v: NimView,
    files: Seq<(Seq<char>, Seq<u8>)>,
    code: Option<i64>,
    stem: Seq<char>,
)
    requires
        v.wf(),
        v.waiting ==> code is Some,
        v.mods.has(stem),
    ensures
        spec_step(v, files, code).0.mods.has(stem),
        spec_step(v, files, code).0.mods.at(stem) == v.mods.at(stem),
{
    if v.stage == Stage::Crawl && v.work.len() > 0 {
        let (file, role) = v.work.last();
        let new = spec_module_suffix(file);
        let found = imports_in(files, file);
        if new != stem {
            law_put_changes_one_key(
                v.mods,
                new,
                ModView { stem: new, role, deps: stems(found) },
                stem,
            );
        }
    }
}

/// The build after `n` steps over the files and statuses of `inputs`.
pub open spec fn build_at(
    v: NimView,
    inputs: Seq<(Seq<(Seq<char>, Seq<u8>)>, Option<i64>)>,
    n: nat,
) -> NimView
    decreases n,
{
    if n == 0 {
        v
    } else {
        spec_step(build_at(v, inputs, (n - 1) as nat), inputs[n - 1].0, inputs[n - 1].1).0
    }
}

/// Whenever a status is owed, it is given.
pub open spec fn answered(
    v: NimView,
    inputs: Seq<(Seq<(Seq<char>, Seq<u8>)>, Option<i64>)>,
    n: nat,
) -> bool {
    forall|k: nat| k < n ==> (#[trigger] build_at(v, inputs, k)).waiting ==> inputs[k as int].1 is Some
}

/// A module that is known after `m` steps is known, and the same, after `n`.
proof fn lemma_kept_over_steps(
    v: NimView,
    inputs: Seq<(Seq<(Seq<char>, Seq<u8>)>, Option<i64>)>,
    m: nat,
    n: nat,
    stem: Seq<char>,
)
    requires
        v.wf(),
        answered(v, inputs, n),
        m <= n,
        build_at(v, inputs, m).mods.has(stem),
    ensures
        build_at(v, inputs, n).wf(),
        build_at(v, inputs, n).mods.has(stem),
        build_at(v, inputs, n).mods.at(stem) == build_at(v, inputs, m).mods.at(stem),
    decreases n,
{
    if n > 0 {
        let k = (n - 1) as nat;
        assert(answered(v, inputs, k));
        let before = build_at(v, inputs, k);
        lemma_built_wf(v, inputs, k);
        assert(before.waiting ==> inputs[k as int].1 is Some);
        lemma_step_wf(before, inputs[k as int].0, inputs[k as int].1);
        if m < n {
            lemma_kept_over_steps(v, inputs, m, k, stem);
            law_recorded_module_is_kept(before, inputs[k as int].0, inputs[k as int].1, stem);
        }
    }
}

/// A build stays sound over any number of steps.
proof fn lemma_built_wf(
    v: NimView,
    inputs: Seq<(Seq<(Seq<char>, Seq<u8>)>, Option<i64>)>,
    n: nat,
)
    requires
        v.wf(),
        answered(v, inputs, n),
    ensures
        build_at(v, inputs, n).wf(),
    decreases n,
{
    if n > 0 {
        let k = (n - 1) as nat;
        assert(answered(v, inputs, k));
        lemma_built_wf(v, inputs, k);
        assert(build_at(v, inputs, k).waiting ==> inputs[k as int].1 is Some);
        lemma_step_wf(build_at(v, inputs, k), inputs[k as int].0, inputs[k as int].1);
    }
}

/// Every import is compiled before the module that imports it, whatever happens between reading the
/// module and compiling: once a module's listing was read, the module of each file that the listing
/// imports stands before it in the order of compilation, provided the imports have no circle. The
/// system module alone comes first whatever it imports.
pub proof fn law_imports_are_compiled_before_their_importer(
    v: NimView,
    inputs: Seq<(Seq<(Seq<char>, Seq<u8>)>, Option<i64>)>,
    n: nat,
    listing: Seq<u8>,
    rank: spec_fn(Seq<char>) -> nat,
    i: int,
)
    requires
        v.wf(),
        n > 0,
        answered(v, inputs, n),
        reads_module(v, inputs[0].0, inputs[0].1),
        file_at(
            inputs[0].0,
            "nimcache/"@ + spec_module_suffix(v.work.last().0) + ".p.deps.nif"@,
        ) == Some(listing),
        v.work.last().1 != Role::System,
        build_at(v, inputs, n).stage == Stage::Sem || build_at(v, inputs, n).stage == Stage::Hexer,
        no_circle(build_at(v, inputs, n).mods, rank),
        0 <= i < spec_parse_imports(text_from(listing), dir_of(v.work.last().0)).len(),
    ensures
        ({
            let file = v.work.last().0;
            let imported = spec_parse_imports(text_from(listing), dir_of(file))[i];
            let order = build_at(v, inputs, n).order;
            exists|a: int, b: int|
                0 <= a < b < order.len() && #[trigger] order[a] == spec_module_suffix(imported)
                    && #[trigger] order[b] == spec_module_suffix(file)
        }),
{
    let file = v.work.last().0;
    let stem = spec_module_suffix(file);
    let imported = spec_parse_imports(text_from(listing), dir_of(file))[i];
    assert((seq!['x'] + stem).len() != stem.len());
    law_module_depends_on_every_import(v, inputs[0].0, inputs[0].1, listing, seq!['x'] + stem);
    assert(build_at(v, inputs, 0) == v);
    assert(build_at(v, inputs, 1) == spec_step(v, inputs[0].0, inputs[0].1).0);
    lemma_kept_over_steps(v, inputs, 1, n, stem);
    let w = build_at(v, inputs, n);
    let order = w.order;
    assert(order == spec_toposort(w.mods));
    law_order_is_complete(w.mods);
    let k = choose|k: int| 0 <= k < w.mods.keys.len() && w.mods.keys[k] == stem;
    assert(order.contains(w.mods.keys[k]));
    let b = choose|b: int| 0 <= b < order.len() && order[b] == stem;
    law_dependencies_come_first(w.mods, rank, b, i);
    let d = deps_of(w.mods, order[b])[i];
    assert(d == spec_module_suffix(imported));
    let a = choose|a: int| 0 <= a < b && order.take(b)[a] == d;
    assert(order[a] == d);
}

/// The semantic check goes through the order, one module at a time: it asks for the parsed form of
/// the next module, says what the module is to its program, and moves on once the checked form is
/// there. Only after the last module does code generation start.
pub proof fn law_checker_goes_through_the_order(
    v: NimView,
    files: Seq<(Seq<char>, Seq<u8>)>,
    code: Option<i64>,
)
    requires
        v.wf(),
        v.stage == Stage::Sem,
        v.waiting ==> code is Some,
    ensures
        ({
            let (w, step) = spec_step(v, files, code);
            &&& w.stage == Stage::Hexer <==> v.at == v.order.len()
            &&& w.stage == Stage::Hexer ==> w.at == 0 && w.units == v.units
            &&& v.at < v.order.len() && !v.waiting ==> {
                let stem = v.order[v.at as int];
                let role = v.mods.at(stem).role;
                &&& w == (NimView { waiting: true, ..v })
                &&& step matches StepView::Run { guest, argv } && guest == Guest::Sem && argv[0]
                    == "nimsem"@ && argv.last() == "nimcache/"@ + stem + ".p.nif"@ && (argv.len()
                    == 5 <==> role == Role::Import) && (role == Role::Main ==> argv[4]
                    == "--isMain"@) && (role == Role::System ==> argv[4] == "--isSystem"@)
            }
            &&& v.at < v.order.len() && v.waiting && w.stage == Stage::Sem ==> {
                &&& code == Some(0i64) || code == Some(5i64)
                &&& file_at(files, "nimcache/"@ + v.order[v.at as int] + ".s.nif"@) is Some
                &&& w == (NimView { waiting: false, at: v.at + 1, ..v })
            }
            &&& v.at < v.order.len() && v.waiting && w.stage != Stage::Sem ==> step is Failed
                && w.stage == Stage::Over
        }),
{
    if v.at < v.order.len() {
        let stem = v.order[v.at as int];
        let argv = sem_argv(stem, v.mods.at(stem).role);
        assert(argv[0] == "nimsem"@);
    }
}

/// The modules that were generated are the first ones of the order, each once.
pub open spec fn units_follow_order(v: NimView) -> bool {
    &&& v.stage == Stage::Crawl || v.stage == Stage::Sem ==> v.units.len() == 0
    &&& v.stage == Stage::Hexer ==> v.units.len() == v.at && forall|i: int|
        0 <= i < v.units.len() ==> (#[trigger] v.units[i]).0 == v.order[i]
}

/// Code is generated for every module of the order, once and in order, and kept as the text that the
/// generator left: this holds from the start of a build on, and what is linked is all of them.
pub proof fn law_every_module_is_generated_once(
    v: NimView,
    files: Seq<(Seq<char>, Seq<u8>)>,
    code: Option<i64>,
    child: bool,
    main_nim: Seq<char>,
)
    requires
        v.wf(),
        units_follow_order(v),
        v.waiting ==> code is Some,
    ensures
        units_follow_order(build_start(child, main_nim)),
        units_follow_order(spec_step(v, files, code).0),
        spec_step(v, files, code).1 matches StepView::Link(linked) ==> {
            &&& v.stage == Stage::Hexer
            &&& linked.to_multiset() == v.units.to_multiset()
            &&& v.units.len() == v.order.len()
            &&& forall|i: int| 0 <= i < v.units.len() ==> (#[trigger] v.units[i]).0 == v.order[i]
        },
        v.stage == Stage::Hexer && spec_step(v, files, code).0.units.len() > v.units.len() ==> {
            let stem = v.order[v.at as int];
            let key = if stem == v.main_stem {
                "nimcache/"@ + stem + "/"@ + stem + ".x.nif"@
            } else {
                "nimcache/"@ + stem + ".x.nif"@
            };
            let w = spec_step(v, files, code).0;
            &&& code == Some(0i64) || code == Some(5i64)
            &&& file_at(files, key) matches Some(bytes) && w.units == v.units.push(
                (stem, text_from(bytes)),
            )
        },
{
    law_linking_keeps_every_module(v.units, v.main_stem);
}

/// Each phase reads what the one before it wrote: the parser writes where the checker reads, the
/// checker's form is what the generator is given, and the generator writes the program's code where
/// it is looked for.
pub proof fn law_phases_hand_their_forms_on(
    file: Seq<char>,
    stem: Seq<char>,
    main: Seq<char>,
    role: Role,
)
    ensures
        parse_argv(file, stem).len() == 6,
        parse_argv(file, stem)[4] == file,
        parse_argv(file, stem)[5] == seq!['/'] + sem_argv(stem, role).last(),
        sem_argv(stem, role).last() == "nimcache/"@ + stem + ".p.nif"@,
        hexer_argv(stem, main).last() == "nimcache/"@ + stem + ".s.nif"@,
        stem == main ==> hexer_argv(stem, main).contains("--isMain"@) && hexer_argv(
            stem,
            main,
        ).contains("--outdir:nimcache/"@ + stem),
        stem != main ==> hexer_argv(stem, main).len() == 3,
{
    reveal_strlit("/nimcache/");
    reveal_strlit("nimcache/");
    assert("/nimcache/"@ =~= seq!['/'] + "nimcache/"@);
    assert(parse_argv(file, stem)[5] =~= seq!['/'] + sem_argv(stem, role).last());
    if stem == main {
        assert(hexer_argv(stem, main)[5] == "--isMain"@);
        assert(hexer_argv(stem, main)[7] == "--outdir:nimcache/"@ + stem);
    }
}

/// A build starts with the program itself and the system module, and nothing else: it parses the
/// program first.
pub proof fn law_build_starts_at_the_program(child: bool, main_nim: Seq<char>)
    ensures
        ({
            let v = build_start(child, main_nim);
            &&& v.wf()
            &&& v.work.len() == 2
            &&& v.work.last() == ("/"@ + main_nim, Role::Main)
            &&& v.work[0] == ("/lib/std/system.nim"@, Role::System)
            &&& v.mods.keys.len() == 0
            &&& v.child == child
        }),
{
}

/// The program of a build is the module that was read as the program.
pub proof fn law_main_is_the_program(v: NimView)
    requires
        v.wf(),
        v.stage == Stage::Sem || v.stage == Stage::Hexer,
    ensures
        exists|k: int|
            0 <= k < v.mods.vals.len() && (#[trigger] v.mods.vals[k]).role == Role::Main
                && v.mods.keys[k] == v.main_stem,
{
    lemma_main_found(v.mods.vals);
    let k = choose|k: int|
        0 <= k < v.mods.vals.len() && (#[trigger] v.mods.vals[k]).role == Role::Main
            && v.mods.vals[k].stem == v.main_stem;
    assert(v.mods.vals[k].stem == v.mods.keys[k]);
}

/// The module that is taken for the program is one.
proof fn lemma_main_found(vals: Seq<ModView>)
    ensures
        main_of(vals) matches Some(stem) ==> exists|k: int|
            0 <= k < vals.len() && (#[trigger] vals[k]).role == Role::Main && vals[k].stem == stem,
    decreases vals.len(),
{
    if vals.len() > 0 {
        let rest = vals.drop_first();
        lemma_main_found(rest);
        if vals[0].role != Role::Main && main_of(rest) is Some {
            let k = choose|k: int|
                0 <= k < rest.len() && (#[trigger] rest[k]).role == Role::Main && rest[k].stem
                    == main_of(rest)->0;
            assert(vals[k + 1] == rest[k]);
        }
    }
}

/// A phase that fails ends the build, and says which tool failed on what.
pub proof fn law_failed_phase_ends_the_build(
    v: NimView,
    files: Seq<(Seq<char>, Seq<u8>)>,
    code: i64,
)
    requires
        v.wf(),
        v.waiting,
        code != 0,
        code != 5,
    ensures
        ({
            let (w, step) = spec_step(v, files, Some(code));
            let tail = " (code "@ + dec_int(code as int) + ")"@;
            &&& v.stage != Stage::Over ==> w.stage == Stage::Over
            &&& v.stage == Stage::Crawl ==> step == StepView::Failed(
                "nifler failed on "@ + v.work.last().0 + tail,
            )
            &&& v.stage == Stage::Sem ==> step == StepView::Failed(
                "nimsem failed on "@ + v.order[v.at as int] + tail,
            )
            &&& v.stage == Stage::Hexer ==> step == StepView::Failed(
                "hexer failed on "@ + v.order[v.at as int] + tail,
            )
        }),
{
    reveal_strlit("nifler");
    reveal_strlit("nimsem");
    reveal_strlit("hexer");
    reveal_strlit(" failed on ");
    reveal_strlit("nifler failed on ");
    reveal_strlit("nimsem failed on ");
    reveal_strlit("hexer failed on ");
    assert("nifler"@ + " failed on "@ =~= "nifler failed on "@);
    assert("nimsem"@ + " failed on "@ =~= "nimsem failed on "@);
    assert("hexer"@ + " failed on "@ =~= "hexer failed on "@);
    let tail = " (code "@ + dec_int(code as int) + ")"@;
    if v.stage == Stage::Crawl {
        assert(failed_on("nifler"@, v.work.last().0, code as int) =~= "nifler failed on "@
            + v.work.last().0 + tail);
    } else if v.stage == Stage::Sem || v.stage == Stage::Hexer {
        let stem = v.order[v.at as int];
        assert(failed_on("nimsem"@, stem, code as int) =~= "nimsem failed on "@ + stem + tail);
        assert(failed_on("hexer"@, stem, code as int) =~= "hexer failed on "@ + stem + tail);
    }
}

/// A program that returned or exited gives its output, and any other the status of its failure.
pub proof fn law_program_gives_its_output(status: i32, stdout: Seq<u8>, r: Result<String, String>)
    requires
        judged(status, stdout, r),
    ensures
        r is Ok <==> status == 0 || status == 5,
        r matches Ok(text) ==> text@ == text_from(stdout),
        r matches Err(e) ==> e@.subrange(19, 19int + dec_int(status as int).len()) == dec_int(
            status as int,
        ),
{
    reveal_strlit("run failed (status ");
    reveal_strlit(")");
    if let Err(e) = r {
        assert(e@.subrange(19, 19int + dec_int(status as int).len()) =~= dec_int(status as int));
    }
}

/// A refusal keeps its reason, and the two kinds of refusal are told apart by how they start.
pub proof fn law_refusal_keeps_its_reason(reason: Seq<char>, other: Seq<char>)
    ensures
        spec_link_refused(reason).skip(19) == reason,
        spec_verify_refused(reason).skip(8) == reason,
        spec_link_refused(reason) != spec_verify_refused(other),
{
    reveal_strlit("nim→powerbox link: ");
    reveal_strlit("verify: ");
    assert(spec_link_refused(reason).skip(19) =~= reason);
    assert(spec_verify_refused(reason).skip(8) =~= reason);
    assert(spec_link_refused(reason)[0] == 'n');
    assert(spec_verify_refused(other)[0] == 'v');
}

/// A build starts exactly if every phase module could be read, and the child's parser also verified;
/// it is refused for the first that could not.
pub proof fn law_build_starts_if_every_phase_loads(
    nifler: bool,
    child: Option<(bool, bool)>,
    nimsem: bool,
    hexer: bool,
)
    ensures
        load_fault(nifler, child, nimsem, hexer) is None <==> nifler && nimsem && hexer && (
        child matches Some((decoded, verified)) ==> decoded && verified),
        !nifler ==> load_fault(nifler, child, nimsem, hexer) == Some("decode nifler"@),
        load_fault(true, None, false, hexer) == Some("decode nimsem"@),
        load_fault(true, None, true, false) == Some("decode hexer"@),
        load_fault(true, Some((false, true)), nimsem, hexer) == Some("decode nifler_ce"@),
        load_fault(true, Some((true, false)), nimsem, hexer) == Some("verify nifler_ce"@),
{
}

} // verus!
