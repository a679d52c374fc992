//! What a page hands over: compiler cards, database sessions, its own capabilities, and its scripts.

use temen_browser::capture::Capture;
use temen_browser::caps::{Binding, ExportEntry, OnrampModule};
use temen_browser::card::{
    check_libc_unit, chibicc_card_argv, chibicc_card_image, chibicc_selfhost_argv, header_keys,
    libc_unit_argv, nifler_card_argv, playground_include_files, read_back, split_multifile_source,
    split_multifile_text, CardImage, MemFile, UnitFault,
};
use temen_browser::exports_abi::{
    family, fn_name, is_script, is_source, js_references, render_markdown, rust_exports,
    strip_comments, Export,
};
use temen_browser::guests::{
    breakpoint_request, codegen_service_src, grow_past_window, guest, guest_mem, launch_request,
    launch_succeeded, session_ended,
};
use temen_browser::jspb::{call_reply, start_func, JsPowerbox, JsRunEnd, Loaded};
use temen_browser::link::{
    entry_name, program_exports, svm_link_run, svm_parse, unit_form, LinkSteps, ParseEnd, UnitForm,
};
use temen_browser::pg::{
    pg_setup, pg_single_argv, svm_pg_open, svm_pg_query, svm_pg_snapshot, HeadlessHandles, PgSession, PgStart,
};
use temen_browser::profile::{
    cache_cfg, decode_mem_event, mem_model_cfg, svm_mem_profile, CacheAsk, CacheCfg, MemEvent,
    MemHookOp, MemModelCfg,
};
use temen_browser::slots::Value;
use temen_browser::sorted::TextMap;
use temen_browser::status::{
    PbOutcome, STATUS_DECODE_ERR, STATUS_EXIT, STATUS_OK, STATUS_TRAP, STATUS_UNSUPPORTED,
    STATUS_VERIFY_ERR,
};
use temen_browser::traps::{Trap, VcpuEvent};

fn mem(key: &str, text: &str) -> MemFile {
    MemFile { key: key.to_string(), bytes: text.as_bytes().to_vec() }
}

fn rows(v: &[Vec<u8>]) -> Vec<String> {
    v.iter().map(|r| String::from_utf8(r.clone()).unwrap()).collect()
}

#[test]
fn an_editor_buffer_becomes_files() {
    let f = split_multifile_text("int main;\n//// file: util.c\nint u;\n  ////FILE: /lib/x.h \n\nz");
    let got: Vec<(&str, &str)> =
        f.iter().map(|f| (f.key.as_str(), std::str::from_utf8(&f.bytes).unwrap())).collect();
    assert_eq!(
        got,
        vec![("in.c", "int main;\n"), ("util.c", "int u;\n"), ("lib/x.h", "\nz")]
    );
    let f = split_multifile_source(b"plain\xff");
    assert_eq!((f.len(), f[0].key.as_str(), f[0].bytes.as_slice()), (1, "in.c", "plain\u{fffd}".as_bytes()));
    assert_eq!(split_multifile_text("//// file:\n//// notes\n").len(), 1);
}

#[test]
fn a_card_layers_its_files() {
    let image = CardImage {
        files: vec![mem("include/stdio.h", "mine"), mem("in.c", "old")],
        dirs: vec!["include".to_string()],
    };
    let headers = vec![mem("include/stdio.h", "built in"), mem("include/ctype.h", "c")];
    let sources = vec![mem("in.c", "new"), mem("src/deep/a.c", "a")];
    let r = chibicc_card_image(image, headers, sources);
    assert_eq!(read_back(&r.files, "include/stdio.h"), b"mine");
    assert_eq!(read_back(&r.files, "include/ctype.h"), b"c");
    assert_eq!(read_back(&r.files, "in.c"), b"new");
    assert_eq!(read_back(&r.files, "gone"), b"");
    assert_eq!(r.files.len(), 4);
    assert_eq!(r.dirs, vec!["include", "include/sys", "src", "src/deep"]);
}

#[test]
fn cards_have_their_arguments() {
    assert_eq!(header_keys().len(), 25);
    let bodies: Vec<Vec<u8>> = (0..25u8).map(|i| vec![i]).collect();
    let files = playground_include_files(&bodies);
    assert_eq!(files[24].key, "include/sys/wait.h");
    assert_eq!(files[24].bytes, vec![24]);
    assert_eq!(rows(&nifler_card_argv()), vec!["nifler", "p", "/in.nim", "/out.p.nif"]);
    let plain = rows(&chibicc_card_argv(false));
    let debug = rows(&chibicc_card_argv(true));
    assert_eq!(debug.len(), plain.len() + 1);
    assert!(debug.contains(&"-g".to_string()) && !plain.contains(&"-g".to_string()));
    assert_eq!(rows(&chibicc_selfhost_argv(b"main.c", false)).last().unwrap(), "main.c");
    assert_eq!(rows(&libc_unit_argv())[6], "/__pg_libc.c");
}

#[test]
fn a_library_unit_is_checked_before_it_ships() {
    let has = vec![ExportEntry { name: "printf".to_string(), func: 3 }];
    assert_eq!(check_libc_unit(STATUS_EXIT, true, &has), Ok(()));
    assert_eq!(check_libc_unit(STATUS_TRAP, true, &has), Err(UnitFault::Compiler(STATUS_TRAP)));
    assert_eq!(check_libc_unit(STATUS_OK, false, &has), Err(UnitFault::NoDebugInfo));
    assert_eq!(check_libc_unit(STATUS_OK, true, &[]), Err(UnitFault::NoBodies));
}

#[test]
fn a_headless_guest_is_set_up() {
    let h = HeadlessHandles { stdout: 1, stdin: 2, exit: 3, memory: 4 };
    let m = OnrampModule {
        entry_params: Some(0),
        imports: vec!["write".to_string(), "vm_map".to_string(), "vm_jit_compile".to_string()],
        exports: vec![ExportEntry { name: "_start".to_string(), func: 0 }],
        memory_log2: Some(20),
    };
    let s = pg_setup(&m, &h, true, &pg_single_argv(), 4).unwrap();
    assert!(matches!(s.bindings[0], Binding::Required { handle: 1, .. }));
    assert!(matches!(s.bindings[1], Binding::Required { handle: 4, .. }));
    assert!(matches!(s.bindings[2], Binding::Unbound));
    assert_eq!(&s.init_mem[..12], &[0, 0, 0, 0, 5, 0, 0, 0, 0, 0, 0, 0]);
    assert!(s.init_mem.ends_with(b"-D\0.\0postgres\0"));
    assert_eq!(pg_setup(&m, &h, false, &[], 4).unwrap_err(), STATUS_DECODE_ERR);
    let bare = OnrampModule { exports: vec![], ..m };
    assert_eq!(pg_setup(&bare, &h, false, &[], 4).unwrap_err(), STATUS_UNSUPPORTED);
}

#[test]
fn a_session_hands_its_output_over_once() {
    let mut cap = Capture::new();
    let (code, s) = svm_pg_open(&mut cap, PgStart::Booted, &VcpuEvent::StdinPark, b"backend> ");
    let mut s = s.unwrap();
    assert_eq!((code, cap.out.as_slice(), s.ended), (0, &b"backend> "[..], false));
    assert_eq!(svm_pg_query(&mut cap, Some(&s), b"select 1;").unwrap(), b"select 1;\n");
    assert_eq!(svm_pg_query(&mut cap, Some(&s), b"x\n").unwrap(), b"x\n");
    assert_eq!(s.settle(&mut cap, &VcpuEvent::StdinPark, b"backend> 1\n"), 0);
    assert_eq!(cap.out, b"1\n");
    assert_eq!(s.settle(&mut cap, &VcpuEvent::Trapped(Trap::Other), b"backend> 1\n"), -STATUS_TRAP);
    assert!(s.ended);
    assert!(svm_pg_query(&mut cap, Some(&s), b"x").is_err());
    assert!(svm_pg_query(&mut cap, None, b"x").is_err());
    let mut snap = vec![9u8];
    assert_eq!(svm_pg_snapshot(&mut cap, &mut snap, None), -2);
    assert_eq!((cap.last_status, snap.clone()), (2, vec![9]));
    assert_eq!(svm_pg_snapshot(&mut cap, &mut snap, Some(vec![1, 2])), 0);
    assert_eq!((cap.last_status, snap), (0, vec![1, 2]));
    for (start, status) in [
        (PgStart::Undecodable, STATUS_DECODE_ERR),
        (PgStart::NotVerified, STATUS_VERIFY_ERR),
        (PgStart::Refused, STATUS_UNSUPPORTED),
        (PgStart::BadImage, STATUS_DECODE_ERR),
        (PgStart::Outside, STATUS_UNSUPPORTED),
        (PgStart::Failed, STATUS_TRAP),
    ] {
        let (code, s) = svm_pg_open(&mut cap, start, &VcpuEvent::StdinPark, b"");
        assert_eq!((code, s.is_none(), cap.last_status), (-status, true, status));
    }
    let mut fresh = PgSession::new();
    assert_eq!(fresh.pg_pump(&VcpuEvent::Done(vec![])), STATUS_EXIT);
}

#[test]
fn a_page_binds_names_to_slots() {
    let mut p = JsPowerbox::new();
    assert_eq!(p.temen_jspb_bind(b"log"), 0);
    assert_eq!(p.temen_jspb_bind("zählen".as_bytes()), 1);
    assert_eq!(p.temen_jspb_bind(b"log"), -1);
    assert_eq!(p.temen_jspb_bind(b""), -1);
    assert_eq!(p.temen_jspb_bind(b"\xff"), -1);
    let ready = Loaded::Ready(vec!["zählen".to_string(), "log".to_string()]);
    assert_eq!(p.bind_imports(ready), Ok(vec![1, 0]));
    let ready = Loaded::Ready(vec!["a".to_string(), "log".to_string(), "b".to_string()]);
    assert_eq!(p.bind_imports(ready), Err(STATUS_UNSUPPORTED));
    assert_eq!(p.err, "unbound imports: a, b — the page defined [log, zählen]");
    assert_eq!(p.bind_imports(Loaded::Ready(vec!["a".to_string()])), Err(STATUS_UNSUPPORTED));
    assert_eq!(p.err, "unbound import: a — the page defined [log, zählen]");
    assert_eq!(p.bind_imports(Loaded::Undecodable("short".to_string())), Err(STATUS_DECODE_ERR));
    assert_eq!(p.err, "decode error: short");
    assert_eq!(p.bind_imports(Loaded::Unverified("bad".to_string())), Err(STATUS_VERIFY_ERR));
    assert_eq!(p.err, "verify error: bad");
    let mut cap = Capture::new();
    assert_eq!(p.temen_jspb_run(&mut cap, JsRunEnd::Returned(vec![Value::I64(6)])), 6);
    assert_eq!(cap.last_status, STATUS_OK);
    assert_eq!(p.err, "verify error: bad", "a run that returned leaves the text");
    p.temen_jspb_run(&mut cap, JsRunEnd::Exited(3));
    assert_eq!((cap.last_status, cap.exit_code), (STATUS_EXIT, 3));
    p.temen_jspb_run(&mut cap, JsRunEnd::Unsupported);
    assert_eq!(cap.last_status, STATUS_UNSUPPORTED);
    assert_eq!(p.err, "the bytecode engine does not support this module");
    p.temen_jspb_run(&mut cap, JsRunEnd::Trapped("Oops".to_string()));
    assert_eq!((cap.last_status, p.err.as_str()), (STATUS_TRAP, "trap: Oops"));
    p.temen_jspb_run(&mut cap, JsRunEnd::Returned(vec![]));
    assert_eq!(p.err, "the entry returned no i32/i64 result");
    assert_eq!(p.caps, ["log", "zählen"]);
    p.temen_jspb_reset();
    assert!(p.caps.is_empty() && p.err.is_empty());
}

#[test]
fn a_page_run_starts_at_its_entry() {
    let mut m = OnrampModule {
        entry_params: Some(0),
        imports: vec![],
        exports: vec![ExportEntry { name: "main".to_string(), func: 1 }],
        memory_log2: None,
    };
    assert_eq!(start_func(&m), 0);
    m.exports.push(ExportEntry { name: "_start".to_string(), func: 4 });
    m.exports.push(ExportEntry { name: "_start".to_string(), func: 5 });
    assert_eq!(start_func(&m), 4);
    assert_eq!((call_reply(Some(3)), call_reply(None)), (3, -38));
}

#[test]
fn programs_are_linked_and_parsed() {
    assert!(matches!(unit_form(b"SVM\0rest"), UnitForm::Object));
    assert!(matches!(unit_form(b"memory 16"), UnitForm::Text(t) if t == "memory 16"));
    assert!(matches!(unit_form(b"\xff"), UnitForm::Neither));
    let e = program_exports("main".to_string());
    assert_eq!((e.len(), e[0].name.as_str(), e[0].func), (1, "main", 0));
    assert_eq!(entry_name(b"main").as_deref(), Some("main"));
    assert_eq!(entry_name(b"\xff"), None);
    let fine = LinkSteps { program: true, library: true, linked: true, entry: true, start: true, verified: true };
    let ran = || PbOutcome {
        status: STATUS_OK,
        value: 5,
        exit_code: 0,
        stdout: b"hi".to_vec(),
        stderr: vec![],
        framebuffer: None,
    };
    let refused = |entry: &[u8], change: fn(&mut LinkSteps)| {
        let mut cap = Capture::new();
        let mut steps = fine;
        change(&mut steps);
        assert_eq!(svm_link_run(&mut cap, entry, steps, ran()), 0);
        assert!(cap.out.is_empty());
        cap.last_status
    };
    assert_eq!(refused(b"\xff", |_| ()), STATUS_DECODE_ERR);
    assert_eq!(refused(b"main", |s| s.program = false), STATUS_DECODE_ERR);
    assert_eq!(refused(b"main", |s| s.library = false), STATUS_DECODE_ERR);
    assert_eq!(refused(b"main", |s| s.linked = false), STATUS_UNSUPPORTED);
    assert_eq!(refused(b"main", |s| s.entry = false), STATUS_UNSUPPORTED);
    assert_eq!(refused(b"main", |s| s.start = false), STATUS_UNSUPPORTED);
    assert_eq!(refused(b"main", |s| s.verified = false), STATUS_UNSUPPORTED);
    let mut cap = Capture::new();
    assert_eq!(svm_link_run(&mut cap, b"main", fine, ran()), 5);
    assert_eq!(cap.out, b"hi");
    assert_eq!(svm_parse(ParseEnd::Encoded(vec![1])), (1, vec![1]));
    assert_eq!(svm_parse(ParseEnd::NotText("e".to_string())), (0, b"source is not UTF-8: e".to_vec()));
    assert_eq!(svm_parse(ParseEnd::Unparsed("e".to_string())), (0, b"e".to_vec()));
    assert_eq!(svm_parse(ParseEnd::Unverified("E".to_string())), (0, b"verify error: E".to_vec()));
}

#[test]
fn memory_accesses_are_announced() {
    assert_eq!(
        decode_mem_event(MemHookOp::Load, &[-1, 4]),
        Some(MemEvent::Load { addr: u64::MAX, width: 4 })
    );
    assert_eq!(
        decode_mem_event(MemHookOp::Copy, &[1, 2, 3]),
        Some(MemEvent::Copy { dst: 1, src: 2, len: 3 })
    );
    assert_eq!(decode_mem_event(MemHookOp::Fill, &[1, 2]), Some(MemEvent::Fill { dst: 1, len: 2 }));
    assert_eq!(decode_mem_event(MemHookOp::Copy, &[1, 2]), None);
    assert_eq!(decode_mem_event(MemHookOp::Load, &[1, 2, 3]), None);
    assert_eq!(decode_mem_event(MemHookOp::Unknown, &[1, 2]), None);
    let def = CacheCfg { sets: 64, ways: 8, line: 64 };
    let c = cache_cfg(CacheAsk { sets: 0, ways: 2, line: 32 }, def);
    assert_eq!((c.sets, c.ways, c.line), (64, 2, 32));
    let all = MemModelCfg { l1: def, l2: def, page_size: 4096 };
    let none = CacheAsk { sets: 0, ways: 0, line: 0 };
    assert_eq!(mem_model_cfg(none, none, 16384, all).page_size, 16384);
    assert_eq!(mem_model_cfg(none, none, 0, all).page_size, 4096);
    let stats = || b"stats".to_vec();
    let why = || Err(b"why".to_vec());
    assert_eq!(svm_mem_profile(Some(0), Ok(()), Some(true), stats()), (0, stats()));
    assert_eq!(svm_mem_profile(Some(0), Ok(()), Some(false), stats()), (1, stats()));
    assert_eq!(svm_mem_profile(None, Ok(()), Some(true), stats()), (-1, vec![]));
    assert_eq!(svm_mem_profile(Some(2), why(), Some(true), stats()), (-2, vec![]));
    assert_eq!(svm_mem_profile(Some(0), why(), Some(true), stats()), (-3, b"why".to_vec()));
    assert_eq!(svm_mem_profile(Some(0), Ok(()), None, stats()), (-4, vec![]));
}

#[test]
fn exports_are_read_from_source() {
    let mut t: TextMap<Export> = TextMap::new();
    rust_exports(
        &mut t,
        "#[cfg(feature = \"live\")]\n#[no_mangle]\n/// doc\npub extern \"C\" fn temen_run_live(p: u8) {}\n\
         \n#[no_mangle]\n\npub extern \"C\" fn temen_not(p: u8) {}\n\
         #[no_mangle]\n#[allow(x)]\n  pub unsafe extern \"C\" fn temen_par_run() {}\n\
         par_ev_getter!(temen_par_ev_a, a);\n#[no_mangle]\npub extern \"C\" fn run_guest(n: i64) {}\n",
    );
    assert_eq!(t.keys, vec!["run_guest", "temen_par_ev_a", "temen_par_run", "temen_run_live"]);
    assert_eq!(t.vals[3].cfg.as_deref(), Some("cfg(feature = \"live\")"));
    assert_eq!(t.vals[2].cfg, None);
    let line: Vec<char> = "pub extern \"C\" fn x1(".chars().collect();
    assert_eq!(fn_name(&line).as_deref(), Some("x1"));
    let line: Vec<char> = "pub fn x1(".chars().collect();
    assert_eq!(fn_name(&line), None);
}

#[test]
fn scripts_call_exports_by_name() {
    assert_eq!(strip_comments("a/*b*/c//d\ne http://x"), "ac\ne http://x");
    assert_eq!(strip_comments("/*"), "");
    assert_eq!(strip_comments("é/*à*/→ //ü\n☃"), "é→ \n☃");
    let mut r: TextMap<Vec<String>> = TextMap::new();
    let js = "ex.temen_run(1); ex['temen_open']; `temen_x_${y}`; temen_word; // ex.temen_gone()\nex.temen_run(2)";
    js_references(&mut r, js, "web/a.js");
    js_references(&mut r, "ex.temen_run()", "b.html");
    js_references(&mut r, "ex.temen_run()", "b.html");
    assert_eq!(r.keys, vec!["temen_open", "temen_run"]);
    assert_eq!(r.vals[1], ["b.html", "web/a.js"]);
    for file in ["web/a-b.js", "a.js", "web/a/c.js", "web", "a.js"] {
        js_references(&mut r, "ex.temen_run()", file);
    }
    assert_eq!(
        r.vals[1],
        ["a.js", "b.html", "web", "web/a/c.js", "web/a-b.js", "web/a.js"],
        "by the names along the way"
    );
    let paths: Vec<&std::path::Path> = r.vals[1].iter().map(std::path::Path::new).collect();
    assert!(paths.windows(2).all(|w| w[0] < w[1]));
    assert!(is_script("/p/web/play.mjs") && is_script("/p/index.html"));
    assert!(!is_script("/p/node_modules/a.js") && !is_script("/p/target/a.js"));
    assert!(!is_script("/p/web/assets/a.js") && !is_script("/p/a.css") && !is_script("/p/.js"));
    assert!(is_source("/p/src/lib.rs") && !is_source("/p/src/lib.rs.bak"));
}

#[test]
fn the_export_table_is_rendered() {
    assert_eq!(family("temen_par_run"), "par");
    assert_eq!(family("temen_run"), "run");
    assert_eq!(family("run_guest"), "(corpus runners)");
    let mut t: TextMap<Export> = TextMap::new();
    for (name, cfg) in [("temen_par_a", None), ("temen_par_b", Some("cfg(x)")), ("temen_run", None)] {
        t.insert(name.to_string(), Export { name: name.to_string(), cfg: cfg.map(str::to_string) });
    }
    let mut r: TextMap<Vec<String>> = TextMap::new();
    js_references(&mut r, "ex.temen_par_a()", "a.js");
    let md = render_markdown(&t, &r);
    assert!(md.starts_with("# Browser export ABI\n\n"));
    assert!(md.contains("**3 exports** in 2 families — 1 referenced from JS, 2 referenced by nothing, 1 behind a `cfg`.\n\n"));
    assert!(md.contains("| `par` | 2 | 1 | 1 |\n| `run` | 1 | 0 | 0 |\n"));
    assert!(md.ends_with(
        "### `par`\n\n- `temen_par_a`\n- `temen_par_b` — `cfg(x)` — *unreferenced*\n\n### `run`\n\n- `temen_run` — *unreferenced*\n\n"
    ));
}

#[test]
fn guests_and_debug_requests() {
    let g = guest(-5);
    assert!(g.contains("  vn = i64.const -5\n  vi = i64.const 0\n"));
    assert!(g.contains("block 2 (vi: i64, vacc: i64, vn: i64) {\n  vacc2 = i64.add vacc vi\n  vone"));
    assert!(guest_mem(1).contains("  vld = i64.load vaddr\n  vacc2 = i64.add vacc vld\n"));
    let big = grow_past_window(11, 22);
    assert!(big.contains("  vout = i32.const 11\n"));
    assert!(big.contains("vk399 = i64.const 3"));
    assert!(big.contains("33554448"));
    assert_eq!(
        launch_request("a\n", true),
        "{\"seq\":2,\"type\":\"request\",\"command\":\"launch\",\"arguments\":{\"programText\":\"a\\n\",\"function\":0,\"args\":[],\"engine\":\"bytecode\",\"powerbox\":\"onramp\",\"blockStdin\":true,\"memModel\":true}}"
    );
    assert_eq!(
        breakpoint_request(7),
        "{\"seq\":3,\"type\":\"request\",\"command\":\"setBreakpoints\",\"arguments\":{\"source\":{\"path\":\"/in.c\"},\"breakpoints\":[{\"line\":7}]}}"
    );
    assert!(launch_succeeded(&["{\"success\":true}".to_string()]));
    assert!(!launch_succeeded(&["{\"success\":false}".to_string()]));
    assert!(session_ended(&["x".to_string(), "\"exited\"".to_string()]));
    assert!(!session_ended(&[]));
    assert!(codegen_service_src(1).contains("f64.mul"));
    assert!(codegen_service_src(0).contains("i32.mul"));
}
