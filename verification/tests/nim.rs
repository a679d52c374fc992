//! The compiler driver.

use temen_browser::card::MemFile;
use temen_browser::imports::{balanced, parse_imports};
use temen_browser::modnames::{base36, module_suffix, relative_path, uhash};
use temen_browser::nimc::{
    compile_nim, compile_nim_ce, link_order, link_refused, nim_verdict, verify_refused, Guest,
    NimStep, Stage, Unit,
};
use temen_browser::sorted::{rank, Rank, TextMap};
use temen_browser::status::{STATUS_EXIT, STATUS_OK, STATUS_TRAP};
use temen_browser::toposort::{toposort, Mod, Role};

fn file(key: &str, text: &str) -> MemFile {
    MemFile { key: key.to_string(), bytes: text.as_bytes().to_vec() }
}

fn module(stem: &str, role: Role, deps: &[&str]) -> Mod {
    Mod { stem: stem.to_string(), role, deps: deps.iter().map(|d| d.to_string()).collect() }
}

#[test]
fn stems_are_those_of_the_compiler() {
    assert_eq!(uhash(""), 0);
    assert_eq!(uhash("std/system.nim"), 1317286471);
    assert_eq!(base36(0), "");
    assert_eq!(base36(36), "01");
    assert_eq!(base36(1317286471), "vq0asl");
    assert_eq!(module_suffix("/lib/std/system.nim"), "sysvq0asl");
    assert_eq!(module_suffix("/lib/std/syncio.nim"), "syn1lfpjv");
    assert_eq!(module_suffix("/prog.nim"), "proucs6t71");
    assert_eq!(module_suffix("/a"), "aupej3k1");
}

#[test]
fn a_stem_ignores_the_search_path() {
    for p in ["prog.nim", "std/system.nim", "a.nim.nim", "é/ü"] {
        let name = p.rsplit('/').next().unwrap();
        let name = name.strip_suffix(".nim").unwrap_or(name);
        let stem: String = name.chars().take(3).chain(base36(uhash(p)).chars()).collect();
        assert_eq!(module_suffix(&format!("/{p}")), stem);
        assert_eq!(module_suffix(&format!("/lib/{p}")), stem);
    }
}

#[test]
fn relative_paths_go_up_and_down() {
    assert_eq!(relative_path("/lib/std/system.nim", "/"), "lib/std/system.nim");
    assert_eq!(relative_path("/lib/std/system.nim", "/lib"), "std/system.nim");
    assert_eq!(relative_path("/prog.nim", "/lib"), "../prog.nim");
    assert_eq!(relative_path("//a//b/", "/a/c/d"), "../../b");
    assert_eq!(relative_path("/a", "/a"), "");
}

#[test]
fn a_form_is_cut_at_its_own_bracket() {
    assert_eq!(balanced("x (import (a) b) y)", "import").as_deref(), Some("(import (a) b)"));
    assert_eq!(balanced("(importx)", "import").as_deref(), Some("(importx)"));
    assert_eq!(balanced("(import (a)", "import"), None);
    assert_eq!(balanced("import", "import"), None);
}

#[test]
fn imports_are_library_files_or_siblings() {
    let deps = "(.nif24)\n(stmts\n(import (infix / std syncio))\n(import (when (call defined windows) (infix / std winlean)))\n(import (prefix \\2E\\2F sub / helper))\n(fromimport (infix / std math) (a))\n(import nothing))";
    assert_eq!(
        parse_imports(deps, "/src"),
        vec!["/lib/std/syncio.nim", "/src/sub/helper.nim", "/lib/std/math.nim"]
    );
    assert!(parse_imports("", "/src").is_empty());
    assert!(parse_imports("(import (infix / (x)))", "/src").is_empty());
}

#[test]
fn keys_are_ordered_character_by_character() {
    assert_eq!(rank("a", "b"), Rank::Before);
    assert_eq!(rank("ab", "a"), Rank::After);
    assert_eq!(rank("é", "é"), Rank::Same);
    assert_eq!(rank("z", "é"), Rank::Before);
    let mut m: TextMap<Mod> = TextMap::new();
    m.insert("b".to_string(), module("b", Role::Main, &[]));
    m.insert("a".to_string(), module("a", Role::Import, &[]));
    m.insert("b".to_string(), module("b", Role::Import, &["a"]));
    assert_eq!(m.keys, vec!["a", "b"]);
    assert_eq!(m.vals[1].deps, vec!["a"]);
    assert!(m.contains_key("a"));
    assert!(!m.contains_key("c"));
}

#[test]
fn imports_are_compiled_first_and_the_system_before_all() {
    let mut m: TextMap<Mod> = TextMap::new();
    m.insert("amain".to_string(), module("amain", Role::Main, &["zlib", "mid"]));
    m.insert("mid".to_string(), module("mid", Role::Import, &["zlib"]));
    m.insert("zlib".to_string(), module("zlib", Role::Import, &["ext"]));
    m.insert("sysv".to_string(), module("sysv", Role::System, &["zlib"]));
    assert_eq!(toposort(&m), vec!["sysv", "ext", "zlib", "mid", "amain"]);
}

#[test]
fn a_circle_of_imports_still_has_an_order() {
    let mut m: TextMap<Mod> = TextMap::new();
    m.insert("a".to_string(), module("a", Role::Import, &["b"]));
    m.insert("b".to_string(), module("b", Role::Import, &["a"]));
    assert_eq!(toposort(&m), vec!["b", "a"]);
}

#[test]
fn a_build_runs_its_phases_in_order() {
    let sys = "sysvq0asl";
    let main = "proucs6t71";
    let io = "syn1lfpjv";
    let mut files: Vec<MemFile> = Vec::new();
    let mut b = compile_nim(true, true, true, "prog.nim").unwrap();
    let mut asked: Vec<(Guest, Vec<String>)> = Vec::new();
    let mut code: Option<i64> = None;
    let units = loop {
        match b.step(&files, code) {
            NimStep::Again => code = None,
            NimStep::Run { guest, argv } => {
                code = Some(5);
                match guest {
                    Guest::Parser => {
                        let out = argv[5].trim_start_matches('/').to_string();
                        let deps = out.replace(".p.nif", ".p.deps.nif");
                        let text = if out.contains(main) { "(import (infix / std syncio))" } else { "" };
                        files.push(file(&out, "nif"));
                        files.push(file(&deps, text));
                    }
                    Guest::Sem => {
                        let key = argv.last().unwrap().replace(".p.nif", ".s.nif");
                        files.push(file(&key, "sem"));
                    }
                    Guest::Hexer => {
                        let stem = argv.last().unwrap().replace("nimcache/", "").replace(".s.nif", "");
                        let key = if stem == main {
                            format!("nimcache/{main}/{stem}.x.nif")
                        } else {
                            format!("nimcache/{stem}.x.nif")
                        };
                        files.push(file(&key, &format!("code of {stem}")));
                    }
                    Guest::ParserChild => panic!("no child was asked for"),
                }
                asked.push((guest, argv));
            }
            NimStep::Link(units) => break units,
            NimStep::Failed(e) => panic!("{e}"),
        }
    };
    assert_eq!(b.stage, Stage::Over);
    let firsts: Vec<String> = asked.iter().map(|(_, a)| a[a.len() - 1].clone()).collect();
    assert_eq!(
        firsts,
        vec![
            format!("/nimcache/{main}.p.nif"),
            format!("/nimcache/{io}.p.nif"),
            format!("/nimcache/{sys}.p.nif"),
            format!("nimcache/{sys}.p.nif"),
            format!("nimcache/{io}.p.nif"),
            format!("nimcache/{main}.p.nif"),
            format!("nimcache/{sys}.s.nif"),
            format!("nimcache/{io}.s.nif"),
            format!("nimcache/{main}.s.nif"),
        ]
    );
    assert_eq!(
        asked[0].1,
        vec![
            "nifler",
            "--portablePaths",
            "--deps",
            "parse",
            "/prog.nim",
            "/nimcache/proucs6t71.p.nif"
        ]
    );
    assert_eq!(asked[3].1[4], "--isSystem");
    assert_eq!(asked[4].1.len(), 5);
    assert_eq!(asked[5].1[4], "--isMain");
    assert_eq!(asked[7].1, vec!["hexer", "c", "nimcache/syn1lfpjv.s.nif"]);
    assert_eq!(
        asked[8].1,
        vec![
            "hexer",
            "c",
            "--bits:64",
            "--cpu:le",
            "--flags:br",
            "--isMain",
            "--app:console",
            "--outdir:nimcache/proucs6t71",
            "nimcache/proucs6t71.s.nif"
        ]
    );
    let linked: Vec<&str> = units.iter().map(|u| u.stem.as_str()).collect();
    assert_eq!(linked, vec![main, io, sys]);
    assert_eq!(units[1].src, "code of syn1lfpjv");
}

#[test]
fn a_seeded_module_is_not_parsed() {
    let files = vec![
        file("nimcache/proucs6t71.p.nif", "nif"),
        file("nimcache/sysvq0asl.p.nif", "nif"),
    ];
    let mut b = compile_nim_ce(true, Some((true, true)), true, true, "prog.nim").unwrap();
    assert!(b.child);
    let step = loop {
        match b.step(&files, None) {
            NimStep::Again => {}
            other => break other,
        }
    };
    assert!(matches!(step, NimStep::Run { guest: Guest::Sem, .. }));
    assert_eq!(b.mods.keys, vec!["proucs6t71", "sysvq0asl"]);
}

#[test]
fn a_confined_parser_is_asked_for_the_same_work() {
    let mut inline = compile_nim(true, true, true, "prog.nim").unwrap();
    let mut child = compile_nim_ce(true, Some((true, true)), true, true, "prog.nim").unwrap();
    match (inline.step(&[], None), child.step(&[], None)) {
        (
            NimStep::Run { guest: Guest::Parser, argv },
            NimStep::Run { guest: Guest::ParserChild, argv: same },
        ) => assert_eq!(argv, same),
        other => panic!("{other:?}"),
    }
}

#[test]
fn a_confined_parser_builds_the_same() {
    let ends = |child: Option<(bool, bool)>| {
        let mut files: Vec<MemFile> = Vec::new();
        let mut b = compile_nim_ce(true, child, true, true, "prog.nim").unwrap();
        let mut code: Option<i64> = None;
        loop {
            match b.step(&files, code) {
                NimStep::Again => code = None,
                NimStep::Run { guest: Guest::Parser | Guest::ParserChild, argv } => {
                    code = Some(0);
                    files.push(file(argv[5].trim_start_matches('/'), "nif"));
                }
                NimStep::Run { guest: Guest::Sem, argv } => {
                    code = Some(0);
                    files.push(file(&argv.last().unwrap().replace(".p.nif", ".s.nif"), "sem"));
                }
                NimStep::Run { argv, .. } => {
                    code = Some(3);
                    files.push(file("seen", &argv.join(" ")));
                }
                other => break (format!("{other:?}"), files.len()),
            }
        }
    };
    assert_eq!(ends(None), ends(Some((true, true))));
    assert!(ends(None).0.contains("hexer failed on"));
}

#[test]
fn a_failed_phase_ends_the_build() {
    let mut b = compile_nim(true, true, true, "prog.nim").unwrap();
    assert!(matches!(b.step(&[], None), NimStep::Run { .. }));
    match b.step(&[], Some(-1)) {
        NimStep::Failed(e) => assert_eq!(e, "nifler failed on /prog.nim (code -1)"),
        other => panic!("{other:?}"),
    }
    assert_eq!(b.stage, Stage::Over);

    let mut files = vec![
        file("nimcache/proucs6t71.p.nif", ""),
        file("nimcache/sysvq0asl.p.nif", ""),
    ];
    let until_run = |b: &mut temen_browser::nimc::NimBuild, files: &[MemFile], mut code: Option<i64>| loop {
        match b.step(files, code) {
            NimStep::Again => code = None,
            other => break other,
        }
    };
    let mut b = compile_nim(true, true, true, "prog.nim").unwrap();
    until_run(&mut b, &files, None);
    match b.step(&files, Some(1)) {
        NimStep::Failed(e) => assert_eq!(e, "nimsem failed on sysvq0asl (code 1)"),
        other => panic!("{other:?}"),
    }
    let mut b = compile_nim(true, true, true, "prog.nim").unwrap();
    until_run(&mut b, &files, None);
    match b.step(&files, Some(0)) {
        NimStep::Failed(e) => assert_eq!(e, "nimsem produced no sysvq0asl.s.nif"),
        other => panic!("{other:?}"),
    }
    files.push(file("nimcache/sysvq0asl.s.nif", ""));
    files.push(file("nimcache/proucs6t71.s.nif", ""));
    let mut b = compile_nim(true, true, true, "prog.nim").unwrap();
    until_run(&mut b, &files, None);
    until_run(&mut b, &files, Some(0));
    until_run(&mut b, &files, Some(0));
    match b.step(&files, Some(9)) {
        NimStep::Failed(e) => assert_eq!(e, "hexer failed on sysvq0asl (code 9)"),
        other => panic!("{other:?}"),
    }
    files.push(file("nimcache/sysvq0asl.x.nif", ""));
    let mut b = compile_nim(true, true, true, "prog.nim").unwrap();
    until_run(&mut b, &files, None);
    until_run(&mut b, &files, Some(0));
    until_run(&mut b, &files, Some(0));
    until_run(&mut b, &files, Some(0));
    match b.step(&files, Some(5)) {
        NimStep::Failed(e) => {
            assert_eq!(e, "hexer produced no nimcache/proucs6t71/proucs6t71.x.nif")
        }
        other => panic!("{other:?}"),
    }
}

#[test]
fn a_phase_that_cannot_be_read_is_named() {
    assert_eq!(compile_nim(false, false, false, "x").unwrap_err(), "decode nifler");
    assert_eq!(compile_nim(true, false, false, "x").unwrap_err(), "decode nimsem");
    assert_eq!(compile_nim(true, true, false, "x").unwrap_err(), "decode hexer");
    assert_eq!(
        compile_nim_ce(true, Some((false, false)), true, true, "x").unwrap_err(),
        "decode nifler_ce"
    );
    assert_eq!(
        compile_nim_ce(true, Some((true, false)), true, true, "x").unwrap_err(),
        "verify nifler_ce"
    );
}

#[test]
fn the_program_is_linked_first_and_the_system_last() {
    let units: Vec<Unit> = ["sysv1", "b", "main", "sysv0", "a"]
        .iter()
        .map(|s| Unit { stem: s.to_string(), src: s.to_uppercase() })
        .collect();
    let order: Vec<String> = link_order(&units, "main").into_iter().map(|u| u.stem).collect();
    assert_eq!(order, vec!["main", "b", "a", "sysv1", "sysv0"]);
}

#[test]
fn a_program_is_judged_by_its_run() {
    assert_eq!(nim_verdict(STATUS_OK, b"hi\n"), Ok("hi\n".to_string()));
    assert_eq!(nim_verdict(STATUS_EXIT, b"a\xffb"), Ok("a\u{fffd}b".to_string()));
    assert_eq!(nim_verdict(STATUS_TRAP, b"hi"), Err("run failed (status 3)".to_string()));
    assert_eq!(link_refused("no entry"), "nim→powerbox link: no entry");
    assert_eq!(verify_refused("Bad"), "verify: Bad");
}
