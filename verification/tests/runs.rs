//! Verdicts, entries and capture slots.

use temen_browser::capture::Capture;
use temen_browser::caps::{
    grant_onramp_caps, onramp_cap_resolver, onramp_check, powerbox_grants, prefix_grants,
    prefix_handles, Binding, CapKind, CapOp,
    ExportEntry, OnrampModule, PowerboxCap, PrefixHandles,
};
use temen_browser::card::MemFile;
use temen_browser::eligible::Sig;
use temen_browser::entries::{
    durable_run, dynlink_exec_args, dynlink_symtab, jit_exec, jit_exec_args, live_args, onramp_exec,
    onramp_fs_exec, onramp_fs_exec_readback, onramp_jit_exec, onramp_posix_exec, open_over_run,
    plain_exec, posix_shell_exec_with, powerbox_exec, run_at, settle_open, settle_run, settle_value,
    svm_callprof_dump, svm_dap_request, svm_onramp_jit_run_finish, svm_onramp_jit_run_slot,
    svm_run_bench, svm_run_capture, svm_run_live, svm_run_nifler_fs, svm_run_onramp,
    svm_wasmjit_compile_full, Ran, UnitRun,
};
use temen_browser::runs::{
    bench_args, capture_exec, clock_reply, console_reply, console_request, probe_entry, probe_value, reflect_args, shared_args,
    run_capture, run_fork, run_powerbox, svm_prep_bench, svm_run_shared, ConsoleWrite, Prepared,
    EFAULT, LIVE_EINVAL, NO_RESULT,
};
use temen_browser::slots::{ValType, Value};
use temen_browser::status::{
    i64_only, maybe_value_or_exit, value_only, value_or_exit, CapOutcome, Frame, PbOutcome,
    RunResult, STATUS_BAD_RESULT, STATUS_DECODE_ERR, STATUS_EXIT, STATUS_OK, STATUS_TRAP,
    STATUS_UNSUPPORTED, STATUS_VERIFY_ERR,
};
use temen_browser::symtab::{decode_symtab, Resolved, ResolvedCap};
use temen_browser::traps::Trap;
use temen_browser::warm::JitOnrampRun;

fn returned(v: Vec<Value>) -> RunResult {
    RunResult::Returned(v)
}

fn module(imports: &[&str], start: bool) -> OnrampModule {
    OnrampModule {
        entry_params: Some(0),
        imports: imports.iter().map(|s| s.to_string()).collect(),
        exports: if start {
            vec![ExportEntry { name: "_start".to_string(), func: 0 }]
        } else {
            vec![]
        },
        memory_log2: Some(16),
    }
}

fn ran(run: RunResult) -> Ran {
    Ran {
        run,
        stdout: b"out".to_vec(),
        stderr: b"err".to_vec(),
        frame: Some(Frame { width: 1, height: 1, rgba: vec![1, 2, 3, 4] }),
    }
}

#[test]
fn every_verdict_of_a_run() {
    let two = returned(vec![Value::I64(2)]);
    assert_eq!((value_or_exit(&two).status, value_or_exit(&two).value), (STATUS_OK, 2));
    let narrow = returned(vec![Value::I32(-2)]);
    assert_eq!(value_only(&narrow).value, -2);
    assert_eq!(i64_only(&narrow).status, STATUS_BAD_RESULT);
    assert_eq!(value_or_exit(&returned(vec![])).status, STATUS_BAD_RESULT);
    assert_eq!(maybe_value_or_exit(&returned(vec![])).status, STATUS_OK);
    assert_eq!(value_or_exit(&returned(vec![Value::F64(1)])).status, STATUS_BAD_RESULT);
    let exit = RunResult::Trapped(Trap::Exit(3));
    assert_eq!((value_or_exit(&exit).status, value_or_exit(&exit).exit_code), (STATUS_EXIT, 3));
    assert_eq!(value_only(&exit).status, STATUS_TRAP);
    assert_eq!(value_or_exit(&RunResult::Trapped(Trap::Other)).status, STATUS_TRAP);
    assert_eq!(value_or_exit(&RunResult::Unsupported).status, STATUS_UNSUPPORTED);
}

#[test]
fn names_resolve_to_operations() {
    assert_eq!(onramp_cap_resolver("write"), Some(CapOp { kind: CapKind::Stream, op: 1 }));
    assert_eq!(onramp_cap_resolver("vm_region_create"), Some(CapOp { kind: CapKind::AddressSpace, op: 5 }));
    assert_eq!(onramp_cap_resolver("vm_jit_compile_linked"), Some(CapOp { kind: CapKind::Jit, op: 5 }));
    assert_eq!(onramp_cap_resolver("open"), None);
}

#[test]
fn imports_bind_to_the_granted_handles() {
    let h = PrefixHandles { stdout: 1, stdin: 2, exit: 3, memory: 4, addrspace: 5 };
    let m = module(
        &["write", "read", "exit", "vm_map", "vm_region_create", "vm_region_map", "vm_jit_compile", "x"],
        true,
    );
    let handles = |jit: Option<i32>| -> Vec<Option<i32>> {
        grant_onramp_caps(&m, &h, jit)
            .into_iter()
            .map(|b| match b {
                Binding::Required { handle, .. } => Some(handle),
                Binding::Unbound => None,
            })
            .collect()
    };
    assert_eq!(
        handles(Some(9)),
        vec![Some(1), Some(2), Some(3), Some(4), Some(5), None, Some(9), None]
    );
    let plain = module(&["write", "x"], true);
    assert_eq!(
        grant_onramp_caps(&plain, &h, None),
        vec![Binding::Required { cap: CapOp { kind: CapKind::Stream, op: 1 }, handle: 1 }, Binding::Unbound]
    );
    assert!(m.wants_jit());
    assert_eq!(m.jit_grant(), Some((Some(16), 10)));
    assert_eq!(plain.jit_grant(), None);
    let names: Vec<&str> = prefix_grants().iter().map(|c| c.name()).collect();
    assert_eq!(names, vec!["stdout", "stdin", "exit", "memory", "addrspace"]);
    let p = prefix_handles([11, 12, 13, 14, 15]);
    assert_eq!((p.stdout, p.stdin, p.exit, p.memory, p.addrspace), (11, 12, 13, 14, 15));
    assert!(!module(&["write"], true).wants_jit());
    assert_eq!(m.window_bytes(), 65536);
    assert!(onramp_check(&module(&["write"], false)).is_err());
    assert!(onramp_check(&module(&[], false)).is_ok());
}

#[test]
fn the_positional_powerbox_grows_with_the_arity() {
    let names = |n: usize| -> Vec<&'static str> { powerbox_grants(n).iter().map(|c| c.name()).collect() };
    assert_eq!(names(3), vec!["stdout", "stdin", "exit"]);
    assert_eq!(names(9), vec!["stdout", "stdin", "exit", "stderr", "clock"]);
    assert!(powerbox_grants(0).is_empty());
    assert_eq!(powerbox_grants(1)[0], PowerboxCap::Stdout);
}

#[test]
fn a_run_under_each_powerbox() {
    let o = powerbox_exec(ran(returned(vec![Value::I64(4)])));
    assert_eq!((o.status, o.value, o.framebuffer.is_none()), (STATUS_OK, 4, true));
    assert_eq!(o.stdout, b"out");

    let o = onramp_exec(&module(&["write"], true), ran(RunResult::Trapped(Trap::Exit(6))));
    assert_eq!((o.status, o.exit_code), (STATUS_EXIT, 6));
    assert!(o.framebuffer.is_some());
    let o = onramp_exec(&module(&["write"], false), ran(returned(vec![Value::I64(4)])));
    assert_eq!((o.status, o.value), (STATUS_UNSUPPORTED, 0));
    assert!(o.stdout.is_empty() && o.stderr.is_empty() && o.framebuffer.is_none());
    let o = onramp_jit_exec(&module(&[], false), ran(returned(vec![])));
    assert_eq!(o.status, STATUS_BAD_RESULT);

    let m = module(&["write"], true);
    assert_eq!(onramp_posix_exec(&m, false, ran(returned(vec![]))).status, STATUS_UNSUPPORTED);
    let o = onramp_posix_exec(&m, true, ran(returned(vec![Value::I32(1)])));
    assert_eq!((o.status, o.value, o.framebuffer.is_none()), (STATUS_OK, 1, true));
    assert_eq!(posix_shell_exec_with(ran(returned(vec![]))).status, STATUS_OK);

    assert_eq!(onramp_fs_exec(Err(STATUS_DECODE_ERR), ran(returned(vec![]))).status, STATUS_DECODE_ERR);
    let files = vec![MemFile { key: "out.p.nif".to_string(), bytes: b"nif".to_vec() }];
    let (o, got) = onramp_fs_exec_readback(Ok(()), ran(returned(vec![Value::I64(0)])), &files, "out.p.nif");
    assert_eq!((o.status, got), (STATUS_OK, b"nif".to_vec()));
    let (_, got) = onramp_fs_exec_readback(Ok(()), ran(returned(vec![])), &files, "other");
    assert!(got.is_empty());
    let (o, got) = onramp_fs_exec_readback(Err(2), ran(returned(vec![])), &files, "out.p.nif");
    assert_eq!((o.status, got.len()), (2, 0));
}

#[test]
fn entries_fill_the_capture_slots() {
    let mut cap = Capture::new();
    assert_eq!(svm_run_onramp(&mut cap, None), 0);
    assert_eq!(cap.last_status, STATUS_DECODE_ERR);
    let o = onramp_exec(&module(&[], false), ran(returned(vec![Value::I64(8)])));
    assert_eq!(svm_run_onramp(&mut cap, Some(o)), 8);
    assert_eq!((cap.fb_w, cap.fb_h, cap.fb.len()), (1, 1, 4));
    assert_eq!(cap.out, b"out");

    assert_eq!(settle_run(&mut cap, Err(STATUS_VERIFY_ERR)), 0);
    assert_eq!((cap.last_status, cap.out.len()), (STATUS_VERIFY_ERR, 3));
    let o = powerbox_exec(Ran {
        run: RunResult::Trapped(Trap::Exit(2)),
        stdout: vec![],
        stderr: b"e".to_vec(),
        frame: None,
    });
    assert_eq!(settle_run(&mut cap, Ok(o)), 0);
    assert_eq!((cap.exit_code, cap.out.len(), cap.err.len(), cap.fb_w), (2, 0, 1, 1));

    let o = powerbox_exec(ran(returned(vec![Value::I64(1)])));
    assert_eq!(svm_run_nifler_fs(&mut cap, Ok((o, b"file".to_vec()))), 1);
    assert_eq!((cap.out.as_slice(), cap.err.as_slice()), (&b"file"[..], &b"err"[..]));
    assert_eq!(svm_run_nifler_fs(&mut cap, Err(1)), 0);

    assert_eq!(settle_value(&mut cap, Some((STATUS_TRAP, 0))), 0);
    assert_eq!(cap.last_status, STATUS_TRAP);
    assert_eq!(settle_value(&mut cap, None), 0);
    assert_eq!(cap.last_status, STATUS_DECODE_ERR);
    let shot = CapOutcome { status: STATUS_OK, value: 3, snapshot: vec![1, 2] };
    assert_eq!(svm_run_capture(&mut cap, Some(shot)), 3);
    assert_eq!(cap.snap, vec![1, 2]);
    assert_eq!(svm_run_capture(&mut cap, None), 0);
    assert_eq!(run_at(&mut cap, Some(returned(vec![Value::I64(5)]))), 5);
    assert_eq!(run_at(&mut cap, Some(returned(vec![Value::I32(5)]))), 0);
    assert_eq!(cap.last_status, STATUS_BAD_RESULT);
    assert_eq!(run_at(&mut cap, None), 0);
}

#[test]
fn a_live_run_keeps_an_exit_code() {
    let mut cap = Capture::new();
    assert_eq!(svm_run_live(&mut cap, Some(RunResult::Trapped(Trap::Exit(4)))), 0);
    assert_eq!((cap.last_status, cap.exit_code), (STATUS_EXIT, 4));
    assert_eq!(svm_run_live(&mut cap, Some(returned(vec![Value::I64(7)]))), 7);
    assert_eq!((cap.last_status, cap.exit_code), (STATUS_OK, 4));
    assert_eq!(svm_run_live(&mut cap, None), 0);
    assert_eq!(live_args(0, 5, 6), vec![]);
    assert_eq!(live_args(1, 5, 6), vec![Value::I32(5)]);
    assert_eq!(live_args(7, 5, 6), vec![Value::I32(5), Value::I32(6)]);
    let w = ConsoleWrite { stream: 1, ptr: 16, len: 3, reply: 3 };
    assert_eq!(console_request(1, &[1, 16, 3], true), Ok(w));
    assert_eq!(console_request(0, &[1, 16, 3], true), Err(LIVE_EINVAL));
    assert_eq!(console_request(1, &[1, 16], true), Err(LIVE_EINVAL));
    assert_eq!(console_request(1, &[1, 16, 3], false), Err(EFAULT));
    assert_eq!((console_reply(&w, true), console_reply(&w, false)), (3, EFAULT));
    assert_eq!((clock_reply(0, 99), clock_reply(1, 99)), (99, LIVE_EINVAL));
}

#[test]
fn an_open_reports_a_negated_status() {
    let mut cap = Capture::new();
    assert_eq!(settle_open::<u8>(&mut cap, Err(STATUS_TRAP)), (-3, None));
    assert_eq!(cap.last_status, STATUS_TRAP);
    assert_eq!(settle_open(&mut cap, Ok(9u8)), (0, Some(9)));
    assert_eq!(cap.last_status, STATUS_OK);
}

#[test]
fn benchmarks_and_probes() {
    let sig = Sig { params: vec![ValType::I64, ValType::I32, ValType::F64], results: vec![] };
    let sigs = [sig];
    assert_eq!(
        svm_run_bench(Some(&sigs), 0, 100, -1),
        Ok(vec![Value::I64(100), Value::I32(-1), Value::I64(0)])
    );
    assert_eq!(svm_run_bench(Some(&sigs), 1, 0, 0), Err(STATUS_UNSUPPORTED));
    assert_eq!(svm_run_bench(None, 0, 0, 0), Err(STATUS_DECODE_ERR));
    assert_eq!(bench_args(&[ValType::I32], 100, 0x1_0000_0002), vec![Value::I32(2)]);
    assert_eq!(reflect_args(2, -1), vec![Value::I32(-1)]);
    assert!(reflect_args(0, -1).is_empty());
    assert_eq!(shared_args(1, -7), vec![Value::I64(-7)]);
    assert!(shared_args(0, -7).is_empty());
    assert_eq!(probe_entry(0, 42), 42);
    assert_eq!(probe_entry(3, 42), -1);
    assert_eq!(svm_prep_bench(Prepared::Ready(12)), (STATUS_OK, 12));
    assert_eq!(svm_prep_bench(Prepared::NotVerified), (STATUS_VERIFY_ERR, 0));
    assert_eq!(svm_prep_bench(Prepared::Undecodable), (STATUS_DECODE_ERR, 0));
    assert_eq!(svm_prep_bench(Prepared::Outside), (STATUS_UNSUPPORTED, 0));
    assert_eq!(svm_run_shared(&returned(vec![Value::I64(3)])), 3);
    assert_eq!(svm_run_shared(&returned(vec![Value::I32(3)])), NO_RESULT);
    assert_eq!(svm_run_shared(&RunResult::Unsupported), NO_RESULT);
    assert_eq!(probe_value(&returned(vec![Value::I64(5)]), -1), 5);
    assert_eq!(probe_value(&returned(vec![Value::I32(5)]), -1), -1);
    let mut both = 200i64.to_le_bytes().to_vec();
    both.extend_from_slice(&100i64.to_le_bytes());
    assert_eq!(run_fork(&returned(vec![Value::I64(100)]), &both), 100);
    assert_eq!(run_fork(&returned(vec![Value::I64(100)]), &both[..8]), NO_RESULT);
    assert_eq!(run_fork(&returned(vec![Value::I64(1)]), &both), NO_RESULT);
}

#[test]
fn powerbox_and_capture_probes() {
    let out = |status: i32, code: i32, text: &[u8]| PbOutcome {
        status,
        value: 0,
        exit_code: code,
        stdout: text.to_vec(),
        stderr: vec![],
        framebuffer: None,
    };
    let greeting = b"hello, powerbox!\n";
    let hello = out(STATUS_OK, 0, greeting);
    let exit = out(STATUS_EXIT, 42, b"");
    assert_eq!(run_powerbox(&hello, &exit, greeting), 17);
    assert_eq!(run_powerbox(&hello, &out(STATUS_EXIT, 41, b""), greeting), -1);
    assert_eq!(run_powerbox(&out(STATUS_OK, 0, b"hello, powerbox?\n"), &exit, greeting), -1);
    let mut snap = vec![0u8; 128];
    snap[0] = 5;
    assert_eq!(run_capture(&capture_exec(&returned(vec![Value::I64(1)]), snap)), 5);
    assert_eq!(run_capture(&capture_exec(&RunResult::Unsupported, vec![1; 128])), -1);
    assert_eq!(plain_exec(&returned(vec![Value::I32(7)])), (STATUS_OK, 7));
}

#[test]
fn submitted_units() {
    assert_eq!(jit_exec(&UnitRun::NoUnit), (STATUS_BAD_RESULT, 0));
    assert_eq!(jit_exec(&UnitRun::Refused), (STATUS_TRAP, 0));
    assert_eq!(jit_exec(&UnitRun::Ran(returned(vec![Value::I32(142)]))), (STATUS_OK, 142));
    assert_eq!(
        jit_exec_args(3, 4),
        vec![Value::I32(3), Value::I32(4), Value::I32(6), Value::I32(7)]
    );
    assert_eq!(dynlink_exec_args(1, 2, 3), vec![Value::I32(1), Value::I32(2), Value::I32(3)]);
    assert!(dynlink_symtab(false).is_empty());
    let table = decode_symtab(&dynlink_symtab(true)).unwrap();
    assert_eq!(table[0].name, "clock");
    assert_eq!(table[0].link, Resolved::Cap(ResolvedCap { type_id: 2, op: 0 }));
    let (status, value, snap, clock) = durable_run(&returned(vec![Value::I64(2)]), vec![9], 77);
    assert_eq!((status, value, snap, clock), (STATUS_OK, 2, vec![9], 77));
    assert_eq!(durable_run(&RunResult::Unsupported, vec![9], 5).2, Vec::<u8>::new());
}

#[test]
fn a_run_on_emitted_code() {
    let m = module(&["write"], true);
    assert!(open_over_run(&m, Ok(()), true, true).is_ok());
    assert_eq!(open_over_run(&m, Ok(()), false, true), Err(STATUS_UNSUPPORTED));
    assert_eq!(open_over_run(&m, Ok(()), true, false), Err(STATUS_UNSUPPORTED));
    assert_eq!(open_over_run(&m, Err(STATUS_DECODE_ERR), true, true), Err(STATUS_DECODE_ERR));
    assert_eq!(open_over_run(&module(&["write"], false), Ok(()), true, true), Err(STATUS_UNSUPPORTED));
    let slots = [Value::I32(5), Value::I64(0x1_0000_0007), Value::F64(1)];
    assert_eq!(svm_onramp_jit_run_slot(&slots, 0), 5);
    assert_eq!(svm_onramp_jit_run_slot(&slots, 1), 7);
    assert_eq!(svm_onramp_jit_run_slot(&slots, 2), 0);
    assert_eq!(svm_onramp_jit_run_slot(&slots, 3), 0);

    let mut cap = Capture::new();
    assert_eq!(svm_onramp_jit_run_finish(&mut cap, &None, vec![1], vec![], None), STATUS_UNSUPPORTED);
    assert!(cap.out.is_empty());
    let mut run = JitOnrampRun::new();
    run.record_outcome(false, 33);
    assert_eq!(
        svm_onramp_jit_run_finish(&mut cap, &Some(run), b"o".to_vec(), b"e".to_vec(), None),
        STATUS_OK
    );
    assert_eq!((cap.run_value, cap.out.as_slice()), (33, &b"o"[..]));
    let mut run = JitOnrampRun::new();
    run.run_cross_tier(Some(9));
    run.record_outcome(true, 1);
    assert_eq!(svm_onramp_jit_run_finish(&mut cap, &Some(run), vec![], vec![], None), STATUS_EXIT);
    assert_eq!((cap.exit_code, cap.run_value), (9, 0));
    let mut run = JitOnrampRun::new();
    run.record_outcome(true, 1);
    assert_eq!(run.finish().status, STATUS_TRAP);
}

#[test]
fn emitted_modules_and_debug_batches() {
    let mut slot = vec![0u8];
    assert_eq!(svm_wasmjit_compile_full(&mut slot, true, false, Some(vec![1])), 0);
    assert_eq!(svm_wasmjit_compile_full(&mut slot, false, true, Some(vec![1])), 0);
    assert_eq!(svm_wasmjit_compile_full(&mut slot, true, true, None), 0);
    assert_eq!(slot, vec![0]);
    assert_eq!(svm_wasmjit_compile_full(&mut slot, true, true, Some(vec![7, 8])), 1);
    assert_eq!(slot, vec![7, 8]);
    assert_eq!(svm_dap_request::<u8>(None), (-1, vec![]));
    assert_eq!(svm_dap_request(Some(vec![vec![1, 2], vec![], vec![3]])), (0, vec![1, 2, 3]));
    assert_eq!(
        svm_callprof_dump(&[1, 0x0102]),
        vec![1, 0, 0, 0, 0, 0, 0, 0, 2, 1, 0, 0, 0, 0, 0, 0]
    );
}
