//! The parallel driver and the tier-up pumps.

use temen_browser::capture::Capture;
use temen_browser::caps::{ExportEntry, OnrampModule};
use temen_browser::eligible::{all_shimmable, tierup_eligible, Sig};
use temen_browser::par::{
    ChildHost, EmitGate, InstGrant, ParState, PbGrant, RootPlan, TierMode, NO_CODE, PAR_DONE,
    PAR_INSTANTIATE, PAR_JIT_INVOKE, PAR_MAX_VCPUS, PAR_SPAWN, PAR_TIERUP, PAR_TRAP, PAR_WAIT,
};
use temen_browser::par_run::{pack, svm_par_deliver_join, PageState, ParStep, ParVcpu};
use temen_browser::slots::{ValType, Value};
use temen_browser::status::{
    STATUS_BAD_RESULT, STATUS_DECODE_ERR, STATUS_EXIT, STATUS_OK, STATUS_TRAP, STATUS_UNSUPPORTED,
};
use temen_browser::tierup::{
    admit_tierup, plan_coop, plan_tierup, pump_coop, pump_tierup, replace_coop, replace_tierup,
    svm_coop_open, svm_coop_win_len, svm_onramp_tierup_open, svm_onramp_tierup_win_len,
    unit_window_log2, Build, CoopEvent, ShimTarget, TierupModule, TierupRun, TierupStep,
    COOP_RUN_TRAP, TIERUP_RUN_DONE, TIERUP_RUN_JIT_INVOKE, TIERUP_RUN_TIERUP, TIERUP_RUN_TRAP,
};
use temen_browser::traps::{par_resolve_domain, par_resolve_unit, Trap, UnitLookup, VcpuEvent};

fn look(domain: u32, code: (u32, u32)) -> UnitLookup {
    UnitLookup { domain: Ok(domain), code: Ok(code), has_funcs: true, wasm: Some(vec![1]) }
}

fn pages() -> PageState {
    PageState { table: vec![3, 4], cover: 8192 }
}

fn sig(params: &[ValType], results: &[ValType]) -> Sig {
    Sig { params: params.to_vec(), results: results.to_vec() }
}

fn invoke(params: &[ValType], extent: Option<u64>) -> VcpuEvent {
    VcpuEvent::JitInvoke {
        handle: 1,
        code: 2,
        argv: vec![6, 7],
        params: params.to_vec(),
        results: vec![ValType::I32],
        extent,
    }
}

#[test]
fn an_emit_runs_once_per_generation() {
    let mut s = ParState::new();
    assert_eq!(s.svm_par_powerbox_io(3), 1);
    let first = s.generation;
    let sigs = [sig(&[ValType::I64], &[ValType::I64]), sig(&[ValType::I32], &[])];
    let mut slot = vec![];
    assert_eq!(s.svm_par_enable_jit(&mut slot, Some((&sigs, &[true, true])), vec![7, 8], true), 1);
    assert_eq!((&s.eligible, s.paged, slot.as_slice()), (&Some(vec![true, false]), true, &[7u8, 8][..]));
    let again = s.svm_par_enable_jit(&mut slot, Some((&sigs, &[false, false])), vec![9], false);
    assert_eq!(again, 1, "the generation's answer stands");
    assert_eq!((&s.eligible, s.paged, slot.as_slice()), (&Some(vec![true, false]), true, &[7u8, 8][..]));
    s.svm_par_powerbox_none();
    assert_ne!(s.generation, first);
    assert_eq!(s.svm_par_enable_jit(&mut slot, None, vec![9], false), 0);
    assert_eq!(slot, [7, 8]);
    let mut g = EmitGate::new();
    g.record(5, 1);
    assert_eq!((g.cached(5), g.cached(6)), (Some(1), None));
}

#[test]
fn the_last_published_recipe_wins() {
    let mut s = ParState::new();
    assert_eq!(s.svm_par_powerbox(Some(PbGrant { jit: 1, code: 2 })), 1);
    assert!(matches!(s.svm_par_root(), Some(RootPlan::FixedUnit { jit: 1, code: 2, tier: TierMode::Interpret })));
    assert_eq!(s.svm_par_powerbox_io(9), 1);
    assert!(s.pb.is_none());
    assert!(matches!(s.svm_par_root(), Some(RootPlan::Output { out: 9, .. })));
    assert_eq!(s.svm_par_powerbox(None), 0);
    assert_eq!(s.io, Some(9), "a refused recipe changes none");
    assert_eq!(s.svm_par_powerbox_jit_runtime(Some(4)), 1);
    assert!(s.par_jit_codegen());
    assert!(matches!(s.svm_par_root(), Some(RootPlan::Compiler { jit: 4 })));
    assert_eq!(s.svm_par_powerbox_inst(Some(InstGrant { win_size: 65536, module: Some(vec![1, 2]) })), 1);
    assert!(matches!(s.svm_par_root(), Some(RootPlan::Confiner { win_size: 65536, with_module: true })));
    s.svm_par_powerbox_none();
    assert!(matches!(s.svm_par_root(), Some(RootPlan::Plain { tier: TierMode::Interpret })));
    assert!(!s.par_jit_codegen());
}

#[test]
fn children_share_the_published_host() {
    let mut s = ParState::new();
    assert!(s.svm_par_child(1000).is_none(), "not a power of two");
    s.svm_par_powerbox_io(1);
    let c = s.svm_par_child(65536).unwrap();
    assert_eq!((c.size_log2, c.host), (16, ChildHost::Output));
    s.svm_par_powerbox_jit_runtime(Some(1));
    assert_eq!(s.svm_par_child(65536).unwrap().host, ChildHost::Compiler);
    s.svm_par_powerbox_none();
    assert_eq!(s.svm_par_child(65536).unwrap().host, ChildHost::Own);
    assert_eq!(s.svm_par_child_confined(12), Some(4096));
    assert_eq!(s.live, 4);
    s.par_vcpu_settle(false);
    assert_eq!(s.live, 3);
    s.par_vcpu_settle(true);
    assert_eq!(s.live, 3);
}

#[test]
fn virtual_cpus_are_bounded() {
    let mut s = ParState::new();
    for _ in 0..PAR_MAX_VCPUS {
        assert!(s.par_vcpu_admit());
    }
    assert!(!s.par_vcpu_admit());
    assert!(s.svm_par_root().is_none());
    s.par_vcpu_retire();
    assert!(s.par_vcpu_admit());
}

#[test]
fn the_slot_mirror() {
    let mut s = ParState::new();
    assert_eq!(s.svm_par_jit_slot_code(3), NO_CODE);
    s.par_jit_slot_record(3, 77);
    s.par_jit_slot_record(99, 5);
    assert_eq!((s.svm_par_jit_slot_code(3), s.svm_par_jit_slot_code(99)), (77, NO_CODE));
    s.par_jit_slot_clear(3);
    assert_eq!(s.svm_par_jit_slot_code(3), NO_CODE);
    s.svm_par_jit_set_b2(2);
    s.svm_par_jit_set_codegen(1);
    s.svm_par_jit_codegen_service(1);
    assert!(s.par_jit_b2() && s.par_jit_codegen() && s.service == 1);
}

#[test]
fn events_surface_with_their_operands() {
    let mut v = ParVcpu::par_box();
    let st = ParState::new();
    let spawn = VcpuEvent::Spawn { func: 7, sp: 16, arg: -1, module: 2 };
    assert_eq!(v.svm_par_run(spawn, &st, look(0, (0, 0)), pages()), ParStep::Surface(PAR_SPAWN));
    assert_eq!((v.a, v.b, v.c), (0x2_0000_0007, 16, -1));
    assert_eq!(pack(2, 7), 0x2_0000_0007);
    assert_eq!(pack(u32::MAX, 1), -4294967295);
    let wait = VcpuEvent::Wait { addr: u64::MAX, expected: 1, width: 4, timeout: 9 };
    assert_eq!(v.svm_par_run(wait, &st, look(0, (0, 0)), pages()), ParStep::Surface(PAR_WAIT));
    assert_eq!((v.a, v.b, v.c, v.d), (-1, 1, 4, 9));
    let start = VcpuEvent::Instantiate { module: 1, entry: 3, carve: 64, size_log2: 6, fuel: 100 };
    assert_eq!(v.svm_par_run(start, &st, look(0, (0, 0)), pages()), ParStep::Surface(PAR_INSTANTIATE));
    assert_eq!((v.a, v.b, v.c, v.d), (0x1_0000_0003, 64, 6, 100));
    let done = VcpuEvent::Done(vec![Value::I32(-5)]);
    assert_eq!(v.svm_par_run(done, &st, look(0, (0, 0)), pages()), ParStep::Surface(PAR_DONE));
    assert_eq!(v.a, -5);
    let park = v.svm_par_run(VcpuEvent::StdinPark, &st, look(0, (0, 0)), pages());
    assert_eq!(park, ParStep::Surface(PAR_TRAP));
}

#[test]
fn a_paged_tier_up_carries_its_table() {
    let mut v = ParVcpu::par_box();
    let mut st = ParState::new();
    let up = || VcpuEvent::TierUp { func: 4, argv: vec![1], mapped: 4096 };
    v.svm_par_run(up(), &st, look(0, (0, 0)), pages());
    assert_eq!((v.a, v.b, v.pagestate.len()), (4, 4096, 0));
    st.paged = true;
    assert_eq!(v.svm_par_run(up(), &st, look(0, (0, 0)), pages()), ParStep::Surface(PAR_TIERUP));
    assert_eq!((v.b, v.pagestate.as_slice()), (8192, &[3u8, 4][..]));
}

#[test]
fn a_unit_runs_emitted_only_where_everything_allows_it() {
    let scalars = [ValType::I32, ValType::I32];
    let mut st = ParState::new();
    let run = |st: &ParState, ev: VcpuEvent, l: UnitLookup| ParVcpu::par_box().svm_par_run(ev, st, l, pages());
    assert_eq!(run(&st, invoke(&scalars, Some(64)), look(1, (1, 0))), ParStep::Surface(PAR_TRAP));
    st.svm_par_powerbox_jit_runtime(Some(1));
    assert_eq!(run(&st, invoke(&scalars, Some(64)), look(1, (1, 0))), ParStep::Surface(PAR_JIT_INVOKE));
    assert_eq!(run(&st, invoke(&scalars, None), look(1, (1, 0))), ParStep::Invoke(Ok((1, 0))));
    assert_eq!(run(&st, invoke(&[ValType::V128], Some(64)), look(1, (1, 0))), ParStep::Invoke(Ok((1, 0))));
    assert_eq!(
        run(&st, invoke(&scalars, Some(64)), look(1, (2, 0))),
        ParStep::Invoke(Err(Trap::CapFault))
    );
    st.svm_par_jit_set_codegen(0);
    assert_eq!(run(&st, invoke(&scalars, Some(64)), look(1, (1, 0))), ParStep::Invoke(Ok((1, 0))));
    let install = VcpuEvent::JitInstall { handle: 1, code: 2 };
    assert_eq!(run(&st, install, look(1, (1, 5))), ParStep::Install(Ok((1, 5))));
    let remove = VcpuEvent::JitUninstall { handle: 1 };
    assert_eq!(run(&st, remove, look(1, (2, 5))), ParStep::Uninstall(Ok(())));
}

#[test]
fn units_resolve_within_their_domain() {
    assert_eq!(par_resolve_unit(&look(1, (1, 4))), Ok((1, 4)));
    assert_eq!(par_resolve_unit(&look(1, (2, 4))), Err(Trap::CapFault));
    let mut gone = look(1, (1, 4));
    gone.has_funcs = false;
    assert_eq!(par_resolve_unit(&gone), Err(Trap::CapFault));
    let mut bad = look(1, (1, 4));
    bad.domain = Err(Trap::Other);
    assert_eq!(par_resolve_domain(&bad), Err(Trap::Other));
    assert_eq!(svm_par_deliver_join(5, 0), Ok(5));
    assert!(svm_par_deliver_join(5, 1).is_err());
}

#[test]
fn eligibility_needs_an_emitted_all_i64_body() {
    let sigs = [
        sig(&[ValType::I64], &[]),
        sig(&[ValType::I64], &[ValType::I64]),
        sig(&[ValType::I32], &[]),
    ];
    assert_eq!(tierup_eligible(&[true, false, true], &sigs), vec![true, false, false]);
    assert!(all_shimmable(&sigs, 1));
    assert!(!all_shimmable(&sigs, 0));
    assert!(!all_shimmable(&[sig(&[ValType::V128], &[])], 9));
}

fn pumped(imports: &[&str], memory: Option<u8>, sigs: Vec<Sig>) -> TierupModule {
    TierupModule {
        shape: OnrampModule {
            entry_params: Some(0),
            imports: imports.iter().map(|s| s.to_string()).collect(),
            exports: vec![ExportEntry { name: "_start".to_string(), func: 0 }],
            memory_log2: memory,
        },
        sigs,
        concurrent: false,
    }
}

#[test]
fn a_pump_is_planned_and_opened() {
    let wide = sig(&[ValType::V128], &[]);
    let leaf = sig(&[ValType::I64], &[ValType::I64]);
    let p = plan_tierup(&Some(pumped(&["vm_jit_compile"], Some(16), vec![leaf])), 8).unwrap();
    assert_eq!((p.win_log2, p.shared_table, p.jit_importer, p.emit_units), (25, true, true, true));
    let p = plan_tierup(&Some(pumped(&[], Some(27), vec![wide])), 8).unwrap();
    assert_eq!((p.win_log2, p.shared_table, p.emit_units), (27, false, false));
    assert_eq!(plan_coop(&Some(pumped(&[], Some(27), vec![])), 8).unwrap().win_log2, 27);
    assert_eq!(plan_coop(&None, 8).unwrap_err(), STATUS_DECODE_ERR);
    assert_eq!(plan_tierup(&None, 8).unwrap_err(), STATUS_DECODE_ERR);
    assert_eq!(plan_tierup(&Some(pumped(&[], None, vec![])), 8).unwrap_err(), STATUS_UNSUPPORTED);
    assert_eq!(admit_tierup(&p, None, &[]), Err(STATUS_UNSUPPORTED));
    assert_eq!(admit_tierup(&p, Some(&[false]), &[]), Err(STATUS_UNSUPPORTED));

    let mut cap = Capture::new();
    let leaf = || sig(&[ValType::I64], &[ValType::I64]);
    let (code, run) =
        svm_onramp_tierup_open(&mut cap, Some(pumped(&[], Some(16), vec![leaf()])), 8, Some(vec![true]), Build::Ready);
    assert_eq!((code, run.is_some(), cap.last_status), (0, true, STATUS_OK));
    let (code, run) =
        svm_coop_open(&mut cap, Some(pumped(&[], Some(16), vec![leaf()])), 8, Some(vec![true]), Build::Failed);
    assert_eq!((code, run.is_none(), cap.last_status), (-STATUS_TRAP, true, STATUS_TRAP));
    let (code, _) =
        svm_coop_open(&mut cap, Some(pumped(&[], Some(16), vec![leaf()])), 8, Some(vec![false]), Build::Ready);
    assert_eq!(code, -STATUS_UNSUPPORTED);
    assert_eq!(svm_onramp_tierup_open(&mut cap, None, 8, None, Build::Ready).0, -STATUS_DECODE_ERR);
    assert_eq!(unit_window_log2(Some(16), 25), Some(25));
    assert_eq!(unit_window_log2(Some(26), 25), Some(26));
    assert_eq!(unit_window_log2(None, 25), None);
}

#[test]
fn a_concurrent_guest_is_only_pumped_cooperatively() {
    let guest = || {
        let mut m = pumped(&[], Some(16), vec![sig(&[ValType::I64], &[ValType::I64])]);
        m.concurrent = true;
        Some(m)
    };
    assert_eq!(plan_tierup(&guest(), 8).unwrap_err(), STATUS_UNSUPPORTED);
    assert_eq!(plan_coop(&guest(), 8).unwrap().win_log2, 25);
    let mut cap = Capture::new();
    let (code, run) = svm_onramp_tierup_open(&mut cap, guest(), 8, Some(vec![true]), Build::Ready);
    assert_eq!((code, run.is_none(), cap.last_status), (-STATUS_UNSUPPORTED, true, STATUS_UNSUPPORTED));
    let (code, run) = svm_coop_open(&mut cap, guest(), 8, Some(vec![true]), Build::Ready);
    assert_eq!((code, run.is_some(), cap.last_status), (0, true, STATUS_OK));
}

#[test]
fn a_refused_open_leaves_no_run() {
    let guest = || Some(pumped(&[], Some(16), vec![sig(&[ValType::I64], &[ValType::I64])]));
    let mut cap = Capture::new();
    let mut slot = None;
    assert_eq!(replace_coop(&mut cap, &mut slot, guest(), 8, Some(vec![true]), Build::Ready), 0);
    assert_eq!(svm_coop_win_len(&slot), 1 << 25);
    let up = CoopEvent::TierUp { func: 0, argv: vec![], mapped: 1 };
    assert!(matches!(pump_coop(&mut cap, &mut slot, up), TierupStep::Surface(_)));
    assert_eq!(cap.last_status, STATUS_OK);
    let code = replace_coop(&mut cap, &mut slot, None, 8, None, Build::Ready);
    assert_eq!((code, cap.last_status), (-STATUS_DECODE_ERR, STATUS_DECODE_ERR));
    assert!(slot.is_none());
    assert_eq!(svm_coop_win_len(&slot), 0);
    let step = pump_coop(&mut cap, &mut slot, CoopEvent::Done(vec![]));
    assert_eq!((step, cap.last_status), (TierupStep::Surface(COOP_RUN_TRAP), STATUS_UNSUPPORTED));

    assert_eq!(replace_tierup(&mut cap, &mut slot, guest(), 8, Some(vec![true]), Build::Ready), 0);
    assert_eq!(svm_onramp_tierup_win_len(&slot), 1 << 25);
    let code = replace_tierup(&mut cap, &mut slot, guest(), 8, Some(vec![true]), Build::Failed);
    assert_eq!((code, slot.is_none(), cap.last_status), (-STATUS_TRAP, true, STATUS_TRAP));
    assert_eq!(svm_onramp_tierup_win_len(&slot), 0);
    let step = pump_tierup(&mut cap, &mut slot, VcpuEvent::Done(vec![]), look(1, (1, 0)));
    assert_eq!((step, cap.last_status), (TierupStep::Surface(TIERUP_RUN_TRAP), STATUS_UNSUPPORTED));
}

#[test]
fn a_pump_surfaces_and_finishes() {
    let mut run = TierupRun::new(vec![sig(&[ValType::I64], &[])], 16);
    let up = VcpuEvent::TierUp { func: 0, argv: vec![4], mapped: 99 };
    assert_eq!(run.svm_onramp_tierup_run(up, look(1, (1, 0))), TierupStep::Surface(TIERUP_RUN_TIERUP));
    assert_eq!((run.func, run.mapped, run.argv.as_slice()), (0, 99, &[4i64][..]));
    let step = run.svm_onramp_tierup_run(invoke(&[ValType::I32], Some(64)), look(1, (1, 0)));
    assert_eq!(step, TierupStep::Surface(TIERUP_RUN_JIT_INVOKE));
    assert_eq!(run.jit_wasm, Some(vec![1]));
    let join = run.svm_onramp_tierup_run(VcpuEvent::Join { handle: 0 }, look(1, (1, 0)));
    assert!(matches!(join, TierupStep::Finish(v, TIERUP_RUN_TRAP) if v.status == STATUS_TRAP));
    let exit = run.svm_onramp_tierup_run(VcpuEvent::Trapped(Trap::Exit(4)), look(1, (1, 0)));
    assert!(matches!(exit, TierupStep::Finish(v, TIERUP_RUN_DONE) if v.status == STATUS_EXIT && v.exit_code == 4));
    let done = run.svm_coop_run(CoopEvent::Done(vec![Value::I64(11)]));
    assert!(matches!(done, TierupStep::Finish(v, TIERUP_RUN_DONE) if v.value == 11));
    assert_eq!(run.value, 11);
    let none = run.svm_coop_run(CoopEvent::Done(vec![]));
    assert!(matches!(none, TierupStep::Finish(v, _) if v.status == STATUS_OK));
    let odd = run.svm_coop_run(CoopEvent::Done(vec![Value::F64(0)]));
    assert!(matches!(odd, TierupStep::Finish(v, _) if v.status == STATUS_BAD_RESULT));
}

#[test]
fn a_bounce_that_traps_reaches_the_run() {
    let mut run = TierupRun::new(vec![sig(&[], &[])], 16);
    assert_eq!(run.svm_onramp_tierup_deliver_trap(), Trap::Unreachable);
    assert_eq!(run.svm_onramp_tierup_call_interp(Ok(())), 0);
    assert_eq!(run.svm_onramp_tierup_call_interp(Err(Trap::Exit(3))), 1);
    assert_eq!(run.svm_onramp_tierup_deliver_trap(), Trap::Exit(3));
    assert_eq!(run.svm_onramp_tierup_deliver_trap(), Trap::Unreachable);
}

#[test]
fn shims_stand_for_program_functions_and_units() {
    let mut run = TierupRun::new(vec![sig(&[], &[]), sig(&[], &[])], 16);
    assert_eq!(run.svm_onramp_tierup_shim_target(1), ShimTarget::Program(1));
    assert_eq!(run.svm_onramp_tierup_shim_target(5), ShimTarget::Empty);
    run.note_slot(Some(5), 30);
    run.note_slot(None, 31);
    assert_eq!(run.svm_onramp_tierup_slot_code(5), 30);
    assert_eq!(run.svm_onramp_tierup_shim_target(5), ShimTarget::Unit(30));
    assert_eq!(run.svm_coop_shim_target(7, -1), ShimTarget::Empty);
    assert_eq!(run.svm_coop_shim_target(7, 2), ShimTarget::Unit(2));
    assert_eq!(run.svm_onramp_tierup_shim_wasm(Some(vec![1, 2, 3])), 3);
    assert_eq!(run.shim_wasm, vec![1, 2, 3]);
    assert_eq!(run.svm_onramp_tierup_shim_wasm(None), 0);
    assert_eq!(run.svm_onramp_tierup_jit_wasm_by_handle_len(Some(vec![9])), 1);
    assert_eq!(run.svm_onramp_tierup_jit_wasm_by_handle_len(None), 0);
}

#[test]
fn confined_children_are_asked_by_entry() {
    let mut s = ParState::new();
    assert_eq!(s.svm_par_enable_inst_codegen(Some((vec![true], vec![1]))), 0, "no child module");
    s.svm_par_powerbox_inst(Some(InstGrant { win_size: 65536, module: Some(vec![1, 3]) }));
    assert_eq!(s.svm_par_enable_inst_codegen(Some((vec![false, true], vec![2]))), 1);
    assert_eq!(s.svm_par_enable_inst_codegen(Some((vec![true, true], vec![3]))), 1);
    assert_eq!(s.inst_wasm, [2]);
    assert_eq!((s.svm_par_inst_eligible(0), s.svm_par_inst_eligible(1), s.svm_par_inst_eligible(9)), (0, 1, 0));
    assert_eq!((s.svm_par_inst_nparams(1), s.svm_par_inst_nparams(9)), (3, 0));
    s.svm_par_powerbox(Some(PbGrant { jit: 1, code: 1 }));
    assert_eq!(s.svm_par_enable_jit_codegen(Some(vec![4, 5])), 1);
    assert_eq!(s.svm_par_enable_jit_codegen(None), 1);
    assert_eq!(s.unit_wasm, [4, 5]);
    assert!(s.par_jit_codegen());
    assert_eq!(s.svm_par_powerbox_jit_codegen(Some(PbGrant { jit: 1, code: 1 }), 0), 0);
    assert_eq!(s.svm_par_powerbox_jit_codegen(Some(PbGrant { jit: 5, code: 6 }), 1), 1);
    assert!(matches!(s.svm_par_root(), Some(RootPlan::FixedUnit { jit: 5, code: 6, .. })));
}
