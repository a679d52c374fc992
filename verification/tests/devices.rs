//! Devices, reactors, warm sessions and windows.

use temen_browser::capture::Capture;
use temen_browser::caps::{ExportEntry, OnrampModule};
use temen_browser::devices::{
    display_reply, display_request, gpu_request, FileServer, GpuRequest, KeyQueue, DEVICE_NO_ENTRY,
    DEVICE_REFUSED,
};
use temen_browser::entries::{
    svm_onramp_frame, svm_onramp_trap_len, svm_warm_eval, svm_warm_jit_finish, svm_warm_jit_open,
    svm_warm_jit_prepare, svm_warm_open,
};
use temen_browser::reactor::{OnrampReactor, TickEnd};
use temen_browser::slots::Value;
use temen_browser::status::{
    Frame, STATUS_DECODE_ERR, STATUS_EXIT, STATUS_OK, STATUS_TRAP, STATUS_UNSUPPORTED,
};
use temen_browser::tierup::Build;
use temen_browser::traps::Trap;
use temen_browser::warm::{
    judge_warm, plan_warm, seed_heap_words, warm_read_brk, JitOnrampRun, PageEntry, WarmSession,
    PAGE_RW,
};
use temen_browser::window::{
    copy_into, exact_log2, seed_window, size_of_log2, svm_wasmjit_init_window, Segment,
};

fn exporting(names: &[&str], memory: Option<u8>) -> OnrampModule {
    OnrampModule {
        entry_params: Some(0),
        imports: vec![],
        exports: names
            .iter()
            .enumerate()
            .map(|(i, n)| ExportEntry { name: n.to_string(), func: i as u32 })
            .collect(),
        memory_log2: memory,
    }
}

#[test]
fn a_frame_is_presented_within_bounds() {
    let q = display_request(0, &[64, 2, 3]).unwrap();
    assert_eq!((q.ptr, q.len, q.width, q.height), (64, 24, 2, 3));
    assert!(display_request(1, &[64, 2, 3]).is_none());
    assert!(display_request(0, &[64, 0, 3]).is_none());
    assert!(display_request(0, &[64, 2, 8193]).is_none());
    assert!(display_request(0, &[64]).is_none());
    assert_eq!(display_request(0, &[0, 8192, 8192]).unwrap().len, 8192 * 8192 * 4);
    let mut cell = None;
    assert_eq!(display_reply(&mut cell, Some(q), None), DEVICE_REFUSED);
    assert!(cell.is_none());
    assert_eq!(display_reply(&mut cell, Some(q), Some(vec![7; 24])), 0);
    assert_eq!(cell.as_ref().unwrap().rgba.len(), 24);
    assert_eq!(display_reply(&mut cell, None, Some(vec![])), DEVICE_REFUSED);
    assert!(cell.is_some(), "a refused call keeps the last frame");
}

#[test]
fn keys_come_out_in_order() {
    let mut k = KeyQueue::new();
    assert_eq!(k.keyboard_reply(0), -1);
    k.push_key(65, 1);
    k.push_key(0x1_0041, 0);
    assert_eq!(k.keyboard_reply(1), DEVICE_REFUSED);
    assert_eq!(k.keyboard_reply(0), 0x1_0041);
    assert_eq!(k.keyboard_reply(0), 0x41);
    assert_eq!(k.keyboard_reply(0), -1);
}

#[test]
fn gpu_calls_are_bounded() {
    assert_eq!(gpu_request(0, &[16, 1 << 20]), GpuRequest::SetShader { ptr: 16, len: 1 << 20 });
    assert_eq!(gpu_request(0, &[16, (1 << 20) + 1]), GpuRequest::Refuse);
    assert_eq!(gpu_request(0, &[16, -1]), GpuRequest::Refuse);
    assert_eq!(gpu_request(1, &[1, 2]), GpuRequest::Present { a: 1, b: 2, c: 0 });
    assert_eq!(gpu_request(2, &[]), GpuRequest::Refuse);
}

#[test]
fn a_served_file_is_read_in_pieces() {
    let mut f = FileServer::new("doom1.wad".to_string(), b"IWAD!".to_vec());
    assert_eq!(f.open_path("/nothing"), DEVICE_NO_ENTRY);
    assert_eq!(f.serve(0, &[0, 0, 0], b"./\xffdoom1.wad").value, 0);
    assert_eq!(f.open_path("doom1.wad"), 1);
    let r = f.serve(1, &[0, 100, 3], b"");
    let w = r.write.unwrap();
    assert_eq!((r.value, w.ptr, w.bytes.as_slice()), (3, 100, &b"IWA"[..]));
    assert_eq!(f.read(0, 9), (2, b"D!".to_vec()));
    assert_eq!(f.read(0, 9), (0, vec![]));
    assert_eq!(f.read(1, 1), (1, b"I".to_vec()));
    assert_eq!(f.read(7, 1), (DEVICE_REFUSED, vec![]));
    assert_eq!(f.seek(0, 2, -2), 3);
    assert_eq!(f.seek(0, 1, -10), 0);
    assert_eq!(f.seek(0, 0, 4), 4);
    assert_eq!(f.seek(9, 0, 0), DEVICE_REFUSED);
    assert_eq!(f.read(0, u64::MAX), (1, b"!".to_vec()), "a length is cut to the file");
    assert_eq!(f.seek(0, 0, 90), 90);
    assert_eq!(f.read(0, u64::MAX), (0, vec![]), "nothing lies past the end");
    assert_eq!(f.cursors[0], 5);
    assert_eq!(f.seek(0, 2, i64::MAX), i64::MAX);
    assert_eq!(f.seek(0, 1, i64::MAX), i64::MAX);
    let r = f.serve(1, &[0, 100, -1], b"");
    assert!(r.value == 0 && r.write.is_none());
    assert_eq!(f.serve(2, &[0, 0, 44], b"").value, 44);
    assert_eq!(f.serve(4, &[0], b"").value, 0);
}

#[test]
fn a_reactor_opens_on_its_tick() {
    let m = exporting(&["_start", "tick"], Some(16));
    assert_eq!(OnrampReactor::open(&m, Build::Ready, true).unwrap().tick, 1);
    assert_eq!(OnrampReactor::open(&m, Build::Failed, true).unwrap_err(), STATUS_TRAP);
    assert_eq!(OnrampReactor::open(&m, Build::Outside, true).unwrap_err(), STATUS_UNSUPPORTED);
    assert_eq!(OnrampReactor::open(&m, Build::Ready, false).unwrap_err(), STATUS_UNSUPPORTED);
    let no_tick = exporting(&["_start"], Some(16));
    assert_eq!(OnrampReactor::open(&no_tick, Build::Ready, true).unwrap_err(), STATUS_UNSUPPORTED);
}

#[test]
fn frames_hand_over_what_is_new() {
    let m = exporting(&["_start", "tick"], Some(16));
    let mut cap = Capture::new();
    let mut none = None;
    assert_eq!(svm_onramp_frame(&mut cap, &mut none, TickEnd::Returned, b"", 0), STATUS_UNSUPPORTED);
    let mut open = Some(OnrampReactor::open(&m, Build::Ready, true).unwrap());
    open.as_mut().unwrap().frame = Some(Frame { width: 1, height: 1, rgba: vec![9; 4] });
    open.as_mut().unwrap().push_key(10, 1);
    assert_eq!(svm_onramp_frame(&mut cap, &mut open, TickEnd::Returned, b"abcd", 2), STATUS_OK);
    assert_eq!((cap.out.as_slice(), cap.fb_w, cap.fb.len()), (&b"cd"[..], 1, 4));
    assert_eq!(svm_onramp_frame(&mut cap, &mut open, TickEnd::Exited(1), b"abcd", 4), STATUS_EXIT);
    assert_eq!((cap.out.len(), cap.fb_w), (0, 0));
    let trapped = TickEnd::Trapped("MemoryFault é".to_string());
    assert_eq!(svm_onramp_frame(&mut cap, &mut open, trapped, b"abcd", 4), STATUS_TRAP);
    assert_eq!(open.as_ref().unwrap().last_trap(), "MemoryFault é");
    assert_eq!(svm_onramp_trap_len(&mut cap, &open), 14);
    assert_eq!(cap.out, "MemoryFault é".as_bytes());
    assert_eq!(svm_onramp_trap_len(&mut cap, &None), 0);
    assert_eq!(open.as_ref().unwrap().keys.events.len(), 1);
}

#[test]
fn warm_guests_need_both_entries() {
    let ok = plan_warm(&Some(exporting(&["eval_run", "warmup"], Some(20)))).unwrap();
    assert_eq!((ok.warmup_fn, ok.eval_fn, ok.declared_log2), (1, 0, 20));
    assert!(plan_warm(&Some(exporting(&["eval_run", "warmup"], Some(25)))).is_ok());
    assert_eq!(plan_warm(&None).unwrap_err(), STATUS_DECODE_ERR);
    for m in [
        exporting(&["warmup"], Some(20)),
        exporting(&["warmup", "eval_run"], None),
        exporting(&["warmup", "eval_run"], Some(26)),
        exporting(&["warmup", "eval_run"], Some(27)),
    ] {
        assert_eq!(plan_warm(&Some(m)).unwrap_err(), STATUS_UNSUPPORTED);
    }
}

fn warmed() -> (WarmSession, Vec<u8>) {
    let mut w = vec![0u8; 64];
    seed_heap_words(&mut w, 0, 8, 20);
    assert_eq!(warm_read_brk(&w, 0), 20);
    w[19] = 5;
    let s = WarmSession::keep(&w, 0, &Ok(vec![]), Some(vec![]), 3).unwrap();
    (s, w)
}

#[test]
fn every_run_starts_from_the_warm_image() {
    let (s, warm) = warmed();
    assert_eq!((s.image.len(), s.dirty_end), (20, 20));
    let mut session = Some(s);
    let mut cap = Capture::new();
    let mut w = warm.clone();
    w[3] = 99;
    w[40] = 7;
    copy_into(&mut w, 0, &30u64.to_le_bytes());
    let pages = vec![
        PageEntry { off: 32, kind: PAGE_RW },
        PageEntry { off: 56, kind: 2 },
    ];
    let ran = Ok(vec![Value::I32(4)]);
    let r = svm_warm_eval(&mut cap, &mut session, &ran, &w, Some(pages), 16, b"o".to_vec(), vec![]);
    assert_eq!((r, cap.last_status, cap.out.as_slice()), (4, STATUS_OK, &b"o"[..]));
    assert_eq!(session.as_ref().unwrap().dirty_end, 48);
    session.as_ref().unwrap().restore(&mut w);
    assert_eq!(w, warm);
    session.as_ref().unwrap().restore(&mut w);
    assert_eq!(w, warm);
}

#[test]
fn a_warm_session_reports_its_image() {
    let mut cap = Capture::new();
    let m = Some(exporting(&["warmup", "eval_run"], Some(16)));
    let (len, s) = svm_warm_open(&mut cap, &m, true, true, Some(warmed().0));
    assert_eq!((len, s.is_some(), cap.last_status), (20, true, STATUS_OK));
    let (len, s) = svm_warm_open(&mut cap, &m, true, true, None);
    assert_eq!((len, s.is_none(), cap.last_status), (-1, true, STATUS_TRAP));
    svm_warm_open(&mut cap, &m, true, false, Some(warmed().0));
    assert_eq!(cap.last_status, STATUS_TRAP);
    svm_warm_open(&mut cap, &m, false, true, Some(warmed().0));
    assert_eq!(cap.last_status, STATUS_UNSUPPORTED);
    svm_warm_open(&mut cap, &None, true, true, None);
    assert_eq!(cap.last_status, STATUS_DECODE_ERR);
}

#[test]
fn presented_frames_replace_the_last() {
    let mut cap = Capture::new();
    assert_eq!(cap.svm_onramp_jit_present(Some(Frame { width: 2, height: 1, rgba: vec![1; 8] })), 1);
    assert_eq!(cap.svm_onramp_jit_present(None), 0);
    assert_eq!((cap.fb_w, cap.fb_h, cap.fb.len()), (2, 1, 8));
    let m = exporting(&[], Some(16));
    assert_eq!((m.enlarged_log2(24), m.enlarged_log2(10)), (24, 16));
}

#[test]
fn a_warm_session_must_exist() {
    let mut cap = Capture::new();
    let mut none = None;
    let r = svm_warm_eval(&mut cap, &mut none, &Err(Trap::Other), &[], None, 0, vec![], vec![]);
    assert_eq!((r, cap.last_status), (-1, STATUS_UNSUPPORTED));
    assert_eq!(svm_warm_jit_open(&mut cap, &mut none, Ok(())), -STATUS_UNSUPPORTED);
    let w = vec![0u8; 16];
    assert!(WarmSession::keep(&w, 0, &Err(Trap::Other), Some(vec![]), 0).is_none());
    assert!(WarmSession::keep(&w, 0, &Err(Trap::Exit(0)), Some(vec![]), 0).is_some());
    assert!(WarmSession::keep(&w, 0, &Ok(vec![]), None, 0).is_none());
    assert_eq!(judge_warm(&Err(Trap::Exit(2))).exit_code, 2);
    assert_eq!(judge_warm(&Err(Trap::CapFault)).status, STATUS_TRAP);
    assert_eq!(judge_warm(&Ok(vec![Value::F64(1)])).value, 0);
}

#[test]
fn a_warm_session_runs_on_emitted_code() {
    let (s, warm) = warmed();
    let mut session = Some(s);
    let mut cap = Capture::new();
    let mut run = JitOnrampRun::new();
    let mut w = warm.clone();
    w[1] = 1;
    assert_eq!(svm_warm_jit_prepare(&mut cap, &session, &mut w, &mut run), -STATUS_UNSUPPORTED);
    assert_eq!(svm_warm_jit_open(&mut cap, &mut session, Err(STATUS_TRAP)), -STATUS_TRAP);
    assert_eq!(svm_warm_jit_open(&mut cap, &mut session, Ok(())), 0);
    assert_eq!(svm_warm_jit_open(&mut cap, &mut session, Err(STATUS_TRAP)), 0, "open already");
    run.record_outcome(true, 1);
    assert_eq!(svm_warm_jit_prepare(&mut cap, &session, &mut w, &mut run), 0);
    assert_eq!((run, &w), (JitOnrampRun::new(), &warm));
    run.record_outcome(false, 12);
    copy_into(&mut w, 0, &40u64.to_le_bytes());
    let status = svm_warm_jit_finish(&mut cap, &mut session, &run, &w, b"x".to_vec(), vec![]);
    assert_eq!((status, cap.run_value, session.unwrap().dirty_end), (STATUS_OK, 12, 40));
    assert_eq!(svm_warm_jit_finish(&mut cap, &mut None, &run, &w, vec![], vec![]), STATUS_UNSUPPORTED);
}

#[test]
fn windows_are_powers_of_two() {
    assert_eq!(exact_log2(65536), Some(16));
    assert_eq!(exact_log2(1), Some(0));
    assert_eq!(exact_log2(0), None);
    assert_eq!(exact_log2(65535), None);
    assert_eq!(size_of_log2(63), 1 << 63);
}

#[test]
fn a_window_is_seeded_and_foreign_segments_are_skipped() {
    let mut w = [0u8; 8];
    let segs = [
        Segment { offset: 2, bytes: vec![5, 6] },
        Segment { offset: 7, bytes: vec![9, 9] },
        Segment { offset: u64::MAX, bytes: vec![1] },
    ];
    seed_window(&mut w, &[1, 1, 1], &segs);
    assert_eq!(w, [1, 1, 5, 6, 0, 0, 0, 0]);
    let mut small = [3u8; 2];
    seed_window(&mut small, &[1, 1, 1], &[]);
    assert_eq!(small, [3, 3], "a prefix that does not fit is left out");
}

#[test]
fn a_window_is_initialised_and_segments_are_cut_to_it() {
    let mut w = [0u8; 6];
    svm_wasmjit_init_window(
        &mut w,
        &[
            Segment { offset: 4, bytes: b"ABCD".to_vec() },
            Segment { offset: 6, bytes: vec![1] },
            Segment { offset: u64::MAX, bytes: vec![2] },
            Segment { offset: 1, bytes: vec![3, 4] },
        ],
    );
    assert_eq!(w, [0, 3, 4, 0, b'A', b'B']);
}
