//! Runs as data.

use temen_browser::op13::{
    argv_bytes, drive_op13, make_exec, op13_parent_src, phase_layout, phase_status, record_child,
    DriveStep, ExecStep,
};
use temen_browser::plan::{bad_name_message, not_held_message, Node, Plan};
use temen_browser::slots::Value;
use temen_browser::traps::{Trap, VcpuEvent};

fn texts(items: &[&str]) -> Vec<String> {
    items.iter().map(|s| s.to_string()).collect()
}

#[test]
fn a_single_node_is_granted_everything() {
    let p = Plan::single(20, &["nifler", "p"], &["fs", "stdout"]);
    assert_eq!(p.caps, texts(&["fs", "stdout"]));
    assert_eq!(p.nodes.len(), 1);
    assert_eq!(p.nodes[0].window_log2, 20);
    assert_eq!(p.nodes[0].argv, texts(&["nifler", "p"]));
    assert!(p.nodes[0].env.is_empty());
    assert_eq!(p.nodes[0].grants, texts(&["fs", "stdout"]));
    assert_eq!(p.window_bytes(), 1 << 20);
}

#[test]
fn the_root_of_a_single_node() {
    let p = Plan::single(20, &["n"], &["fs"]);
    let want = "memory 16\n\
data 18432 \"fs\"\n\
data 20480 \"\\x01\\x00\\x00\\x00\\x00\\x00\\x00\\x00\\x6e\\x00\"\n\
func (i32, i32, i32, i32) -> (i64) {\n\
block 0 (v0: i32, v1: i32, v2: i32, v3: i32) {\n  \
xr17408 = i64.const 8589953024\n  or17408 = i64.const 17408\n  i64.store or17408 xr17408\n  \
h17408 = i64.extend_i32_u v3\n  oh17408 = i64.const 17416\n  i64.store oh17408 h17408\n  \
vmh = i64.extend_i32_u v1\n  vmin = i64.extend_i32_u v2\n  \
vgptr = i64.const 17408\n  vgn = i64.const 1\n  ventry = i64.const 0\n  \
vlog = i64.const 20\n  vq = i64.const 0\n  vap = i64.const 20480\n  val = i64.const 10\n  \
vh = call.cap 6 15 (i64, i64, i64, i64, i64, i64, i64, i64, i64) -> (i32) v0 (vmin, vmh, vgptr, vgn, ventry, vlog, vq, vap, val)\n  \
vr = call.cap 6 1 (i32) -> (i64) v0 (vh)\n  \
return vr\n  }\n}\n";
    assert_eq!(p.root_src().unwrap(), want);
}

#[test]
fn later_nodes_are_numbered_and_laid_out_behind() {
    let p = Plan {
        caps: texts(&["fs", "exit"]),
        nodes: vec![
            Node { window_log2: 17, argv: texts(&["a"]), env: vec![], grants: texts(&["exit"]) },
            Node {
                window_log2: 18,
                argv: vec![],
                env: vec![b"K=V".to_vec()],
                grants: texts(&["fs", "exit"]),
            },
        ],
    };
    assert_eq!(p.window_bytes(), (1 << 17) + (1 << 18));
    let src = p.root_src().unwrap();
    assert!(src.contains("data 20480 \"\\x01"));
    assert!(src.contains("data 20490 \"\\x00\\x00\\x00\\x00\\x01\\x00\\x00\\x00\\x4b\\x3d\\x56\\x00\"\n"));
    assert!(src.contains("  vgptr = i64.const 17408\n  vgn = i64.const 1\n"));
    assert!(src.contains("  vgptr_1 = i64.const 17424\n  vgn_1 = i64.const 2\n"));
    assert!(src.contains("  vmh_1 = i64.extend_i32_u v2\n  vgptr_1"));
    assert!(src.contains("  h17408 = i64.extend_i32_u v5\n"));
    assert!(src.contains("  h17424 = i64.extend_i32_u v4\n"));
    assert!(src.ends_with("  return vr_1\n  }\n}\n"));
}

#[test]
fn a_plan_that_does_not_fit_is_refused() {
    let none = Plan { caps: vec![], nodes: vec![] };
    assert_eq!(none.root_src().unwrap_err(), "a plan spawns at least one node");

    let many: Vec<String> = (0..129).map(|i| format!("c{i}")).collect();
    let names: Vec<&str> = many.iter().map(String::as_str).collect();
    assert_eq!(
        Plan::single(16, &[], &names).root_src().unwrap_err(),
        "129 root capabilities do not fit"
    );
    assert_eq!(
        Plan::single(16, &[], &names[..65]).root_src().unwrap_err(),
        "65 grant records do not fit"
    );
    assert!(Plan::single(16, &[], &names[..64]).root_src().is_ok());

    let long = "x".repeat(46000);
    assert_eq!(
        Plan::single(16, &[long.as_str()], &[]).root_src().unwrap_err(),
        "the nodes' argv does not fit the root's window"
    );
}

#[test]
fn a_name_is_a_short_word() {
    for bad in ["", "a b", "seventeen-letters", "q\"", "b\\", "é", "tab\t"] {
        assert_eq!(
            Plan::single(16, &[], &[bad]).root_src().unwrap_err(),
            format!("capability name {bad:?} is not a short ASCII word")
        );
    }
    assert!(Plan::single(16, &[], &["sixteen-letters!"]).root_src().is_ok());
    assert_eq!(
        bad_name_message("\"x\""),
        "capability name \"x\" is not a short ASCII word"
    );
}

#[test]
fn a_grant_comes_from_the_root() {
    let p = Plan {
        caps: texts(&["fs"]),
        nodes: vec![Node { window_log2: 16, argv: vec![], env: vec![], grants: texts(&["net"]) }],
    };
    assert_eq!(
        p.root_src().unwrap_err(),
        "a node is granted \"net\", which the root does not hold"
    );
    assert_eq!(not_held_message("x"), "a node is granted x, which the root does not hold");
}

#[test]
fn root_arguments_follow_the_parameters() {
    let p = Plan::single(16, &[], &["fs", "exit"]);
    assert_eq!(
        p.root_args(10, &[20], 30, &[40, 41]),
        vec![
            Value::I32(10),
            Value::I32(20),
            Value::I32(30),
            Value::I32(40),
            Value::I32(41)
        ]
    );
}

#[test]
fn a_phase_gets_room_for_its_heap() {
    let a = phase_layout(Some(16));
    assert_eq!((a.child_log2, a.carve, a.window), (24, 1 << 24, 1 << 25));
    let b = phase_layout(Some(25));
    assert_eq!((b.child_log2, b.carve, b.window), (28, 1 << 28, 1 << 29));
    assert_eq!(phase_layout(None).child_log2, 27);
}

#[test]
fn the_parent_of_a_phase() {
    let argv = texts(&["n", "/a"]);
    assert_eq!(argv_bytes(&argv), vec![b"n".to_vec(), b"/a".to_vec()]);
    let want = "memory 25\n\
data 18432 \"fs\"\n\
data 18448 \"stdout\"\n\
data 18464 \"exit\"\n\
data 16793600 \"\\x02\\x00\\x00\\x00\\x00\\x00\\x00\\x00\\x6e\\x00\\x2f\\x61\\x00\"\n\
func (i32, i32, i32, i32, i32) -> (i64) {\n\
block 0 (v0: i32, v1: i32, v2: i32, v3: i32, v4: i32) {\n  \
x17408 = i64.const 8589953024\n  o17408 = i64.const 17408\n  i64.store o17408 x17408\n  \
hf = i64.extend_i32_u v2\n  ohf = i64.const 17416\n  i64.store ohf hf\n  \
x17424 = i64.const 25769822224\n  o17424 = i64.const 17424\n  i64.store o17424 x17424\n  \
hs = i64.extend_i32_u v3\n  ohs = i64.const 17432\n  i64.store ohs hs\n  \
x17440 = i64.const 17179887648\n  o17440 = i64.const 17440\n  i64.store o17440 x17440\n  \
he = i64.extend_i32_u v4\n  ohe = i64.const 17448\n  i64.store ohe he\n  \
vmh = i64.extend_i32_u v1\n  vgptr = i64.const 17408\n  vgn = i64.const 3\n  \
ventry = i64.const 0\n  voff = i64.const 16777216\n  vsl = i64.const 24\n  vq = i64.const 0\n  \
vh = call.cap 6 13 (i64, i64, i64, i64, i64, i64, i64) -> (i32) v0 (vmh, vgptr, vgn, ventry, voff, vsl, vq)\n  \
vr = call.cap 6 1 (i32) -> (i64) v0 (vh)\n  return vr\n  }\n}\n";
    assert_eq!(op13_parent_src(24, 1 << 24, 16384, &argv), want);
}

#[test]
fn a_phase_status() {
    assert_eq!(phase_status(&None), -2);
    assert_eq!(phase_status(&Some(Ok(vec![]))), 0);
    assert_eq!(phase_status(&Some(Ok(vec![Value::I32(-3)]))), -3);
    assert_eq!(phase_status(&Some(Ok(vec![Value::F64(1)]))), 0);
    assert_eq!(phase_status(&Some(Err(Trap::Exit(5)))), 5);
    assert_eq!(phase_status(&Some(Err(Trap::Unreachable))), -1);
}

#[test]
fn a_child_is_joined_by_its_handle() {
    let mut children = Vec::new();
    assert_eq!(record_child(&mut children, Ok(vec![Value::I64(7)])), 0);
    assert_eq!(record_child(&mut children, Err(Trap::Exit(2))), 1);
    match drive_op13(&children, VcpuEvent::Join { handle: 0 }) {
        DriveStep::Join(r) => assert_eq!(r, Ok(vec![Value::I64(7)])),
        other => panic!("{other:?}"),
    }
    match drive_op13(&children, VcpuEvent::Join { handle: 1 }) {
        DriveStep::Join(r) => assert_eq!(r, Err(Trap::Exit(2))),
        other => panic!("{other:?}"),
    }
    let start = VcpuEvent::Instantiate { module: 1, entry: 0, carve: 64, size_log2: 6, fuel: 9 };
    assert!(matches!(
        drive_op13(&children, start),
        DriveStep::Start { module: 1, entry: 0, carve: 64, size_log2: 6, fuel: 9 }
    ));
    assert!(matches!(
        drive_op13(&children, VcpuEvent::StdinPark),
        DriveStep::Return(Err(Trap::Other))
    ));
    assert!(matches!(
        drive_op13(&children, VcpuEvent::Trapped(Trap::CapFault)),
        DriveStep::Return(Err(Trap::CapFault))
    ));
    assert!(matches!(drive_op13(&children, VcpuEvent::Done(vec![])), DriveStep::Return(Ok(_))));
}

#[test]
fn only_the_parser_can_be_run() {
    assert!(matches!(make_exec(false, Err(-5), -1), ExecStep::Table));
    assert!(matches!(make_exec(true, Err(-5), -1), ExecStep::Refused(-5)));
    assert!(matches!(make_exec(true, Ok(vec![]), -1), ExecStep::Refused(-1)));
    assert!(matches!(make_exec(true, Ok(texts(&["sh"])), -1), ExecStep::Refused(-1)));
    for name in ["nifler", "/bin/nifler"] {
        match make_exec(true, Ok(texts(&[name, "p"])), -1) {
            ExecStep::Run(argv) => assert_eq!(argv, texts(&[name, "p"])),
            other => panic!("{other:?}"),
        }
    }
}
