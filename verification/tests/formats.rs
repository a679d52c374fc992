//! The wire forms: argument blocks, symbol tables, command registries, numbers and strings.

use temen_browser::args::{pg_args_blob, seeded_prefix, write_args_blob};
use temen_browser::fmt::{hex_escape, json_string, push_dec, push_int};
use temen_browser::shell::{judge_shell, parse_shell_cmds, posix_heap_base};
use temen_browser::slots::Value;
use temen_browser::status::{RunResult, STATUS_EXIT, STATUS_OK, STATUS_TRAP, STATUS_UNSUPPORTED};
use temen_browser::symtab::{
    browser_jit_validator, decode_symtab, encode_symtab, resolve_symbol, Resolved, ResolvedCap,
    SymCursor, SymEntry, UnitFacts, EINVAL,
};
use temen_browser::text::{
    chars_of, has_part, has_prefix, is_white, join, same_text, split_chars, text_of, trim_chars,
};
use temen_browser::traps::Trap;

#[test]
fn an_argument_block_counts_and_terminates() {
    let argv = vec![b"chibicc".to_vec(), b"/in.c".to_vec()];
    let env = vec![b"A=1".to_vec()];
    let mut want = vec![2, 0, 0, 0, 1, 0, 0, 0];
    want.extend_from_slice(b"chibicc\0/in.c\0A=1\0");
    assert_eq!(write_args_blob(&argv, &env), want);
    assert_eq!(pg_args_blob(&[]), vec![0u8; 8]);
    assert_eq!(seeded_prefix(3, &[9, 8]), vec![0, 0, 0, 9, 8]);
}

#[test]
fn a_symbol_table_is_read_back() {
    let table = vec![
        SymEntry { name: "jaclrt_add".to_string(), link: Resolved::Slot(300) },
        SymEntry {
            name: "clock".to_string(),
            link: Resolved::Cap(ResolvedCap { type_id: 2, op: 0 }),
        },
    ];
    let bytes = encode_symtab(&table);
    let mut want = vec![2, 10];
    want.extend_from_slice(b"jaclrt_add");
    want.extend_from_slice(&[0, 0xac, 2, 5]);
    want.extend_from_slice(b"clock");
    want.extend_from_slice(&[1, 2, 0]);
    assert_eq!(bytes, want);
    let back = decode_symtab(&bytes).unwrap();
    assert_eq!(back.len(), 2);
    assert_eq!(back[0].name, "jaclrt_add");
    assert_eq!(back[0].link, Resolved::Slot(300));
    assert_eq!(resolve_symbol(&back, "clock"), Some(table[1].link));
    assert_eq!(resolve_symbol(&back, "missing"), None);
}

#[test]
fn a_damaged_symbol_table_is_refused() {
    assert_eq!(decode_symtab(&[]).unwrap().len(), 0);
    assert!(decode_symtab(&[0, 0]).is_none(), "trailing byte");
    assert!(decode_symtab(&[1, 1, b'x', 2]).is_none(), "unknown kind");
    assert!(decode_symtab(&[1, 1, 0xff, 0, 0]).is_none(), "name is no text");
    assert!(decode_symtab(&[1, 5, b'x']).is_none(), "truncated");
    assert!(
        decode_symtab(&[1, 1, b'x', 0, 0x80, 0x80, 0x80, 0x80, 0x10]).is_none(),
        "slot past 32 bits"
    );
}

#[test]
fn variable_length_numbers_stop_at_64_bits() {
    let max = [0xff, 0xff, 0xff, 0xff, 0xff, 0xff, 0xff, 0xff, 0xff, 0x01];
    let mut c = SymCursor { bytes: &max, pos: 0 };
    assert_eq!(c.uleb(), Some(u64::MAX));
    let over = [0xff, 0xff, 0xff, 0xff, 0xff, 0xff, 0xff, 0xff, 0xff, 0x02];
    let mut c = SymCursor { bytes: &over, pos: 0 };
    assert_eq!(c.uleb(), None);
    let mut c = SymCursor { bytes: &[0x7f], pos: 0 };
    assert_eq!(c.u32(), Some(127));
    assert_eq!(c.byte(), None);
}

#[test]
fn a_unit_is_admitted_only_whole() {
    let fine = |f: fn(&mut UnitFacts)| {
        let mut u = UnitFacts {
            resolved: true,
            verified: true,
            memory_log2: Some(16),
            has_data: false,
            has_funcs: true,
            concurrent: false,
        };
        f(&mut u);
        browser_jit_validator(&[], Some(u), Some(16)).map(|t| t.len())
    };
    assert_eq!(fine(|_| {}), Ok(0));
    assert_eq!(fine(|u| u.resolved = false), Err(EINVAL));
    assert_eq!(fine(|u| u.verified = false), Err(EINVAL));
    assert_eq!(fine(|u| u.memory_log2 = None), Err(EINVAL));
    assert_eq!(fine(|u| u.has_data = true), Err(EINVAL));
    assert_eq!(fine(|u| u.has_funcs = false), Err(EINVAL));
    assert_eq!(fine(|u| u.concurrent = true), Err(EINVAL));
    assert_eq!(browser_jit_validator(&[], None, None).map(|t| t.len()), Err(EINVAL));
    assert_eq!(browser_jit_validator(&[9], None, None).map(|t| t.len()), Err(EINVAL));
}

#[test]
fn a_registry_is_read_up_to_its_first_fault() {
    let mut b = vec![2, 0, 0, 0];
    b.extend_from_slice(&[2, 0, 0, 0]);
    b.extend_from_slice("é".as_bytes());
    b.extend_from_slice(&[3, 0, 0, 0, 1, 2, 3]);
    b.extend_from_slice(&[9, 0, 0, 0, b'x']);
    let cmds = parse_shell_cmds(&b);
    assert_eq!(cmds.len(), 1);
    assert_eq!(cmds[0].name, "é");
    assert_eq!(cmds[0].module, vec![1, 2, 3]);
    assert_eq!(parse_shell_cmds(&[1, 0]).len(), 0);
    assert_eq!(parse_shell_cmds(&[1, 0, 0, 0, 1, 0, 0, 0, 0xff, 0, 0, 0, 0]).len(), 0);
}

#[test]
fn a_shell_that_returns_nothing_is_fine() {
    let v = judge_shell(&RunResult::Returned(vec![]));
    assert_eq!((v.status, v.value), (STATUS_OK, 0));
    let v = judge_shell(&RunResult::Returned(vec![Value::F64(1)]));
    assert_eq!((v.status, v.value), (STATUS_OK, 0));
    let v = judge_shell(&RunResult::Trapped(Trap::Exit(7)));
    assert_eq!((v.status, v.exit_code), (STATUS_EXIT, 7));
    assert_eq!(judge_shell(&RunResult::Trapped(Trap::Other)).status, STATUS_TRAP);
    assert_eq!(judge_shell(&RunResult::Unsupported).status, STATUS_UNSUPPORTED);
    assert_eq!(posix_heap_base(1 << 20), (1 << 20) - 65536);
    assert_eq!(posix_heap_base(10), 0);
}

#[test]
fn numbers_are_written_in_decimal() {
    let mut s = String::new();
    push_dec(&mut s, 0);
    s.push(' ');
    push_dec(&mut s, u64::MAX);
    s.push(' ');
    push_int(&mut s, i64::MIN);
    s.push(' ');
    push_int(&mut s, 905);
    assert_eq!(s, format!("0 {} {} 905", u64::MAX, i64::MIN));
}

#[test]
fn bytes_are_escaped_four_characters_each() {
    assert_eq!(hex_escape(&[0, 9, 10, 0x5a, 0xff]), "\\x00\\x09\\x0a\\x5a\\xff");
    assert_eq!(hex_escape(&[]), "");
}

#[test]
fn strings_are_escaped_for_json() {
    assert_eq!(json_string("a\"b\\c\n\r\t\u{1}é"), "\"a\\\"b\\\\c\\n\\r\\t\\u0001é\"");
    assert_eq!(json_string("\u{1f}"), "\"\\u001f\"");
}

#[test]
fn white_space_is_what_the_language_says() {
    for u in 0..=0x10ffffu32 {
        if let Some(c) = char::from_u32(u) {
            assert_eq!(is_white(c), c.is_whitespace(), "U+{u:04X}");
        }
    }
}

#[test]
fn text_helpers_agree_with_the_language() {
    assert_eq!(text_of(&chars_of("héllo")), "héllo");
    assert!(same_text("é", "é"));
    assert!(!same_text("é", "e"));
    assert!(has_prefix("vm_jit_compile", "vm_jit_"));
    assert!(!has_prefix("vm", "vm_jit_"));
    assert!(has_part("abcabd", "abd"));
    assert!(!has_part("ab", "abc"));
    assert!(has_part("x", ""));
    assert_eq!(
        join(&["a".to_string(), "b".to_string(), "c".to_string()], "::"),
        "a::b::c"
    );
    assert_eq!(join(&[], "x"), "");
    assert_eq!(text_of(trim_chars(&chars_of(" \t x y\n"))), "x y");
    let parts: Vec<String> = split_chars(&chars_of("/a//b"), '/').iter().map(|p| text_of(p)).collect();
    assert_eq!(parts, vec!["", "a", "", "b"]);
}

#[test]
fn an_entry_whose_name_is_no_text_is_dropped_alone() {
    let mut b = vec![2, 0, 0, 0];
    b.extend_from_slice(&[1, 0, 0, 0, 0xff, 1, 0, 0, 0, 9]);
    b.extend_from_slice(&[2, 0, 0, 0, b'l', b's', 1, 0, 0, 0, 7]);
    let cmds = parse_shell_cmds(&b);
    assert_eq!(cmds.len(), 1);
    assert_eq!((cmds[0].name.as_str(), cmds[0].module.as_slice()), ("ls", &[7u8][..]));
}

#[test]
fn a_refused_read_stops_where_that_shows() {
    let mut c = SymCursor { bytes: &[0x80, 0x80], pos: 0 };
    assert_eq!((c.uleb(), c.pos), (None, 2), "the number goes on past the end");
    let long = [0xff; 12];
    let mut c = SymCursor { bytes: &long, pos: 1 };
    assert_eq!((c.uleb(), c.pos), (None, 11), "the tenth digit overflows");
    let mut c = SymCursor { bytes: &[0x80, 0x80, 0x80, 0x80, 0x10, 7], pos: 0 };
    assert_eq!((c.u32(), c.pos), (None, 5));
    let mut c = SymCursor { bytes: &[2, 0xff, 0xff, 7], pos: 0 };
    assert_eq!((c.string(), c.pos), (None, 1), "only the length is read");
    let mut c = SymCursor { bytes: &[9, b'x'], pos: 0 };
    assert_eq!((c.string(), c.pos), (None, 1));
}
