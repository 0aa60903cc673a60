use backgif::elf::{NamedSymbol, SymbolInfo};
use backgif::names::FrameInfo;
use backgif::script::{
    breakpoint_commands, breakpoint_pairs, breakpoints, GdbFrameConverter, LldbFrameConverter,
};
use backgif::shadow::{patch_addrs, CustomFrameConverter};
use backgif::source::{
    SourceError,
    compile_args, compile_object_args, frame_chain, link_args, prepare_custom_src, prepare_src,
};

fn frame(names: &[&str], delay: u16) -> FrameInfo {
    FrameInfo {
        delay,
        first_name: String::from(names[0]),
        last_name: String::from(names[names.len() - 1]),
        tmp_names: names.iter().map(|s| String::from(*s)).collect(),
        framelines: names.iter().map(|_| String::from("x")).collect(),
    }
}

#[test]
fn call_chain_of_three() {
    let names = vec![String::from("a"), String::from("b"), String::from("c")];
    let defs = frame_chain(&names);
    assert_eq!(defs.len(), 3);
    assert_eq!(defs[0].name, "c");
    assert!(defs[0].callee.is_none());
    assert_eq!(defs[1].name, "b");
    assert_eq!(defs[1].callee.as_deref(), Some("c"));
    assert_eq!(defs[2].name, "a");
    assert_eq!(defs[2].callee.as_deref(), Some("b"));
}

#[test]
fn program_source() {
    let src = prepare_src(&vec![frame(&["a", "b"], 1), frame(&["c"], 1)], "s").unwrap();
    assert_eq!(
        src,
        "\n\nvoid b() {\n    return;\n}\n\nvoid a() {\n    b();\n}\n\n\nvoid c() {\n    return;\n}\n\n\nvoid s() {\nloop:\n    a();\n    c();\n    goto loop;\n}"
    );
}

#[test]
fn custom_program_source() {
    let src = prepare_custom_src(&vec![frame(&["a", "b"], 1)], "s", "GUEST", 3, 2, true).unwrap();
    assert_eq!(
        src,
        "\n\nvoid b() {\n    return;\n}\n\nvoid a() {\n    b();\n}\n\n\nGUEST\n\nvoid s() {\n    init(123, 3, 2);\nloop:\n    update_frame();\n    \n    draw_line((uint8_t*)0x01020304UL, 9, 1);\n    draw_line((uint8_t*)0x05060708UL, 9, 1);\n    draw_line((uint8_t*)0x01020304UL, 10, 0);\n    draw_line((uint8_t*)0x05060708UL, 10, 0);\n    a();\n    goto loop;\n}"
    );
}

#[test]
fn toolchain_arguments() {
    assert_eq!(
        compile_args(true, "s"),
        vec!["-g", "-fdiagnostics-color=always", "-std=gnu99", "-O0", "-nostdlib", "-static", "-Wall", "-Werror", "-Wl,--build-id", "-Wl,--entry=s", "a.c"]
    );
    assert_eq!(
        compile_object_args(false),
        vec!["-fdiagnostics-color=always", "-std=gnu99", "-O0", "-nostdlib", "-static", "-Wall", "-Werror", "-c", "-o", "a.o", "a.c"]
    );
    assert_eq!(
        link_args("s", "a2.out", "a2.0x1000.ld"),
        vec!["--build-id", "-e", "s", "-o", "a2.out", "a.o", "-T", "a2.0x1000.ld"]
    );
}

#[test]
fn breakpoint_cycle_is_circular() {
    let pairs = breakpoint_pairs(&vec![(0xa0, 10), (0xa1, 11), (0xa2, 12)]);
    let got: Vec<(u64, u64, u16)> = pairs.iter().map(|p| (p.addr, p.next_addr, p.delay)).collect();
    assert_eq!(got, vec![(0xa0, 0xa1, 10), (0xa1, 0xa2, 11), (0xa2, 0xa0, 12)]);
    let one = breakpoint_pairs(&vec![(5, 1)]);
    assert_eq!((one[0].addr, one[0].next_addr), (5, 5));
    assert!(breakpoint_pairs(&vec![]).is_empty());
}

fn sym(name: &str, addr: u64, offs: Vec<u64>) -> NamedSymbol {
    NamedSymbol { name: name.as_bytes().to_vec(), info: SymbolInfo { addr, offs } }
}

#[test]
fn breakpoints_at_innermost_calls() {
    let syms = vec![sym("a", 0x10, vec![1]), sym("b", 0x20, vec![2]), sym("c", 0x30, vec![3])];
    let bps = breakpoints(&syms, &vec![frame(&["a", "b"], 4), frame(&["c"], 5)]).ok().unwrap();
    assert_eq!(bps, vec![(0x20, 4), (0x30, 5)]);
    assert!(breakpoints(&syms, &vec![frame(&["z"], 1)]).is_err());
}

#[test]
fn gdb_script() {
    let pairs = breakpoint_pairs(&vec![(0x401000, 10), (0x401010, 20)]);
    let s = GdbFrameConverter.write_dbg_script(&pairs, false);
    assert!(s.starts_with("\n#!/usr/bin/env python3\n\nimport gdb\n"));
    assert!(s.contains("bp_i = (bp_i + 1) % 2\n"));
    assert!(s.contains("bps = [\n    [0x00401000, 0x00401010, 100],\n    [0x00401010, 0x00401000, 200],\n]\n"));
    assert!(!s.contains("symbol-file"));
    let s = GdbFrameConverter.write_dbg_script(&pairs, true);
    assert!(s.contains("gdb.execute(f\"symbol-file a2.out\")"));
    assert_eq!(GdbFrameConverter.data_section_addr(), 0);
    assert_eq!(GdbFrameConverter.text_section_addr(), 0x401000);
}

#[test]
fn lldb_script() {
    let pairs = breakpoint_pairs(&vec![(0x401000, 3)]);
    let s = LldbFrameConverter.write_dbg_script(&pairs, 0x2345, true);
    assert!(s.contains("import lldb\n"));
    assert!(s.contains("bps = [\n    [0x00401000, 0x00401000, 30],\n]\n"));
    assert!(s.contains("    target.DeleteAllBreakpoints()\n    global bp_i\n    bp_i = (bp_i + 1) % 1\n    arm(target, *bps[bp_i])\n"));
    assert!(s.contains("    arm(process.GetTarget(), *bps[bp_i])\n"));
    assert!(s.contains("--count 0x00002345 0x00001000\")"));
    assert!(s.contains("stream.Print(f'{{\"delay\" : {delay}}}')"));
    assert_eq!(LldbFrameConverter.data_section_addr(), 0x1000);
}

#[test]
fn shadow_placeholders_are_patched() {
    // mov edi,0x01020304; call rel32; mov edi,0x05060708; call rel32
    let code: Vec<u8> = vec![
        0x90, 0x90, 0xbf, 0x04, 0x03, 0x02, 0x01, 0xe8, 0, 0, 0, 0, 0xbf, 0x08, 0x07, 0x06, 0x05,
        0xe8, 0, 0, 0, 0,
    ];
    let syms = vec![sym("a", 0x401000, vec![0x40, 0x80])];
    let patches = match patch_addrs(&syms, &vec![frame(&["a"], 1)], &code, 1, 0x401001, 0x1000) {
        Ok(p) => p,
        Err(e) => panic!("{:?}", e),
    };
    assert_eq!(patches.len(), 2);
    assert_eq!(patches[0].offs, 3);
    assert_eq!(patches[0].bytes, vec![0x40, 0x10, 0, 0]);
    assert_eq!(patches[1].offs, 13);
    assert_eq!(patches[1].bytes, vec![0x80, 0x10, 0, 0]);
    // No load of the placeholder: the code does not match.
    assert!(patch_addrs(&syms, &vec![frame(&["a"], 1)], &code[..7], 1, 0x401001, 0).is_err());
    assert!(patch_addrs(&syms, &vec![frame(&["a"], 1)], &code, 1, 0x400000, 0).is_err());
    // A placeholder load that no call follows is a mismatch.
    let one = vec![sym("a", 0x401000, vec![0x40])];
    assert!(patch_addrs(&one, &vec![frame(&["a"], 1)], &code[..7], 1, 0x401001, 0).is_err());
    assert!(patch_addrs(&one, &vec![frame(&["a"], 1)], &code[..12], 1, 0x401001, 0).is_ok());
}

#[test]
fn shadow_layout() {
    let c = CustomFrameConverter { data_section_addr: 0x1000, height: 2, width: 2 };
    assert_eq!(c.shadow_script_name(), "a2.0x1000.ld");
    let p = c.build_id_patch(0x2000, 0x30, &vec![7, 8, 9]).unwrap();
    assert_eq!((p.offs, p.bytes), (0x2030, vec![7, 8, 9]));
    assert!(c.build_id_patch(u64::MAX, 1, &vec![7]).is_none());
    let c = CustomFrameConverter { data_section_addr: 0, height: 2, width: 2 };
    assert_eq!(c.shadow_script_name(), "a2.0x0000.ld");
}

#[test]
fn manual_breakpoint_commands() {
    assert_eq!(
        breakpoint_commands(&vec![0x401000, 0x40100a], true),
        "    -ex 'starti' \\\n    -ex 'b *0x00401000' \\\n    -ex 'b *0x0040100a'"
    );
    assert_eq!(
        breakpoint_commands(&vec![0x401000], false),
        "    --one-line 'b *0x00401000'"
    );
    assert_eq!(breakpoint_commands(&vec![], false), "");
}

#[test]
fn empty_frame_is_rejected() {
    let empty = FrameInfo {
        delay: 1,
        first_name: String::new(),
        last_name: String::new(),
        tmp_names: vec![],
        framelines: vec![],
    };
    let frames = vec![frame(&["a"], 1), empty];
    assert!(matches!(prepare_src(&frames, "s"), Err(SourceError::EmptyFrame)));
    assert!(matches!(prepare_custom_src(&frames, "s", "G", 1, 1, false), Err(SourceError::EmptyFrame)));
    assert_eq!(prepare_src(&vec![], "s").unwrap(), "\n\n\nvoid s() {\nloop:\n    \n    goto loop;\n}");
}
