use backgif::elf::{
    parse_bin, parse_build_id, parse_debug_str, read_u32_le, BinError, ElfImage, ElfSection,
    ElfSymbol,
};
use backgif::patch::{apply_patch, apply_patches, patch_build_id, patch_syms};
use backgif::fmtr::TrueColorFrameFormatter;
use backgif::names::{to_frameline_names, FrameInfo};
use backgif::parse::{GifFrame, GifFrameParser};

fn section(name: &str, file_offset: u64, is_note: bool, entry_size: u64, content: Vec<u8>) -> ElfSection {
    ElfSection { name: String::from(name), file_offset, is_note, entry_size, content }
}

/// A 24-byte symbol entry whose name field is `rel`.
fn sym_entry(rel: u32) -> Vec<u8> {
    let mut v = rel.to_le_bytes().to_vec();
    v.resize(24, 0);
    v
}

#[test]
fn le32_reads_little_endian() {
    assert_eq!(read_u32_le(&[0x04, 0x03, 0x02, 0x01, 0xff], 0), 0x01020304);
    assert_eq!(read_u32_le(&[0x00, 0x04, 0x03, 0x02, 0x01], 1), 0x01020304);
}

#[test]
fn build_id_note_descriptor() {
    // name_len 4, desc_len 3, type 3, "GNU\0", then the descriptor.
    let mut c = vec![4, 0, 0, 0, 3, 0, 0, 0, 3, 0, 0, 0];
    c.extend_from_slice(b"GNU\0");
    c.extend_from_slice(&[0xaa, 0xbb, 0xcc]);
    let r = parse_build_id(0x100, &c);
    assert!(matches!(r, Ok((0x110, ref d)) if d == &vec![0xaa, 0xbb, 0xcc]));
    c.pop();
    assert!(matches!(parse_build_id(0x100, &c), Err(BinError::BuildIdTruncated)));
    assert!(matches!(parse_build_id(0, &vec![1, 2, 3]), Err(BinError::BuildIdTruncated)));
}

#[test]
fn debug_str_spans() {
    let c = b"main\0f\0\0tail".to_vec();
    assert_eq!(parse_debug_str(&c), vec![(0, 4), (5, 6), (7, 7)]);
    assert_eq!(parse_debug_str(&vec![]), vec![]);
    assert_eq!(parse_debug_str(&b"abc".to_vec()), vec![]);
}

fn sample_image() -> ElfImage {
    let mut symtab = sym_entry(0);
    symtab.extend(sym_entry(1));
    symtab.extend(sym_entry(11));
    let strtab = b"\0A00000001\0start\0".to_vec();
    let debug_str = b"x\0A00000001\0".to_vec();
    let mut note = vec![4, 0, 0, 0, 2, 0, 0, 0, 3, 0, 0, 0];
    note.extend_from_slice(b"GNU\0");
    note.extend_from_slice(&[0x11, 0x22]);
    ElfImage {
        sections: vec![
            section(".text", 0x1000, false, 0, vec![]),
            section(".data", 0x2000, false, 0, vec![]),
            section(".note.gnu.build-id", 0x300, true, 0, note),
            section(".symtab", 0x400, false, 24, symtab),
            section(".strtab", 0x500, false, 0, strtab),
            section(".debug_str", 0x600, false, 0, debug_str),
        ],
        symbols: vec![
            ElfSymbol { name: vec![], is_func: false, value: 0 },
            ElfSymbol { name: b"A00000001".to_vec(), is_func: true, value: 0x401000 },
            ElfSymbol { name: b"start".to_vec(), is_func: true, value: 0x401010 },
        ],
        size: 0x700,
    }
}

#[test]
fn parse_bin_recovers_name_offsets() {
    let info = match parse_bin(&sample_image()) {
        Ok(i) => i,
        Err(e) => panic!("{:?}", e),
    };
    assert_eq!(info.build_id_desc_offs, 0x300 + 16);
    assert_eq!(info.build_id_desc, vec![0x11, 0x22]);
    assert_eq!(info.section_offs.text, 0x1000);
    assert_eq!(info.section_offs.data, 0x2000);
    assert_eq!(info.section_offs.strtab, 0x500);
    assert_eq!(info.size, 0x700);
    assert_eq!(info.name_to_info.len(), 2);
    assert_eq!(info.name_to_info[0].name, b"A00000001".to_vec());
    assert_eq!(info.name_to_info[0].info.addr, 0x401000);
    assert_eq!(info.name_to_info[0].info.offs, vec![0x501, 0x602]);
    assert_eq!(info.name_to_info[1].info.offs, vec![0x50b]);
}

#[test]
fn parse_bin_errors() {
    let mut img = sample_image();
    img.sections.remove(3);
    assert!(matches!(parse_bin(&img), Err(BinError::MissingSection)));
    let mut img = sample_image();
    img.sections[2].is_note = false;
    assert!(matches!(parse_bin(&img), Err(BinError::BuildIdNotNote)));
    let mut img = sample_image();
    img.sections[2].content.truncate(14);
    assert!(matches!(parse_bin(&img), Err(BinError::BuildIdTruncated)));
    let mut img = sample_image();
    img.sections[3].content.truncate(50);
    assert!(matches!(parse_bin(&img), Err(BinError::SymtabTruncated)));
    let mut img = sample_image();
    img.sections.remove(5);
    let info = parse_bin(&img).ok().unwrap();
    assert_eq!(info.name_to_info[0].info.offs, vec![0x501]);
}

#[test]
fn patch_round_trip() {
    let mut image = b"....A00000001\0rest".to_vec();
    assert!(apply_patch(&mut image, 4, b"hi").is_ok());
    assert_eq!(&image[4..13], b"hi0000001");
    assert_eq!(image.len(), 18);
    assert_eq!(&image[13..], b"\0rest");
    assert!(matches!(apply_patch(&mut image, 17, b"xy"), Err(BinError::PatchOutOfRange)));
    assert_eq!(&image[13..], b"\0rest");
}

#[test]
fn build_id_is_copied() {
    let mut image = vec![0u8; 8];
    let desc = vec![1, 2, 3];
    assert!(patch_build_id(&mut image, 2, &desc).is_ok());
    assert_eq!(image, vec![0, 0, 1, 2, 3, 0, 0, 0]);
    assert!(patch_build_id(&mut image, 6, &desc).is_err());
}

fn one_frame() -> FrameInfo {
    FrameInfo {
        delay: 1,
        first_name: String::from("A00000001"),
        last_name: String::from("A00000001"),
        tmp_names: vec![String::from("A00000001")],
        framelines: vec![String::from("  ")],
    }
}

#[test]
fn symbols_are_renamed_in_place() {
    let info = parse_bin(&sample_image()).ok().unwrap();
    let patches = match patch_syms(&info.name_to_info, &vec![one_frame()], &String::from("start"), &String::from("go")) {
        Ok(p) => p,
        Err(e) => panic!("{:?}", e),
    };
    assert_eq!(patches.len(), 3);
    let mut image = vec![b'.'; 0x500];
    image.extend_from_slice(b"\0A00000001\0start\0");
    image.resize(0x600, b'.');
    image.extend_from_slice(b"x\0A00000001\0");
    let before = image.clone();
    assert!(apply_patches(&mut image, &patches).is_ok());
    assert_eq!(&image[0x501..0x50b], b"  0000001\0");
    assert_eq!(&image[0x50b..0x511], b"goart\0");
    assert_eq!(&image[0x602..0x60c], b"  0000001\0");
    let changed: Vec<usize> = (0..image.len()).filter(|&i| image[i] != before[i]).collect();
    assert_eq!(changed, vec![0x501, 0x502, 0x50b, 0x50c, 0x602, 0x603]);
}

#[test]
fn unresolved_symbol_is_an_error() {
    let info = parse_bin(&sample_image()).ok().unwrap();
    let r = patch_syms(&info.name_to_info, &vec![one_frame()], &String::from("nope"), &String::from("go"));
    assert!(matches!(r, Err(BinError::UnresolvedSymbol)));
}

#[test]
fn transparent_pixel_end_to_end() {
    let p = GifFrameParser { formatter: TrueColorFrameFormatter };
    let frame = GifFrame { left: 0, top: 0, width: 1, height: 1, delay: 10, buffer: vec![0, 0, 0, 0] };
    let frames = p.from_input(&vec![frame], 1, 1, false, None);
    let blank_line = String::from("\x1b[1;1H\x1b[2J  \x1b[8m\x1b[?25l");
    assert_eq!(frames[0].framelines[0], blank_line);
    let zwnbsp = String::from_utf8(b"\xef\xbb\xbf".repeat(4)).unwrap();
    let (start_name, start_tmp) = to_frameline_names(&p.formatter, &zwnbsp, 0, false, false);
    let tmp = frames[0].tmp_names[0].clone();

    let mut strtab = vec![0u8];
    strtab.extend_from_slice(tmp.as_bytes());
    strtab.push(0);
    let start_rel = strtab.len() as u32;
    strtab.extend_from_slice(start_tmp.as_bytes());
    strtab.push(0);
    let mut symtab = sym_entry(1);
    symtab.extend(sym_entry(start_rel));
    let img = ElfImage {
        sections: vec![
            section(".symtab", 0x40, false, 24, symtab),
            section(".strtab", 0x100, false, 0, strtab.clone()),
        ],
        symbols: vec![
            ElfSymbol { name: tmp.clone().into_bytes(), is_func: true, value: 0x401000 },
            ElfSymbol { name: start_tmp.clone().into_bytes(), is_func: true, value: 0x401010 },
        ],
        size: 0x200,
    };
    let info = parse_bin(&img).ok().unwrap();
    let patches = patch_syms(&info.name_to_info, &frames, &start_tmp, &start_name).ok().unwrap();
    let mut file = vec![0x55u8; 0x100];
    file.extend_from_slice(&strtab);
    file.resize(0x200, 0x66);
    let before = file.clone();
    assert!(apply_patches(&mut file, &patches).is_ok());
    let mut expected = vec![0u8];
    expected.extend_from_slice(blank_line.as_bytes());
    expected.push(0);
    expected.extend_from_slice(start_name.as_bytes());
    expected.push(0);
    assert_eq!(&file[0x100..0x100 + expected.len()], &expected[..]);
    assert_eq!(&file[..0x100], &before[..0x100]);
    assert_eq!(&file[0x100 + expected.len()..], &before[0x100 + expected.len()..]);
}
