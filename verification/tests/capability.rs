use wah_polyglot::bytecode::{archive_name_bytes, build_program};

const INST_SKIP: u32 = 1;
const INST_STRING: u32 = 2;
const INST_SET: u32 = 7;
const INST_UNZIP: u32 = 12;
const INST_SECTION: u32 = 13;

fn words_of(bytes: &[u8]) -> Vec<u32> {
    bytes
        .chunks(4)
        .map(|c| u32::from_le_bytes([c[0], c[1], c[2], c[3]]))
        .collect()
}

fn decode(words: &[u32]) -> Vec<(u32, Vec<u32>)> {
    let mut out = Vec::new();
    let mut i: usize = 0;
    while i < words.len() {
        let op = words[i];
        let count = words[i + 1] as usize;
        out.push((op, words[i + 2..i + 2 + count].to_vec()));
        i += 2 + count;
    }
    out
}

#[test]
fn emitted_program_is_fixed_and_aligned() {
    let program = build_program(&Vec::new());
    assert_eq!(program.len(), 116);
    assert_eq!(program.len() % 4, 0);
    // The configuration buffer's content does not influence the program.
    assert_eq!(program, build_program(&vec![1, 2, 3, 4]));
    // Instruction words first, then the literal blob, then zero padding.
    assert_eq!(&program[88..112], b"wah_polyglot_stage2_data");
    assert_eq!(&program[112..115], b"dir");
    assert_eq!(program[115], 0);
}

#[test]
fn emitted_instruction_stream_decodes_to_the_documented_sequence() {
    let program = build_program(&Vec::new());
    let words = words_of(&program[..88]);
    let instrs = decode(&words);
    assert_eq!(
        instrs,
        vec![
            (INST_STRING, vec![88, 24]),
            (INST_SECTION, vec![14]),
            (INST_UNZIP, vec![15]),
            (INST_STRING, vec![112, 3]),
            (INST_SET, vec![0, 17, 16]),
            (INST_SKIP, vec![24]),
        ]
    );
    // The two string operands address the section name and the key `dir`.
    assert_eq!(&program[88..88 + 24], b"wah_polyglot_stage2_data");
    assert_eq!(&program[112..112 + 3], b"dir");
    // The skip steps over exactly the section name's bytes.
    assert_eq!(instrs[5].1[0] as usize, archive_name_bytes().len());
}
