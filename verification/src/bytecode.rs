//! Capability bytecode generator: emits the fixed instruction program that
//! the host runtime's interpreter executes to recover the embedded archive
//! and bind it to an environment slot.
//!
//! The encoding is a flat array of little-endian 32-bit words. Each
//! instruction is an opcode word, an operand-count word, and that many
//! operand words; string operands are (offset, length) pairs into a raw
//! byte blob that trails the instruction words. The whole emission is padded
//! with zero bytes to a multiple of 4 bytes.

use vstd::prelude::*;

verus! {

/// Opcode: advance the interpreter's implicit cursor without output.
pub const INST_SKIP: u32 = 1;

/// Opcode: push a literal string given as (blob offset, byte length).
pub const INST_STRING: u32 = 2;

/// Opcode: bind a string key to a value slot (arity-tagged set).
pub const INST_SET: u32 = 7;

/// Opcode: unzip a slot's bytes into a virtual filesystem slot.
pub const INST_UNZIP: u32 = 12;

/// Opcode: fetch the module section named by a slot into a new slot.
pub const INST_SECTION: u32 = 13;

/// First slot index available to the program; lower slots are reserved.
pub const OPS: u32 = 14;

/// The bytes of the default trailing-archive section name,
/// `wah_polyglot_stage2_data` (24 bytes).
pub open spec fn spec_archive_name() -> Seq<u8> {
    seq![
        119u8, 97u8, 104u8, 95u8, 112u8, 111u8, 108u8, 121u8, 103u8, 108u8, 111u8, 116u8, 95u8,
        115u8, 116u8, 97u8, 103u8, 101u8, 50u8, 95u8, 100u8, 97u8, 116u8, 97u8,
    ]
}

/// The bytes of the environment key `dir` (3 bytes).
pub open spec fn spec_dir_name() -> Seq<u8> {
    seq![100u8, 105u8, 114u8]
}

/// The fixed instruction words: push the archive-section name, fetch that
/// section, unzip it, push `dir`, bind `dir` to the unzip result, then skip
/// the pushed name's bytes in the blob. The instruction array is 22 words
/// (88 bytes), so the blob starts at offset 88 and `dir` at 88 + 24 = 112.
pub open spec fn spec_program_words() -> Seq<u32> {
    seq![
        INST_STRING, 2u32, 88u32, 24u32,
        INST_SECTION, 1u32, 14u32,
        INST_UNZIP, 1u32, 15u32,
        INST_STRING, 2u32, 112u32, 3u32,
        INST_SET, 3u32, 0u32, 17u32, 16u32,
        INST_SKIP, 1u32, 24u32,
    ]
}

/// The four little-endian bytes of one 32-bit word.
pub open spec fn le_bytes(w: u32) -> Seq<u8> {
    seq![(w & 0xff) as u8, ((w >> 8) & 0xff) as u8, ((w >> 16) & 0xff) as u8, ((w >> 24) & 0xff) as u8]
}

/// Little-endian serialization of a word sequence.
pub open spec fn words_bytes(ws: Seq<u32>) -> Seq<u8>
    decreases ws.len(),
{
    if ws.len() == 0 {
        Seq::empty()
    } else {
        le_bytes(ws[0]) + words_bytes(ws.drop_first())
    }
}

/// `n` zero bytes.
pub open spec fn zero_bytes(n: int) -> Seq<u8> {
    Seq::new(n as nat, |i: int| 0u8)
}

/// The instruction words followed by the literal blob, before padding.
pub open spec fn spec_program_body() -> Seq<u8> {
    words_bytes(spec_program_words()) + spec_archive_name() + spec_dir_name()
}

/// The complete emitted program: body padded with zero bytes to the next
/// multiple of 4.
pub open spec fn spec_capability_program() -> Seq<u8> {
    spec_program_body() + zero_bytes((4 - spec_program_body().len() % 4) % 4)
}

/// One decoded instruction: an opcode word and its operand words.
pub ghost struct CapInstr {
    pub op: u32,
    pub args: Seq<u32>,
}

/// Decode a word array under the documented encoding: each instruction is
/// an opcode word, an operand-count word, and that many operand words.
pub open spec fn decode_words(ws: Seq<u32>) -> Option<Seq<CapInstr>>
    decreases ws.len(),
{
    if ws.len() == 0 {
        Some(Seq::empty())
    } else if ws.len() >= 2 && 2 + ws[1] <= ws.len() {
        let n = ws[1] as int;
        match decode_words(ws.skip(2 + n)) {
            Some(rest) => Some(
                seq![CapInstr { op: ws[0], args: ws.subrange(2, 2 + n) }] + rest,
            ),
            None => None,
        }
    } else {
        None
    }
}

/// The emitted instruction stream decodes to exactly: push the archive
/// section name, fetch that section, unzip it, push `dir`, bind `dir` to the
/// unzip result, skip the archive name's byte length. The string operands
/// address the archive name and `dir` in the trailing blob, and the total
/// emitted length is a multiple of four.
pub proof fn lemma_capability_program_decodes()
    ensures
        decode_words(spec_program_words()) == Some(
            seq![
                CapInstr { op: INST_STRING, args: seq![88u32, 24u32] },
                CapInstr { op: INST_SECTION, args: seq![14u32] },
                CapInstr { op: INST_UNZIP, args: seq![15u32] },
                CapInstr { op: INST_STRING, args: seq![112u32, 3u32] },
                CapInstr { op: INST_SET, args: seq![0u32, 17u32, 16u32] },
                CapInstr { op: INST_SKIP, args: seq![24u32] },
            ],
        ),
        spec_capability_program().subrange(88, 112) == spec_archive_name(),
        spec_capability_program().subrange(112, 115) == spec_dir_name(),
        spec_capability_program().len() == 116,
        spec_capability_program().len() % 4 == 0,
{
    lemma_words_bytes_len(spec_program_words());
    let ws = spec_program_words();
    reveal_with_fuel(decode_words, 8);
    let s1 = ws.skip(4);
    let s2 = s1.skip(3);
    let s3 = s2.skip(3);
    let s4 = s3.skip(4);
    let s5 = s4.skip(5);
    let s6 = s5.skip(3);
    assert(s1 =~= seq![
        INST_SECTION, 1u32, 14u32, INST_UNZIP, 1u32, 15u32, INST_STRING, 2u32, 112u32, 3u32,
        INST_SET, 3u32, 0u32, 17u32, 16u32, INST_SKIP, 1u32, 24u32,
    ]);
    assert(s2 =~= seq![
        INST_UNZIP, 1u32, 15u32, INST_STRING, 2u32, 112u32, 3u32, INST_SET, 3u32, 0u32, 17u32,
        16u32, INST_SKIP, 1u32, 24u32,
    ]);
    assert(s3 =~= seq![
        INST_STRING, 2u32, 112u32, 3u32, INST_SET, 3u32, 0u32, 17u32, 16u32, INST_SKIP, 1u32,
        24u32,
    ]);
    assert(s4 =~= seq![INST_SET, 3u32, 0u32, 17u32, 16u32, INST_SKIP, 1u32, 24u32]);
    assert(s5 =~= seq![INST_SKIP, 1u32, 24u32]);
    assert(s6 =~= Seq::<u32>::empty());
    assert(decode_words(s6) == Some(Seq::<CapInstr>::empty()));
    assert(ws.subrange(2, 4) =~= seq![88u32, 24u32]);
    assert(s1.subrange(2, 3) =~= seq![14u32]);
    assert(s2.subrange(2, 3) =~= seq![15u32]);
    assert(s3.subrange(2, 4) =~= seq![112u32, 3u32]);
    assert(s4.subrange(2, 5) =~= seq![0u32, 17u32, 16u32]);
    assert(s5.subrange(2, 3) =~= seq![24u32]);
    assert(decode_words(ws) == Some(
        seq![
            CapInstr { op: INST_STRING, args: seq![88u32, 24u32] },
            CapInstr { op: INST_SECTION, args: seq![14u32] },
            CapInstr { op: INST_UNZIP, args: seq![15u32] },
            CapInstr { op: INST_STRING, args: seq![112u32, 3u32] },
            CapInstr { op: INST_SET, args: seq![0u32, 17u32, 16u32] },
            CapInstr { op: INST_SKIP, args: seq![24u32] },
        ],
    ));
    assert(spec_capability_program().subrange(88, 112) =~= spec_archive_name());
    assert(spec_capability_program().subrange(112, 115) =~= spec_dir_name());
}

proof fn lemma_words_bytes_push(ws: Seq<u32>, w: u32)
    ensures
        words_bytes(ws.push(w)) == words_bytes(ws) + le_bytes(w),
    decreases ws.len(),
{
    if ws.len() == 0 {
        reveal_with_fuel(words_bytes, 3);
        assert(ws.push(w).drop_first() =~= Seq::<u32>::empty());
        assert(words_bytes(ws.push(w)) == le_bytes(w) + words_bytes(ws.push(w).drop_first()));
        assert(words_bytes(ws.push(w).drop_first()) == Seq::<u8>::empty());
        assert(words_bytes(ws.push(w)) =~= words_bytes(ws) + le_bytes(w));
    } else {
        assert(ws.push(w).drop_first() =~= ws.drop_first().push(w));
        lemma_words_bytes_push(ws.drop_first(), w);
        assert(words_bytes(ws.push(w)) =~= words_bytes(ws) + le_bytes(w));
    }
}

/// Serialized length is four bytes per word.
pub proof fn lemma_words_bytes_len(ws: Seq<u32>)
    ensures
        words_bytes(ws).len() == 4 * ws.len(),
    decreases ws.len(),
{
    if ws.len() > 0 {
        lemma_words_bytes_len(ws.drop_first());
    }
}

/// Append the four little-endian bytes of `w`.
fn push_word(out: &mut Vec<u8>, w: u32)
    ensures
        final(out)@ == old(out)@ + le_bytes(w),
{
    out.push((w & 0xff) as u8);
    out.push(((w >> 8) & 0xff) as u8);
    out.push(((w >> 16) & 0xff) as u8);
    out.push(((w >> 24) & 0xff) as u8);
    
}

/// The default trailing-archive section name as bytes.
pub fn archive_name_bytes() -> (r: Vec<u8>)
    ensures
        r@ == spec_archive_name(),
{
    let r: Vec<u8> = vec![
        119u8, 97u8, 104u8, 95u8, 112u8, 111u8, 108u8, 121u8, 103u8, 108u8, 111u8, 116u8, 95u8,
        115u8, 116u8, 97u8, 103u8, 101u8, 50u8, 95u8, 100u8, 97u8, 116u8, 97u8,
    ];
    assert(r@ =~= spec_archive_name());
    r
}

/// Build the capability program for a host-supplied configuration buffer.
/// The buffer is accepted whole but its content does not influence the
/// emitted program: the current instruction set has a single fixed program.
pub fn build_program(config: &Vec<u8>) -> (r: Vec<u8>)
    ensures
        r@ == spec_capability_program(),
        r@.len() % 4 == 0,
{
    let _ = config.len();
    let words: Vec<u32> = vec![
        INST_STRING, 2u32, 88u32, 24u32,
        INST_SECTION, 1u32, 14u32,
        INST_UNZIP, 1u32, 15u32,
        INST_STRING, 2u32, 112u32, 3u32,
        INST_SET, 3u32, 0u32, 17u32, 16u32,
        INST_SKIP, 1u32, 24u32,
    ];
    proof {
        assert(words@ =~= spec_program_words());
    }
    let mut out: Vec<u8> = Vec::new();
    let mut i: usize = 0;
    while i < words.len()
        invariant
            i <= words@.len(),
            words@ == spec_program_words(),
            out@ == words_bytes(words@.take(i as int)),
        decreases words@.len() - i,
    {
        proof {
            assert(words@.take(i + 1) =~= words@.take(i as int).push(words@[i as int]));
            lemma_words_bytes_push(words@.take(i as int), words@[i as int]);
        }
        push_word(&mut out, words[i]);
        i += 1;
    }
    proof {
        assert(words@.take(words@.len() as int) =~= words@);
    }
    let name = archive_name_bytes();
    let mut j: usize = 0;
    while j < name.len()
        invariant
            j <= name@.len(),
            name@ == spec_archive_name(),
            out@ == words_bytes(spec_program_words()) + spec_archive_name().take(j as int),
        decreases name@.len() - j,
    {
        out.push(name[j]);
        proof {
            assert(spec_archive_name().take(j + 1) =~= spec_archive_name().take(j as int).push(
                name@[j as int],
            ));
            assert(out@ =~= words_bytes(spec_program_words()) + spec_archive_name().take(j + 1));
        }
        j += 1;
    }
    proof {
        assert(spec_archive_name().take(spec_archive_name().len() as int) =~= spec_archive_name());
    }
    out.push(100u8);
    out.push(105u8);
    out.push(114u8);
    proof {
        assert(out@ =~= spec_program_body());
    }
    let body_len = out.len();
    let pad: usize = (4 - body_len % 4) % 4;
    let mut k: usize = 0;
    while k < pad
        invariant
            k <= pad,
            pad == (4 - spec_program_body().len() % 4) % 4,
            out@ == spec_program_body() + zero_bytes(k as int),
        decreases pad - k,
    {
        out.push(0u8);
        proof {
            assert(out@ =~= spec_program_body() + zero_bytes(k + 1));
        }
        k += 1;
    }
    proof {
        lemma_words_bytes_len(spec_program_words());
        assert(out@ =~= spec_capability_program());
    }
    out
}

} // verus!
