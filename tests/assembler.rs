use isa_sim::assembler::{encode, validate};
use isa_sim::codec::{extract_bits, pack};
use isa_sim::operand::{operand_field, parse_register, resolve_immediate};
use isa_sim::text::{chars_of, is_blank};

fn enc(line: &str) -> u32 {
    encode(line.to_string())
}

#[test]
fn extract_bits_reads_each_field() {
    let w: u32 = 0x1234_5678;
    assert_eq!(extract_bits(w, 0, 8), 0x78);
    assert_eq!(extract_bits(w, 8, 8), 0x56);
    assert_eq!(extract_bits(w, 16, 4), 0x4);
    assert_eq!(extract_bits(w, 27, 5), 0x02);
    assert_eq!(extract_bits(w, 4, 0), 0);
    assert_eq!(extract_bits(0xffff_ffff, 1, 31), 0x7fff_ffff);
    assert_eq!(extract_bits(w, 0, 32), w);
    assert_eq!(extract_bits(0xffff_ffff, 0, 32), 0xffff_ffff);
    assert_eq!(extract_bits(w, 32, 0), 0);
    assert_eq!(extract_bits(0x8000_0000, 31, 1), 1);
}

#[test]
fn pack_shifts_into_place() {
    assert_eq!(pack(3, 8), 0x300);
    assert_eq!(pack(1, 27), 0x0800_0000);
    assert_eq!(pack(0xab, 0), 0xab);
}

#[test]
fn validate_passes_words_through() {
    assert_eq!(validate(0), 0);
    assert_eq!(validate(0x0801_0203), 0x0801_0203);
}

#[test]
fn resolve_literals_and_registers() {
    assert_eq!(resolve_immediate("5"), (5, false));
    assert_eq!(resolve_immediate("0"), (0, false));
    assert_eq!(resolve_immediate("255"), (255, false));
    assert_eq!(resolve_immediate("+7"), (7, false));
    assert_eq!(resolve_immediate("R7"), (7, true));
    assert_eq!(resolve_immediate("R0"), (0, true));
    assert_eq!(resolve_immediate("R15"), (15, true));
    assert_eq!(resolve_immediate("R015"), (15, true));
}

#[test]
fn resolve_fallbacks_are_zero() {
    assert_eq!(resolve_immediate("256"), (0, false));
    assert_eq!(resolve_immediate("300"), (0, false));
    assert_eq!(resolve_immediate("99999999999999999999"), (0, false));
    assert_eq!(resolve_immediate("R16"), (0, false));
    assert_eq!(resolve_immediate("R99999999999"), (0, false));
    assert_eq!(resolve_immediate("R"), (0, false));
    assert_eq!(resolve_immediate("r3"), (0, false));
    assert_eq!(resolve_immediate("X"), (0, false));
    assert_eq!(resolve_immediate("-1"), (0, false));
    assert_eq!(resolve_immediate("+"), (0, false));
    assert_eq!(resolve_immediate(""), (0, false));
}

#[test]
fn parse_register_index_or_zero() {
    assert_eq!(parse_register("R3"), 3);
    assert_eq!(parse_register("R15"), 15);
    assert_eq!(parse_register("R16"), 0);
    assert_eq!(parse_register("X3"), 0);
    assert_eq!(parse_register("R"), 0);
    assert_eq!(parse_register("3"), 0);
}

#[test]
fn operand_field_sets_register_flag() {
    assert_eq!(operand_field(5, false), 5);
    assert_eq!(operand_field(5, true), 0x85);
    assert_eq!(operand_field(200, false), 200);
}

#[test]
fn blank_matches_std_whitespace() {
    for u in 0u32..=0x10ffff {
        if let Some(c) = char::from_u32(u) {
            assert_eq!(is_blank(c), c.is_whitespace(), "U+{:04X}", u);
        }
    }
}

#[test]
fn chars_of_keeps_every_char() {
    assert_eq!(chars_of("aé\u{3000}z"), vec!['a', 'é', '\u{3000}', 'z']);
    assert_eq!(chars_of(""), Vec::<char>::new());
}

#[test]
fn encode_field_layout() {
    assert_eq!(enc("ADD 0 0 0"), 0x0800_0000);
    assert_eq!(enc("ADD 1 2 3"), 0x0801_0203);
    assert_eq!(enc("SUB 0 2 5"), 0x1000_0205);
    assert_eq!(enc("ADD R1 R2 R3"), 0x0801_8283);
    assert_eq!(enc("ADD 0 0 255"), 0x0800_00ff);
}

#[test]
fn encode_unknown_mnemonic_is_opcode_zero() {
    assert_eq!(enc(""), 0);
    assert_eq!(enc("   "), 0);
    assert_eq!(enc("FOO 1 2 3"), 0x0001_0203);
    assert_eq!(enc("add 1 2 3"), 0x0001_0203);
    assert_eq!(enc("ADDX 1 2 3"), 0x0001_0203);
}

#[test]
fn encode_missing_operands_stay_zero() {
    assert_eq!(enc("ADD"), 0x0800_0000);
    assert_eq!(enc("ADD 4"), 0x0804_0000);
    assert_eq!(enc("SUB 4 R9"), 0x1004_8900);
}

#[test]
fn encode_destination_keeps_low_four_bits() {
    assert_eq!(enc("ADD 17 0 0"), 0x0801_0000);
    assert_eq!(enc("ADD R15 0 0"), 0x080f_0000);
}

#[test]
fn encode_separators_and_extra_tokens() {
    assert_eq!(enc("  ADD\t1   2\n3 9 9"), 0x0801_0203);
    assert_eq!(enc("ADD\u{3000}1\u{a0}2 3"), 0x0801_0203);
    assert_eq!(enc("ADD 0 +5 0"), 0x0800_0500);
}

#[test]
fn literal_round_trip_low_byte() {
    for n in 0u32..256 {
        let w = enc(&format!("ADD 0 0 {}", n));
        assert_eq!(w & 0xff, n);
        assert_eq!(extract_bits(w, 0, 8), n);
    }
}

#[test]
fn decode_reproduces_encoded_fields() {
    let w = enc("SUB R5 R6 200");
    assert_eq!(extract_bits(w, 27, 5), 2);
    assert_eq!(extract_bits(w, 22, 5), 0);
    assert_eq!(extract_bits(w, 20, 2), 0);
    assert_eq!(extract_bits(w, 16, 4), 5);
    assert_eq!(extract_bits(w, 8, 8), 0x86);
    assert_eq!(extract_bits(w, 0, 8), 200);
}

#[test]
fn oversized_literal_encodes_zero() {
    assert_eq!(enc("ADD 0 0 300"), 0x0800_0000);
    assert_eq!(enc("ADD 0 300 7"), 0x0800_0007);
    assert_eq!(enc("ADD 300 1 1"), 0x0800_0101);
    assert_eq!(enc("ADD 0 0 256"), 0x0800_0000);
}

#[test]
fn register_overflow_encodes_zero() {
    assert_eq!(enc("ADD 0 R16 R3"), 0x0800_0083);
    assert_eq!(enc("ADD 0 R3 R20"), 0x0800_8300);
    assert_eq!(enc("ADD R16 1 1"), 0x0800_0101);
}

#[test]
fn malformed_operand_encodes_zero() {
    assert_eq!(enc("ADD 0 X 7"), 0x0800_0007);
    assert_eq!(enc("ADD 0 R 7"), 0x0800_0007);
}
