use lib::cell::{Cell, REG_END, word_from_le_bytes, word_to_le_bytes};

#[test]
fn decode_opcodes_data_and_registers() {
    assert_eq!(Cell::decode(0), Cell::Halt);
    assert_eq!(Cell::decode(1), Cell::SetReg);
    assert_eq!(Cell::decode(9), Cell::Add);
    assert_eq!(Cell::decode(21), Cell::Noop);
    assert_eq!(Cell::decode(22), Cell::Data(22));
    assert_eq!(Cell::decode(0x7fff), Cell::Data(0x7fff));
    assert_eq!(Cell::decode(0x8000), Cell::Reg(0));
    assert_eq!(Cell::decode(0x8007), Cell::Reg(7));
}

#[test]
fn encode_is_inverse_of_decode_on_every_word() {
    for x in 0..=REG_END {
        assert_eq!(Cell::decode(x).encode(), x);
    }
}

#[test]
fn bytes_are_little_endian() {
    assert_eq!(Cell::Reg(3).encode_to_bytes(), [0x03, 0x80]);
    assert_eq!(Cell::decode_from_bytes([0x15, 0x00]), Cell::Noop);
    assert_eq!(Cell::decode_from_bytes([0x86, 0x64]), Cell::Data(25734));
    assert_eq!(word_from_le_bytes([0x34, 0x12]), 0x1234);
    assert_eq!(word_to_le_bytes(0xabcd), [0xcd, 0xab]);
}

#[test]
fn bytes_roundtrip_on_every_cell() {
    for x in 0..=REG_END {
        let c = Cell::decode(x);
        assert_eq!(Cell::decode_from_bytes(c.encode_to_bytes()), c);
    }
}
