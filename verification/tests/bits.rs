use network::shared::bits::{BitReader, BitWriter, Error};
use rand::{Rng, SeedableRng};
use rand_chacha::{ChaCha8Rng, ChaChaRng};

#[test]
fn byte() {
    let expected = 3;
    let mut bytes: [u8; 1] = [0];

    {
        let mut writer = BitWriter::new(&mut bytes[..]);
        assert_eq!(writer.available_bits(), 8);
        assert_eq!(writer.written_bits(), 0);
        assert_eq!(writer.written_bytes(), 0);

        assert!(writer.write_byte(expected).is_ok());
        writer.available_bits();
        assert_eq!(writer.written_bits(), 8);
        assert_eq!(writer.written_bytes(), 1);
        writer.flush();
    }

    assert_eq!(bytes[0], expected);

    let mut reader = BitReader::new(&bytes[..]);

    let val = reader.read_byte();
    assert!(val.is_ok());
    assert_eq!(val.unwrap(), expected);
}

#[test]
fn multibyte() {
    let expected = 0x11aabbcc;
    let bits = 29;

    let mut bytes = [0u8; 8];
    let mut writer = BitWriter::new(&mut bytes);
    assert!(writer.write_bits(expected, bits).is_ok());
    assert!(writer.write_bits(expected, bits).is_ok());

    writer.flush();

    let mut reader = BitReader::new(&bytes);
    let res = reader.read_bits(bits);
    assert!(res.is_ok());
    assert_eq!(res.unwrap(), expected);
    let res = reader.read_bits(bits);
    assert!(res.is_ok());
    assert_eq!(res.unwrap(), expected);
}

#[test]
fn bits() {
    let mut bytes = [0u8; 1];
    let max_bits = bytes.len() as i64 * 8;
    let mut writer = BitWriter::new(&mut bytes);

    let values: [(u32, i32); 4] = [(1, 1), (3, 2), (15, 4), (1, 1)];

    let mut bits_written: i64 = 0;
    for (value, bits) in &values[0..3] {
        assert!(writer.write_bits(*value, *bits).is_ok());
        assert_eq!(writer.written_bits(), bits_written + *bits as i64);
        assert_eq!(writer.written_bytes(), writer.written_bits() / 8);

        bits_written += *bits as i64;
        assert_eq!(writer.available_bits(), max_bits - bits_written);
    }

    let too_big: (u32, i32) = (3, 2);
    assert!(writer.write_bits(too_big.0, too_big.1).is_err());
    assert_eq!(writer.available_bits(), max_bits - bits_written);
    assert_eq!(writer.written_bits(), bits_written);
    assert_eq!(writer.written_bytes(), bits_written / 8);

    for (value, bits) in &values[3..] {
        assert!(writer.write_bits(*value, *bits).is_ok());
        assert_eq!(writer.written_bits(), bits_written + *bits as i64);
        assert_eq!(writer.written_bytes(), writer.written_bits() / 8);

        bits_written += *bits as i64;
        assert_eq!(writer.available_bits(), max_bits - bits_written);
    }

    assert!(writer.write_bits(1, 1).is_err());
    assert_eq!(writer.available_bits(), max_bits - 1 - 2 - 4 - 1);
    assert_eq!(writer.written_bits(), bits_written);
    assert_eq!(writer.written_bytes(), bits_written / 8);

    writer.flush();
    assert_eq!(writer.scratch_bits(), 0);
    assert_eq!(writer.scratch(), 0);
    assert_eq!(writer.written_bits(), bits_written);
    assert_eq!(writer.written_bytes(), bits_written / 8);

    let mut reader = BitReader::new(&bytes);

    for (value, bits) in &values {
        let result = reader.read_bits(*bits).unwrap();
        assert_eq!(result, *value);
    }
}

#[test]
fn random() {
    let mut seed: <ChaCha8Rng as SeedableRng>::Seed = Default::default();
    rand::thread_rng().fill(&mut seed);

    println!("seed: {:?}", seed);
    let mut rng = ChaChaRng::from_seed(seed);

    const NBYTES: usize = 1024;
    let nbits = NBYTES * 8;

    let mut values = Vec::<(i32, u32)>::new();

    let mut generated_bits = 0;
    loop {
        let num_bits = rng.gen_range(1..33);

        if generated_bits + num_bits > nbits {
            break;
        }

        let max_value = ((1usize << num_bits) - 1) as u32;
        let value = rng.gen_range(0..=max_value);

        values.push((num_bits as i32, value));
        generated_bits += num_bits as usize;
    }

    let leftover_bits = nbits - generated_bits;

    let mut bytes: [u8; NBYTES] = [0; NBYTES];
    let mut writer = BitWriter::new(&mut bytes);

    for (bits, value) in values.iter() {
        println!("{} = {}", bits, value);
        assert!(writer.write_bits(*value, *bits).is_ok());
    }
    assert_eq!(writer.available_bits(), leftover_bits as i64);
    writer.flush();

    let mut reader = BitReader::new(&bytes);

    for (bits, value) in values {
        let read = reader.read_bits(bits);
        assert!(read.is_ok());
        assert_eq!(read.unwrap(), value);
    }
}

#[test]
fn write_bits_rejects_more_than_32_bits() {
    let mut bytes = [0u8; 8];
    let mut writer = BitWriter::new(&mut bytes);
    assert_eq!(writer.write_bits(0, 33), Err(Error::InvalidArgument));
    assert_eq!(writer.write_bits(0, 0), Err(Error::InvalidArgument));
    assert_eq!(writer.write_bits(0, -1), Err(Error::InvalidArgument));
    assert_eq!(writer.written_bits(), 0);
}

#[test]
fn write_bits_rejects_value_out_of_bounds() {
    let mut bytes = [0u8; 8];
    let mut writer = BitWriter::new(&mut bytes);
    assert_eq!(writer.write_bits(8, 3), Err(Error::ValueOutOfBounds));
    assert_eq!(writer.write_bits(7, 3), Ok(()));
    assert_eq!(writer.write_bits(u32::MAX, 32), Ok(()));
    assert_eq!(writer.written_bits(), 35);
}

#[test]
fn full_buffer_rejects_one_more_bit() {
    let mut bytes = [0u8; 2];
    {
        let mut writer = BitWriter::new(&mut bytes);
        assert_eq!(writer.write_byte(0xab), Ok(()));
        assert_eq!(writer.write_byte(0xcd), Ok(()));
        assert_eq!(writer.available_bits(), 0);
        assert_eq!(writer.write_bits(1, 1), Err(Error::OutOfMemory));
        assert_eq!(writer.write_bits(0, 1), Err(Error::OutOfMemory));
        writer.flush();
        assert_eq!(writer.bytes(), &[0xab, 0xcd]);
    }
    assert_eq!(bytes, [0xab, 0xcd]);
}

#[test]
fn every_width_round_trips_its_extreme_values() {
    for bits in 1..=32 {
        let max = ((1u64 << bits) - 1) as u32;
        for value in [0, 1, max / 2, max] {
            let mut bytes = [0xffu8; 4];
            let mut writer = BitWriter::new(&mut bytes);
            assert_eq!(writer.write_bits(value, bits), Ok(()));
            writer.flush();
            assert_eq!(writer.written_bytes(), (bits as i64 + 7) / 8);
            let mut reader = BitReader::new(&bytes);
            assert_eq!(reader.read_bits(bits), Ok(value));
        }
    }
}

#[test]
fn every_byte_round_trips() {
    for value in 0..=255u8 {
        let mut bytes = [0u8; 1];
        let mut writer = BitWriter::new(&mut bytes);
        assert_eq!(writer.write_byte(value), Ok(()));
        writer.flush();
        assert_eq!(bytes[0], value);
        let mut reader = BitReader::new(&bytes);
        assert_eq!(reader.read_byte(), Ok(value));
    }
}

#[test]
fn bytes_written_on_byte_boundaries_come_out_as_they_went_in() {
    let inputs = [0x00u8, 0x80, 0x7f, 0xff, 0x12, 0x34, 0x56];
    let mut bytes = [0u8; 7];
    let mut writer = BitWriter::new(&mut bytes);
    for byte in inputs {
        assert_eq!(writer.write_byte(byte), Ok(()));
    }
    writer.flush();
    assert_eq!(bytes, inputs);
}

#[test]
fn values_are_packed_most_significant_bit_first() {
    let mut bytes = [0u8; 2];
    let mut writer = BitWriter::new(&mut bytes);
    assert_eq!(writer.write_bits(0b101, 3), Ok(()));
    assert_eq!(writer.write_bits(0b0110, 4), Ok(()));
    assert_eq!(writer.write_bits(0b11, 2), Ok(()));
    writer.flush();
    // 101 0110 11, then seven zero bits of padding
    assert_eq!(bytes, [0b1010_1101, 0b1000_0000]);
}

#[test]
fn whole_bytes_leave_the_scratch_register_above_32_bits() {
    let mut bytes = [0u8; 8];
    let mut writer = BitWriter::new(&mut bytes);
    assert_eq!(writer.write_bits(0xa1b2c3d4, 32), Ok(()));
    assert_eq!(writer.scratch_bits(), 32);
    assert_eq!(writer.bytes(), &[0u8; 8]);
    assert_eq!(writer.write_bits(0xe5, 8), Ok(()));
    // 40 bits held: one byte leaves, 32 stay
    assert_eq!(writer.scratch_bits(), 32);
    assert_eq!(writer.scratch(), 0xb2c3d4e5);
    assert_eq!(writer.bytes(), &[0xa1, 0, 0, 0, 0, 0, 0, 0]);
    assert_eq!(writer.written_bytes(), 5);
    assert_eq!(writer.written_bits(), 40);
    assert_eq!(writer.available_bits(), 24);
    assert_eq!(writer.write_bits(0x3, 2), Ok(()));
    // 34 bits held: one more byte leaves, 26 stay
    assert_eq!(writer.scratch_bits(), 26);
    assert_eq!(writer.bytes(), &[0xa1, 0xb2, 0, 0, 0, 0, 0, 0]);
    assert_eq!(writer.written_bytes(), 5);
    writer.flush();
    assert_eq!(writer.written_bytes(), 6);
    assert_eq!(writer.bytes(), &[0xa1, 0xb2, 0xc3, 0xd4, 0xe5, 0xc0, 0, 0]);
}

#[test]
fn flush_pads_once_and_then_changes_nothing() {
    let mut bytes = [0xffu8; 3];
    let mut writer = BitWriter::new(&mut bytes);
    assert_eq!(writer.write_bits(0b11, 2), Ok(()));
    writer.flush();
    assert_eq!(writer.written_bits(), 8);
    assert_eq!(writer.bytes(), &[0b1100_0000, 0xff, 0xff]);
    writer.flush();
    writer.flush();
    assert_eq!(writer.written_bits(), 8);
    assert_eq!(writer.available_bits(), 16);
    assert_eq!(writer.bytes(), &[0b1100_0000, 0xff, 0xff]);
}

#[test]
fn flush_of_a_fresh_writer_writes_nothing() {
    let mut bytes = [0xaau8; 2];
    let mut writer = BitWriter::new(&mut bytes);
    writer.flush();
    assert_eq!(writer.written_bytes(), 0);
    assert_eq!(writer.bytes(), &[0xaa, 0xaa]);
}

#[test]
fn refused_write_leaves_the_writer_as_it_was() {
    let mut bytes = [0u8; 1];
    let mut writer = BitWriter::new(&mut bytes);
    assert_eq!(writer.write_bits(0b10110, 5), Ok(()));
    assert_eq!(writer.write_bits(0b1111, 4), Err(Error::OutOfMemory));
    assert_eq!(writer.write_bits(4, 2), Err(Error::ValueOutOfBounds));
    assert_eq!(writer.write_bits(1, 40), Err(Error::InvalidArgument));
    assert_eq!((writer.scratch(), writer.scratch_bits()), (0b10110, 5));
    assert_eq!(writer.write_bits(0b111, 3), Ok(()));
    writer.flush();
    assert_eq!(bytes, [0b1011_0111]);
}

#[test]
fn empty_buffer_has_no_room() {
    let mut bytes = [0u8; 0];
    let mut writer = BitWriter::new(&mut bytes);
    assert_eq!(writer.available_bits(), 0);
    assert_eq!(writer.write_bits(0, 1), Err(Error::OutOfMemory));
    assert_eq!(writer.write_byte(0), Err(Error::OutOfMemory));
    writer.flush();
    assert_eq!(writer.written_bits(), 0);
    let mut reader = BitReader::new(&bytes);
    assert_eq!(reader.read_bits(1), Err(Error::OutOfMemory));
    assert_eq!(reader.read_byte(), Err(Error::OutOfMemory));
}

#[test]
fn read_bits_rejects_counts_outside_1_to_32() {
    let bytes = [0xffu8; 8];
    let mut reader = BitReader::new(&bytes);
    assert_eq!(reader.read_bits(33), Err(Error::InvalidArgument));
    assert_eq!(reader.read_bits(0), Err(Error::InvalidArgument));
    assert_eq!(reader.read_bits(-3), Err(Error::InvalidArgument));
    assert_eq!(reader.read_bits(32), Ok(u32::MAX));
}

#[test]
fn refused_read_leaves_the_reader_where_it_was() {
    let bytes = [0b1010_0101u8, 0b1100_0011];
    let mut reader = BitReader::new(&bytes);
    assert_eq!(reader.read_bits(3), Ok(0b101));
    assert_eq!(reader.read_bits(14), Err(Error::OutOfMemory));
    assert_eq!(reader.read_bits(13), Ok(0b0_0101_1100_0011));
    assert_eq!(reader.read_bits(1), Err(Error::OutOfMemory));
}

#[test]
fn reads_cross_byte_boundaries() {
    let bytes = [0x12u8, 0x34, 0x56, 0x78, 0x9a];
    let mut reader = BitReader::new(&bytes);
    assert_eq!(reader.read_bits(4), Ok(0x1));
    assert_eq!(reader.read_bits(32), Ok(0x23456789));
    assert_eq!(reader.read_bits(4), Ok(0xa));
}
