use software_modem::error::OfdmError;
use software_modem::ofdm::demodulator::OFDMDemodulator;
use software_modem::ofdm::modulator::{default_pilot, OFDMModulator, OFDMModulatorConfig};
use software_modem::qam::{Point, QAMModem, QAMOrder, ONE};

fn config(n: u32, cp: u32, every: u32) -> OFDMModulatorConfig {
    OFDMModulatorConfig {
        num_subcarriers: n,
        cyclic_prefix_length: cp,
        pilot_subcarrier_every: every,
        qam_order: QAMOrder::QAM16,
    }
}

fn grid(re: i32, im: i32) -> Point {
    Point { re: re * ONE, im: im * ONE }
}

const ZERO: Point = Point { re: 0, im: 0 };

#[test]
fn default_configuration_places_a_pilot_every_fourth_bin() {
    let c = OFDMModulatorConfig::default();
    assert_eq!(c.pilot_subcarrier_every, 4);
    assert_eq!(c.num_subcarriers, 0);
    assert_eq!(c.cyclic_prefix_length, 0);
    assert_eq!(c.qam_order, QAMOrder::QAM16);
    assert_eq!(default_pilot(), grid(1, 0));
}

#[test]
fn sizes_of_the_sixty_four_subcarrier_symbol() {
    let m = OFDMModulator::new(config(64, 4, 4)).unwrap();
    assert_eq!(m.constants.data_subcarrier_indices.len(), 48);
    assert_eq!(m.constants.pilot_subcarrier_indices.len(), 15);
    assert_eq!(m.get_symbol_length(), 132);
    assert_eq!(m.payload_capacity_bytes(), 24);
    assert_eq!(m.payload_capacity_bytes(), 48 * 4 / 8);
    assert_eq!(m.pilot_value, grid(1, 0));
    let d = OFDMDemodulator::new(config(64, 4, 4)).unwrap();
    assert_eq!(d.get_symbol_length(), 132);
    assert_eq!(d.payload_capacity_bytes(), 24);
    assert_eq!(d.constants.data_subcarrier_indices, m.constants.data_subcarrier_indices);
}

#[test]
fn capacity_follows_the_number_of_data_bins() {
    for (n, every) in [(4u32, 2u32), (6, 4), (8, 2), (16, 3), (64, 4), (128, 8), (10, 11)] {
        if let Ok(m) = OFDMModulator::new(config(n, 0, every)) {
            let bits = m.constants.data_subcarrier_indices.len() * 4;
            assert_eq!(bits % 8, 0);
            assert_eq!(m.payload_capacity_bytes(), bits / 8);
            assert_eq!(m.get_symbol_length(), 2 * n as usize);
        }
    }
}

#[test]
fn construction_refuses_data_bits_that_do_not_fill_bytes() {
    // bins 1..=5 with pilots on 2 and 4 leave three data bins: 12 bits
    assert_eq!(OFDMModulator::new(config(6, 0, 2)).err(), Some(OfdmError::InvalidConfiguration));
    assert_eq!(OFDMDemodulator::new(config(6, 0, 2)).err(), Some(OfdmError::InvalidConfiguration));
    // bins 1..=9 without a pilot: 36 bits
    assert_eq!(OFDMModulator::new(config(10, 0, 11)).err(), Some(OfdmError::InvalidConfiguration));
    assert!(OFDMModulator::new(config(6, 0, 4)).is_ok());
}

#[test]
fn construction_refuses_configurations_out_of_range() {
    for c in [
        config(0, 0, 4),
        config(2, 0, 4),
        config(5, 0, 4),
        config(64, 4, 0),
        config(64, 4, 1),
        config(64, 129, 4),
        config(0x8000_0000, 0, 4),
        config(0x5555_5556, 0x5555_5556, 0xffff_ffff),
        OFDMModulatorConfig::default(),
    ] {
        assert_eq!(OFDMModulator::new(c).err(), Some(OfdmError::InvalidConfiguration));
        assert_eq!(OFDMDemodulator::new(c).err(), Some(OfdmError::InvalidConfiguration));
    }
}

#[test]
fn frequency_symbol_of_a_two_byte_payload() {
    let m = OFDMModulator::new(config(6, 2, 4)).unwrap();
    assert_eq!(m.payload_capacity_bytes(), 2);
    let symbol = m.modulate_buffer_as_symbol("Hi".as_bytes()).unwrap();
    assert_eq!(
        symbol,
        vec![ZERO, grid(1, -1), grid(-1, 1), grid(3, -1), grid(1, 0), grid(-1, 3), ZERO]
    );
}

#[test]
fn pilot_value_can_be_replaced() {
    let mut m = OFDMModulator::new(config(8, 0, 2)).unwrap();
    m.pilot_value = grid(-3, 2);
    assert_eq!(m.payload_capacity_bytes(), 2);
    let symbol = m.modulate_buffer_as_symbol(&[0x01, 0x23]).unwrap();
    assert_eq!(
        symbol,
        vec![
            ZERO,
            grid(1, 1),
            grid(-3, 2),
            grid(1, 3),
            grid(-3, 2),
            grid(3, 1),
            grid(-3, 2),
            grid(3, 3),
            ZERO
        ]
    );
}

#[test]
fn symbol_assembly_places_points_in_ascending_bin_order() {
    let m = OFDMModulator::new(config(6, 0, 4)).unwrap();
    let points = vec![grid(3, 3), grid(-3, -3), grid(1, -3), grid(-1, 3)];
    let symbol = m.modulate_ofdm_symbol(&points);
    assert_eq!(
        symbol,
        vec![ZERO, grid(3, 3), grid(-3, -3), grid(1, -3), grid(1, 0), grid(-1, 3), ZERO]
    );
    let d = OFDMDemodulator::new(config(6, 0, 4)).unwrap();
    assert_eq!(d.extract_data_symbols(&symbol), points);
}

#[test]
fn payload_one_byte_short_or_over_is_refused() {
    let m = OFDMModulator::new(config(64, 4, 4)).unwrap();
    assert_eq!(m.modulate_buffer_as_symbol(&[0u8; 23]), Err(OfdmError::InvalidPayloadLength));
    assert_eq!(m.modulate_buffer_as_symbol(&[0u8; 25]), Err(OfdmError::InvalidPayloadLength));
    assert_eq!(m.modulate_buffer_as_symbol(&[]), Err(OfdmError::InvalidPayloadLength));
    let symbol = m.modulate_buffer_as_symbol(&[0u8; 24]).unwrap();
    assert_eq!(symbol.len(), 65);
    assert_eq!(symbol[0], ZERO);
    assert_eq!(symbol[64], ZERO);
    assert_eq!(symbol[1], grid(1, 1));
    assert_eq!(symbol[4], grid(1, 0));
}

#[test]
fn cyclic_prefix_is_the_tail_of_the_block() {
    let m = OFDMModulator::new(config(4, 3, 2)).unwrap();
    assert_eq!(m.get_symbol_length(), 11);
    let block: Vec<i32> = vec![10, 11, 12, 13, 14, 15, 16, 17];
    let mut out = vec![0i32; 11];
    assert_eq!(m.add_cyclic_prefix(&block, &mut out), Ok(()));
    assert_eq!(out, vec![15, 16, 17, 10, 11, 12, 13, 14, 15, 16, 17]);
    assert_eq!(&out[..3], &block[5..]);
    assert_eq!(&out[3..], &block[..]);
    let d = OFDMDemodulator::new(config(4, 3, 2)).unwrap();
    assert_eq!(d.remove_cyclic_prefix(&out), Ok(block));
}

#[test]
fn cyclic_prefix_of_length_zero_and_of_full_length() {
    let block: Vec<u8> = vec![1, 2, 3, 4, 5, 6, 7, 8];
    let m = OFDMModulator::new(config(4, 0, 2)).unwrap();
    let mut out = vec![0u8; 8];
    assert_eq!(m.add_cyclic_prefix(&block, &mut out), Ok(()));
    assert_eq!(out, block);
    let m = OFDMModulator::new(config(4, 8, 2)).unwrap();
    let mut out = vec![0u8; 16];
    assert_eq!(m.add_cyclic_prefix(&block, &mut out), Ok(()));
    assert_eq!(out, vec![1, 2, 3, 4, 5, 6, 7, 8, 1, 2, 3, 4, 5, 6, 7, 8]);
}

#[test]
fn buffers_of_the_wrong_length_are_refused() {
    let m = OFDMModulator::new(config(4, 3, 2)).unwrap();
    let block = vec![1i32; 8];
    let mut short = vec![7i32; 10];
    assert_eq!(m.add_cyclic_prefix(&block, &mut short), Err(OfdmError::InvalidBufferLength));
    assert_eq!(short, vec![7i32; 10]);
    let mut long = vec![7i32; 12];
    assert_eq!(m.add_cyclic_prefix(&block, &mut long), Err(OfdmError::InvalidBufferLength));
    let mut out = vec![7i32; 11];
    assert_eq!(m.add_cyclic_prefix(&block[..7], &mut out), Err(OfdmError::TransformError));
    assert_eq!(out, vec![7i32; 11]);
    assert_eq!(m.add_cyclic_prefix(&block[..7], &mut short), Err(OfdmError::InvalidBufferLength));

    let d = OFDMDemodulator::new(config(4, 3, 2)).unwrap();
    assert_eq!(d.remove_cyclic_prefix(&[0i32; 10]), Err(OfdmError::InvalidBufferLength));
    assert_eq!(d.remove_cyclic_prefix(&[0i32; 12]), Err(OfdmError::InvalidBufferLength));
    assert_eq!(d.payload_capacity_bytes(), 1);
    let symbol = vec![ZERO; 5];
    let mut bytes = vec![9u8; 2];
    assert_eq!(
        d.demodulate_symbol_into_buffer(&symbol, &mut bytes),
        Err(OfdmError::InvalidBufferLength)
    );
    assert_eq!(bytes, vec![9u8; 2]);
    let mut bytes = vec![9u8; 1];
    assert_eq!(
        d.demodulate_symbol_into_buffer(&symbol[..4], &mut bytes),
        Err(OfdmError::TransformError)
    );
    assert_eq!(bytes, vec![9u8; 1]);
    assert_eq!(d.demodulate_symbol_into_buffer(&symbol, &mut bytes), Ok(()));
    assert_eq!(bytes, vec![0u8]);
}

#[test]
fn bins_of_a_symbol_decode_to_its_payload() {
    let m = OFDMModulator::new(config(64, 4, 4)).unwrap();
    let d = OFDMDemodulator::new(config(64, 4, 4)).unwrap();
    let payload = "Hello, OFDM!            ".as_bytes();
    assert_eq!(payload.len(), 24);
    let symbol = m.modulate_buffer_as_symbol(payload).unwrap();
    let mut out = vec![0u8; 24];
    assert_eq!(d.demodulate_symbol_into_buffer(&symbol, &mut out), Ok(()));
    assert_eq!(out, payload);
}

#[test]
fn pilot_and_edge_bins_do_not_reach_the_payload() {
    let m = OFDMModulator::new(config(6, 2, 4)).unwrap();
    let d = OFDMDemodulator::new(config(6, 2, 4)).unwrap();
    let mut symbol = m.modulate_buffer_as_symbol("Hi".as_bytes()).unwrap();
    symbol[0] = grid(-3, -3);
    symbol[4] = grid(3, -3);
    symbol[6] = grid(-1, -1);
    for bin in [1usize, 2, 3, 5] {
        symbol[bin].re += ONE - 1;
        symbol[bin].im -= ONE - 1;
    }
    let mut out = vec![0u8; 2];
    assert_eq!(d.demodulate_symbol_into_buffer(&symbol, &mut out), Ok(()));
    assert_eq!(out, "Hi".as_bytes());
    assert_eq!(QAMModem::new(QAMOrder::QAM16).decode(symbol[1]), 4);
}
