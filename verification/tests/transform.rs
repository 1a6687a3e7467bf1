use realfft::num_complex::Complex32;
use realfft::RealFftPlanner;
use software_modem::ofdm::demodulator::OFDMDemodulator;
use software_modem::ofdm::modulator::{OFDMModulator, OFDMModulatorConfig};
use software_modem::qam::{Point, QAMOrder, ONE};

fn to_complex(p: &Point) -> Complex32 {
    Complex32::new(p.re as f32 / ONE as f32, p.im as f32 / ONE as f32)
}

fn to_point(c: &Complex32, scale: f32) -> Point {
    Point {
        re: (c.re / scale * ONE as f32).round() as i32,
        im: (c.im / scale * ONE as f32).round() as i32,
    }
}

fn transmit(config: OFDMModulatorConfig, payload: &[u8]) -> Vec<f32> {
    let m = OFDMModulator::new(config).unwrap();
    let symbol = m.modulate_buffer_as_symbol(payload).unwrap();
    let mut bins: Vec<Complex32> = symbol.iter().map(to_complex).collect();
    let inverse = RealFftPlanner::<f32>::new().plan_fft_inverse(2 * config.num_subcarriers as usize);
    let mut block = inverse.make_output_vec();
    inverse.process(&mut bins, &mut block).unwrap();
    let mut samples = vec![0.0f32; m.get_symbol_length()];
    m.add_cyclic_prefix(&block, &mut samples).unwrap();
    let cp = config.cyclic_prefix_length as usize;
    assert_eq!(&samples[..cp], &block[block.len() - cp..]);
    assert_eq!(&samples[cp..], &block[..]);
    samples
}

fn receive(config: OFDMModulatorConfig, samples: &[f32]) -> Vec<u8> {
    let d = OFDMDemodulator::new(config).unwrap();
    let mut block = d.remove_cyclic_prefix(samples).unwrap();
    let forward = RealFftPlanner::<f32>::new().plan_fft_forward(2 * config.num_subcarriers as usize);
    let mut bins = forward.make_output_vec();
    forward.process(&mut block, &mut bins).unwrap();
    let scale = 2.0 * config.num_subcarriers as f32;
    let symbol: Vec<Point> = bins.iter().map(|c| to_point(c, scale)).collect();
    let mut payload = vec![0u8; d.payload_capacity_bytes()];
    d.demodulate_symbol_into_buffer(&symbol, &mut payload).unwrap();
    payload
}

#[test]
fn hi_survives_the_transform_pair() {
    let config = OFDMModulatorConfig {
        num_subcarriers: 6,
        cyclic_prefix_length: 2,
        pilot_subcarrier_every: 4,
        qam_order: QAMOrder::QAM16,
    };
    let samples = transmit(config, "Hi".as_bytes());
    assert_eq!(samples.len(), 14);
    assert_eq!(receive(config, &samples), "Hi".as_bytes());
}

#[test]
fn payloads_survive_the_transform_pair() {
    for (n, cp, every) in [(64u32, 4u32, 4u32), (64, 32, 4), (128, 0, 8), (16, 32, 3), (4, 1, 2)] {
        let config = OFDMModulatorConfig {
            num_subcarriers: n,
            cyclic_prefix_length: cp,
            pilot_subcarrier_every: every,
            qam_order: QAMOrder::QAM16,
        };
        let capacity = OFDMModulator::new(config).unwrap().payload_capacity_bytes();
        for seed in 0u8..8 {
            let payload: Vec<u8> = (0..capacity)
                .map(|i| (i as u8).wrapping_mul(37).wrapping_add(seed.wrapping_mul(101)))
                .collect();
            let samples = transmit(config, &payload);
            assert_eq!(samples.len(), (2 * n + cp) as usize);
            assert_eq!(receive(config, &samples), payload);
        }
    }
}

#[test]
fn small_noise_on_the_samples_does_not_change_the_payload() {
    let config = OFDMModulatorConfig {
        num_subcarriers: 64,
        cyclic_prefix_length: 4,
        pilot_subcarrier_every: 4,
        qam_order: QAMOrder::QAM16,
    };
    let payload = "Hello, OFDM!            ".as_bytes();
    let mut samples = transmit(config, payload);
    for (i, s) in samples.iter_mut().enumerate() {
        *s += if i % 2 == 0 { 0.05 } else { -0.05 };
    }
    assert_eq!(receive(config, &samples), payload);
}
