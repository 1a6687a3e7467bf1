//! The OFDM modulator: payload bytes to a frequency-domain symbol, and the
//! transformed block to a time-domain symbol with its cyclic prefix.

use vstd::prelude::*;
use crate::error::OfdmError;
use crate::ofdm::bin_is;
use crate::ofdm::bins;
use crate::ofdm::data_bins;
use crate::ofdm::data_rank;
use crate::ofdm::frequency_symbol;
use crate::ofdm::lemma_bins;
use crate::ofdm::lemma_cyclic_prefix_removed;
use crate::ofdm::valid_configuration;
use crate::ofdm::with_cyclic_prefix;
use crate::ofdm::OFDMConstants;
use crate::qam::encoded_points;
use crate::qam::Point;
use crate::qam::QAMModem;
use crate::qam::QAMOrder;
use crate::qam::ONE;

verus! {

/// The value written to every pilot bin until a modulator is given another: 1.0.
pub open spec fn spec_default_pilot() -> Point {
    Point { re: ONE, im: 0 }
}

/// The value written to every pilot bin until a modulator is given another: 1.0.
pub fn default_pilot() -> (p: Point)
    ensures
        p == spec_default_pilot(),
{
    Point { re: ONE, im: 0 }
}

/// What a modulator or a demodulator is built from.
#[derive(Clone, Copy, Debug)]
pub struct OFDMModulatorConfig {
    /// The number of subcarriers; one symbol has twice as many samples.
    pub num_subcarriers: u32,
    /// The length of the cyclic prefix in samples.
    pub cyclic_prefix_length: u32,
    /// Every bin that is a multiple of this interval carries a pilot.
    pub pilot_subcarrier_every: u32,
    /// The constellation used on the data bins.
    pub qam_order: QAMOrder,
}

impl OFDMModulatorConfig {
    /// The configuration is one that a modulator or demodulator accepts.
    pub open spec fn valid(&self) -> bool {
        valid_configuration(
            self.num_subcarriers as int,
            self.pilot_subcarrier_every as int,
            self.cyclic_prefix_length as int,
            QAMModem { qam_order: self.qam_order }.spec_bits_per_symbol(),
        )
    }
}

impl Default for OFDMModulatorConfig {
    /// A pilot on every fourth bin; the other fields are left to the caller.
    fn default() -> (r: Self)
        ensures
            r.num_subcarriers == 0,
            r.cyclic_prefix_length == 0,
            r.pilot_subcarrier_every == 4,
            r.qam_order == QAMOrder::QAM16,
    {
        OFDMModulatorConfig {
            num_subcarriers: 0,
            cyclic_prefix_length: 0,
            pilot_subcarrier_every: 4,
            qam_order: QAMOrder::QAM16,
        }
    }
}

/// Modulates payload bytes into OFDM symbols.
#[derive(Debug)]
pub struct OFDMModulator {
    pub qam_modem: QAMModem,
    pub constants: OFDMConstants,
    /// The value written to every pilot bin.
    pub pilot_value: Point,
}

impl OFDMModulator {
    /// The allocation table belongs to a valid configuration and to the
    /// constellation of the codec.
    pub open spec fn wf(&self) -> bool {
        &&& self.constants.wf()
        &&& self.constants.valid()
        &&& self.constants.qam_order == self.qam_modem.qam_order
        &&& self.constants.bits_per_subcarrier == self.qam_modem.spec_bits_per_symbol()
    }

    /// The frequency-domain symbol that carries `data`.
    pub open spec fn spec_symbol(&self, data: Seq<u8>) -> Seq<Point> {
        frequency_symbol(
            self.constants.num_subcarriers as int,
            self.constants.pilot_subcarrier_every as int,
            encoded_points(data),
            self.pilot_value,
        )
    }

    /// A modulator for `config`. A configuration that is not valid is
    /// refused, in particular one whose data bits do not fill whole bytes.
    pub fn new(config: OFDMModulatorConfig) -> (r: Result<Self, OfdmError>)
        ensures
            config.valid() ==> r is Ok,
            !config.valid() ==> r == Err::<Self, OfdmError>(OfdmError::InvalidConfiguration),
            r is Ok ==> {
                let m = r->Ok_0;
                &&& m.wf()
                &&& m.constants.num_subcarriers == config.num_subcarriers
                &&& m.constants.pilot_subcarrier_every == config.pilot_subcarrier_every
                &&& m.constants.cyclic_prefix_length == config.cyclic_prefix_length
                &&& m.constants.qam_order == config.qam_order
                &&& m.pilot_value == spec_default_pilot()
            },
    {
        let qam_modem = QAMModem::new(config.qam_order);
        match OFDMConstants::checked(
            config.num_subcarriers,
            config.pilot_subcarrier_every,
            config.cyclic_prefix_length,
            config.qam_order,
            qam_modem.bits_per_symbol(),
        ) {
            Ok(constants) => Ok(OFDMModulator { qam_modem, constants, pilot_value: default_pilot() }),
            Err(e) => Err(e),
        }
    }

    /// The length of one time-domain symbol, prefix included.
    pub fn get_symbol_length(&self) -> (r: usize)
        requires
            self.wf(),
        ensures
            r == 2 * self.constants.num_subcarriers + self.constants.cyclic_prefix_length,
    {
        self.constants.symbol_length()
    }

    /// The number of payload bytes that one symbol carries.
    pub fn payload_capacity_bytes(&self) -> (r: usize)
        requires
            self.wf(),
        ensures
            r == self.constants.spec_payload_capacity_bytes(),
            r == (self.constants.data_subcarrier_indices@.len()
                * self.qam_modem.spec_bits_per_symbol()) / 8,
    {
        self.constants.payload_capacity_bytes()
    }

    /// Encodes a payload of exactly the symbol's capacity and places it on
    /// the data bins. A payload of any other length is refused.
    pub fn modulate_buffer_as_symbol(&self, data: &[u8]) -> (r: Result<Vec<Point>, OfdmError>)
        requires
            self.wf(),
        ensures
            data@.len() == self.constants.spec_payload_capacity_bytes() ==> r == Ok::<
                Vec<Point>,
                OfdmError,
            >(r->Ok_0) && r->Ok_0@ == self.spec_symbol(data@),
            data@.len() != self.constants.spec_payload_capacity_bytes() ==> r == Err::<
                Vec<Point>,
                OfdmError,
            >(OfdmError::InvalidPayloadLength),
    {
        if data.len() != self.constants.payload_capacity_bytes() {
            return Err(OfdmError::InvalidPayloadLength);
        }
        let qam_symbols = self.qam_modem.modulate(data);
        Ok(self.modulate_ofdm_symbol(&qam_symbols))
    }

    /// Assembles the frequency-domain symbol: zero everywhere, then the
    /// points on the data bins in ascending order, then the pilot value on the
    /// pilot bins.
    pub fn modulate_ofdm_symbol(&self, qam_symbols: &Vec<Point>) -> (input: Vec<Point>)
        requires
            self.wf(),
            qam_symbols@.len() == self.constants.data_subcarrier_indices@.len(),
        ensures
            input@ == frequency_symbol(
                self.constants.num_subcarriers as int,
                self.constants.pilot_subcarrier_every as int,
                qam_symbols@,
                self.pilot_value,
            ),
    {
        let ghost n = self.constants.num_subcarriers as int;
        let ghost every = self.constants.pilot_subcarrier_every as int;
        let bin_count: usize = self.constants.num_subcarriers as usize + 1;
        let mut input: Vec<Point> = Vec::new();
        let mut i: usize = 0;
        while i < bin_count
            invariant
                i <= bin_count,
                input@.len() == i,
                forall|j: int| 0 <= j < i ==> input@[j] == (Point { re: 0, im: 0 }),
            decreases bin_count - i,
        {
            input.push(Point { re: 0, im: 0 });
            i += 1;
        }
        proof {
            lemma_bins(n, every, false);
            lemma_bins(n, every, true);
        }
        let mut k: usize = 0;
        while k < self.constants.data_subcarrier_indices.len()
            invariant
                self.wf(),
                n == self.constants.num_subcarriers,
                every == self.constants.pilot_subcarrier_every,
                qam_symbols@.len() == self.constants.data_subcarrier_indices@.len(),
                k <= self.constants.data_subcarrier_indices@.len(),
                input@.len() == n + 1,
                forall|j: int|
                    0 <= j <= n ==> #[trigger] input@[j] == (if bin_is(j, n, every, false)
                        && data_rank(j, every) < k {
                        qam_symbols@[data_rank(j, every)]
                    } else {
                        Point { re: 0, im: 0 }
                    }),
            decreases self.constants.data_subcarrier_indices@.len() - k,
        {
            let idx: usize = self.constants.data_subcarrier_indices[k] as usize;
            proof {
                lemma_bins(n, every, false);
                assert(bin_is(data_bins(n, every)[k as int] as int, n, every, false));
            }
            input.set(idx, qam_symbols[k]);
            k += 1;
        }
        let mut k: usize = 0;
        while k < self.constants.pilot_subcarrier_indices.len()
            invariant
                self.wf(),
                n == self.constants.num_subcarriers,
                every == self.constants.pilot_subcarrier_every,
                k <= self.constants.pilot_subcarrier_indices@.len(),
                input@.len() == n + 1,
                forall|j: int|
                    0 <= j <= n ==> #[trigger] input@[j] == (if bin_is(j, n, every, false) {
                        qam_symbols@[data_rank(j, every)]
                    } else if bin_is(j, n, every, true) && bins(j, every, true).len() < k {
                        self.pilot_value
                    } else {
                        Point { re: 0, im: 0 }
                    }),
            decreases self.constants.pilot_subcarrier_indices@.len() - k,
        {
            let idx: usize = self.constants.pilot_subcarrier_indices[k] as usize;
            proof {
                lemma_bins(n, every, true);
                assert(bin_is(bins(n, every, true)[k as int] as int, n, every, true));
            }
            input.set(idx, self.pilot_value);
            k += 1;
        }
        assert(input@ =~= frequency_symbol(n, every, qam_symbols@, self.pilot_value));
        input
    }

    /// Writes the time-domain symbol: the last `cyclic_prefix_length` samples
    /// of the transformed block, then the whole block. The output buffer is
    /// checked first, then the block; on an error the buffer is left as it was.
    pub fn add_cyclic_prefix<T: Copy>(&self, block: &[T], output: &mut [T]) -> (r: Result<
        (),
        OfdmError,
    >)
        requires
            self.wf(),
        ensures
            old(output)@.len() != self.constants.spec_symbol_length() ==> r == Err::<
                (),
                OfdmError,
            >(OfdmError::InvalidBufferLength),
            old(output)@.len() == self.constants.spec_symbol_length() && block@.len() != 2
                * self.constants.num_subcarriers ==> r == Err::<(), OfdmError>(
                OfdmError::TransformError,
            ),
            old(output)@.len() == self.constants.spec_symbol_length() && block@.len() == 2
                * self.constants.num_subcarriers ==> r == Ok::<(), OfdmError>(()),
            r is Ok ==> final(output)@ == with_cyclic_prefix(
                block@,
                self.constants.cyclic_prefix_length as int,
            ),
            r is Ok ==> final(output)@.subrange(0, self.constants.cyclic_prefix_length as int)
                == block@.subrange(
                block@.len() - self.constants.cyclic_prefix_length,
                block@.len() as int,
            ),
            r is Ok ==> final(output)@.subrange(
                self.constants.cyclic_prefix_length as int,
                final(output)@.len() as int,
            ) == block@,
            r is Err ==> final(output)@ == old(output)@,
    {
        if output.len() != self.constants.symbol_length() {
            return Err(OfdmError::InvalidBufferLength);
        }
        let block_length: usize = 2 * (self.constants.num_subcarriers as usize);
        if block.len() != block_length {
            return Err(OfdmError::TransformError);
        }
        let cp: usize = self.constants.cyclic_prefix_length as usize;
        let ghost target = with_cyclic_prefix(block@, cp as int);
        let mut i: usize = 0;
        while i < cp
            invariant
                cp <= block_length,
                block@.len() == block_length,
                output@.len() == block_length + cp,
                target == with_cyclic_prefix(block@, cp as int),
                i <= cp,
                forall|j: int| 0 <= j < i ==> output@[j] == target[j],
            decreases cp - i,
        {
            output[i] = block[block_length - cp + i];
            i += 1;
        }
        let mut i: usize = 0;
        while i < block_length
            invariant
                cp <= block_length,
                block@.len() == block_length,
                output@.len() == block_length + cp,
                target == with_cyclic_prefix(block@, cp as int),
                block_length + cp <= usize::MAX,
                i <= block_length,
                forall|j: int| 0 <= j < cp + i ==> output@[j] == target[j],
            decreases block_length - i,
        {
            output[cp + i] = block[i];
            i += 1;
        }
        assert(output@ =~= target);
        proof {
            lemma_cyclic_prefix_removed(block@, cp as int);
        }
        Ok(())
    }
}

} // verus!
