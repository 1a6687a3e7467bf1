//! The OFDM demodulator: a received time-domain symbol to its transform
//! block, and the transformed bins back to payload bytes.

use vstd::prelude::*;
use crate::error::OfdmError;
use crate::ofdm::bin_is;
use crate::ofdm::data_bins;
use crate::ofdm::data_points;
use crate::ofdm::lemma_bins;
use crate::ofdm::lemma_round_trip;
use crate::ofdm::modulator::OFDMModulator;
use crate::ofdm::modulator::OFDMModulatorConfig;
use crate::ofdm::without_cyclic_prefix;
use crate::ofdm::OFDMConstants;
use crate::qam::decoded_bytes;
use crate::qam::Point;
use crate::qam::QAMModem;

verus! {

/// Recovers payload bytes from OFDM symbols. It is configured exactly as the
/// modulator whose symbols it receives.
#[derive(Debug)]
pub struct OFDMDemodulator {
    pub qam_modem: QAMModem,
    pub constants: OFDMConstants,
}

impl OFDMDemodulator {
    /// The allocation table belongs to a valid configuration and to the
    /// constellation of the codec.
    pub open spec fn wf(&self) -> bool {
        &&& self.constants.wf()
        &&& self.constants.valid()
        &&& self.constants.qam_order == self.qam_modem.qam_order
        &&& self.constants.bits_per_subcarrier == self.qam_modem.spec_bits_per_symbol()
    }

    /// The payload carried by the bins of one received symbol.
    pub open spec fn spec_payload(&self, symbol: Seq<Point>) -> Seq<u8> {
        decoded_bytes(
            data_points(
                symbol,
                self.constants.num_subcarriers as int,
                self.constants.pilot_subcarrier_every as int,
            ),
        )
    }

    /// A demodulator for `config`. A configuration that is not valid is
    /// refused, in particular one whose data bits do not fill whole bytes.
    pub fn new(config: OFDMModulatorConfig) -> (r: Result<Self, OfdmError>)
        ensures
            config.valid() ==> r is Ok,
            !config.valid() ==> r == Err::<Self, OfdmError>(OfdmError::InvalidConfiguration),
            r is Ok ==> {
                let d = r->Ok_0;
                &&& d.wf()
                &&& d.constants.num_subcarriers == config.num_subcarriers
                &&& d.constants.pilot_subcarrier_every == config.pilot_subcarrier_every
                &&& d.constants.cyclic_prefix_length == config.cyclic_prefix_length
                &&& d.constants.qam_order == config.qam_order
            },
    {
        let qam_modem = QAMModem::new(config.qam_order);
        match OFDMConstants::checked(
            config.num_subcarriers,
            config.pilot_subcarrier_every,
            config.cyclic_prefix_length,
            config.qam_order,
            qam_modem.bits_per_symbol(),
        ) {
            Ok(constants) => Ok(OFDMDemodulator { qam_modem, constants }),
            Err(e) => Err(e),
        }
    }

    /// The length of one time-domain symbol, prefix included.
    pub fn get_symbol_length(&self) -> (r: usize)
        requires
            self.wf(),
        ensures
            r == 2 * self.constants.num_subcarriers + self.constants.cyclic_prefix_length,
    {
        self.constants.symbol_length()
    }

    /// The number of payload bytes that one symbol carries.
    pub fn payload_capacity_bytes(&self) -> (r: usize)
        requires
            self.wf(),
        ensures
            r == self.constants.spec_payload_capacity_bytes(),
            r == (self.constants.data_subcarrier_indices@.len()
                * self.qam_modem.spec_bits_per_symbol()) / 8,
    {
        self.constants.payload_capacity_bytes()
    }

    /// Drops the cyclic prefix of one received symbol and returns the block
    /// to transform. A buffer that is not exactly one symbol long is refused.
    pub fn remove_cyclic_prefix<T: Copy>(&self, input: &[T]) -> (r: Result<Vec<T>, OfdmError>)
        requires
            self.wf(),
        ensures
            input@.len() == self.constants.spec_symbol_length() ==> r == Ok::<Vec<T>, OfdmError>(
                r->Ok_0,
            ) && r->Ok_0@ == without_cyclic_prefix(
                input@,
                self.constants.cyclic_prefix_length as int,
            ),
            input@.len() != self.constants.spec_symbol_length() ==> r == Err::<
                Vec<T>,
                OfdmError,
            >(OfdmError::InvalidBufferLength),
    {
        if input.len() != self.constants.symbol_length() {
            return Err(OfdmError::InvalidBufferLength);
        }
        let cp: usize = self.constants.cyclic_prefix_length as usize;
        let ghost target = without_cyclic_prefix(input@, cp as int);
        let mut block: Vec<T> = Vec::new();
        let mut i: usize = cp;
        while i < input.len()
            invariant
                cp <= i <= input@.len(),
                target == without_cyclic_prefix(input@, cp as int),
                block@.len() == i - cp,
                forall|j: int| 0 <= j < i - cp ==> block@[j] == target[j],
            decreases input@.len() - i,
        {
            block.push(input[i]);
            i += 1;
        }
        assert(block@ =~= target);
        Ok(block)
    }

    /// Reads the data bins of a frequency-domain symbol in ascending order.
    pub fn extract_data_symbols(&self, symbol: &[Point]) -> (points: Vec<Point>)
        requires
            self.wf(),
            symbol@.len() == self.constants.num_subcarriers + 1,
        ensures
            points@ == data_points(
                symbol@,
                self.constants.num_subcarriers as int,
                self.constants.pilot_subcarrier_every as int,
            ),
    {
        let ghost n = self.constants.num_subcarriers as int;
        let ghost every = self.constants.pilot_subcarrier_every as int;
        let mut points: Vec<Point> = Vec::new();
        let mut k: usize = 0;
        while k < self.constants.data_subcarrier_indices.len()
            invariant
                self.wf(),
                n == self.constants.num_subcarriers,
                every == self.constants.pilot_subcarrier_every,
                symbol@.len() == n + 1,
                k <= self.constants.data_subcarrier_indices@.len(),
                points@.len() == k,
                forall|j: int| 0 <= j < k ==> points@[j] == data_points(symbol@, n, every)[j],
            decreases self.constants.data_subcarrier_indices@.len() - k,
        {
            proof {
                lemma_bins(n, every, false);
                assert(bin_is(data_bins(n, every)[k as int] as int, n, every, false));
            }
            let idx: usize = self.constants.data_subcarrier_indices[k] as usize;
            points.push(symbol[idx]);
            k += 1;
        }
        assert(points@ =~= data_points(symbol@, n, every));
        points
    }

    /// Decodes the data bins of one transformed symbol into `output`. The
    /// output buffer is checked first, then the number of bins; on an error
    /// the buffer is left as it was.
    pub fn demodulate_symbol_into_buffer(&self, symbol: &[Point], output: &mut [u8]) -> (r: Result<
        (),
        OfdmError,
    >)
        requires
            self.wf(),
        ensures
            old(output)@.len() != self.constants.spec_payload_capacity_bytes() ==> r == Err::<
                (),
                OfdmError,
            >(OfdmError::InvalidBufferLength),
            old(output)@.len() == self.constants.spec_payload_capacity_bytes() && symbol@.len()
                != self.constants.num_subcarriers + 1 ==> r == Err::<(), OfdmError>(
                OfdmError::TransformError,
            ),
            old(output)@.len() == self.constants.spec_payload_capacity_bytes() && symbol@.len()
                == self.constants.num_subcarriers + 1 ==> r == Ok::<(), OfdmError>(()),
            r is Ok ==> final(output)@ == self.spec_payload(symbol@),
            r is Err ==> final(output)@ == old(output)@,
    {
        if output.len() != self.constants.payload_capacity_bytes() {
            return Err(OfdmError::InvalidBufferLength);
        }
        if symbol.len() != self.constants.num_subcarriers as usize + 1 {
            return Err(OfdmError::TransformError);
        }
        let points = self.extract_data_symbols(symbol);
        match self.qam_modem.demodulate(points.as_slice()) {
            Ok(bytes) => {
                let mut i: usize = 0;
                while i < bytes.len()
                    invariant
                        bytes@.len() == output@.len(),
                        i <= bytes@.len(),
                        forall|j: int| 0 <= j < i ==> output@[j] == bytes@[j],
                    decreases bytes@.len() - i,
                {
                    output[i] = bytes[i];
                    i += 1;
                }
                assert(output@ =~= bytes@);
                Ok(())
            },
            Err(e) => Err(e),
        }
    }
}

/// A demodulator configured as the modulator recovers every payload of
/// exact capacity from the bins of the symbol that the modulator assembles
/// for it, whatever pilot value the modulator writes.
pub proof fn lemma_demodulator_recovers_payload(
    m: OFDMModulator,
    d: OFDMDemodulator,
    data: Seq<u8>,
)
    requires
        m.wf(),
        d.wf(),
        d.constants.num_subcarriers == m.constants.num_subcarriers,
        d.constants.pilot_subcarrier_every == m.constants.pilot_subcarrier_every,
        data.len() == m.constants.spec_payload_capacity_bytes(),
    ensures
        d.spec_payload(m.spec_symbol(data)) == data,
{
    lemma_round_trip(
        m.constants.num_subcarriers as int,
        m.constants.pilot_subcarrier_every as int,
        data,
        m.pilot_value,
    );
}

} // verus!
