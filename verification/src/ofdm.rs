//! The subcarrier allocation table and the layout of one OFDM symbol.
//!
//! The [modulator] turns payload bytes into a frequency-domain symbol and a
//! transformed block into a prefixed time-domain symbol; the [demodulator]
//! strips the prefix and recovers the payload from received bins.

use vstd::prelude::*;
use crate::error::OfdmError;
use crate::qam::decoded_bytes;
use crate::qam::encoded_points;
use crate::qam::lemma_decode_received;
use crate::qam::within_tolerance;
use crate::qam::Point;
use crate::qam::QAMOrder;

pub mod demodulator;
pub mod modulator;

verus! {

/// Bin `i` is enumerated by the table (`1 <= i < n`) and is a pilot bin
/// (`pilot` set: a multiple of `every`) or a data bin (`pilot` clear).
pub open spec fn bin_is(i: int, n: int, every: int, pilot: bool) -> bool {
    1 <= i < n && ((i % every == 0) == pilot)
}

/// The bins of one class below `n`, in ascending order.
pub open spec fn bins(n: int, every: int, pilot: bool) -> Seq<u32>
    decreases n,
{
    if n <= 1 {
        Seq::empty()
    } else if ((n - 1) % every == 0) == pilot {
        bins(n - 1, every, pilot).push((n - 1) as u32)
    } else {
        bins(n - 1, every, pilot)
    }
}

/// The bins that carry payload, in ascending order.
pub open spec fn data_bins(n: int, every: int) -> Seq<u32> {
    bins(n, every, false)
}

/// The bins reserved for pilots, in ascending order.
pub open spec fn pilot_bins(n: int, every: int) -> Seq<u32> {
    bins(n, every, true)
}

/// The number of data bins below bin `i`: the position of `i` among the data bins.
pub open spec fn data_rank(i: int, every: int) -> int {
    data_bins(i, every).len() as int
}

/// The frequency-domain symbol of `n + 1` bins: the payload points on the
/// data bins in ascending order, `pilot` on the pilot bins, zero on the first
/// and the last bin.
pub open spec fn frequency_symbol(n: int, every: int, points: Seq<Point>, pilot: Point) -> Seq<
    Point,
> {
    Seq::new(
        (n + 1) as nat,
        |i: int|
            if bin_is(i, n, every, false) {
                points[data_rank(i, every)]
            } else if bin_is(i, n, every, true) {
                pilot
            } else {
                Point { re: 0, im: 0 }
            },
    )
}

/// The values found on the data bins, in ascending bin order.
pub open spec fn data_points(symbol: Seq<Point>, n: int, every: int) -> Seq<Point> {
    Seq::new(data_bins(n, every).len(), |k: int| symbol[data_bins(n, every)[k] as int])
}

/// The block preceded by a copy of its last `cp` samples.
pub open spec fn with_cyclic_prefix<T>(block: Seq<T>, cp: int) -> Seq<T> {
    block.subrange(block.len() - cp, block.len() as int) + block
}

/// The samples that follow the first `cp`.
pub open spec fn without_cyclic_prefix<T>(samples: Seq<T>, cp: int) -> Seq<T> {
    samples.subrange(cp, samples.len() as int)
}

/// A configuration that a modulator or demodulator can be built from: an
/// even number of at least 4 subcarriers, a pilot interval of at least 2, a
/// prefix no longer than the block it is copied from, a symbol length and a
/// payload capacity that fit in 32 bits, and data bits that fill whole bytes.
pub open spec fn valid_configuration(n: int, every: int, cp: int, bits: int) -> bool {
    &&& n >= 4
    &&& n % 2 == 0
    &&& every >= 2
    &&& 0 <= cp <= 2 * n
    &&& 2 * n + cp <= u32::MAX
    &&& (data_bins(n, every).len() * bits) % 8 == 0
    &&& (data_bins(n, every).len() * bits) / 8 <= u32::MAX
}

/// Each class of bins lists exactly the bins of that class below `n`, each
/// once, in ascending order, every bin at the position that counts the bins
/// of its class below it.
pub proof fn lemma_bins(n: int, every: int, pilot: bool)
    requires
        every >= 1,
        n <= u32::MAX,
    ensures
        n >= 1 ==> bins(n, every, pilot).len() <= n - 1,
        n < 1 ==> bins(n, every, pilot).len() == 0,
        forall|k: int|
            0 <= k < bins(n, every, pilot).len() ==> bin_is(
                #[trigger] bins(n, every, pilot)[k] as int,
                n,
                every,
                pilot,
            ) && bins(bins(n, every, pilot)[k] as int, every, pilot).len() == k,
        forall|i: int| #[trigger]
            bin_is(i, n, every, pilot) ==> bins(i, every, pilot).len() < bins(
                n,
                every,
                pilot,
            ).len() && bins(n, every, pilot)[bins(i, every, pilot).len() as int] == i,
        forall|j: int, k: int|
            0 <= j < k < bins(n, every, pilot).len() ==> #[trigger] bins(n, every, pilot)[j]
                < #[trigger] bins(n, every, pilot)[k],
    decreases n,
{
    if n > 1 {
        lemma_bins(n - 1, every, pilot);
        let prev = bins(n - 1, every, pilot);
        let cur = bins(n, every, pilot);
        if ((n - 1) % every == 0) == pilot {
            assert(cur == prev.push((n - 1) as u32));
            assert forall|k: int| 0 <= k < cur.len() implies bin_is(
                #[trigger] cur[k] as int,
                n,
                every,
                pilot,
            ) && bins(cur[k] as int, every, pilot).len() == k by {
                if k < prev.len() {
                    assert(cur[k] == prev[k]);
                    assert(bin_is(prev[k] as int, n - 1, every, pilot));
                }
            }
            assert forall|i: int| #[trigger] bin_is(i, n, every, pilot) implies bins(
                i,
                every,
                pilot,
            ).len() < cur.len() && cur[bins(i, every, pilot).len() as int] == i by {
                if i < n - 1 {
                    assert(bin_is(i, n - 1, every, pilot));
                    assert(cur[bins(i, every, pilot).len() as int] == prev[bins(
                        i,
                        every,
                        pilot,
                    ).len() as int]);
                }
            }
            assert forall|j: int, k: int| 0 <= j < k < cur.len() implies #[trigger] cur[j]
                < #[trigger] cur[k] by {
                assert(cur[j] == prev[j]);
                assert(bin_is(prev[j] as int, n - 1, every, pilot));
                if k < prev.len() {
                    assert(cur[k] == prev[k]);
                }
            }
        } else {
            assert(cur == prev);
            assert forall|i: int| #[trigger] bin_is(i, n, every, pilot) implies bins(
                i,
                every,
                pilot,
            ).len() < cur.len() && cur[bins(i, every, pilot).len() as int] == i by {
                assert(bin_is(i, n - 1, every, pilot));
            }
        }
    }
}

/// The number of bins in each class: below `n` lie `(n - 1) / every` pilot
/// bins, and the other `n - 1 - (n - 1) / every` enumerated bins carry data.
pub proof fn lemma_bins_count(n: int, every: int)
    requires
        every >= 1,
        n >= 1,
    ensures
        pilot_bins(n, every).len() == (n - 1) / every,
        data_bins(n, every).len() == (n - 1) - (n - 1) / every,
    decreases n,
{
    if n > 1 {
        lemma_bins_count(n - 1, every);
        let m = n - 1;
        assert(m % every == 0 ==> m / every == (m - 1) / every + 1) by (nonlinear_arith)
            requires
                every >= 1,
                m >= 1,
        ;
        assert(m % every != 0 ==> m / every == (m - 1) / every) by (nonlinear_arith)
            requires
                every >= 1,
                m >= 1,
        ;
    } else {
        assert(0int / every == 0) by (nonlinear_arith)
            requires
                every >= 1,
        ;
    }
}

/// The data bins, the pilot bins and the two unmodulated bins `0` and `n`
/// partition the bins `0 ..= n`: every bin of that range lies in exactly one
/// of the three sets, and the two tables hold no other bin.
pub proof fn lemma_allocation_partition(n: int, every: int)
    requires
        every >= 1,
        0 <= n <= u32::MAX,
    ensures
        forall|i: int|
            0 <= i <= n ==> {
                let data = #[trigger] data_bins(n, every).contains(i as u32);
                let pilot = pilot_bins(n, every).contains(i as u32);
                let edge = i == 0 || i == n;
                (data || pilot || edge) && !(data && pilot) && !(data && edge) && !(pilot
                    && edge)
            },
        forall|k: int|
            0 <= k < data_bins(n, every).len() ==> 0 < #[trigger] data_bins(n, every)[k] < n,
        forall|k: int|
            0 <= k < pilot_bins(n, every).len() ==> 0 < #[trigger] pilot_bins(n, every)[k] < n,
{
    lemma_bins(n, every, false);
    lemma_bins(n, every, true);
    let d = data_bins(n, every);
    let p = pilot_bins(n, every);
    assert forall|i: int| 0 <= i <= n implies {
        let data = #[trigger] data_bins(n, every).contains(i as u32);
        let pilot = pilot_bins(n, every).contains(i as u32);
        let edge = i == 0 || i == n;
        (data || pilot || edge) && !(data && pilot) && !(data && edge) && !(pilot && edge)
    } by {
        if d.contains(i as u32) {
            let k = choose|k: int| 0 <= k < d.len() && d[k] == i as u32;
            assert(bin_is(d[k] as int, n, every, false));
        }
        if p.contains(i as u32) {
            let k = choose|k: int| 0 <= k < p.len() && p[k] == i as u32;
            assert(bin_is(p[k] as int, n, every, true));
        }
        if bin_is(i, n, every, false) {
            assert(d[bins(i, every, false).len() as int] == i);
        }
        if bin_is(i, n, every, true) {
            assert(p[bins(i, every, true).len() as int] == i);
        }
    }
    assert forall|k: int| 0 <= k < d.len() implies 0 < #[trigger] d[k] < n by {
        assert(bin_is(d[k] as int, n, every, false));
    }
    assert forall|k: int| 0 <= k < p.len() implies 0 < #[trigger] p[k] < n by {
        assert(bin_is(p[k] as int, n, every, true));
    }
}

/// Reading the data bins of an assembled symbol gives back the points that
/// were placed on them.
pub proof fn lemma_data_points_of_symbol(n: int, every: int, points: Seq<Point>, pilot: Point)
    requires
        every >= 1,
        0 <= n <= u32::MAX,
        points.len() == data_bins(n, every).len(),
    ensures
        data_points(frequency_symbol(n, every, points, pilot), n, every) == points,
{
    lemma_bins(n, every, false);
    let symbol = frequency_symbol(n, every, points, pilot);
    let read = data_points(symbol, n, every);
    assert forall|k: int| 0 <= k < points.len() implies read[k] == points[k] by {
        let idx = data_bins(n, every)[k] as int;
        assert(bin_is(idx, n, every, false));
        assert(data_rank(idx, every) == k);
    }
    assert(read =~= points);
}

/// A received symbol whose data bins each lie within tolerance of the
/// symbol that carries `data` decodes to `data`, whatever its other bins hold.
pub proof fn lemma_round_trip_within_tolerance(
    n: int,
    every: int,
    data: Seq<u8>,
    pilot: Point,
    received: Seq<Point>,
)
    requires
        every >= 1,
        0 <= n <= u32::MAX,
        2 * data.len() == data_bins(n, every).len(),
        received.len() == n + 1,
        forall|i: int| #[trigger]
            bin_is(i, n, every, false) ==> within_tolerance(
                received[i],
                frequency_symbol(n, every, encoded_points(data), pilot)[i],
            ),
    ensures
        decoded_bytes(data_points(received, n, every)) == data,
{
    lemma_bins(n, every, false);
    let sent = encoded_points(data);
    let symbol = frequency_symbol(n, every, sent, pilot);
    lemma_data_points_of_symbol(n, every, sent, pilot);
    let read = data_points(received, n, every);
    assert forall|k: int| 0 <= k < read.len() implies within_tolerance(
        #[trigger] read[k],
        sent[k],
    ) by {
        let idx = data_bins(n, every)[k] as int;
        assert(bin_is(idx, n, every, false));
        assert(data_points(symbol, n, every)[k] == symbol[idx]);
    }
    lemma_decode_received(data, read);
}

/// Demodulating the bins of the symbol that carries `data` gives `data` back.
pub proof fn lemma_round_trip(n: int, every: int, data: Seq<u8>, pilot: Point)
    requires
        every >= 1,
        0 <= n <= u32::MAX,
        2 * data.len() == data_bins(n, every).len(),
    ensures
        decoded_bytes(
            data_points(frequency_symbol(n, every, encoded_points(data), pilot), n, every),
        ) == data,
{
    lemma_round_trip_within_tolerance(
        n,
        every,
        data,
        pilot,
        frequency_symbol(n, every, encoded_points(data), pilot),
    );
}

/// Stripping the prefix from a prefixed block gives back the block.
pub proof fn lemma_cyclic_prefix_removed<T>(block: Seq<T>, cp: int)
    requires
        0 <= cp <= block.len(),
    ensures
        with_cyclic_prefix(block, cp).len() == block.len() + cp,
        without_cyclic_prefix(with_cyclic_prefix(block, cp), cp) == block,
        with_cyclic_prefix(block, cp).subrange(0, cp) == block.subrange(
            block.len() - cp,
            block.len() as int,
        ),
{
    assert(without_cyclic_prefix(with_cyclic_prefix(block, cp), cp) =~= block);
    assert(with_cyclic_prefix(block, cp).subrange(0, cp) =~= block.subrange(
        block.len() - cp,
        block.len() as int,
    ));
}

/// The allocation table and the sizes derived from one configuration.
#[derive(Debug)]
pub struct OFDMConstants {
    pub num_data_subcarriers: u32,
    pub num_pilot_subcarriers: u32,
    pub qam_order: QAMOrder,
    pub num_subcarriers: u32,
    pub pilot_subcarrier_every: u32,
    pub cyclic_prefix_length: u32,
    pub data_subcarrier_indices: Vec<u32>,
    pub pilot_subcarrier_indices: Vec<u32>,
    pub bits_per_subcarrier: u32,
    pub bits_per_symbol: u64,
}

impl OFDMConstants {
    /// The tables and the derived sizes agree with the configuration.
    pub open spec fn wf(&self) -> bool {
        &&& self.pilot_subcarrier_every >= 1
        &&& self.data_subcarrier_indices@ == data_bins(
            self.num_subcarriers as int,
            self.pilot_subcarrier_every as int,
        )
        &&& self.pilot_subcarrier_indices@ == pilot_bins(
            self.num_subcarriers as int,
            self.pilot_subcarrier_every as int,
        )
        &&& self.num_data_subcarriers == self.data_subcarrier_indices@.len()
        &&& self.num_pilot_subcarriers == self.pilot_subcarrier_indices@.len()
        &&& self.bits_per_symbol == self.num_data_subcarriers * self.bits_per_subcarrier
    }

    /// The configuration is one that a modulator or demodulator accepts.
    pub open spec fn valid(&self) -> bool {
        valid_configuration(
            self.num_subcarriers as int,
            self.pilot_subcarrier_every as int,
            self.cyclic_prefix_length as int,
            self.bits_per_subcarrier as int,
        )
    }

    /// The length of one time-domain symbol, prefix included.
    pub open spec fn spec_symbol_length(&self) -> int {
        2 * self.num_subcarriers + self.cyclic_prefix_length
    }

    /// The number of payload bytes that one symbol carries.
    pub open spec fn spec_payload_capacity_bytes(&self) -> int {
        (data_bins(self.num_subcarriers as int, self.pilot_subcarrier_every as int).len()
            * self.bits_per_subcarrier) / 8
    }

    /// Builds the allocation table: every bin from 1 up to but excluding
    /// `num_subcarriers` is a pilot bin if it is a multiple of
    /// `pilot_subcarrier_every`, and a data bin otherwise.
    pub fn new(
        num_subcarriers: u32,
        pilot_subcarrier_every: u32,
        cyclic_prefix_length: u32,
        qam_order: QAMOrder,
        bits_per_subcarrier: u32,
    ) -> (r: Self)
        requires
            pilot_subcarrier_every >= 1,
        ensures
            r.wf(),
            r.num_subcarriers == num_subcarriers,
            r.pilot_subcarrier_every == pilot_subcarrier_every,
            r.cyclic_prefix_length == cyclic_prefix_length,
            r.qam_order == qam_order,
            r.bits_per_subcarrier == bits_per_subcarrier,
    {
        let mut pilot_subcarrier_indices: Vec<u32> = Vec::new();
        let mut data_subcarrier_indices: Vec<u32> = Vec::new();
        let mut i: u32 = 1;
        while i < num_subcarriers
            invariant
                pilot_subcarrier_every >= 1,
                i >= 1,
                i <= num_subcarriers || i == 1,
                pilot_subcarrier_indices@ == pilot_bins(i as int, pilot_subcarrier_every as int),
                data_subcarrier_indices@ == data_bins(i as int, pilot_subcarrier_every as int),
            decreases num_subcarriers - i,
        {
            if i % pilot_subcarrier_every == 0 {
                pilot_subcarrier_indices.push(i);
            } else {
                data_subcarrier_indices.push(i);
            }
            i += 1;
        }
        proof {
            let n = num_subcarriers as int;
            let every = pilot_subcarrier_every as int;
            lemma_bins(n, every, false);
            lemma_bins(n, every, true);
            if n < 1 {
                assert(data_bins(n, every) =~= data_bins(1, every));
                assert(pilot_bins(n, every) =~= pilot_bins(1, every));
            }
        }
        let num_pilot_subcarriers: u32 = pilot_subcarrier_indices.len() as u32;
        let num_data_subcarriers: u32 = data_subcarrier_indices.len() as u32;
        assert(num_data_subcarriers * bits_per_subcarrier <= 0xffff_ffff * 0xffff_ffff)
            by (nonlinear_arith)
            requires
                0 <= num_data_subcarriers <= 0xffff_ffff,
                0 <= bits_per_subcarrier <= 0xffff_ffff,
        ;
        let bits_per_symbol: u64 = num_data_subcarriers as u64 * bits_per_subcarrier as u64;
        OFDMConstants {
            num_data_subcarriers,
            num_pilot_subcarriers,
            qam_order,
            num_subcarriers,
            pilot_subcarrier_every,
            cyclic_prefix_length,
            data_subcarrier_indices,
            pilot_subcarrier_indices,
            bits_per_subcarrier,
            bits_per_symbol,
        }
    }

    /// Builds the table for a configuration that passes validation, and
    /// refuses every other configuration.
    pub fn checked(
        num_subcarriers: u32,
        pilot_subcarrier_every: u32,
        cyclic_prefix_length: u32,
        qam_order: QAMOrder,
        bits_per_subcarrier: u32,
    ) -> (r: Result<Self, OfdmError>)
        ensures
            valid_configuration(
                num_subcarriers as int,
                pilot_subcarrier_every as int,
                cyclic_prefix_length as int,
                bits_per_subcarrier as int,
            ) ==> r is Ok,
            !valid_configuration(
                num_subcarriers as int,
                pilot_subcarrier_every as int,
                cyclic_prefix_length as int,
                bits_per_subcarrier as int,
            ) ==> r == Err::<Self, OfdmError>(OfdmError::InvalidConfiguration),
            r is Ok ==> {
                let c = r->Ok_0;
                &&& c.wf()
                &&& c.valid()
                &&& c.num_subcarriers == num_subcarriers
                &&& c.pilot_subcarrier_every == pilot_subcarrier_every
                &&& c.cyclic_prefix_length == cyclic_prefix_length
                &&& c.qam_order == qam_order
                &&& c.bits_per_subcarrier == bits_per_subcarrier
            },
    {
        if num_subcarriers < 4 || num_subcarriers % 2 != 0 || pilot_subcarrier_every < 2 {
            return Err(OfdmError::InvalidConfiguration);
        }
        let block: u64 = 2 * (num_subcarriers as u64);
        if cyclic_prefix_length as u64 > block || block + cyclic_prefix_length as u64
            > 0xffff_ffff {
            return Err(OfdmError::InvalidConfiguration);
        }
        let constants = OFDMConstants::new(
            num_subcarriers,
            pilot_subcarrier_every,
            cyclic_prefix_length,
            qam_order,
            bits_per_subcarrier,
        );
        if constants.bits_per_symbol % 8 != 0 || constants.bits_per_symbol / 8 > 0xffff_ffff {
            return Err(OfdmError::InvalidConfiguration);
        }
        Ok(constants)
    }

    /// The length of one time-domain symbol: the transformed block of
    /// `2 * num_subcarriers` samples and the cyclic prefix before it.
    pub fn symbol_length(&self) -> (r: usize)
        requires
            self.valid(),
        ensures
            r == self.spec_symbol_length(),
            r == 2 * self.num_subcarriers + self.cyclic_prefix_length,
    {
        (2 * self.num_subcarriers + self.cyclic_prefix_length) as usize
    }

    /// The number of payload bytes that one symbol carries: the bits of all
    /// data bins, in whole bytes.
    pub fn payload_capacity_bytes(&self) -> (r: usize)
        requires
            self.wf(),
            self.valid(),
        ensures
            r == self.spec_payload_capacity_bytes(),
            r * 8 == self.data_subcarrier_indices@.len() * self.bits_per_subcarrier,
    {
        (self.bits_per_symbol / 8) as usize
    }
}

} // verus!
