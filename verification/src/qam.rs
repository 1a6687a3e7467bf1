//! QAM-16 constellation codec over fixed-point coordinates.

use vstd::prelude::*;
use crate::error::OfdmError;

verus! {

/// The fixed-point representation of 1.0: coordinates carry 16 fractional bits.
pub const ONE: i32 = 65536;

/// A complex value in fixed-point coordinates (`ONE` units per 1.0).
#[derive(Clone, Copy, Debug, PartialEq, Eq, Structural)]
pub struct Point {
    pub re: i32,
    pub im: i32,
}

/// The coordinate selected by a sign bit and a magnitude bit.
pub open spec fn axis_level(negative: bool, outer: bool) -> int {
    let magnitude: int = if outer { 3 * ONE } else { ONE as int };
    if negative { -magnitude } else { magnitude }
}

/// The constellation point of the 4-bit pattern `b3 b2 b1 b0`:
/// `b3` and `b2` are the signs of the real and imaginary parts (set means
/// negative), `b1` and `b0` select their magnitudes (set means 3, clear 1).
pub open spec fn constellation_point(n: int) -> Point {
    Point {
        re: axis_level((n / 8) % 2 == 1, (n / 2) % 2 == 1) as i32,
        im: axis_level((n / 4) % 2 == 1, n % 2 == 1) as i32,
    }
}

/// The squared Euclidean distance between two points.
pub open spec fn distance_squared(a: Point, b: Point) -> int {
    (a.re - b.re) * (a.re - b.re) + (a.im - b.im) * (a.im - b.im)
}

/// `k` is the pattern whose constellation point is nearest to `p`, where
/// among equally near points the lowest pattern wins.
pub open spec fn is_nearest(p: Point, k: int) -> bool {
    &&& 0 <= k < 16
    &&& forall|j: int| 0 <= j < k ==>
            distance_squared(p, #[trigger] constellation_point(j))
                > distance_squared(p, constellation_point(k))
    &&& forall|j: int| k <= j < 16 ==>
            distance_squared(p, #[trigger] constellation_point(j))
                >= distance_squared(p, constellation_point(k))
}

/// The pattern that `p` decodes to.
pub open spec fn nearest_pattern(p: Point) -> int {
    choose|k: int| is_nearest(p, k)
}

/// Two points per byte, the high nibble first.
pub open spec fn encoded_points(bytes: Seq<u8>) -> Seq<Point> {
    Seq::new(
        2 * bytes.len(),
        |i: int| constellation_point(
            if i % 2 == 0 { bytes[i / 2] as int / 16 } else { bytes[i / 2] as int % 16 },
        ),
    )
}

/// One byte per pair of points, the first point giving the high nibble.
pub open spec fn decoded_bytes(points: Seq<Point>) -> Seq<u8> {
    Seq::new(
        (points.len() / 2) as nat,
        |i: int| (nearest_pattern(points[2 * i]) * 16 + nearest_pattern(points[2 * i + 1])) as u8,
    )
}

/// At most one pattern is nearest to a point.
pub proof fn lemma_nearest_unique(p: Point, a: int, b: int)
    requires
        is_nearest(p, a),
        is_nearest(p, b),
    ensures
        a == b,
{
    if a < b {
        assert(distance_squared(p, constellation_point(a)) > distance_squared(
            p,
            constellation_point(b),
        ));
        assert(distance_squared(p, constellation_point(b)) >= distance_squared(
            p,
            constellation_point(a),
        ));
    } else if b < a {
        assert(distance_squared(p, constellation_point(b)) > distance_squared(
            p,
            constellation_point(a),
        ));
        assert(distance_squared(p, constellation_point(a)) >= distance_squared(
            p,
            constellation_point(b),
        ));
    }
}

/// `p` lies less than half the grid spacing from `q` on both axes.
pub open spec fn within_tolerance(p: Point, q: Point) -> bool {
    &&& -ONE < p.re - q.re < ONE
    &&& -ONE < p.im - q.im < ONE
}

/// On one axis, a coordinate less than half the grid spacing from a level
/// is nearer to that level than to any other, and as near to itself.
proof fn lemma_axis_nearest(x: int, level: int, other: int)
    requires
        -ONE < x - level < ONE,
        other == level || other - level >= 2 * ONE || level - other >= 2 * ONE,
    ensures
        other == level ==> (x - other) * (x - other) == (x - level) * (x - level),
        other != level ==> (x - other) * (x - other) > (x - level) * (x - level),
{
    if other != level {
        let a = x - level;
        let b = x - other;
        assert(b * b > a * a) by (nonlinear_arith)
            requires
                -65536 < a < 65536,
                b >= 65536 || b <= -65536,
        ;
    }
}

/// A point less than half the grid spacing from a constellation point, on
/// both axes, decodes to the pattern of that constellation point.
pub proof fn lemma_decode_within_tolerance(p: Point, n: int)
    requires
        0 <= n < 16,
        within_tolerance(p, constellation_point(n)),
    ensures
        is_nearest(p, n),
        nearest_pattern(p) == n,
{
    let q = constellation_point(n);
    assert forall|j: int| 0 <= j < 16 && j != n implies distance_squared(
        p,
        #[trigger] constellation_point(j),
    ) > distance_squared(p, q) by {
        let o = constellation_point(j);
        lemma_axis_nearest(p.re as int, q.re as int, o.re as int);
        lemma_axis_nearest(p.im as int, q.im as int, o.im as int);
        assert(o.re != q.re || o.im != q.im);
    }
    assert(is_nearest(p, n));
    lemma_nearest_unique(p, n, nearest_pattern(p));
}

/// Decoding the constellation point of a pattern gives the pattern back.
pub proof fn lemma_decode_encode(n: int)
    requires
        0 <= n < 16,
    ensures
        nearest_pattern(constellation_point(n)) == n,
{
    lemma_decode_within_tolerance(constellation_point(n), n);
}

/// Points that each lie within tolerance of the encoding of `bytes` decode
/// to `bytes`.
pub proof fn lemma_decode_received(bytes: Seq<u8>, received: Seq<Point>)
    requires
        received.len() == 2 * bytes.len(),
        forall|i: int|
            0 <= i < received.len() ==> within_tolerance(
                #[trigger] received[i],
                encoded_points(bytes)[i],
            ),
    ensures
        decoded_bytes(received) == bytes,
{
    let sent = encoded_points(bytes);
    assert forall|k: int| 0 <= k < bytes.len() implies decoded_bytes(received)[k] == bytes[k] by {
        let high = bytes[k] as int / 16;
        let low = bytes[k] as int % 16;
        assert(sent[2 * k] == constellation_point(high));
        assert(sent[2 * k + 1] == constellation_point(low));
        assert(within_tolerance(received[2 * k], sent[2 * k]));
        assert(within_tolerance(received[2 * k + 1], sent[2 * k + 1]));
        lemma_decode_within_tolerance(received[2 * k], high);
        lemma_decode_within_tolerance(received[2 * k + 1], low);
    }
    assert(decoded_bytes(received) =~= bytes);
}

/// Decoding the encoding of `bytes` gives `bytes` back.
pub proof fn lemma_decode_encoded(bytes: Seq<u8>)
    ensures
        decoded_bytes(encoded_points(bytes)) == bytes,
{
    lemma_decode_received(bytes, encoded_points(bytes));
}

/// The constellation order: how many points the constellation has.
#[derive(Clone, Copy, Debug, PartialEq, Eq, Structural)]
pub enum QAMOrder {
    QAM16,
}

impl QAMOrder {
    /// The name of the constellation, as it is shown to users.
    pub fn name(&self) -> (r: String)
        ensures
            r@ == "QAM-16"@,
    {
        match self {
            QAMOrder::QAM16 => "QAM-16".to_owned(),
        }
    }
}

impl Default for QAMOrder {
    fn default() -> (r: Self)
        ensures
            r == QAMOrder::QAM16,
    {
        QAMOrder::QAM16
    }
}

/// Maps bytes to constellation points and points back to bytes.
#[derive(Clone, Copy, Debug)]
pub struct QAMModem {
    pub qam_order: QAMOrder,
}

/// The squared distance between two points, computed without overflow.
fn squared_distance(a: Point, b: Point) -> (d: i128)
    ensures
        d == distance_squared(a, b),
{
    let dr: i128 = a.re as i128 - b.re as i128;
    let di: i128 = a.im as i128 - b.im as i128;
    assert(dr * dr <= 0x1_0000_0000 * 0x1_0000_0000 && dr * dr >= 0) by (nonlinear_arith)
        requires
            -0x1_0000_0000 <= dr <= 0x1_0000_0000,
    ;
    assert(di * di <= 0x1_0000_0000 * 0x1_0000_0000 && di * di >= 0) by (nonlinear_arith)
        requires
            -0x1_0000_0000 <= di <= 0x1_0000_0000,
    ;
    dr * dr + di * di
}

impl QAMModem {
    /// A modem for the given constellation order.
    pub fn new(qam_order: QAMOrder) -> (r: Self)
        ensures
            r.qam_order == qam_order,
    {
        QAMModem { qam_order }
    }

    /// The number of bits that one constellation point carries.
    pub open spec fn spec_bits_per_symbol(&self) -> int {
        match self.qam_order {
            QAMOrder::QAM16 => 4,
        }
    }

    /// The number of bits that one constellation point carries.
    pub fn bits_per_symbol(&self) -> (r: u32)
        ensures
            r == self.spec_bits_per_symbol(),
            r == 4,
    {
        match self.qam_order {
            QAMOrder::QAM16 => 4,
        }
    }

    /// The constellation point of a 4-bit pattern.
    pub fn encode(&self, nibble: u8) -> (p: Point)
        requires
            nibble < 16,
        ensures
            p == constellation_point(nibble as int),
    {
        match nibble {
            0 => Point { re: 65536, im: 65536 },
            1 => Point { re: 65536, im: 196608 },
            2 => Point { re: 196608, im: 65536 },
            3 => Point { re: 196608, im: 196608 },
            4 => Point { re: 65536, im: -65536 },
            5 => Point { re: 65536, im: -196608 },
            6 => Point { re: 196608, im: -65536 },
            7 => Point { re: 196608, im: -196608 },
            8 => Point { re: -65536, im: 65536 },
            9 => Point { re: -65536, im: 196608 },
            10 => Point { re: -196608, im: 65536 },
            11 => Point { re: -196608, im: 196608 },
            12 => Point { re: -65536, im: -65536 },
            13 => Point { re: -65536, im: -196608 },
            14 => Point { re: -196608, im: -65536 },
            _ => Point { re: -196608, im: -196608 },
        }
    }

    /// The pattern whose constellation point is nearest to `point`; of
    /// equally near points the lowest pattern is returned.
    pub fn decode(&self, point: Point) -> (n: u8)
        ensures
            n < 16,
            is_nearest(point, n as int),
            n == nearest_pattern(point),
    {
        let mut best: u8 = 0;
        let mut best_distance: i128 = squared_distance(point, self.encode(0));
        let mut candidate: u8 = 1;
        while candidate < 16
            invariant
                1 <= candidate <= 16,
                best < candidate,
                best_distance == distance_squared(point, constellation_point(best as int)),
                forall|j: int| 0 <= j < best ==>
                    distance_squared(point, #[trigger] constellation_point(j)) > best_distance,
                forall|j: int| best <= j < candidate ==>
                    distance_squared(point, #[trigger] constellation_point(j)) >= best_distance,
            decreases 16 - candidate,
        {
            let d: i128 = squared_distance(point, self.encode(candidate));
            if d < best_distance {
                best = candidate;
                best_distance = d;
            }
            candidate += 1;
        }
        proof {
            lemma_nearest_unique(point, best as int, nearest_pattern(point));
        }
        best
    }

    /// Encodes every byte as two points, the high nibble first.
    pub fn modulate(&self, data: &[u8]) -> (symbols: Vec<Point>)
        ensures
            symbols@ == encoded_points(data@),
    {
        let mut symbols: Vec<Point> = Vec::new();
        let mut i: usize = 0;
        while i < data.len()
            invariant
                i <= data.len(),
                symbols@.len() == 2 * i,
                forall|k: int| 0 <= k < 2 * i ==> symbols@[k] == encoded_points(data@)[k],
            decreases data.len() - i,
        {
            let byte: u8 = data[i];
            symbols.push(self.encode(byte / 16));
            symbols.push(self.encode(byte % 16));
            i += 1;
        }
        assert(symbols@ =~= encoded_points(data@));
        symbols
    }

    /// Decodes every pair of points into one byte. An odd number of points
    /// is refused.
    pub fn demodulate(&self, symbols: &[Point]) -> (r: Result<Vec<u8>, OfdmError>)
        ensures
            symbols@.len() % 2 == 0 ==> r == Ok::<Vec<u8>, OfdmError>(r->Ok_0) && r->Ok_0@
                == decoded_bytes(symbols@),
            symbols@.len() % 2 != 0 ==> r == Err::<Vec<u8>, OfdmError>(
                OfdmError::InvalidPointCount,
            ),
    {
        if symbols.len() % 2 != 0 {
            return Err(OfdmError::InvalidPointCount);
        }
        let pairs: usize = symbols.len() / 2;
        let mut bytes: Vec<u8> = Vec::new();
        let mut i: usize = 0;
        while i < pairs
            invariant
                pairs == symbols.len() / 2,
                symbols@.len() % 2 == 0,
                i <= pairs,
                bytes@.len() == i,
                forall|k: int| 0 <= k < i ==> bytes@[k] == decoded_bytes(symbols@)[k],
            decreases pairs - i,
        {
            assert(2 * i + 1 < symbols.len());
            let high: u8 = self.decode(symbols[2 * i]);
            let low: u8 = self.decode(symbols[2 * i + 1]);
            bytes.push(high * 16 + low);
            i += 1;
        }
        assert(bytes@ =~= decoded_bytes(symbols@));
        Ok(bytes)
    }
}

} // verus!
