//! The time-series price store: nine-byte frames decode to inserts and
//! queries, inserts accumulate timestamped prices, and a query answers
//! the truncated mean of the prices inside a closed time window.

use vstd::prelude::*;
use vstd::arithmetic::div_mod::{
    lemma_div_is_ordered, lemma_div_multiples_vanish, lemma_div_pos_is_pos,
};
use vstd::slice::slice_index_get;

verus! {

/// The operation byte that marks an insert frame (ASCII `I`).
pub const OP_INSERT: u8 = 73;

/// The operation byte that marks a query frame (ASCII `Q`).
pub const OP_QUERY: u8 = 81;

/// One framed request: record a timestamped price, or ask for the mean
/// over a closed time window.
#[derive(Clone, Copy, Debug, PartialEq, Eq)]
pub enum Message {
    Insert(i32, i32),
    Query(i32, i32),
}

/// The frame's first byte named neither operation.
#[derive(Clone, Copy, Debug, PartialEq, Eq)]
pub struct ParseError;

/// The unsigned big-endian 32-bit value of four bytes.
pub open spec fn be32(b0: u8, b1: u8, b2: u8, b3: u8) -> int {
    (b0 as int) * 0x1000000 + (b1 as int) * 0x10000 + (b2 as int) * 0x100 + (b3 as int)
}

/// The two's-complement reading of an unsigned 32-bit value.
pub open spec fn as_signed32(u: int) -> int {
    if u < 0x80000000 {
        u
    } else {
        u - 0x100000000
    }
}

/// The signed 32-bit integer encoded big-endian at `k..k+4` of `b`.
pub open spec fn be_i32_at(b: Seq<u8>, k: int) -> int {
    as_signed32(be32(b[k], b[k + 1], b[k + 2], b[k + 3]))
}

/// Reads a big-endian signed 32-bit integer from four bytes.
fn read_be_i32(b0: u8, b1: u8, b2: u8, b3: u8) -> (r: i32)
    ensures
        r as int == as_signed32(be32(b0, b1, b2, b3)),
{
    let u: u32 = (b0 as u32) * 0x1000000 + (b1 as u32) * 0x10000 + (b2 as u32) * 0x100 + (
    b3 as u32);
    if u < 0x80000000 {
        u as i32
    } else {
        let mag: u32 = (0xFFFFFFFF - u) + 1;
        if mag == 0x80000000 {
            i32::MIN
        } else {
            -(mag as i32)
        }
    }
}

/// Decodes one nine-byte frame: an operation byte, then two big-endian
/// signed 32-bit integers. Exactly the insert and query bytes are accepted.
pub fn parse_bytes(bytes: [u8; 9]) -> (r: Result<Message, ParseError>)
    ensures
        r is Ok <==> (bytes@[0] == OP_INSERT || bytes@[0] == OP_QUERY),
        bytes@[0] == OP_INSERT ==> (r matches Ok(m) && m matches Message::Insert(t, p) && t as int
            == be_i32_at(bytes@, 1) && p as int == be_i32_at(bytes@, 5)),
        bytes@[0] == OP_QUERY ==> (r matches Ok(m) && m matches Message::Query(lo, hi) && lo as int
            == be_i32_at(bytes@, 1) && hi as int == be_i32_at(bytes@, 5)),
{
    let t = bytes[0];
    let a = read_be_i32(bytes[1], bytes[2], bytes[3], bytes[4]);
    let b = read_be_i32(bytes[5], bytes[6], bytes[7], bytes[8]);
    if t == OP_INSERT {
        Ok(Message::Insert(a, b))
    } else if t == OP_QUERY {
        Ok(Message::Query(a, b))
    } else {
        Err(ParseError)
    }
}

/// Whether a sample's timestamp lies in the closed window `[lo, hi]`.
pub open spec fn in_window(lo: i32, hi: i32, s: (i32, i32)) -> bool {
    lo <= s.0 && s.0 <= hi
}

/// How many samples fall in the window.
pub open spec fn window_count(samples: Seq<(i32, i32)>, lo: i32, hi: i32) -> int
    decreases samples.len(),
{
    if samples.len() == 0 {
        0
    } else {
        window_count(samples.drop_last(), lo, hi) + (if in_window(lo, hi, samples.last()) {
            1int
        } else {
            0int
        })
    }
}

/// The sum of the prices of the samples in the window.
pub open spec fn window_sum(samples: Seq<(i32, i32)>, lo: i32, hi: i32) -> int
    decreases samples.len(),
{
    if samples.len() == 0 {
        0
    } else {
        window_sum(samples.drop_last(), lo, hi) + (if in_window(lo, hi, samples.last()) {
            samples.last().1 as int
        } else {
            0int
        })
    }
}

/// Division truncated toward zero, as the machine divides.
pub open spec fn div_trunc(a: int, b: int) -> int
    recommends
        b > 0,
{
    if a >= 0 {
        a / b
    } else {
        -((-a) / b)
    }
}

/// The answer to a query: the truncated mean of the prices in the
/// window, and zero when the window is inverted or holds no sample.
pub open spec fn average_of(samples: Seq<(i32, i32)>, lo: i32, hi: i32) -> int {
    let cnt = window_count(samples, lo, hi);
    let sum = window_sum(samples, lo, hi);
    if lo > hi || cnt == 0 {
        0
    } else {
        div_trunc(sum, cnt)
    }
}

/// The mean price over `[min_time, max_time]`, truncated toward zero;
/// zero when the window is inverted or no sample falls in it.
pub fn get_average(min_time: i32, max_time: i32, sorted_prices: &[(i32, i32)]) -> (r: i32)
    ensures
        r as int == average_of(sorted_prices@, min_time, max_time),
{
    if min_time > max_time {
        return 0;
    }
    let n = sorted_prices.len();
    let mut cnt: usize = 0;
    let mut sum: i128 = 0;
    for idx in 0..n
        invariant
            n == sorted_prices@.len(),
            cnt as int == window_count(sorted_prices@.subrange(0, idx as int), min_time, max_time),
            sum as int == window_sum(sorted_prices@.subrange(0, idx as int), min_time, max_time),
            cnt <= idx,
            sum <= (cnt as int) * 0x7FFFFFFF,
            -((cnt as int) * 0x80000000) <= sum,
    {
        proof {
            assert(sorted_prices@.subrange(0, idx + 1).drop_last() =~= sorted_prices@.subrange(
                0,
                idx as int,
            ));
            assert(sorted_prices@.subrange(0, idx + 1).last() == sorted_prices@[idx as int]);
            let c = cnt as int;
            assert(c * 0x7FFFFFFF + 0x7FFFFFFF == (c + 1) * 0x7FFFFFFF) by (nonlinear_arith);
            assert(c * 0x80000000 + 0x80000000 == (c + 1) * 0x80000000) by (nonlinear_arith);
        }
        let s = *slice_index_get(sorted_prices, idx);
        if min_time <= s.0 && s.0 <= max_time {
            cnt = cnt + 1;
            sum = sum + (s.1 as i128);
        }
    }
    proof {
        assert(sorted_prices@.subrange(0, n as int) =~= sorted_prices@);
    }
    if cnt == 0 {
        return 0;
    }
    let c128 = cnt as u128;
    proof {
        let cc = cnt as int;
        let ss = sum as int;
        if ss >= 0 {
            lemma_div_is_ordered(ss, cc * 0x7FFFFFFF, cc);
            lemma_div_multiples_vanish(0x7FFFFFFF, cc);
            lemma_div_pos_is_pos(ss, cc);
            assert(cc * 0x7FFFFFFF == 0x7FFFFFFF * cc) by (nonlinear_arith);
        } else {
            lemma_div_is_ordered(-ss, cc * 0x80000000, cc);
            lemma_div_multiples_vanish(0x80000000, cc);
            lemma_div_pos_is_pos(-ss, cc);
            assert(cc * 0x80000000 == 0x80000000 * cc) by (nonlinear_arith);
        }
    }
    if sum >= 0 {
        let q: u128 = (sum as u128) / c128;
        q as i32
    } else {
        let q: u128 = ((-sum) as u128) / c128;
        let qi: i64 = q as i64;
        (-qi) as i32
    }
}

/// The store of timestamped prices for one connection, in arrival
/// order. (Arrival order is all the invariant there is: a query scans
/// the whole store.)
pub struct PriceDb {
    samples: Vec<(i32, i32)>,
}

impl View for PriceDb {
    type V = Seq<(i32, i32)>;

    closed spec fn view(&self) -> Seq<(i32, i32)> {
        self.samples@
    }
}

impl PriceDb {
    /// An empty store.
    pub fn new() -> (r: PriceDb)
        ensures
            r@ == Seq::<(i32, i32)>::empty(),
    {
        PriceDb { samples: Vec::new() }
    }

    /// Applies one decoded message: an insert records the sample and
    /// answers nothing; a query leaves the store alone and answers the
    /// window's truncated mean.
    pub fn apply_message(&mut self, m: Message) -> (r: Option<i32>)
        ensures
            match m {
                Message::Insert(t, p) => final(self)@ == old(self)@.push((t, p)) && r is None,
                Message::Query(lo, hi) => final(self)@ == old(self)@ && (r matches Some(a) && a as int
                    == average_of(old(self)@, lo, hi)),
            },
    {
        match m {
            Message::Insert(t, p) => {
                self.samples.push((t, p));
                None
            },
            Message::Query(lo, hi) => {
                Some(get_average(lo, hi, self.samples.as_slice()))
            },
        }
    }
}

} // verus!
