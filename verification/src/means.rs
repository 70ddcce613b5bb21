//! A store of timestamped prices that answers for the mean price over a
//! period.

use std::collections::BTreeMap;
use vstd::prelude::*;
use vstd::std_specs::iter::IteratorSpec;

verus! {

/// The sum of the prices whose timestamps lie in `min..=max`.
pub open spec fn price_sum(prices: Map<i32, i32>, min: int, max: int) -> int
    recommends
        i32::MIN <= min,
        max <= i32::MAX,
    decreases max + 1 - min,
{
    if max < min {
        0
    } else {
        price_sum(prices, min, max - 1) + if prices.contains_key(max as i32) {
            prices[max as i32] as int
        } else {
            0
        }
    }
}

/// The number of prices whose timestamps lie in `min..=max`.
pub open spec fn price_count(prices: Map<i32, i32>, min: int, max: int) -> int
    recommends
        i32::MIN <= min,
        max <= i32::MAX,
    decreases max + 1 - min,
{
    if max < min {
        0
    } else {
        price_count(prices, min, max - 1) + if prices.contains_key(max as i32) {
            1int
        } else {
            0
        }
    }
}

/// `sum / count`, rounded towards zero.
pub open spec fn quotient_towards_zero(sum: int, count: int) -> int
    recommends
        count > 0,
{
    if sum >= 0 {
        sum / count
    } else {
        -((-sum) / count)
    }
}

/// The mean of the prices whose timestamps lie in `min..=max`, rounded
/// towards zero; 0 where there is none.
pub open spec fn mean_price(prices: Map<i32, i32>, min: int, max: int) -> int {
    if price_count(prices, min, max) == 0 {
        0
    } else {
        quotient_towards_zero(price_sum(prices, min, max), price_count(prices, min, max))
    }
}

/// The whole number that four bytes stand for, most significant byte first,
/// in two's complement.
pub open spec fn big_endian(bytes: Seq<u8>) -> int
    recommends
        bytes.len() == 4,
{
    let unsigned = bytes[0] * 0x100_0000 + bytes[1] * 0x1_0000 + bytes[2] * 0x100 + bytes[3];
    if unsigned >= 0x8000_0000 {
        unsigned - 0x1_0000_0000
    } else {
        unsigned
    }
}

/// `i32::from_be_bytes` of std: the integer whose big-endian representation
/// the four bytes are. Believed, not proved.
#[verifier::external_body]
fn from_be_bytes(bytes: [u8; 4]) -> (value: i32)
    ensures
        value == big_endian(bytes@),
{
    i32::from_be_bytes(bytes)
}

/// `i32::to_be_bytes` of std: the integer's big-endian representation.
/// Believed, not proved.
#[verifier::external_body]
fn to_be_bytes(value: i32) -> (bytes: [u8; 4])
    ensures
        big_endian(bytes@) == value,
{
    value.to_be_bytes()
}

/// The first byte of a request to insert a price.
pub const INSERT: u8 = 0x49;

/// The first byte of a request for a mean.
pub const QUERY: u8 = 0x51;

/// What a client asks for.
#[derive(Clone, Copy, Debug, PartialEq, Eq, Structural)]
pub enum Message {
    /// Record `price` at `timestamp`.
    Insert { timestamp: i32, price: i32 },
    /// Tell the mean price over `mintime..=maxtime`.
    Query { mintime: i32, maxtime: i32 },
}

/// What is owed to a client after a request.
#[derive(Clone, Copy, Debug, PartialEq, Eq)]
pub enum Reply {
    /// Nothing: a price was recorded.
    Nothing,
    /// The mean asked for, as it goes over the wire.
    Mean([u8; 4]),
    /// The request made no sense; the connection is to be closed.
    Close,
}

/// The message in a request of nine bytes: a kind, then two integers of four
/// bytes each, most significant byte first. There is none if the kind is
/// neither [`INSERT`] nor [`QUERY`].
pub open spec fn message_in(request: Seq<u8>) -> Option<Message>
    recommends
        request.len() == 9,
{
    let first = big_endian(request.subrange(1, 5)) as i32;
    let second = big_endian(request.subrange(5, 9)) as i32;
    if request[0] == INSERT {
        Some(Message::Insert { timestamp: first, price: second })
    } else if request[0] == QUERY {
        Some(Message::Query { mintime: first, maxtime: second })
    } else {
        None
    }
}

/// Reads the message in a request.
pub fn parse(request: &[u8; 9]) -> (message: Option<Message>)
    ensures
        message == message_in(request@),
{
    let first = from_be_bytes([request[1], request[2], request[3], request[4]]);
    let second = from_be_bytes([request[5], request[6], request[7], request[8]]);
    proof {
        assert([request[1], request[2], request[3], request[4]]@ == request@.subrange(1, 5));
        assert([request[5], request[6], request[7], request[8]]@ == request@.subrange(5, 9));
    }
    if request[0] == INSERT {
        Some(Message::Insert { timestamp: first, price: second })
    } else if request[0] == QUERY {
        Some(Message::Query { mintime: first, maxtime: second })
    } else {
        None
    }
}

/// A mean that does not fit the type of a price. No mean of prices is such.
#[derive(Clone, Copy, Debug, PartialEq, Eq, Structural)]
pub struct MeanOutOfRange;

/// The prices a client has inserted, by timestamp.
pub struct State {
    map: BTreeMap<i32, i32>,
}

impl View for State {
    type V = Map<i32, i32>;

    closed spec fn view(&self) -> Map<i32, i32> {
        self.map@
    }
}

/// The sum of the prices of those entries whose timestamps lie in `min..=max`.
spec fn entry_sum(entries: Seq<(i32, i32)>, min: int, max: int) -> int
    decreases entries.len(),
{
    if entries.len() == 0 {
        0
    } else {
        entry_sum(entries.drop_last(), min, max) + if min <= entries.last().0 <= max {
            entries.last().1 as int
        } else {
            0
        }
    }
}

/// The number of entries whose timestamps lie in `min..=max`.
spec fn entry_count(entries: Seq<(i32, i32)>, min: int, max: int) -> int
    decreases entries.len(),
{
    if entries.len() == 0 {
        0
    } else {
        entry_count(entries.drop_last(), min, max) + if min <= entries.last().0 <= max {
            1int
        } else {
            0
        }
    }
}

/// The entries are the map, each key once.
spec fn lists(entries: Seq<(i32, i32)>, prices: Map<i32, i32>) -> bool {
    &&& forall|i: int|
        0 <= i < entries.len() ==> prices.contains_key(#[trigger] entries[i].0)
            && prices[entries[i].0] == entries[i].1
    &&& forall|k: i32| #[trigger]
        prices.contains_key(k) ==> exists|i: int| 0 <= i < entries.len() && #[trigger] entries[i].0 == k
    &&& forall|i: int, j: int|
        0 <= i < j < entries.len() ==> #[trigger] entries[i].0 != #[trigger] entries[j].0
}

/// Taking one price out of the map takes it out of the sum and the count,
/// if its timestamp lies in the period.
proof fn lemma_without_one_price(prices: Map<i32, i32>, k: i32, min: int, max: int)
    requires
        prices.contains_key(k),
        i32::MIN <= min,
        max <= i32::MAX,
    ensures
        price_sum(prices, min, max) == price_sum(prices.remove(k), min, max) + if min <= k <= max {
            prices[k] as int
        } else {
            0
        },
        price_count(prices, min, max) == price_count(prices.remove(k), min, max) + if min <= k
            <= max {
            1int
        } else {
            0
        },
    decreases max + 1 - min,
{
    if max >= min {
        lemma_without_one_price(prices, k, min, max - 1);
    }
}

/// An empty map has no prices to sum or count.
proof fn lemma_no_prices(prices: Map<i32, i32>, min: int, max: int)
    requires
        forall|k: i32| !prices.contains_key(k),
        i32::MIN <= min,
        max <= i32::MAX,
    ensures
        price_sum(prices, min, max) == 0,
        price_count(prices, min, max) == 0,
    decreases max + 1 - min,
{
    if max >= min {
        lemma_no_prices(prices, min, max - 1);
    }
}

/// Summing and counting entry by entry is summing and counting over the period.
proof fn lemma_entries_add_up(entries: Seq<(i32, i32)>, prices: Map<i32, i32>, min: int, max: int)
    requires
        lists(entries, prices),
        i32::MIN <= min,
        max <= i32::MAX,
    ensures
        entry_sum(entries, min, max) == price_sum(prices, min, max),
        entry_count(entries, min, max) == price_count(prices, min, max),
    decreases entries.len(),
{
    if entries.len() == 0 {
        lemma_no_prices(prices, min, max);
    } else {
        let rest = entries.drop_last();
        let k = entries.last().0;
        let fewer = prices.remove(k);
        assert(prices.contains_key(entries[entries.len() - 1].0));
        assert(lists(rest, fewer)) by {
            assert forall|i: int| 0 <= i < rest.len() implies fewer.contains_key(
                #[trigger] rest[i].0,
            ) && fewer[rest[i].0] == rest[i].1 by {
                assert(rest[i] == entries[i]);
                assert(entries[i].0 != entries[entries.len() - 1].0);
            }
            assert forall|key: i32| #[trigger] fewer.contains_key(key) implies exists|i: int|
                0 <= i < rest.len() && #[trigger] rest[i].0 == key by {
                assert(prices.contains_key(key));
                let i = choose|i: int| 0 <= i < entries.len() && #[trigger] entries[i].0 == key;
                assert(rest[i] == entries[i]);
            }
            assert forall|i: int, j: int| 0 <= i < j < rest.len() implies #[trigger] rest[i].0
                != #[trigger] rest[j].0 by {
                assert(rest[i] == entries[i]);
                assert(rest[j] == entries[j]);
            }
        }
        lemma_entries_add_up(rest, fewer, min, max);
        lemma_without_one_price(prices, k, min, max);
    }
}

/// A mean lies between the bounds of what it is the mean of.
proof fn lemma_mean_within_bounds(sum: int, count: int, low: int, high: int)
    requires
        count > 0,
        low <= 0 <= high,
        count * low <= sum <= count * high,
    ensures
        low <= quotient_towards_zero(sum, count) <= high,
{
    if sum >= 0 {
        let q = sum / count;
        assert(0 <= q && q * count <= sum) by (nonlinear_arith)
            requires
                q == sum / count,
                sum >= 0,
                count > 0,
        ;
        assert(q <= high) by (nonlinear_arith)
            requires
                q * count <= sum,
                sum <= count * high,
                count > 0,
        ;
    } else {
        let q = (-sum) / count;
        assert(0 <= q && q * count <= -sum) by (nonlinear_arith)
            requires
                q == (-sum) / count,
                -sum >= 0,
                count > 0,
        ;
        assert(count * (-low) == -(count * low)) by (nonlinear_arith);
        assert(q <= -low) by (nonlinear_arith)
            requires
                q * count <= -sum,
                -sum <= count * (-low),
                count > 0,
        ;
    }
}

impl State {
    /// A store with no prices.
    pub fn new() -> (state: Self)
        ensures
            state@ == Map::<i32, i32>::empty(),
    {
        State { map: BTreeMap::new() }
    }

    /// Records `price` at `timestamp`, in place of any price recorded there before.
    pub fn insert(&mut self, timestamp: i32, price: i32)
        ensures
            final(self)@ == old(self)@.insert(timestamp, price),
    {
        self.map.insert(timestamp, price);
    }

    /// The mean price over the timestamps `min..=max`, rounded towards zero;
    /// 0 if no price was recorded in that period, or if `min > max`.
    pub fn query(&self, min: i32, max: i32) -> (r: Result<i32, MeanOutOfRange>)
        ensures
            r == Ok::<i32, MeanOutOfRange>(mean_price(self@, min as int, max as int) as i32),
            i32::MIN <= mean_price(self@, min as int, max as int) <= i32::MAX,
    {
        if min > max {
            return Ok(0);
        }
        let mut count: i128 = 0;
        let mut sum: i128 = 0;
        let ghost size = self.map@.len();
        assert(size <= usize::MAX) by {
            assert(vstd::std_specs::btree::spec_btree_map_len(&self.map) == size);
        }
        let prices = self.map.iter();
        let ghost entries = prices.remaining().unref();
        proof {
            let refs = prices.remaining();
            assert forall|i: int, j: int| 0 <= i < j < entries.len() implies #[trigger] entries[i].0
                != #[trigger] entries[j].0 by {
                assert(self.map@.contains_key(*refs[i].0) && self.map@[*refs[i].0] == *refs[i].1);
                assert(self.map@.contains_key(*refs[j].0) && self.map@[*refs[j].0] == *refs[j].1);
                assert(refs[i] != refs[j]);
            }
            assert forall|k: i32| #[trigger] self.map@.contains_key(k) implies exists|i: int|
                0 <= i < entries.len() && #[trigger] entries[i].0 == k by {
                assert(refs.contains((&k, &self.map@[k])));
                let i = choose|i: int| 0 <= i < refs.len() && refs[i] == (&k, &self.map@[k]);
                assert(entries[i].0 == k);
            }
            assert forall|i: int| 0 <= i < entries.len() implies self.map@.contains_key(
                #[trigger] entries[i].0,
            ) && self.map@[entries[i].0] == entries[i].1 by {
                assert(self.map@.contains_key(*refs[i].0) && self.map@[*refs[i].0] == *refs[i].1);
            }
            assert(lists(entries, self@));
        }
        for entry in it: prices
            invariant
                it.seq().unref() == entries,
                entries.len() <= usize::MAX,
                0 <= count <= it.index(),
                count == entry_count(entries.take(it.index()), min as int, max as int),
                sum == entry_sum(entries.take(it.index()), min as int, max as int),
                count * i32::MIN <= sum <= count * i32::MAX,
        {
            let (timestamp, price) = entry;
            proof {
                assert(entries.take(it.index() + 1).drop_last() == entries.take(it.index()));
                assert(entries.take(it.index() + 1).last() == (*timestamp, *price));
            }
            if min <= *timestamp && *timestamp <= max {
                count = count + 1;
                sum = sum + *price as i128;
            }
        }
        proof {
            assert(entries.take(entries.len() as int) == entries);
            lemma_entries_add_up(entries, self@, min as int, max as int);
        }
        if count == 0 {
            return Ok(0);
        }
        proof {
            lemma_mean_within_bounds(sum as int, count as int, i32::MIN as int, i32::MAX as int);
        }
        let mean = sum / count;
        assert(mean == quotient_towards_zero(sum as int, count as int));
        match i32::try_from(mean) {
            Ok(mean) => Ok(mean),
            Err(_) => Err(MeanOutOfRange),
        }
    }

    /// Serves one request: records the price of an insert, answers a query
    /// with the mean over its period, and asks for the connection to be
    /// closed on anything else.
    pub fn serve(&mut self, request: &[u8; 9]) -> (reply: Reply)
        ensures
            match message_in(request@) {
                Some(Message::Insert { timestamp, price }) => {
                    &&& reply is Nothing
                    &&& final(self)@ == old(self)@.insert(timestamp, price)
                },
                Some(Message::Query { mintime, maxtime }) => {
                    &&& reply matches Reply::Mean(bytes)
                    &&& big_endian(bytes@) == mean_price(old(self)@, mintime as int, maxtime as int)
                    &&& final(self)@ == old(self)@
                },
                None => reply is Close && final(self)@ == old(self)@,
            },
    {
        match parse(request) {
            Some(Message::Insert { timestamp, price }) => {
                self.insert(timestamp, price);
                Reply::Nothing
            },
            Some(Message::Query { mintime, maxtime }) => {
                let mean = match self.query(mintime, maxtime) {
                    Ok(mean) => mean,
                    Err(_) => 0,
                };
                Reply::Mean(to_be_bytes(mean))
            },
            None => Reply::Close,
        }
    }
}

} // verus!
