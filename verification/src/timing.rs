//! How the time of a sample is found: from the sampling-rate table, or from
//! the time stamp that the data gives.

use crate::error::{ErrorKind, ParseError, ParseResult, Subject};
use crate::record::{total_samples, ElapsedTime, SamplingRate, SamplingRateView};
use crate::search::{first_place, lemma_first_place, lemma_first_place_stays};
use crate::text::views;
use vstd::prelude::*;

verus! {

/// The place in the table of the first rate whose last sample number is
/// not below `sample_number`.
pub open spec fn covering_rate(rates: Seq<SamplingRateView>, sample_number: u32) -> Option<int> {
    first_place(rates.len(), |i: int| rates[i].end_sample_number >= sample_number)
}

/// Finds the sampling rate that applies to a sample: the first of the table
/// whose last sample number is not below the sample's number.
pub fn sampling_rate_for_sample(rates: &Vec<SamplingRate>, sample_number: u32) -> (r: Option<usize>)
    ensures
        match r {
            Some(place) => covering_rate(views(rates@), sample_number) == Some(place as int),
            None => covering_rate(views(rates@), sample_number) is None,
        },
        r matches Some(place) ==> place < rates@.len(),
{
    let ghost table = views(rates@);
    let ghost covers = |i: int| table[i].end_sample_number >= sample_number;
    let mut place: usize = 0;
    while place < rates.len()
        invariant
            place <= rates@.len(),
            table == views(rates@),
            covers == |i: int| table[i].end_sample_number >= sample_number,
            first_place(place as nat, covers) is None,
        decreases rates.len() - place,
    {
        assert(table[place as int] == rates@[place as int]@);
        if rates[place].end_sample_number >= sample_number {
            proof {
                assert(covers(place as int));
                assert(first_place((place + 1) as nat, covers) == Some(place as int));
                lemma_first_place_stays((place + 1) as nat, rates@.len(), covers);
            }
            return Some(place);
        }
        assert(!covers(place as int));
        place += 1;
    }
    None
}

/// The rate found is the first of the table that covers the sample: it
/// stands in the table, its last sample number is not below the sample's
/// number, and that of every rate before it is. Where none is found, the
/// last sample number of every rate is below the sample's number.
pub proof fn lemma_covering_rate(rates: Seq<SamplingRateView>, sample_number: u32)
    ensures
        match covering_rate(rates, sample_number) {
            Some(place) => {
                &&& 0 <= place < rates.len()
                &&& rates[place].end_sample_number >= sample_number
                &&& forall|i: int|
                    0 <= i < place ==> (#[trigger] rates[i]).end_sample_number < sample_number
            },
            None => forall|i: int|
                0 <= i < rates.len() ==> (#[trigger] rates[i]).end_sample_number < sample_number,
        },
{
    let covers = |i: int| rates[i].end_sample_number >= sample_number;
    lemma_first_place(rates.len(), covers);
    assert forall|i: int| 0 <= i < rates.len() && !covers(i) implies (
    #[trigger] rates[i]).end_sample_number < sample_number by {}
}

/// With a sampling-rate table every sample has a time, whatever its time
/// stamp, and the time names a rate only of the table.
pub proof fn lemma_rate_table_gives_time(
    rates: Seq<SamplingRateView>,
    sample_number: u32,
    timestamp: Option<u32>,
)
    requires
        0 < rates.len() <= usize::MAX,
    ensures
        elapsed_of(rates, sample_number, timestamp) is Some,
        elapsed_of(rates, sample_number, timestamp) == elapsed_of(rates, sample_number, None),
        elapsed_of(rates, sample_number, timestamp)->0.within(rates.len()),
{
    lemma_covering_rate(rates, sample_number);
}

/// How the time of a sample is found.
///
/// With a sampling-rate table, the time is the sample number less one,
/// divided by the rate that covers the sample, or by 1 Hz where no rate
/// does. Without a table the time stamp is needed, and a sample without one
/// has no time.
pub open spec fn elapsed_of(
    rates: Seq<SamplingRateView>,
    sample_number: u32,
    timestamp: Option<u32>,
) -> Option<ElapsedTime> {
    if rates.len() > 0 {
        match covering_rate(rates, sample_number) {
            Some(place) => Some(ElapsedTime::Sampled { sample_number, rate: place as usize }),
            None => Some(ElapsedTime::Uncovered { sample_number }),
        }
    } else {
        match timestamp {
            Some(ticks) => Some(ElapsedTime::Stamped { ticks }),
            None => None,
        }
    }
}

/// The error of a sample that needs a time stamp and has none.
pub open spec fn missing_timestamp() -> ParseError {
    ParseError::at(ErrorKind::Semantic, Subject::Timestamp, 0, 0)
}

/// Says how the time of a sample is found, or that the sample needs a time
/// stamp and has none.
pub fn real_time(rates: &Vec<SamplingRate>, sample_number: u32, timestamp: Option<u32>) -> (r:
    ParseResult<ElapsedTime>)
    ensures
        r == match elapsed_of(views(rates@), sample_number, timestamp) {
            Some(time) => Ok::<ElapsedTime, ParseError>(time),
            None => Err(missing_timestamp()),
        },
        r matches Ok(time) ==> time.within(rates@.len()),
{
    if rates.len() > 0 {
        match sampling_rate_for_sample(rates, sample_number) {
            Some(rate) => Ok(ElapsedTime::Sampled { sample_number, rate }),
            None => Ok(ElapsedTime::Uncovered { sample_number }),
        }
    } else {
        match timestamp {
            Some(ticks) => Ok(ElapsedTime::Stamped { ticks }),
            None => Err(ParseError::new(ErrorKind::Semantic, Subject::Timestamp, 0, 0)),
        }
    }
}

/// The number of samples that the sampling-rate table announces: its
/// greatest last sample number, 0 for an empty table.
pub fn total_sample_count(rates: &Vec<SamplingRate>) -> (total: u32)
    ensures
        total == total_samples(views(rates@)),
{
    let ghost table = views(rates@);
    let mut total: u32 = 0;
    let mut place: usize = 0;
    while place < rates.len()
        invariant
            place <= rates@.len(),
            table == views(rates@),
            total == total_samples(table.take(place as int)),
        decreases rates.len() - place,
    {
        assert(table.take(place + 1).drop_last() == table.take(place as int));
        assert(table.take(place + 1).last() == rates@[place as int]@);
        if rates[place].end_sample_number > total {
            total = rates[place].end_sample_number;
        }
        place += 1;
    }
    assert(table.take(place as int) == table);
    total
}

} // verus!
