//! One sample of every channel, and the record that a run of samples makes
//! of a configuration.

use crate::record::{
    analog_with, status_with, AnalogChannelView, AnalogSample, AnalogSampleView, Comtrade,
    ComtradeView, ElapsedTime, StatusChannelView,
};
use crate::text::views;
use vstd::prelude::*;

verus! {

/// What the data holds for one sample: its number, how its time is found,
/// and the value of every analog and every status channel.
#[derive(Debug, Clone, PartialEq, Eq)]
pub struct Sample {
    pub number: u32,
    pub time: ElapsedTime,
    pub analog: Vec<AnalogSample>,
    pub status: Vec<u8>,
}

/// A sample, with its values as sequences.
pub struct SampleView {
    pub number: u32,
    pub time: ElapsedTime,
    pub analog: Seq<AnalogSampleView>,
    pub status: Seq<u8>,
}

impl View for Sample {
    type V = SampleView;

    open spec fn view(&self) -> SampleView {
        SampleView {
            number: self.number,
            time: self.time,
            analog: views(self.analog@),
            status: self.status@,
        }
    }
}

impl SampleView {
    /// The sample holds a value for each of so many channels, every analog
    /// value is well formed, every status value is 0 or 1, and a time that
    /// names a sampling rate names one of a table of `rates` entries.
    pub open spec fn wf(&self, analog: nat, status: nat, rates: nat) -> bool {
        &&& self.time.within(rates)
        &&& self.analog.len() == analog
        &&& self.status.len() == status
        &&& forall|j: int| 0 <= j < self.analog.len() ==> (#[trigger] self.analog[j]).wf()
        &&& forall|j: int| 0 <= j < self.status.len() ==> #[trigger] self.status[j] <= 1
    }
}

/// A record with one more sample: its number and time are added to the
/// record's, and its values to the channels', each to the channel of its
/// place.
pub open spec fn appended(record: ComtradeView, sample: SampleView) -> ComtradeView {
    ComtradeView {
        sample_numbers: record.sample_numbers.push(sample.number),
        timestamps: record.timestamps.push(sample.time),
        analog_channels: Seq::new(
            record.analog_channels.len(),
            |j: int| analog_with(record.analog_channels[j], sample.analog[j]),
        ),
        status_channels: Seq::new(
            record.status_channels.len(),
            |j: int| status_with(record.status_channels[j], sample.status[j]),
        ),
        ..record
    }
}

/// The record that a configuration and the samples of its data make.
pub open spec fn record_of(config: ComtradeView, samples: Seq<SampleView>) -> ComtradeView
    decreases samples.len(),
{
    if samples.len() == 0 {
        config
    } else {
        appended(record_of(config, samples.drop_last()), samples.last())
    }
}

/// The record that samples make of a configuration has one sample more
/// than the configuration for each of them.
pub proof fn lemma_record_sample_count(config: ComtradeView, samples: Seq<SampleView>)
    ensures
        record_of(config, samples).sample_numbers.len() == config.sample_numbers.len()
            + samples.len(),
    decreases samples.len(),
{
    if samples.len() > 0 {
        lemma_record_sample_count(config, samples.drop_last());
    }
}

/// A well-formed record stays so when a sample of its shape is added.
pub proof fn lemma_appended_wf(record: ComtradeView, sample: SampleView)
    requires
        record.wf(),
        sample.wf(
            record.num_analog_channels as nat,
            record.num_status_channels as nat,
            record.sampling_rates.len(),
        ),
    ensures
        appended(record, sample).wf(),
{
    let after = appended(record, sample);
    assert forall|i: int| 0 <= i < after.analog_channels.len() implies {
        &&& (#[trigger] after.analog_channels[i]).wf()
        &&& after.analog_channels[i].data.len() == after.sample_numbers.len()
    } by {
        let before = record.analog_channels[i];
        assert(before.wf());
        assert forall|k: int| 0 <= k < after.analog_channels[i].data.len() implies (
        #[trigger] after.analog_channels[i].data[k]).wf() by {
            if k < before.data.len() {
                assert(before.data[k].wf());
            } else {
                assert(sample.analog[i].wf());
            }
        }
    }
    assert forall|i: int, j: int| 0 <= i < j < after.analog_channels.len() implies (
    #[trigger] after.analog_channels[i]).index < (#[trigger] after.analog_channels[j]).index by {
        assert(record.analog_channels[i].index < record.analog_channels[j].index);
    }
    assert forall|i: int| 0 <= i < after.status_channels.len() implies {
        &&& (#[trigger] after.status_channels[i]).wf()
        &&& after.status_channels[i].data.len() == after.sample_numbers.len()
    } by {
        let before = record.status_channels[i];
        assert(before.wf());
        assert forall|k: int| 0 <= k < after.status_channels[i].data.len() implies (
        #[trigger] after.status_channels[i].data[k]) <= 1 by {
            if k < before.data.len() {
                assert(before.data[k] <= 1);
            } else {
                assert(sample.status[i] <= 1);
            }
        }
    }
}

/// Every channel of the record that samples make of a configuration
/// without samples holds one value for each sample, in the samples' order:
/// the value that the sample has at the channel's place. The numbers and
/// times of the record are those of the samples, and the rest of the record
/// is the configuration's.
pub proof fn lemma_record_of(config: ComtradeView, samples: Seq<SampleView>)
    requires
        config.wf(),
        config.sample_numbers.len() == 0,
        forall|k: int|
            0 <= k < samples.len() ==> (#[trigger] samples[k]).wf(
                config.num_analog_channels as nat,
                config.num_status_channels as nat,
                config.sampling_rates.len(),
            ),
    ensures
        record_of(config, samples).wf(),
        record_of(config, samples).sample_numbers == Seq::new(
            samples.len(),
            |k: int| samples[k].number,
        ),
        record_of(config, samples).timestamps == Seq::new(samples.len(), |k: int| samples[k].time),
        record_of(config, samples).analog_channels == Seq::new(
            config.analog_channels.len(),
            |j: int|
                AnalogChannelView {
                    data: Seq::new(samples.len(), |k: int| samples[k].analog[j]),
                    ..config.analog_channels[j]
                },
        ),
        record_of(config, samples).status_channels == Seq::new(
            config.status_channels.len(),
            |j: int|
                StatusChannelView {
                    data: Seq::new(samples.len(), |k: int| samples[k].status[j]),
                    ..config.status_channels[j]
                },
        ),
        record_of(config, samples) == (ComtradeView {
            sample_numbers: record_of(config, samples).sample_numbers,
            timestamps: record_of(config, samples).timestamps,
            analog_channels: record_of(config, samples).analog_channels,
            status_channels: record_of(config, samples).status_channels,
            ..config
        }),
    decreases samples.len(),
{
    let made = record_of(config, samples);
    if samples.len() == 0 {
        assert(made.sample_numbers =~= Seq::new(samples.len(), |k: int| samples[k].number));
        assert(made.timestamps =~= Seq::new(samples.len(), |k: int| samples[k].time));
        assert forall|j: int| 0 <= j < config.analog_channels.len() implies
            #[trigger] config.analog_channels[j] == (AnalogChannelView {
            data: Seq::new(samples.len(), |k: int| samples[k].analog[j]),
            ..config.analog_channels[j]
        }) by {
            assert(config.analog_channels[j].data.len() == 0);
            assert(config.analog_channels[j].data =~= Seq::new(
                samples.len(),
                |k: int| samples[k].analog[j],
            ));
        }
        assert(made.analog_channels =~= Seq::new(
            config.analog_channels.len(),
            |j: int|
                AnalogChannelView {
                    data: Seq::new(samples.len(), |k: int| samples[k].analog[j]),
                    ..config.analog_channels[j]
                },
        ));
        assert forall|j: int| 0 <= j < config.status_channels.len() implies
            #[trigger] config.status_channels[j] == (StatusChannelView {
            data: Seq::new(samples.len(), |k: int| samples[k].status[j]),
            ..config.status_channels[j]
        }) by {
            assert(config.status_channels[j].data.len() == 0);
            assert(config.status_channels[j].data =~= Seq::new(
                samples.len(),
                |k: int| samples[k].status[j],
            ));
        }
        assert(made.status_channels =~= Seq::new(
            config.status_channels.len(),
            |j: int|
                StatusChannelView {
                    data: Seq::new(samples.len(), |k: int| samples[k].status[j]),
                    ..config.status_channels[j]
                },
        ));
    } else {
        let front = samples.drop_last();
        let last = samples.last();
        let before = record_of(config, front);
        assert forall|k: int| 0 <= k < front.len() implies (#[trigger] front[k]).wf(
            config.num_analog_channels as nat,
            config.num_status_channels as nat,
            config.sampling_rates.len(),
        ) by {
            assert(front[k] == samples[k]);
        }
        lemma_record_of(config, front);
        lemma_appended_wf(before, last);
        assert(made.sample_numbers =~= Seq::new(samples.len(), |k: int| samples[k].number));
        assert(made.timestamps =~= Seq::new(samples.len(), |k: int| samples[k].time));
        assert forall|j: int| 0 <= j < config.analog_channels.len() implies
            #[trigger] made.analog_channels[j] == (AnalogChannelView {
            data: Seq::new(samples.len(), |k: int| samples[k].analog[j]),
            ..config.analog_channels[j]
        }) by {
            assert(before.analog_channels[j].data == Seq::new(
                front.len(),
                |k: int| front[k].analog[j],
            ));
            assert(made.analog_channels[j].data =~= Seq::new(
                samples.len(),
                |k: int| samples[k].analog[j],
            ));
        }
        assert(made.analog_channels =~= Seq::new(
            config.analog_channels.len(),
            |j: int|
                AnalogChannelView {
                    data: Seq::new(samples.len(), |k: int| samples[k].analog[j]),
                    ..config.analog_channels[j]
                },
        ));
        assert forall|j: int| 0 <= j < config.status_channels.len() implies
            #[trigger] made.status_channels[j] == (StatusChannelView {
            data: Seq::new(samples.len(), |k: int| samples[k].status[j]),
            ..config.status_channels[j]
        }) by {
            assert(before.status_channels[j].data == Seq::new(
                front.len(),
                |k: int| front[k].status[j],
            ));
            assert(made.status_channels[j].data =~= Seq::new(
                samples.len(),
                |k: int| samples[k].status[j],
            ));
        }
        assert(made.status_channels =~= Seq::new(
            config.status_channels.len(),
            |j: int|
                StatusChannelView {
                    data: Seq::new(samples.len(), |k: int| samples[k].status[j]),
                    ..config.status_channels[j]
                },
        ));
    }
}

/// Adds a sample to a record: its number and time to the record's, and each
/// of its values to the channel of its place.
pub fn append_sample(record: &mut Comtrade, sample: Sample)
    requires
        old(record).wf(),
        sample@.wf(
            old(record).num_analog_channels as nat,
            old(record).num_status_channels as nat,
            old(record).sampling_rates@.len(),
        ),
    ensures
        final(record)@ == appended(old(record)@, sample@),
        final(record).wf(),
{
    let ghost before = record@;
    let ghost expected = appended(record@, sample@);
    let ghost values = sample@;
    let Sample { number, time, analog, status } = sample;
    let mut analog = analog;
    record.sample_numbers.push(number);
    record.timestamps.push(time);
    let mut place: usize = analog.len();
    while place > 0
        invariant
            place <= before.analog_channels.len(),
            before.analog_channels.len() == values.analog.len(),
            views(analog@) == values.analog.take(place as int),
            record.analog_channels@.len() == before.analog_channels.len(),
            forall|j: int|
                0 <= j < place ==> (#[trigger] record.analog_channels@[j])@
                    == before.analog_channels[j],
            forall|j: int|
                place <= j < before.analog_channels.len() ==> (
                #[trigger] record.analog_channels@[j])@ == analog_with(
                    before.analog_channels[j],
                    values.analog[j],
                ),
            record@ == (ComtradeView {
                analog_channels: record@.analog_channels,
                status_channels: before.status_channels,
                ..expected
            }),
            analog@.len() == place,
        decreases place,
    {
        place -= 1;
        let ghost held = views(analog@);
        let ghost channels = record.analog_channels@;
        assert(held[place as int] == analog@[place as int]@);
        let value = analog.pop().unwrap();
        assert(views(analog@) =~= values.analog.take(place as int));
        record.analog_channels[place].push_datum(value);
        proof {
            assert forall|j: int| 0 <= j < place implies (#[trigger] record.analog_channels@[j])@
                == before.analog_channels[j] by {
                assert(record.analog_channels@[j] == channels[j]);
            }
            assert forall|j: int|
                place <= j < before.analog_channels.len() implies (
            #[trigger] record.analog_channels@[j])@ == analog_with(
                before.analog_channels[j],
                values.analog[j],
            ) by {
                if j > place {
                    assert(record.analog_channels@[j] == channels[j]);
                }
            }
        }
    }
    assert(record@.analog_channels =~= expected.analog_channels);
    let mut done: usize = 0;
    while done < status.len()
        invariant
            done <= status@.len(),
            status@ == values.status,
            before.status_channels.len() == values.status.len(),
            record.status_channels@.len() == before.status_channels.len(),
            forall|j: int|
                0 <= j < done ==> (#[trigger] record.status_channels@[j])@ == status_with(
                    before.status_channels[j],
                    values.status[j],
                ),
            forall|j: int|
                done <= j < before.status_channels.len() ==> (
                #[trigger] record.status_channels@[j])@ == before.status_channels[j],
            record@ == (ComtradeView { status_channels: record@.status_channels, ..expected }),
        decreases status.len() - done,
    {
        let ghost channels = record.status_channels@;
        let value = status[done];
        record.status_channels[done].push_datum(value);
        proof {
            assert forall|j: int| 0 <= j < done + 1 implies (#[trigger] record.status_channels@[j])@
                == status_with(before.status_channels[j], values.status[j]) by {
                if j < done {
                    assert(record.status_channels@[j] == channels[j]);
                }
            }
            assert forall|j: int|
                done + 1 <= j < before.status_channels.len() implies (
            #[trigger] record.status_channels@[j])@ == before.status_channels[j] by {
                assert(record.status_channels@[j] == channels[j]);
            }
        }
        done += 1;
    }
    proof {
        assert(record@.status_channels =~= expected.status_channels);
        lemma_appended_wf(before, values);
    }
}

} // verus!
