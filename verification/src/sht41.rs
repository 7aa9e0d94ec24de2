//! Driver logic of the SHT41 temperature and humidity sensor.
//!
//! One measurement is a command, a pause and a transfer of two words, each
//! followed by its CRC. The driver says what to do next; whoever owns the bus
//! and the clock does it and tells the driver how it went.

use vstd::prelude::*;

use crate::crc::{crc8, crc8_of, law_burst_errors_are_noticed};

verus! {

/// The bus address of the sensor.
pub const SHT41_ADDR: u8 = 0x44;

/// The command that starts a high-precision measurement.
pub const CMD_MEASURE_HIGH_PRECISION: u8 = 0xFD;

/// How long a measurement takes, in milliseconds.
pub const MEASUREMENT_MILLIS: u64 = 20;

/// How long the node pauses between two measurements, in seconds.
pub const SAMPLE_PERIOD_SECS: u64 = 10;

/// Why a measurement failed.
#[derive(Debug)]
pub enum Sht41Error<E> {
    /// The bus failed.
    I2c(E),
    /// A word does not match its CRC.
    Crc,
}

/// The two words of a measurement, as the sensor sends them.
#[derive(Clone, Copy, Debug, PartialEq, Eq, Structural)]
pub struct RawReading {
    pub temperature: u16,
    pub humidity: u16,
}

/// What has happened in a measurement.
pub enum ReadEvent<E> {
    /// A measurement is wanted.
    Begin,
    /// The command was written, or the bus failed.
    Written(Result<(), E>),
    /// The pause is over.
    Elapsed,
    /// The answer was read, or the bus failed.
    Fetched(Result<[u8; 6], E>),
}

/// What is to be done next in a measurement.
pub enum ReadStep<E> {
    /// Write the one-byte command to the device at `address`.
    Write { address: u8, command: u8 },
    /// Pause.
    Wait { millis: u64 },
    /// Read six bytes from the device at `address`.
    Fetch { address: u8 },
    /// Nothing: this is the result.
    Done(Result<RawReading, Sht41Error<E>>),
}

/// What has happened in the run of measurements.
#[derive(Clone, Copy, Debug, PartialEq, Eq)]
pub enum SampleEvent {
    /// The node has started.
    Begin,
    /// A measurement has ended, with a reading or with an error.
    Measured,
    /// The pause is over.
    Elapsed,
}

/// What is to be done next in the run of measurements.
#[derive(Clone, Copy, Debug, PartialEq, Eq)]
pub enum SampleStep {
    /// Measure.
    Measure,
    /// Pause.
    Wait { secs: u64 },
}

/// An SHT41 on the bus `I2C`.
pub struct Sht41<I2C> {
    i2c: I2C,
}

/// The word `hi`, `lo` matches `crc`.
pub open spec fn word_intact(hi: u8, lo: u8, crc: u8) -> bool {
    crc8_of(seq![hi, lo]) == crc
}

/// The value of the word `hi`, `lo`.
pub open spec fn word_value(hi: u8, lo: u8) -> u16 {
    (256 * hi + lo) as u16
}

/// The measurement that an answer of the sensor holds.
pub open spec fn decoded<E>(answer: Seq<u8>) -> Result<RawReading, Sht41Error<E>> {
    if word_intact(answer[0], answer[1], answer[2]) && word_intact(answer[3], answer[4], answer[5]) {
        Ok(
            RawReading {
                temperature: word_value(answer[0], answer[1]),
                humidity: word_value(answer[3], answer[4]),
            },
        )
    } else {
        Err(Sht41Error::Crc)
    }
}

/// The step that follows an event.
pub open spec fn step_after<E>(event: ReadEvent<E>) -> ReadStep<E> {
    match event {
        ReadEvent::Begin => ReadStep::Write {
            address: SHT41_ADDR,
            command: CMD_MEASURE_HIGH_PRECISION,
        },
        ReadEvent::Written(Ok(_)) => ReadStep::Wait { millis: MEASUREMENT_MILLIS },
        ReadEvent::Written(Err(e)) => ReadStep::Done(Err(Sht41Error::I2c(e))),
        ReadEvent::Elapsed => ReadStep::Fetch { address: SHT41_ADDR },
        ReadEvent::Fetched(Ok(answer)) => ReadStep::Done(decoded(answer@)),
        ReadEvent::Fetched(Err(e)) => ReadStep::Done(Err(Sht41Error::I2c(e))),
    }
}

/// The step that follows an event in the run of measurements.
pub open spec fn sample_step_after(event: SampleEvent) -> SampleStep {
    match event {
        SampleEvent::Begin => SampleStep::Measure,
        SampleEvent::Measured => SampleStep::Wait { secs: SAMPLE_PERIOD_SECS },
        SampleEvent::Elapsed => SampleStep::Measure,
    }
}

/// Carries the run of measurements on by one event. It goes on the same way
/// after a reading and after an error.
pub fn next_sample(event: SampleEvent) -> (step: SampleStep)
    ensures
        step == sample_step_after(event),
        event is Measured ==> step == (SampleStep::Wait { secs: 10 }),
        event !is Measured ==> step == SampleStep::Measure,
{
    match event {
        SampleEvent::Begin => SampleStep::Measure,
        SampleEvent::Measured => SampleStep::Wait { secs: SAMPLE_PERIOD_SECS },
        SampleEvent::Elapsed => SampleStep::Measure,
    }
}

/// Checks both words of an answer and takes out their values.
pub fn decode<E>(answer: &[u8; 6]) -> (reading: Result<RawReading, Sht41Error<E>>)
    ensures
        reading == decoded::<E>(answer@),
        reading is Ok <==> crc8_of(seq![answer[0], answer[1]]) == answer[2] && crc8_of(
            seq![answer[3], answer[4]],
        ) == answer[5],
        reading matches Ok(r) ==> r.temperature == 256 * answer[0] + answer[1] && r.humidity == 256
            * answer[3] + answer[4],
{
    let temp_crc = crc8(&answer[0..2]);
    let rh_crc = crc8(&answer[3..5]);
    assert(answer@.subrange(0, 2) =~= seq![answer[0], answer[1]]);
    assert(answer@.subrange(3, 5) =~= seq![answer[3], answer[4]]);
    if temp_crc != answer[2] || rh_crc != answer[5] {
        return Err(Sht41Error::Crc);
    }
    Ok(
        RawReading {
            temperature: answer[0] as u16 * 256 + answer[1] as u16,
            humidity: answer[3] as u16 * 256 + answer[4] as u16,
        },
    )
}

impl<I2C> Sht41<I2C> {
    /// The bus that the sensor is on.
    pub closed spec fn bus(self) -> I2C {
        self.i2c
    }

    /// The sensor on the bus `i2c`.
    pub fn new(i2c: I2C) -> (sensor: Self)
        ensures
            sensor.bus() == i2c,
    {
        Sht41 { i2c }
    }

    /// The bus, to carry out the steps of a measurement.
    pub fn bus_mut(&mut self) -> (i2c: &mut I2C)
        ensures
            *i2c == old(self).bus(),
            final(self).bus() == *final(i2c),
    {
        &mut self.i2c
    }

    /// Carries a measurement on by one event.
    pub fn read<E>(&mut self, event: ReadEvent<E>) -> (step: ReadStep<E>)
        ensures
            step == step_after(event),
            match event {
                ReadEvent::Begin => step matches ReadStep::Write { address, command } && address
                    == 0x44 && command == 0xfd,
                ReadEvent::Written(Ok(_)) => step matches ReadStep::Wait { millis } && millis == 20,
                ReadEvent::Elapsed => step matches ReadStep::Fetch { address } && address == 0x44,
                ReadEvent::Fetched(Ok(answer)) => step matches ReadStep::Done(reading) && reading
                    == decoded::<E>(answer@),
                ReadEvent::Written(Err(e)) | ReadEvent::Fetched(Err(e)) => step matches ReadStep::Done(
                    Err(Sht41Error::I2c(f)),
                ) && f == e,
            },
            final(self).bus() == old(self).bus(),
    {
        match event {
            ReadEvent::Begin => ReadStep::Write {
                address: SHT41_ADDR,
                command: CMD_MEASURE_HIGH_PRECISION,
            },
            ReadEvent::Written(Ok(_)) => ReadStep::Wait { millis: MEASUREMENT_MILLIS },
            ReadEvent::Written(Err(e)) => ReadStep::Done(Err(Sht41Error::I2c(e))),
            ReadEvent::Elapsed => ReadStep::Fetch { address: SHT41_ADDR },
            ReadEvent::Fetched(Ok(answer)) => ReadStep::Done(decode(&answer)),
            ReadEvent::Fetched(Err(e)) => ReadStep::Done(Err(Sht41Error::I2c(e))),
        }
    }
}

/// A measurement comes to an end: it is one command, one pause and one
/// transfer, unless the bus fails on the way, and a failure of the bus is
/// handed on as it is.
pub proof fn law_measurement_ends<E>(written: Result<(), E>, fetched: Result<[u8; 6], E>)
    ensures
        step_after(ReadEvent::<E>::Begin) == (ReadStep::<E>::Write {
            address: SHT41_ADDR,
            command: CMD_MEASURE_HIGH_PRECISION,
        }),
        match written {
            Err(e) => step_after(ReadEvent::Written(written)) == ReadStep::<E>::Done(
                Err(Sht41Error::I2c(e)),
            ),
            Ok(_) => {
                &&& step_after(ReadEvent::Written(written)) == (ReadStep::<E>::Wait {
                    millis: MEASUREMENT_MILLIS,
                })
                &&& step_after(ReadEvent::<E>::Elapsed) == (ReadStep::<E>::Fetch {
                    address: SHT41_ADDR,
                })
                &&& step_after(ReadEvent::Fetched(fetched)) == ReadStep::<E>::Done(
                    match fetched {
                        Err(e) => Err(Sht41Error::I2c(e)),
                        Ok(answer) => decoded(answer@),
                    },
                )
            },
        },
{
}

/// The event that reports a step of the run of measurements as done.
pub open spec fn sample_done(step: SampleStep) -> SampleEvent {
    match step {
        SampleStep::Measure => SampleEvent::Measured,
        SampleStep::Wait { .. } => SampleEvent::Elapsed,
    }
}

/// The step number `n` of the run of measurements.
pub open spec fn sample_step(n: nat) -> SampleStep
    decreases n,
{
    if n == 0 {
        sample_step_after(SampleEvent::Begin)
    } else {
        sample_step_after(sample_done(sample_step((n - 1) as nat)))
    }
}

/// The run of measurements does not end: it starts with a measurement, and
/// from then on pauses of the sampling period and measurements take turns.
pub proof fn law_sampling_goes_on(n: nat)
    ensures
        sample_step(n) == (if n % 2 == 0 {
            SampleStep::Measure
        } else {
            SampleStep::Wait { secs: SAMPLE_PERIOD_SECS }
        }),
    decreases n,
{
    if n > 0 {
        law_sampling_goes_on((n - 1) as nat);
    }
}

proof fn lemma_damaged_word(hi: u8, lo: u8, crc: u8, flips: u8)
    requires
        flips != 0,
        word_intact(hi, lo, crc),
    ensures
        !word_intact(hi ^ flips, lo, crc),
        !word_intact(hi, lo ^ flips, crc),
        !word_intact(hi, lo, crc ^ flips),
{
    law_burst_errors_are_noticed(hi, lo, flips, 16);
    law_burst_errors_are_noticed(hi, lo, flips, 8);
    law_burst_errors_are_noticed(hi, lo, flips, 0);
    assert(hi ^ 0u8 == hi && lo ^ 0u8 == lo && crc ^ 0u8 == crc) by (bit_vector);
    assert(((flips as u32) << 16u32) >> 16u32 == flips as u32 && (((flips as u32) << 16u32)
        >> 8u32) as u8 == 0 && ((flips as u32) << 16u32) as u8 == 0) by (bit_vector);
    assert((((flips as u32) << 8u32) >> 16u32) as u8 == 0 && (((flips as u32) << 8u32) >> 8u32) as u8
        == flips && ((flips as u32) << 8u32) as u8 == 0) by (bit_vector);
    assert((((flips as u32) << 0u32) >> 16u32) as u8 == 0 && (((flips as u32) << 0u32) >> 8u32) as u8
        == 0 && ((flips as u32) << 0u32) as u8 == flips) by (bit_vector);
}

/// An answer is accepted exactly if the third byte is the CRC of the first two
/// and the sixth that of the fourth and fifth; and the reading then tells those
/// bytes, the upper half of each number first.
pub proof fn law_reading_tells_answer<E>(answer: Seq<u8>)
    requires
        answer.len() == 6,
    ensures
        decoded::<E>(answer) is Ok <==> (crc8_of(seq![answer[0], answer[1]]) == answer[2]
            && crc8_of(seq![answer[3], answer[4]]) == answer[5]),
        decoded::<E>(answer) is Err ==> decoded::<E>(answer) == Err::<RawReading, _>(
            Sht41Error::<E>::Crc,
        ),
        decoded::<E>(answer) matches Ok(reading) ==> {
            &&& reading.temperature / 256 == answer[0]
            &&& reading.temperature % 256 == answer[1]
            &&& reading.humidity / 256 == answer[3]
            &&& reading.humidity % 256 == answer[4]
        },
{
}

/// Of an answer that the driver accepts, no byte can be changed without the
/// driver refusing it.
pub proof fn law_damaged_answer_is_refused<E>(answer: Seq<u8>, i: int, flips: u8)
    requires
        answer.len() == 6,
        decoded::<E>(answer) is Ok,
        0 <= i < 6,
        flips != 0,
    ensures
        decoded::<E>(answer.update(i, answer[i] ^ flips)) == Err::<RawReading, _>(
            Sht41Error::<E>::Crc,
        ),
{
    lemma_damaged_word(answer[0], answer[1], answer[2], flips);
    lemma_damaged_word(answer[3], answer[4], answer[5], flips);
}

} // verus!
