use thread_sensor::crc::crc8;
use thread_sensor::sht41::{
    decode, next_sample, RawReading, ReadEvent, ReadStep, SampleEvent, SampleStep, Sht41,
    Sht41Error, CMD_MEASURE_HIGH_PRECISION, MEASUREMENT_MILLIS, SAMPLE_PERIOD_SECS, SHT41_ADDR,
};

const ANSWER: [u8; 6] = [0x66, 0x66, 0x93, 0xbe, 0xef, 0x92];

#[test]
fn crc_of_known_messages() {
    assert_eq!(crc8(&[]), 0xff);
    assert_eq!(crc8(&[0xbe, 0xef]), 0x92);
    assert_eq!(crc8(&[0x00, 0x00]), 0x81);
    assert_eq!(crc8(b"123456789"), 0xf7);
}

#[test]
fn crc_seals_message() {
    let data = [0x12, 0x34, 0x56];
    let crc = crc8(&data);
    for last in 0..=255u8 {
        let sealed = [0x12, 0x34, 0x56, last];
        assert_eq!(crc8(&sealed) == 0, last == crc);
    }
}

#[test]
fn bursts_are_noticed() {
    let word: u32 = 0xbeef92;
    for burst in 1..=255u32 {
        for position in 0..=16u32 {
            let damaged = word ^ (burst << position);
            let [_, hi, lo, crc] = damaged.to_be_bytes();
            assert_ne!(crc8(&[hi, lo]), crc);
        }
    }
}

#[test]
fn double_errors_are_noticed() {
    let word: u32 = 0xbeef92;
    for j in 0..24u32 {
        for i in 0..j {
            let [_, hi, lo, crc] = (word ^ (1 << i) ^ (1 << j)).to_be_bytes();
            assert_ne!(crc8(&[hi, lo]), crc);
        }
    }
}

#[test]
fn odd_errors_are_noticed() {
    let word: u32 = 0xbeef92;
    for error in 0..0x1_0000u32 {
        let error = error * 0x101;
        let [_, hi, lo, crc] = (word ^ error).to_be_bytes();
        if error.count_ones() % 2 == 1 {
            assert_ne!(crc8(&[hi, lo]), crc);
        }
    }
}

#[test]
fn intact_answer_is_decoded() {
    let reading: Result<RawReading, Sht41Error<()>> = decode(&ANSWER);
    let reading = reading.unwrap();
    assert_eq!(reading.temperature, 0x6666);
    assert_eq!(reading.humidity, 0xbeef);
}

#[test]
fn damaged_answer_is_refused() {
    for i in 0..6 {
        for flips in 1..=255u8 {
            let mut answer = ANSWER;
            answer[i] ^= flips;
            let reading: Result<RawReading, Sht41Error<()>> = decode(&answer);
            assert!(matches!(reading, Err(Sht41Error::Crc)));
        }
    }
}

#[test]
fn measurement_runs_to_its_end() {
    let mut sensor = Sht41::new("bus");
    match sensor.read::<u8>(ReadEvent::Begin) {
        ReadStep::Write { address, command } => {
            assert_eq!(address, SHT41_ADDR);
            assert_eq!(address, 0x44);
            assert_eq!(command, CMD_MEASURE_HIGH_PRECISION);
            assert_eq!(command, 0xfd);
        }
        _ => panic!(),
    }
    match sensor.read::<u8>(ReadEvent::Written(Ok(()))) {
        ReadStep::Wait { millis } => {
            assert_eq!(millis, MEASUREMENT_MILLIS);
            assert_eq!(millis, 20);
        }
        _ => panic!(),
    }
    match sensor.read::<u8>(ReadEvent::Elapsed) {
        ReadStep::Fetch { address } => assert_eq!(address, 0x44),
        _ => panic!(),
    }
    match sensor.read::<u8>(ReadEvent::Fetched(Ok(ANSWER))) {
        ReadStep::Done(Ok(reading)) => {
            assert_eq!(reading, RawReading { temperature: 0x6666, humidity: 0xbeef })
        }
        _ => panic!(),
    }
    assert_eq!(*sensor.bus_mut(), "bus");
}

#[test]
fn bus_failures_are_handed_on() {
    let mut sensor = Sht41::new(());
    assert!(matches!(
        sensor.read(ReadEvent::Written(Err(7u8))),
        ReadStep::Done(Err(Sht41Error::I2c(7)))
    ));
    assert!(matches!(
        sensor.read(ReadEvent::Fetched(Err(9u8))),
        ReadStep::Done(Err(Sht41Error::I2c(9)))
    ));
}

#[test]
fn crc_mismatch_fails_measurement() {
    let mut sensor = Sht41::new(());
    let mut answer = ANSWER;
    answer[5] = 0;
    assert!(matches!(
        sensor.read::<u8>(ReadEvent::Fetched(Ok(answer))),
        ReadStep::Done(Err(Sht41Error::Crc))
    ));
}

#[test]
fn bus_is_reached_through_the_sensor() {
    let mut sensor = Sht41::new(1u32);
    *sensor.bus_mut() += 1;
    assert_eq!(*sensor.bus_mut(), 2);
}

#[test]
fn sampling_goes_on() {
    assert_eq!(SAMPLE_PERIOD_SECS, 10);
    let mut event = SampleEvent::Begin;
    for _ in 0..5 {
        assert_eq!(next_sample(event), SampleStep::Measure);
        assert_eq!(next_sample(SampleEvent::Measured), SampleStep::Wait { secs: 10 });
        event = SampleEvent::Elapsed;
    }
}

#[test]
fn changed_byte_changes_crc() {
    let data = *b"123456789";
    for i in 0..9 {
        for flips in 1..=255u8 {
            let mut changed = data;
            changed[i] ^= flips;
            assert_ne!(crc8(&changed), crc8(&data));
        }
    }
}

#[test]
fn crc_is_linear() {
    let (a, b) = (*b"1234567", *b"abcdefg");
    let mut sum = [0u8; 7];
    for i in 0..7 {
        sum[i] = a[i] ^ b[i];
    }
    assert_eq!(crc8(&a) ^ crc8(&b), crc8(&sum) ^ crc8(&[0; 7]));
}
