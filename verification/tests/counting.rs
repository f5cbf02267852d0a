use byte_histogram::accumulate::{
    read_file_content, Accumulator, NextStep, ReadError, ReadOutcome, READ_BUFFER_SIZE,
};
use byte_histogram::table::{empty_table, frequency_max, frequency_min, BUCKETS};

fn every_byte_value() -> Vec<u8> {
    (0..=255u8).collect()
}

#[test]
fn four_byte_input_is_counted() {
    let data = [0x00u8, 0x00, 0x01, 0xff];
    let reads = [ReadOutcome::Data(&data), ReadOutcome::Data(&[])];
    let (table, total) = read_file_content(&reads).unwrap();
    assert_eq!(total, 4);
    assert_eq!(table[0x00], 2);
    assert_eq!(table[0x01], 1);
    assert_eq!(table[0xff], 1);
    for value in 0x02..0xff {
        assert_eq!(table[value], 0);
    }
    assert_eq!(frequency_max(&table), 2);
    assert_eq!(frequency_min(&table), 0);
}

#[test]
fn empty_stream_counts_nothing() {
    let reads = [ReadOutcome::Data(&[])];
    let (table, total) = read_file_content(&reads).unwrap();
    assert_eq!(total, 0);
    assert_eq!(*table, [0u64; 256]);
}

#[test]
fn no_reads_at_all_count_nothing() {
    let (table, total) = read_file_content(&[]).unwrap();
    assert_eq!(total, 0);
    assert_eq!(*table, empty_table());
}

#[test]
fn reads_that_are_used_up_end_the_stream() {
    let reads = [ReadOutcome::Data(b"ab"), ReadOutcome::Data(b"a")];
    let (table, total) = read_file_content(&reads).unwrap();
    assert_eq!(total, 3);
    assert_eq!(table[b'a' as usize], 2);
    assert_eq!(table[b'b' as usize], 1);
}

#[test]
fn single_byte_input_fills_one_bucket() {
    for value in [0x00u8, 0x41, 0x80, 0xff] {
        let data = [value];
        let reads = [ReadOutcome::Data(&data), ReadOutcome::Data(&[])];
        let (table, total) = read_file_content(&reads).unwrap();
        assert_eq!(total, 1);
        for other in 0..BUCKETS {
            let expected = if other == value as usize { 1 } else { 0 };
            assert_eq!(table[other], expected);
        }
        assert_eq!(frequency_min(&table), 0);
        assert_eq!(frequency_max(&table), 1);
    }
}

#[test]
fn uniform_input_fills_every_bucket_alike() {
    let data = every_byte_value();
    let reads = [ReadOutcome::Data(&data), ReadOutcome::Data(&[])];
    let (table, total) = read_file_content(&reads).unwrap();
    assert_eq!(total, 256);
    assert_eq!(*table, [1u64; 256]);
    assert_eq!(frequency_min(&table), 1);
    assert_eq!(frequency_max(&table), 1);
}

#[test]
fn entries_add_up_to_the_total() {
    let mut data = Vec::new();
    let mut state: u32 = 12345;
    for _ in 0..10_000 {
        state = state.wrapping_mul(1_103_515_245).wrapping_add(12_345);
        data.push((state >> 16) as u8);
    }
    let chunks: Vec<&[u8]> = data.chunks(777).collect();
    let mut reads: Vec<ReadOutcome> =
        chunks.iter().map(|chunk| ReadOutcome::Data(chunk)).collect();
    reads.push(ReadOutcome::Data(&[]));
    let (table, total) = read_file_content(&reads).unwrap();
    assert_eq!(total, 10_000);
    assert_eq!(table.iter().sum::<u64>(), total);
    for value in 0..BUCKETS {
        let expected = data.iter().filter(|byte| **byte as usize == value).count() as u64;
        assert_eq!(table[value], expected);
    }
}

#[test]
fn interrupted_reads_do_not_alter_the_counts() {
    let data = b"the quick brown fox jumps over the lazy dog";
    let undisturbed = [ReadOutcome::Data(data), ReadOutcome::Data(&[])];
    let interrupted = [
        ReadOutcome::Interrupted,
        ReadOutcome::Data(&data[..10]),
        ReadOutcome::Interrupted,
        ReadOutcome::Interrupted,
        ReadOutcome::Data(&data[10..11]),
        ReadOutcome::Data(&data[11..]),
        ReadOutcome::Interrupted,
        ReadOutcome::Data(&[]),
    ];
    let expected = read_file_content(&undisturbed).unwrap();
    assert_eq!(expected.1, 43);
    assert_eq!(expected.0[b'o' as usize], 4);
    assert_eq!(read_file_content(&interrupted).unwrap(), expected);
}

#[test]
fn only_interruptions_count_nothing() {
    let reads = [ReadOutcome::Interrupted, ReadOutcome::Interrupted];
    let (table, total) = read_file_content(&reads).unwrap();
    assert_eq!(total, 0);
    assert_eq!(*table, [0u64; 256]);
}

#[test]
fn cutting_the_input_differently_does_not_alter_the_counts() {
    let data = every_byte_value();
    let whole = [ReadOutcome::Data(&data), ReadOutcome::Data(&[])];
    let mut single: Vec<ReadOutcome> = data.chunks(1).map(ReadOutcome::Data).collect();
    single.push(ReadOutcome::Data(&[]));
    assert_eq!(read_file_content(&single).unwrap(), read_file_content(&whole).unwrap());
}

#[test]
fn bytes_after_the_end_of_the_stream_are_not_counted() {
    let reads = [ReadOutcome::Data(b"xy"), ReadOutcome::Data(&[]), ReadOutcome::Data(b"zzz")];
    let (table, total) = read_file_content(&reads).unwrap();
    assert_eq!(total, 2);
    assert_eq!(table[b'z' as usize], 0);
}

#[test]
fn failed_read_voids_the_count() {
    let reads = [ReadOutcome::Data(b"abc"), ReadOutcome::Failed, ReadOutcome::Data(&[])];
    assert_eq!(read_file_content(&reads), Err(ReadError));
}

#[test]
fn failure_on_the_first_read_voids_the_count() {
    assert_eq!(read_file_content(&[ReadOutcome::Failed]), Err(ReadError));
}

#[test]
fn failure_after_an_interruption_voids_the_count() {
    let reads = [ReadOutcome::Interrupted, ReadOutcome::Failed];
    assert_eq!(read_file_content(&reads), Err(ReadError));
}

#[test]
fn failure_after_the_end_of_the_stream_is_never_met() {
    let reads = [ReadOutcome::Data(b"abc"), ReadOutcome::Data(&[]), ReadOutcome::Failed];
    let (table, total) = read_file_content(&reads).unwrap();
    assert_eq!(total, 3);
    assert_eq!(table[b'b' as usize], 1);
}

#[test]
fn accumulator_follows_the_reads() {
    let mut accumulator = Accumulator::new();
    assert_eq!(accumulator.total(), 0);
    assert_eq!(accumulator.on_read(ReadOutcome::Data(b"aab")), NextStep::ReadAgain);
    assert_eq!(accumulator.total(), 3);
    assert_eq!(accumulator.on_read(ReadOutcome::Interrupted), NextStep::ReadAgain);
    assert_eq!(accumulator.total(), 3);
    assert_eq!(accumulator.count(b'a'), 2);
    assert_eq!(accumulator.count(b'b'), 1);
    assert_eq!(accumulator.count(b'c'), 0);
    assert_eq!(accumulator.on_read(ReadOutcome::Failed), NextStep::Aborted);
    assert_eq!(accumulator.total(), 3);
    assert_eq!(accumulator.on_read(ReadOutcome::Data(b"")), NextStep::Finished);
    let (table, total) = accumulator.finish();
    assert_eq!(total, 3);
    assert_eq!(table[b'a' as usize], 2);
    assert_eq!(table.iter().sum::<u64>(), 3);
}

#[test]
fn total_never_goes_down() {
    let mut accumulator = Accumulator::new();
    let mut last = 0;
    let outcomes = [
        ReadOutcome::Data(b"12"),
        ReadOutcome::Interrupted,
        ReadOutcome::Data(b"3"),
        ReadOutcome::Failed,
        ReadOutcome::Data(b""),
    ];
    for outcome in outcomes {
        accumulator.on_read(outcome);
        assert!(accumulator.total() >= last);
        last = accumulator.total();
    }
    assert_eq!(last, 3);
}

#[test]
fn absorb_counts_a_chunk() {
    let mut accumulator = Accumulator::new();
    accumulator.absorb(&[7, 7, 7, 9]);
    accumulator.absorb(&[]);
    accumulator.absorb(&[9]);
    assert_eq!(accumulator.total(), 5);
    assert_eq!(accumulator.count(7), 3);
    assert_eq!(accumulator.count(9), 2);
}

#[test]
fn a_full_buffer_is_counted() {
    let buffer = vec![0xabu8; READ_BUFFER_SIZE];
    let reads =
        [ReadOutcome::Data(&buffer), ReadOutcome::Data(&buffer[..5]), ReadOutcome::Data(&[])];
    let (table, total) = read_file_content(&reads).unwrap();
    assert_eq!(total, 1_048_581);
    assert_eq!(table[0xab], 1_048_581);
}

#[test]
fn there_is_room_for_any_chunk_at_the_start() {
    let mut accumulator = Accumulator::new();
    assert!(accumulator.has_room_for(0));
    assert!(accumulator.has_room_for(usize::MAX));
    accumulator.absorb(b"x");
    assert!(accumulator.has_room_for(READ_BUFFER_SIZE));
    assert_eq!(accumulator.has_room_for(usize::MAX), (usize::MAX as u128) < u64::MAX as u128);
}
