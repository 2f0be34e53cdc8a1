use my_cava::config::{FFT_SIZE, RING_CAPACITY_CPAL_FFT, RING_CAPACITY_FFT_UI};
use my_cava::ring::{
    create_ring, fill_silence, next_step, poll_block, push_samples, push_spectrum, required_samples,
    BlockPoll, RingFull,
};
use my_cava::word::{complex_bits, complex_word, sample_bits, sample_word};

#[test]
fn capacities() {
    assert_eq!(FFT_SIZE, 1024);
    assert_eq!(RING_CAPACITY_CPAL_FFT, 40960);
    assert_eq!(RING_CAPACITY_FFT_UI, 40960);
    assert_eq!(required_samples(1), 1024);
    assert_eq!(required_samples(2), 2048);
    assert_eq!(required_samples(u16::MAX), 67107840);
}

#[test]
fn samples_come_out_as_they_went_in() {
    let mut rings = create_ring();
    let words: Vec<u64> = (1..2001).collect();
    assert!(push_samples(&mut rings.p_a, &words));
    let mut block = vec![0u64; 1500];
    assert_eq!(poll_block(&mut rings.c_a, &mut block, false), BlockPoll::Ready);
    assert_eq!(block, words[..1500]);
    // 500 words are left: too few for another block, which stays untouched.
    assert_eq!(poll_block(&mut rings.c_a, &mut block, false), BlockPoll::Wait);
    assert_eq!(block, words[..1500]);
    let mut rest = vec![0u64; 500];
    assert_eq!(poll_block(&mut rings.c_a, &mut rest, false), BlockPoll::Ready);
    assert_eq!(rest, words[1500..]);
}

#[test]
fn spectra_come_out_as_they_went_in() {
    let mut rings = create_ring();
    let words: Vec<u64> = (0..1024).map(|i| i * 3 + 1).collect();
    assert!(push_spectrum(&mut rings.p_b, &words));
    let mut block = vec![0u64; 1024];
    assert_eq!(poll_block(&mut rings.c_b, &mut block, false), BlockPoll::Ready);
    assert_eq!(block, words);
    // The rings are separate.
    assert_eq!(poll_block(&mut rings.c_a, &mut vec![0u64; 1], false), BlockPoll::Wait);
}

#[test]
fn each_ring_carries_its_own_words() {
    let mut rings = create_ring();
    assert!(push_samples(&mut rings.p_a, &[1, 2]));
    assert!(push_spectrum(&mut rings.p_b, &[3, 4]));
    assert!(push_samples(&mut rings.p_a, &[5, 6]));
    let mut block = vec![0u64; 2];
    for (from_a, words) in [(true, [1u64, 2]), (false, [3, 4]), (true, [5, 6])] {
        let consumer = if from_a { &mut rings.c_a } else { &mut rings.c_b };
        assert_eq!(poll_block(consumer, &mut block, false), BlockPoll::Ready);
        assert_eq!(block, words);
    }
}

#[test]
fn shutdown_stops_whatever_waits() {
    let mut rings = create_ring();
    let mut block = vec![9u64; 4];
    assert_eq!(poll_block(&mut rings.c_a, &mut block, true), BlockPoll::Stop);
    assert!(push_samples(&mut rings.p_a, &[1, 2, 3, 4]));
    assert_eq!(poll_block(&mut rings.c_a, &mut block, true), BlockPoll::Stop);
    assert_eq!(block, vec![9u64; 4]);
    assert_eq!(poll_block(&mut rings.c_a, &mut block, false), BlockPoll::Ready);
    assert_eq!(block, vec![1u64, 2, 3, 4]);
}

#[test]
fn empty_block_is_always_ready() {
    let mut rings = create_ring();
    assert_eq!(poll_block(&mut rings.c_a, &mut vec![], false), BlockPoll::Ready);
}

#[test]
fn block_larger_than_the_ring_never_comes() {
    let mut rings = create_ring();
    let words = vec![1u64; RING_CAPACITY_CPAL_FFT];
    assert!(push_samples(&mut rings.p_a, &words));
    let mut block = vec![0u64; RING_CAPACITY_CPAL_FFT + 1];
    assert_eq!(poll_block(&mut rings.c_a, &mut block, false), BlockPoll::Wait);
}

#[test]
fn overrun_keeps_the_front_of_the_block() {
    let mut rings = create_ring();
    assert!(push_samples(&mut rings.p_a, &vec![5u64; RING_CAPACITY_CPAL_FFT - 2]));
    assert!(!push_samples(&mut rings.p_a, &[1, 2, 3]));
    assert!(!push_samples(&mut rings.p_a, &[4]));
    assert!(push_samples(&mut rings.p_a, &[]));
    let mut block = vec![0u64; RING_CAPACITY_CPAL_FFT];
    assert_eq!(poll_block(&mut rings.c_a, &mut block, false), BlockPoll::Ready);
    assert_eq!(block[RING_CAPACITY_CPAL_FFT - 3..], [5, 1, 2]);

    assert!(push_spectrum(&mut rings.p_b, &vec![5u64; RING_CAPACITY_FFT_UI - 1]));
    assert!(!push_spectrum(&mut rings.p_b, &[1, 2]));
    let mut block = vec![0u64; RING_CAPACITY_FFT_UI];
    assert_eq!(poll_block(&mut rings.c_b, &mut block, false), BlockPoll::Ready);
    assert_eq!(block[RING_CAPACITY_FFT_UI - 1], 1);
}

#[test]
fn fresh_ring_takes_half_a_ring_of_silence() {
    let mut rings = create_ring();
    assert_eq!(fill_silence(&mut rings.p_a, RING_CAPACITY_CPAL_FFT / 2), Ok(()));
    let mut block = vec![7u64; RING_CAPACITY_CPAL_FFT / 2];
    assert_eq!(poll_block(&mut rings.c_a, &mut block, false), BlockPoll::Ready);
    assert_eq!(block, vec![0u64; RING_CAPACITY_CPAL_FFT / 2]);
    assert_eq!(poll_block(&mut rings.c_a, &mut vec![0u64], false), BlockPoll::Wait);
}

#[test]
fn silence_that_does_not_fit_is_an_error() {
    let mut rings = create_ring();
    assert_eq!(fill_silence(&mut rings.p_a, RING_CAPACITY_CPAL_FFT), Ok(()));
    assert_eq!(fill_silence(&mut rings.p_a, 1), Err(RingFull));
    assert_eq!(fill_silence(&mut rings.p_a, 0), Ok(()));
}

#[test]
fn words_wrap_around_the_ring() {
    let mut rings = create_ring();
    let mut next = 0u64;
    let mut expected = 0u64;
    for _ in 0..200 {
        let words: Vec<u64> = (next..next + 1000).collect();
        next += 1000;
        assert!(push_samples(&mut rings.p_a, &words));
        let mut block = vec![0u64; 1000];
        assert_eq!(poll_block(&mut rings.c_a, &mut block, false), BlockPoll::Ready);
        for word in block {
            assert_eq!(word, expected);
            expected += 1;
        }
    }
}

#[test]
fn words_keep_their_parts() {
    for x in [0.0f32, -0.0, 1.5, -3.25, f32::MIN, f32::INFINITY] {
        assert_eq!(sample_bits(sample_word(x.to_bits())), x.to_bits());
        let (re, im) = complex_bits(complex_word(x.to_bits(), (2.0 * x).to_bits()));
        assert_eq!((re, im), (x.to_bits(), (2.0 * x).to_bits()));
    }
    assert_eq!(complex_word(1, 2), 0x1_0000_0002);
    assert_eq!(complex_bits(0x1_0000_0002), (1, 2));
    assert_eq!(complex_word(u32::MAX, u32::MAX), u64::MAX);
    assert_eq!(sample_bits(0x5_0000_0003), 3);
}

#[test]
fn steps_of_a_worker() {
    assert_eq!(next_step(0, 1024, true), BlockPoll::Stop);
    assert_eq!(next_step(4096, 1024, true), BlockPoll::Stop);
    assert_eq!(next_step(1023, 1024, false), BlockPoll::Wait);
    assert_eq!(next_step(1024, 1024, false), BlockPoll::Ready);
    assert_eq!(next_step(4096, 1024, false), BlockPoll::Ready);
}
