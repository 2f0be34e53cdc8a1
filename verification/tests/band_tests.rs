use my_cava::bands::{bar_count, build_bar_ranges, compute_bar_value, total_bins};
use my_cava::math::BarMath;

#[test]
fn total_bins_at_common_rates() {
    assert_eq!(total_bins(48000), 277);
    assert_eq!(total_bins(44100), 301);
    assert_eq!(total_bins(96000), 138);
    assert_eq!(total_bins(192000), 69);
    assert_eq!(total_bins(1), 13312000);
    assert_eq!(total_bins(13312000), 1);
    assert_eq!(total_bins(13312001), 0);
    assert_eq!(total_bins(u32::MAX), 0);
    assert_eq!(total_bins(0), usize::MAX);
}

fn total_bins_in_floats(sample_rate: u32) -> usize {
    let freq_atom = sample_rate as f32 / 1024f32;
    (13000.0f32 / freq_atom) as usize
}

#[test]
fn total_bins_agrees_with_single_precision() {
    for rate in 0..400000u32 {
        assert_eq!(total_bins(rate), total_bins_in_floats(rate), "{rate}");
    }
    for step in 0..400000u32 {
        let rate = step * 10007;
        assert_eq!(total_bins(rate), total_bins_in_floats(rate), "{rate}");
    }
    for bins in 1..30000u32 {
        for rate in (13312000 / bins).saturating_sub(1)..13312000 / bins + 2 {
            assert_eq!(total_bins(rate), total_bins_in_floats(rate), "{rate}");
        }
    }
}

#[test]
fn bars_are_capped_at_the_bins() {
    assert_eq!(bar_count(80, 277), 80);
    assert_eq!(bar_count(300, 277), 277);
    assert_eq!(bar_count(0, 277), 0);
    assert_eq!(bar_count(80, 0), 0);
    assert_eq!(bar_count(u16::MAX, usize::MAX), 65535);
}

#[test]
fn crowded_bars_move_on_to_the_next_bin() {
    assert_eq!(
        build_bar_ranges(5, 20, &[0, 0, 0, 2, 9, 15]),
        vec![(0, 1), (1, 2), (2, 3), (3, 9), (9, 15)]
    );
}

#[test]
fn ranges_end_at_the_last_bin() {
    assert_eq!(build_bar_ranges(2, 8, &[3, 5, 11]), vec![(3, 5), (5, 8)]);
}

#[test]
fn a_bar_beyond_the_bins_reads_the_last_one() {
    assert_eq!(build_bar_ranges(1, 3, &[5, 9]), vec![(2, 3)]);
}

#[test]
fn each_bar_leaves_a_bin_for_the_later_ones() {
    assert_eq!(build_bar_ranges(3, 3, &[0, 2, 2, 3]), vec![(0, 1), (1, 2), (2, 3)]);
    assert_eq!(
        build_bar_ranges(4, 6, &[5, 5, 5, 5, 9]),
        vec![(2, 3), (3, 4), (4, 5), (5, 6)]
    );
    assert_eq!(
        build_bar_ranges(2, usize::MAX, &[usize::MAX, usize::MAX, usize::MAX]),
        vec![(usize::MAX - 2, usize::MAX - 1), (usize::MAX - 1, usize::MAX)]
    );
}

#[test]
fn bars_beyond_the_number_of_bins_are_cut_off() {
    assert_eq!(build_bar_ranges(3, 1, &[0, 0, 4, 9]), vec![(0, 1), (1, 1), (4, 1)]);
}

#[test]
fn no_bars_no_ranges() {
    assert_eq!(build_bar_ranges(0, 3, &[]), vec![]);
}

fn bar_to_bin(s: usize, bars: usize, freq_atom: f32) -> usize {
    let t = s as f32 / bars as f32;
    let freq = 40.0f32 * (13000.0f32 / 40.0f32).powf(t);
    (freq / freq_atom) as usize
}

#[test]
fn real_bars_read_separate_bins() {
    for sample_rate in [26000u32, 32000, 40960, 44100, 48000, 96000, 192000] {
        let freq_atom = sample_rate as f32 / 1024f32;
        let total = total_bins(sample_rate);
        for width in [1u16, 7, 80, 211, 325, 416, 500, 600] {
            let bars = bar_count(width, total);
            let bins: Vec<usize> = (0..bars + 1).map(|s| bar_to_bin(s, bars, freq_atom)).collect();
            let ranges = build_bar_ranges(bars, total, &bins);
            assert_eq!(ranges.len(), bars);
            for x in 0..bars {
                assert!(ranges[x].0 < ranges[x].1 && ranges[x].1 <= total && total <= 512);
                if x > 0 {
                    assert!(ranges[x - 1].0 < ranges[x].0);
                    assert!(ranges[x - 1].1 <= ranges[x].0);
                }
            }
        }
    }
}

struct Sum;

impl BarMath<i64> for Sum {
    fn level(&self, band: &[i64]) -> i64 {
        band.iter().sum()
    }
    fn silent(&self, _values: &[i64]) -> bool {
        unreachable!()
    }
    fn intensity(&self, _intensity: i64, _values: &[i64]) -> i64 {
        unreachable!()
    }
    fn hue_phase(&self, _phase: i64, _intensity: i64) -> i64 {
        unreachable!()
    }
    fn amplify(&self, _value: i64, _sensitivity: i64) -> i64 {
        unreachable!()
    }
    fn falling(&self, _value: i64, _previous: i64) -> bool {
        unreachable!()
    }
    fn fall_off(&self, _peak: i64, _fall: i64) -> i64 {
        unreachable!()
    }
    fn next_fall(&self, _fall: i64) -> i64 {
        unreachable!()
    }
    fn no_fall(&self) -> i64 {
        unreachable!()
    }
    fn integrate(&self, _memory: i64, _value: i64) -> i64 {
        unreachable!()
    }
    fn spring(&self, _value: i64, _position: i64, _velocity: i64) -> (i64, i64) {
        unreachable!()
    }
    fn overshoots(&self, _position: i64) -> bool {
        unreachable!()
    }
    fn shrink(&self, _sensitivity: i64) -> i64 {
        unreachable!()
    }
    fn grow(&self, _sensitivity: i64) -> i64 {
        unreachable!()
    }
    fn monstercat(&self) -> bool {
        unreachable!()
    }
    fn monstercat_spread(&self, _value: i64, _distance: usize) -> i64 {
        unreachable!()
    }
    fn waves_base(&self, _value: i64) -> i64 {
        unreachable!()
    }
    fn waves_spread(&self, _value: i64, _distance: usize, _height: u16) -> i64 {
        unreachable!()
    }
    fn exceeds(&self, _a: i64, _b: i64) -> bool {
        unreachable!()
    }
    fn bar_height(&self, _position: i64, _max_height: u16) -> i64 {
        unreachable!()
    }
    fn bar_top(&self, _bar_height: i64) -> i64 {
        unreachable!()
    }
    fn cap_fall(&self, _cap: i64, _bar_top: i64) -> i64 {
        unreachable!()
    }
}

#[test]
fn bar_value_is_the_level_of_its_band() {
    let data = [1i64, 10, 100, 1000, 10000];
    assert_eq!(compute_bar_value(&data, (1, 4), &Sum), 1110);
    assert_eq!(compute_bar_value(&data, (2, 2), &Sum), 0);
    assert_eq!(compute_bar_value(&data, (0, 5), &Sum), 11111);
}

#[test]
fn bins_outside_the_range_have_no_influence() {
    assert_eq!(compute_bar_value(&[1i64, 10, 100, 1000], (1, 3), &Sum), 110);
    assert_eq!(compute_bar_value(&[-7i64, 10, 100, 0, 5], (1, 3), &Sum), 110);
}
