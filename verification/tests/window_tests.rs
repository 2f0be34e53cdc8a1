use my_cava::window::{
    fft_normalization, process_hanning_window, remove_mean, UnsupportedChannels,
};

fn windowed(channels: usize, samples: &[f32], window: &[f32]) -> Result<Vec<f32>, UnsupportedChannels> {
    let mut buffer = vec![-1.0f32];
    process_hanning_window(
        &mut buffer,
        window,
        samples,
        channels,
        |s: f32, w: f32| s * w,
        |l: f32, r: f32, w: f32| (l + r) / 2.0 * w,
    )?;
    Ok(buffer)
}

#[test]
fn mono_samples_are_weighted() {
    assert_eq!(
        windowed(1, &[1.0, 2.0, 3.0], &[0.5, 1.0, 0.25]).unwrap(),
        vec![0.5, 2.0, 0.75]
    );
}

#[test]
fn stereo_samples_are_mixed_and_weighted() {
    assert_eq!(
        windowed(2, &[1.0, 3.0, 4.0, 6.0], &[0.5, 1.0]).unwrap(),
        vec![1.0, 5.0]
    );
}

#[test]
fn equal_channels_are_windowed_as_mono() {
    let window = [0.25f32, 1.0, 0.5];
    assert_eq!(
        windowed(2, &[1.5, 1.5, -3.25, -3.25, 0.0, 0.0], &window).unwrap(),
        windowed(1, &[1.5, -3.25, 0.0], &window).unwrap()
    );
}

#[test]
fn exchanged_channels_are_windowed_alike() {
    let window = [0.25f32, 1.0];
    assert_eq!(
        windowed(2, &[1.5, 7.0, -3.25, 2.0, 9.0], &window).unwrap(),
        windowed(2, &[7.0, 1.5, 2.0, -3.25, 8.0], &window).unwrap()
    );
}

#[test]
fn incomplete_frames_and_surplus_are_left_out() {
    assert_eq!(windowed(2, &[1.0, 3.0, 4.0], &[0.5, 1.0]).unwrap(), vec![1.0]);
    assert_eq!(windowed(1, &[1.0, 3.0, 4.0], &[2.0]).unwrap(), vec![2.0]);
    assert_eq!(windowed(1, &[], &[2.0]).unwrap(), Vec::<f32>::new());
}

#[test]
fn other_channel_counts_are_refused() {
    for channels in [0usize, 3, 6, usize::MAX] {
        let mut buffer = vec![7u8];
        let result = process_hanning_window(
            &mut buffer,
            &[1u8],
            &[1u8],
            channels,
            |s: u8, _w: u8| s,
            |l: u8, _r: u8, _w: u8| l,
        );
        assert_eq!(result, Err(UnsupportedChannels { channels }));
        assert_eq!(buffer, vec![7u8]);
    }
}

#[test]
fn refusal_message() {
    for channels in [0usize, 3, 9, 10, 11, 100, 65535, usize::MAX] {
        assert_eq!(
            UnsupportedChannels { channels }.message(),
            format!("unsupported channel count: {channels}, only 1 or 2 are supported!!!!")
        );
    }
}

#[test]
fn mean_is_removed() {
    let mut samples = vec![1.0f32, 2.0, 3.0, 6.0];
    remove_mean(
        &mut samples,
        |s: &[f32]| s.iter().sum::<f32>() / s.len() as f32,
        |a: f32, b: f32| a - b,
    );
    assert_eq!(samples, vec![-2.0, -1.0, 0.0, 3.0]);
}

#[test]
fn lower_half_becomes_magnitudes() {
    let data = [(3.0f32, 4.0f32), (0.0, 2.0), (5.0, 5.0), (6.0, 6.0), (7.0, 7.0)];
    let half = fft_normalization(&data, |c: &(f32, f32)| (c.0 * c.0 + c.1 * c.1).sqrt() / 2.0);
    assert_eq!(half, vec![2.5, 1.0]);
    let none: Vec<u8> = fft_normalization(&[1u8], |c: &u8| *c);
    assert_eq!(none, Vec::<u8>::new());
}
