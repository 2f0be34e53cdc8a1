//! From samples to the windowed input of the transform, and from its output to the spectrum.
use vstd::prelude::*;

verus! {

/// The audio has neither one nor two channels.
#[derive(Clone, Copy, Debug, PartialEq, Eq, Structural)]
pub struct UnsupportedChannels {
    pub channels: usize,
}

/// The decimal digit of a number below 10.
pub open spec fn digit(d: nat) -> char {
    ('0' as int + d) as char
}

/// A number in decimal notation.
pub open spec fn decimal(n: nat) -> Seq<char>
    decreases n,
{
    if n < 10 {
        seq![digit(n)]
    } else {
        decimal(n / 10).push(digit(n % 10))
    }
}

/// The decimal digit of a number below 10, as a string.
fn digit_str(d: usize) -> (s: &'static str)
    requires
        d < 10,
    ensures
        s@ == seq![digit(d as nat)],
{
    proof {
        reveal_strlit("0");
        reveal_strlit("1");
        reveal_strlit("2");
        reveal_strlit("3");
        reveal_strlit("4");
        reveal_strlit("5");
        reveal_strlit("6");
        reveal_strlit("7");
        reveal_strlit("8");
        reveal_strlit("9");
    }
    match d {
        0 => "0",
        1 => "1",
        2 => "2",
        3 => "3",
        4 => "4",
        5 => "5",
        6 => "6",
        7 => "7",
        8 => "8",
        _ => "9",
    }
}

/// Appends a number in decimal notation.
fn append_decimal(text: &mut String, n: usize)
    ensures
        final(text)@ == old(text)@ + decimal(n as nat),
    decreases n,
{
    if n >= 10 {
        append_decimal(text, n / 10);
    }
    text.append(digit_str(n % 10));
    assert(text@ =~= old(text)@ + decimal(n as nat));
}

impl UnsupportedChannels {
    /// The message for the user.
    pub open spec fn text(&self) -> Seq<char> {
        "unsupported channel count: "@ + decimal(self.channels as nat)
            + ", only 1 or 2 are supported!!!!"@
    }

    /// The message for the user.
    pub fn message(&self) -> (text: String)
        ensures
            text@ == self.text(),
    {
        let mut text = String::new();
        text.append("unsupported channel count: ");
        append_decimal(&mut text, self.channels);
        text.append(", only 1 or 2 are supported!!!!");
        assert(text@ =~= self.text());
        text
    }
}

/// Whether `average` is what `mean` gives for the samples.
pub open spec fn is_mean<S, A: Fn(&[S]) -> S>(mean: A, samples: Seq<S>, average: S) -> bool {
    exists|slice: &[S]| slice@ == samples && #[trigger] call_ensures(mean, (slice,), average)
}

/// Whether `post` are the samples `pre` with `average` taken from each.
pub open spec fn shifted<S, B: Fn(S, S) -> S>(
    minus: B,
    pre: Seq<S>,
    post: Seq<S>,
    average: S,
) -> bool {
    &&& post.len() == pre.len()
    &&& forall|i: int|
        0 <= i < pre.len() ==> call_ensures(minus, (pre[i], average), #[trigger] post[i])
}

/// Takes the mean of a block of samples from each of them, which removes a constant offset.
pub fn remove_mean<S: Copy, A: Fn(&[S]) -> S, B: Fn(S, S) -> S>(
    samples: &mut Vec<S>,
    mean: A,
    minus: B,
)
    requires
        forall|slice: &[S]| #[trigger] call_requires(mean, (slice,)),
        forall|a: S, b: S| #[trigger] call_requires(minus, (a, b)),
    ensures
        exists|average: S|
            #[trigger] is_mean(mean, old(samples)@, average) && shifted(
                minus,
                old(samples)@,
                final(samples)@,
                average,
            ),
{
    let average = mean(samples.as_slice());
    assert(is_mean(mean, old(samples)@, average));
    let count: usize = samples.len();
    for i in 0..count
        invariant
            forall|a: S, b: S| #[trigger] call_requires(minus, (a, b)),
            count == old(samples)@.len(),
            samples@.len() == count,
            forall|k: int|
                0 <= k < i ==> call_ensures(
                    minus,
                    (old(samples)@[k], average),
                    #[trigger] samples@[k],
                ),
            forall|k: int| i <= k < count ==> #[trigger] samples@[k] == old(samples)@[k],
    {
        let rest = minus(samples[i], average);
        samples[i] = rest;
    }
}

/// The number of frames (one sample of each channel) that can be windowed: what lies behind the
/// last full frame, or behind the window, is left out.
pub open spec fn frames_in(samples: int, channels: int, window: int) -> int
    recommends
        channels > 0,
{
    if samples / channels <= window {
        samples / channels
    } else {
        window
    }
}

/// Whether `buffer` holds the windowed frames of mono samples.
pub open spec fn windowed_mono<S, W, C, F: Fn(S, W) -> C>(
    buffer: Seq<C>,
    window: Seq<W>,
    samples: Seq<S>,
    mono: F,
) -> bool {
    &&& buffer.len() == frames_in(samples.len() as int, 1, window.len() as int)
    &&& forall|i: int|
        0 <= i < buffer.len() ==> call_ensures(
            mono,
            (samples[i], window[i]),
            #[trigger] buffer[i],
        )
}

/// Whether `buffer` holds the windowed frames of interleaved stereo samples.
pub open spec fn windowed_stereo<S, W, C, G: Fn(S, S, W) -> C>(
    buffer: Seq<C>,
    window: Seq<W>,
    samples: Seq<S>,
    stereo: G,
) -> bool {
    &&& buffer.len() == frames_in(samples.len() as int, 2, window.len() as int)
    &&& forall|i: int|
        0 <= i < buffer.len() ==> call_ensures(
            stereo,
            (samples[2 * i], samples[2 * i + 1], window[i]),
            #[trigger] buffer[i],
        )
}

/// Fills `buffer` with the windowed frames of interleaved samples: `mono` gives the input of the
/// transform for the sample of a mono frame and its window weight, `stereo` for the left and
/// right samples of a stereo frame. Other channel counts are refused, and leave the buffer as
/// it was.
pub fn process_hanning_window<S: Copy, W: Copy, C, F: Fn(S, W) -> C, G: Fn(S, S, W) -> C>(
    buffer: &mut Vec<C>,
    hanning_window: &[W],
    samples: &[S],
    channels: usize,
    mono: F,
    stereo: G,
) -> (result: Result<(), UnsupportedChannels>)
    requires
        forall|s: S, w: W| #[trigger] call_requires(mono, (s, w)),
        forall|l: S, r: S, w: W| #[trigger] call_requires(stereo, (l, r, w)),
    ensures
        result is Ok <==> channels == 1 || channels == 2,
        channels == 1 ==> windowed_mono(final(buffer)@, hanning_window@, samples@, mono),
        channels == 2 ==> windowed_stereo(final(buffer)@, hanning_window@, samples@, stereo),
        channels != 1 && channels != 2 ==> result == Err::<(), UnsupportedChannels>(
            UnsupportedChannels { channels },
        ) && *final(buffer) == *old(buffer),
{
    if channels != 1 && channels != 2 {
        return Err(UnsupportedChannels { channels });
    }
    let count: usize = samples.len();
    let whole: usize = count / channels;
    let frames: usize = if whole <= hanning_window.len() {
        whole
    } else {
        hanning_window.len()
    };
    let mut windowed: Vec<C> = Vec::with_capacity(frames);
    if channels == 1 {
        for i in 0..frames
            invariant
                forall|s: S, w: W| #[trigger] call_requires(mono, (s, w)),
                frames <= samples@.len(),
                frames <= hanning_window@.len(),
                windowed@.len() == i,
                forall|k: int|
                    0 <= k < i ==> call_ensures(
                        mono,
                        (samples@[k], hanning_window@[k]),
                        #[trigger] windowed@[k],
                    ),
        {
            windowed.push(mono(samples[i], hanning_window[i]));
        }
    } else {
        for i in 0..frames
            invariant
                forall|l: S, r: S, w: W| #[trigger] call_requires(stereo, (l, r, w)),
                2 * frames <= count,
                count == samples@.len(),
                frames <= hanning_window@.len(),
                windowed@.len() == i,
                forall|k: int|
                    0 <= k < i ==> call_ensures(
                        stereo,
                        (samples@[2 * k], samples@[2 * k + 1], hanning_window@[k]),
                        #[trigger] windowed@[k],
                    ),
        {
            windowed.push(stereo(samples[2 * i], samples[2 * i + 1], hanning_window[i]));
        }
    }
    *buffer = windowed;
    Ok(())
}

/// Stereo samples with equal channels give the windowed frames of the mono samples in either
/// channel, where `mono` and `stereo` agree on such frames.
pub proof fn law_equal_channels_are_mono<S, W, C, F: Fn(S, W) -> C, G: Fn(S, S, W) -> C>(
    one: Seq<C>,
    two: Seq<C>,
    window: Seq<W>,
    channel: Seq<S>,
    samples: Seq<S>,
    mono: F,
    stereo: G,
)
    requires
        windowed_mono(one, window, channel, mono),
        windowed_stereo(two, window, samples, stereo),
        samples.len() == 2 * channel.len(),
        forall|i: int|
            0 <= i < channel.len() ==> samples[2 * i] == #[trigger] channel[i] && samples[2 * i + 1]
                == channel[i],
        forall|s: S, w: W, a: C, b: C|
            #[trigger] call_ensures(mono, (s, w), a) && #[trigger] call_ensures(
                stereo,
                (s, s, w),
                b,
            ) ==> a == b,
    ensures
        two == one,
{
    assert(two.len() == one.len());
    assert forall|i: int| 0 <= i < one.len() implies two[i] == one[i] by {
        let s = channel[i];
        assert(call_ensures(mono, (s, window[i]), one[i]));
        assert(call_ensures(stereo, (samples[2 * i], samples[2 * i + 1], window[i]), two[i]));
        assert(call_ensures(stereo, (s, s, window[i]), two[i]));
    }
    assert(two =~= one);
}

/// Exchanging the two channels changes no windowed frame, where `stereo` treats them alike.
pub proof fn law_exchanged_channels_are_alike<S, W, C, G: Fn(S, S, W) -> C>(
    buffer: Seq<C>,
    other: Seq<C>,
    window: Seq<W>,
    samples: Seq<S>,
    exchanged: Seq<S>,
    stereo: G,
)
    requires
        windowed_stereo(buffer, window, samples, stereo),
        windowed_stereo(other, window, exchanged, stereo),
        exchanged.len() == samples.len(),
        forall|i: int|
            0 <= i < samples.len() / 2 ==> #[trigger] exchanged[2 * i] == samples[2 * i + 1]
                && exchanged[2 * i + 1] == samples[2 * i],
        forall|l: S, r: S, w: W, a: C, b: C|
            #[trigger] call_ensures(stereo, (l, r, w), a) && #[trigger] call_ensures(
                stereo,
                (r, l, w),
                b,
            ) ==> a == b,
    ensures
        other == buffer,
{
    assert forall|i: int| 0 <= i < buffer.len() implies other[i] == buffer[i] by {
        let l = samples[2 * i];
        let r = samples[2 * i + 1];
        assert(exchanged[2 * i] == r);
        assert(call_ensures(stereo, (l, r, window[i]), buffer[i]));
        assert(call_ensures(stereo, (exchanged[2 * i], exchanged[2 * i + 1], window[i]), other[i]));
        assert(call_ensures(stereo, (r, l, window[i]), other[i]));
    }
    assert(other =~= buffer);
}

/// The lower half of a transform's output, each entry turned into a magnitude: for real input
/// the upper half only mirrors it.
pub fn fft_normalization<C, T, F: Fn(&C) -> T>(data: &[C], magnitude: F) -> (half: Vec<T>)
    requires
        forall|c: &C| #[trigger] call_requires(magnitude, (c,)),
    ensures
        half@.len() == data@.len() / 2,
        forall|i: int|
            0 <= i < half@.len() ==> call_ensures(magnitude, (&data@[i],), #[trigger] half@[i]),
{
    let bins: usize = data.len() / 2;
    let mut half: Vec<T> = Vec::with_capacity(bins);
    for i in 0..bins
        invariant
            forall|c: &C| #[trigger] call_requires(magnitude, (c,)),
            bins == data@.len() / 2,
            half@.len() == i,
            forall|k: int|
                0 <= k < i ==> call_ensures(magnitude, (&data@[k],), #[trigger] half@[k]),
    {
        half.push(magnitude(&data[i]));
    }
    half
}

/// The mean of the whole block is taken from every sample of it, whatever the length.
pub proof fn law_mean_is_taken_from_every_sample<S: Copy, A: Fn(&[S]) -> S, B: Fn(S, S) -> S>(
    samples: &mut Vec<S>,
    mean: A,
    minus: B,
)
    requires
        call_ensures(remove_mean::<S, A, B>, (samples, mean, minus), ()),
    ensures
        final(samples)@.len() == old(samples)@.len(),
        exists|block: &[S], average: S|
            #[trigger] call_ensures(mean, (block,), average) && block@ == old(samples)@ && forall|
                i: int,
            |
                0 <= i < block@.len() ==> call_ensures(
                    minus,
                    (block@[i], average),
                    #[trigger] final(samples)@[i],
                ),
{
    let average = choose|average: S|
        #[trigger] is_mean(mean, old(samples)@, average) && shifted(
            minus,
            old(samples)@,
            final(samples)@,
            average,
        );
    let block = choose|block: &[S]|
        block@ == old(samples)@ && #[trigger] call_ensures(mean, (block,), average);
    assert(call_ensures(mean, (block,), average));
}

/// A constant offset has no influence: where the mean moves with the samples under `offset`, and
/// the difference of two values does not change under it, a block and the same block with the
/// offset come out alike.
pub proof fn law_constant_offset_has_no_influence<S: Copy, A: Fn(&[S]) -> S, B: Fn(S, S) -> S>(
    samples: &mut Vec<S>,
    moved: &mut Vec<S>,
    offset: spec_fn(S) -> S,
    mean: A,
    minus: B,
)
    requires
        call_ensures(remove_mean::<S, A, B>, (samples, mean, minus), ()),
        call_ensures(remove_mean::<S, A, B>, (moved, mean, minus), ()),
        old(moved)@.len() == old(samples)@.len(),
        forall|i: int|
            0 <= i < old(samples)@.len() ==> #[trigger] old(moved)@[i] == offset(
                old(samples)@[i],
            ),
        forall|a: &[S], b: &[S], m: S, n: S|
            #[trigger] call_ensures(mean, (a,), m) && #[trigger] call_ensures(mean, (b,), n)
                && b@ == a@.map_values(offset) ==> n == offset(m),
        forall|s: S, m: S, r: S, t: S|
            #[trigger] call_ensures(minus, (s, m), r) && #[trigger] call_ensures(
                minus,
                (offset(s), offset(m)),
                t,
            ) ==> r == t,
    ensures
        final(moved)@ == final(samples)@,
{
    law_mean_is_taken_from_every_sample(samples, mean, minus);
    law_mean_is_taken_from_every_sample(moved, mean, minus);
    let (a, m) = choose|block: &[S], average: S|
        #[trigger] call_ensures(mean, (block,), average) && block@ == old(samples)@ && forall|
            i: int,
        |
            0 <= i < block@.len() ==> call_ensures(
                minus,
                (block@[i], average),
                #[trigger] final(samples)@[i],
            );
    let (b, n) = choose|block: &[S], average: S|
        #[trigger] call_ensures(mean, (block,), average) && block@ == old(moved)@ && forall|i: int|
            0 <= i < block@.len() ==> call_ensures(
                minus,
                (block@[i], average),
                #[trigger] final(moved)@[i],
            );
    assert(b@ =~= a@.map_values(offset));
    assert(n == offset(m));
    assert forall|i: int| 0 <= i < a@.len() implies final(moved)@[i] == final(samples)@[i] by {
        assert(call_ensures(minus, (a@[i], m), final(samples)@[i]));
        assert(old(moved)@[i] == offset(a@[i]));
        assert(call_ensures(minus, (offset(a@[i]), offset(m)), final(moved)@[i]));
    }
    assert(final(moved)@ =~= final(samples)@);
}

/// A block whose samples are all equal to its mean comes out as the difference of the mean from
/// itself, at every place.
pub proof fn law_constant_block_vanishes<S: Copy, A: Fn(&[S]) -> S, B: Fn(S, S) -> S>(
    samples: &mut Vec<S>,
    level: S,
    mean: A,
    minus: B,
)
    requires
        call_ensures(remove_mean::<S, A, B>, (samples, mean, minus), ()),
        forall|i: int| 0 <= i < old(samples)@.len() ==> #[trigger] old(samples)@[i] == level,
        forall|block: &[S], average: S|
            #[trigger] call_ensures(mean, (block,), average) && block@ == old(samples)@ ==> average
                == level,
    ensures
        final(samples)@.len() == old(samples)@.len(),
        forall|i: int|
            0 <= i < old(samples)@.len() ==> call_ensures(
                minus,
                (level, level),
                #[trigger] final(samples)@[i],
            ),
{
    law_mean_is_taken_from_every_sample(samples, mean, minus);
}

/// The transform gets as many frames as there are full ones in the samples and weights in the
/// window. Each mono frame is its sample under its own weight.
pub proof fn law_mono_frames_are_weighted_one_by_one<
    S: Copy,
    W: Copy,
    C,
    F: Fn(S, W) -> C,
    G: Fn(S, S, W) -> C,
>(
    buffer: &mut Vec<C>,
    hanning_window: &[W],
    samples: &[S],
    mono: F,
    stereo: G,
    result: Result<(), UnsupportedChannels>,
    n: nat,
)
    requires
        call_ensures(
            process_hanning_window::<S, W, C, F, G>,
            (buffer, hanning_window, samples, 1usize, mono, stereo),
            result,
        ),
    ensures
        result is Ok,
        n <= final(buffer)@.len() <==> n <= samples@.len() && n <= hanning_window@.len(),
        forall|i: int|
            0 <= i < final(buffer)@.len() ==> call_ensures(
                mono,
                (samples@[i], hanning_window@[i]),
                #[trigger] final(buffer)@[i],
            ),
{
}

/// The transform gets as many frames as there are full ones in the samples and weights in the
/// window. Each stereo frame is its two samples, left and right, under its own weight.
pub proof fn law_stereo_frames_are_weighted_one_by_one<
    S: Copy,
    W: Copy,
    C,
    F: Fn(S, W) -> C,
    G: Fn(S, S, W) -> C,
>(
    buffer: &mut Vec<C>,
    hanning_window: &[W],
    samples: &[S],
    mono: F,
    stereo: G,
    result: Result<(), UnsupportedChannels>,
    n: nat,
)
    requires
        call_ensures(
            process_hanning_window::<S, W, C, F, G>,
            (buffer, hanning_window, samples, 2usize, mono, stereo),
            result,
        ),
    ensures
        result is Ok,
        n <= final(buffer)@.len() <==> 2 * n <= samples@.len() && n <= hanning_window@.len(),
        forall|i: int|
            0 <= i < final(buffer)@.len() ==> call_ensures(
                stereo,
                (samples@[i + i], samples@[i + i + 1], hanning_window@[i]),
                #[trigger] final(buffer)@[i],
            ),
{
    assert forall|i: int| 0 <= i < final(buffer)@.len() implies call_ensures(
        stereo,
        (samples@[i + i], samples@[i + i + 1], hanning_window@[i]),
        #[trigger] final(buffer)@[i],
    ) by {
        assert(2 * i == i + i);
    }
}

/// Any other number of channels is refused with that number, and the buffer is left alone.
pub proof fn law_other_channels_are_refused<
    S: Copy,
    W: Copy,
    C,
    F: Fn(S, W) -> C,
    G: Fn(S, S, W) -> C,
>(
    buffer: &mut Vec<C>,
    hanning_window: &[W],
    samples: &[S],
    channels: usize,
    mono: F,
    stereo: G,
    result: Result<(), UnsupportedChannels>,
)
    requires
        call_ensures(
            process_hanning_window::<S, W, C, F, G>,
            (buffer, hanning_window, samples, channels, mono, stereo),
            result,
        ),
        channels == 0 || channels > 2,
    ensures
        result matches Err(refusal) && refusal.channels == channels,
        final(buffer)@ == old(buffer)@,
{
}

/// The number that a string of decimal digits stands for.
pub open spec fn digits_value(digits: Seq<char>) -> int
    decreases digits.len(),
{
    if digits.len() == 0 {
        0
    } else {
        10 * digits_value(digits.drop_last()) + (digits.last() as int - '0' as int)
    }
}

/// The decimal notation of a number has digits only, stands for the number, and begins with a
/// zero for the number 0 alone.
pub proof fn law_decimal_stands_for_its_number(n: nat)
    ensures
        digits_value(decimal(n)) == n,
        decimal(n).len() > 0,
        forall|i: int| 0 <= i < decimal(n).len() ==> '0' <= #[trigger] decimal(n)[i] <= '9',
        decimal(n)[0] == '0' ==> n == 0,
        n < 10 ==> decimal(n).len() == 1,
    decreases n,
{
    reveal_with_fuel(digits_value, 2);
    if n < 10 {
        assert(decimal(n).drop_last() =~= Seq::<char>::empty());
    } else {
        law_decimal_stands_for_its_number(n / 10);
        assert(decimal(n).drop_last() =~= decimal(n / 10));
    }
}

/// The message of a refusal names the number of channels.
pub proof fn law_message_names_the_channels(refusal: &UnsupportedChannels, text: String)
    requires
        call_ensures(UnsupportedChannels::message, (refusal,), text),
    ensures
        exists|digits: Seq<char>|
            text@ == "unsupported channel count: "@ + digits + ", only 1 or 2 are supported!!!!"@
                && #[trigger] digits_value(digits) == refusal.channels && digits.len() > 0
                && forall|i: int| 0 <= i < digits.len() ==> '0' <= #[trigger] digits[i] <= '9',
{
    law_decimal_stands_for_its_number(refusal.channels as nat);
}

/// The spectrum has one magnitude for each entry in the lower half of the transform's output, and
/// the upper half has no influence.
pub proof fn law_spectrum_is_the_lower_half<C, T, F: Fn(&C) -> T>(
    data: &[C],
    magnitude: F,
    half: Vec<T>,
    n: nat,
)
    requires
        call_ensures(fft_normalization::<C, T, F>, (data, magnitude), half),
    ensures
        n <= half@.len() <==> 2 * n <= data@.len(),
        forall|i: int|
            0 <= i && 2 * i + 1 < data@.len() ==> call_ensures(
                magnitude,
                (&data@[i],),
                #[trigger] half@[i],
            ),
{
}

} // verus!
