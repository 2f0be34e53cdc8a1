use my_cava::color::{blank, Color};
use my_cava::column::GradientAt;
use my_cava::math::BarMath;
use my_cava::motion::{neighbour_filter, NeighbourFilter};
use my_cava::renderer::SpectrumRenderer;

const NOISE_REDUCTION: f32 = 0.77;
const FRAMERATE: f32 = 60.0;

/// The formulas of the display in single precision, with a switch for the neighbour filter.
struct Floats {
    monstercat: f32,
}

impl BarMath<f32> for Floats {
    fn level(&self, band: &[f32]) -> f32 {
        let sum: f32 = band.iter().sum();
        let db = 20.0 * sum.max(1e-12).log10();
        ((db + 60.0) / 60.0).clamp(0.0, 1.0).powf(1.5)
    }
    fn silent(&self, values: &[f32]) -> bool {
        let mut frame_max = 0.0f32;
        for v in values {
            frame_max = frame_max.max(*v);
        }
        frame_max < 1e-6
    }
    fn intensity(&self, intensity: f32, values: &[f32]) -> f32 {
        let target = values.iter().sum::<f32>() / values.len() as f32;
        intensity + (target - intensity) * 0.08
    }
    fn hue_phase(&self, phase: f32, intensity: f32) -> f32 {
        (phase + (7.0 + intensity * 9.0)).rem_euclid(360.0)
    }
    fn amplify(&self, value: f32, sensitivity: f32) -> f32 {
        value * sensitivity
    }
    fn falling(&self, value: f32, previous: f32) -> bool {
        value < previous && NOISE_REDUCTION > 0.1
    }
    fn fall_off(&self, peak: f32, fall: f32) -> f32 {
        let framerate_mod = 66.0 / FRAMERATE;
        let gravity_mod = framerate_mod.powf(2.5) * 2.0 / NOISE_REDUCTION;
        let v = peak * (1.0 - fall * fall * gravity_mod);
        if v < 0.0 {
            0.0
        } else {
            v
        }
    }
    fn next_fall(&self, fall: f32) -> f32 {
        fall + 0.028
    }
    fn no_fall(&self) -> f32 {
        0.0
    }
    fn integrate(&self, memory: f32, value: f32) -> f32 {
        memory * NOISE_REDUCTION / (66.0 / FRAMERATE).powf(0.1) + value
    }
    fn spring(&self, value: f32, position: f32, velocity: f32) -> (f32, f32) {
        let velocity = (velocity + 0.16 * (value * 1.2 - position)) * 0.70;
        (position + velocity, velocity)
    }
    fn overshoots(&self, position: f32) -> bool {
        position > 1.0
    }
    fn shrink(&self, sensitivity: f32) -> f32 {
        sensitivity * (1.0 - 0.02 * (66.0 / FRAMERATE))
    }
    fn grow(&self, sensitivity: f32) -> f32 {
        sensitivity * (1.0 + 0.001 * (66.0 / FRAMERATE) * 1.0)
    }
    fn monstercat(&self) -> bool {
        self.monstercat > 0.0
    }
    fn monstercat_spread(&self, value: f32, distance: usize) -> f32 {
        value / (self.monstercat * 1.5).powf(distance as f32)
    }
    fn waves_base(&self, value: f32) -> f32 {
        value / 1.25
    }
    fn waves_spread(&self, value: f32, distance: usize, height: u16) -> f32 {
        let eighth = (height as f32 * 8.0).max(1.0);
        let de = distance as f32;
        value - de * de / eighth
    }
    fn exceeds(&self, a: f32, b: f32) -> bool {
        a > b
    }
    fn bar_height(&self, position: f32, max_height: u16) -> f32 {
        position.clamp(0.0, 1.0) * max_height as f32
    }
    fn bar_top(&self, bar_height: f32) -> f32 {
        bar_height * 8.0
    }
    fn cap_fall(&self, cap: f32, bar_top: f32) -> f32 {
        (cap - 1.0).max(bar_top)
    }
}

fn display(width: u16, height: u16) -> SpectrumRenderer<f32> {
    let bins: Vec<usize> = (0..width as usize + 1).map(|s| 2 * s).collect();
    SpectrumRenderer::new(width, height, 48000, &bins, 0.0, 1.0)
}

#[test]
fn display_starts_at_rest() {
    let r = display(4, 3);
    assert_eq!((r.width, r.height), (4, 3));
    assert_eq!(r.frame_buffer.len(), 12);
    assert_eq!(r.bar_ranges, vec![(0, 2), (2, 4), (4, 6), (6, 8)]);
    assert_eq!(r.cap_active, vec![false; 4]);
    assert_eq!(r.cap_heights, vec![0.0; 4]);
    assert_eq!(r.bar_values, vec![0.0; 4]);
    assert_eq!(r.sensitivity, 1.0);
    assert_eq!((r.intensity, r.hue_phase), (0.0, 0.0));
    assert_eq!(r.max_height(), 2);
}

#[test]
fn display_has_no_more_bars_than_bins() {
    let bins: Vec<usize> = (0..400).collect();
    let r: SpectrumRenderer<f32> = SpectrumRenderer::new(350, 2, 48000, &bins, 0.0, 1.0);
    assert_eq!(r.bar_ranges.len(), 277);
    assert_eq!(r.frame_buffer.len(), 700);
    let none: SpectrumRenderer<f32> = SpectrumRenderer::new(0, 9, 48000, &[], 0.0, 1.0);
    assert_eq!(none.bar_ranges.len(), 0);
}

#[test]
fn bands_are_held_against_the_spectrum() {
    let r = display(4, 3);
    assert!(r.fits(8));
    assert!(r.fits(512));
    assert!(!r.fits(7));
    let narrow: SpectrumRenderer<f32> = SpectrumRenderer::new(1, 1, 13312000, &[5, 9], 0.0, 1.0);
    assert_eq!(narrow.bar_ranges, vec![(0, 1)]);
    assert!(narrow.fits(1));
    assert!(!narrow.fits(0));
}

#[test]
fn half_spectrum_holds_the_bands_from_twice_the_cutoff() {
    let bins: Vec<usize> = (0..600).map(|s| 3 * s).collect();
    let lowest: SpectrumRenderer<f32> = SpectrumRenderer::new(599, 1, 26000, &bins, 0.0, 1.0);
    assert_eq!(lowest.bar_ranges.len(), 512);
    assert_eq!(lowest.bar_ranges[511], (511, 512));
    assert!(lowest.fits(512));
    let below: SpectrumRenderer<f32> = SpectrumRenderer::new(599, 1, 25900, &bins, 0.0, 1.0);
    assert!(!below.fits(512));
}

/// The values of one bar, moved on without the library.
#[derive(Clone, Copy, Default)]
struct PlainBar {
    value: f32,
    fall: f32,
    mem: f32,
    peak: f32,
    prev: f32,
    pos: f32,
    vel: f32,
    cap: f32,
    active: bool,
}

#[test]
fn frames_follow_the_formulas() {
    let math = Floats { monstercat: 0.0 };
    let bars = 5usize;
    let mut r = display(bars as u16, 10);
    let mut plain = vec![PlainBar::default(); bars];
    let mut sensitivity = 1.0f32;
    let mut intensity = 0.0f32;
    let mut hue_phase = 0.0f32;
    let mut shrunk = 0;
    let mut grown = 0;
    let mut held = 0;
    for frame in 0..400usize {
        let quiet = frame % 100 > 80;
        let data: Vec<f32> = (0..2 * bars)
            .map(|i| if quiet { 0.0 } else { ((frame * 7 + i * 13) % 29) as f32 / 40.0 })
            .collect();
        r.advance_frame(&data, &math);

        let mut frame_max = 0.0f32;
        for x in 0..bars {
            let sum: f32 = data[2 * x..2 * x + 2].iter().sum();
            let db = 20.0 * sum.max(1e-12).log10();
            let v = ((db - -60.0) / 60.0).clamp(0.0, 1.0).powf(1.5);
            plain[x].value = v;
            frame_max = frame_max.max(v);
        }
        let silence = frame_max < 1e-6;
        let target = plain.iter().map(|b| b.value).sum::<f32>() / bars as f32;
        intensity += (target - intensity) * 0.08;
        hue_phase = (hue_phase + (7.0 + intensity * 9.0)).rem_euclid(360.0);
        let framerate_mod = 66.0f32 / 60.0;
        let gravity_mod = framerate_mod.powf(2.5) * 2.0 / 0.77;
        let integral_mod = framerate_mod.powf(0.1);
        for b in plain.iter_mut() {
            let mut v = b.value * sensitivity;
            if v < b.prev {
                v = b.peak * (1.0 - b.fall * b.fall * gravity_mod);
                if v < 0.0 {
                    v = 0.0;
                }
                b.fall += 0.028;
            } else {
                b.peak = v;
                b.fall = 0.0;
            }
            b.prev = v;
            v = b.mem * 0.77 / integral_mod + v;
            b.mem = v;
            b.value = v;
        }
        let mut overshoot = false;
        for b in plain.iter_mut() {
            b.vel = (b.vel + 0.16 * (b.value * 1.2 - b.pos)) * 0.70;
            b.pos += b.vel;
            if b.pos > 1.0 {
                overshoot = true;
            }
        }
        if overshoot {
            sensitivity *= 1.0 - 0.02 * framerate_mod;
            shrunk += 1;
        } else if !silence {
            sensitivity *= 1.0 + 0.001 * framerate_mod * 1.0;
            grown += 1;
        } else {
            held += 1;
        }

        assert_eq!(r.sensitivity, sensitivity);
        assert_eq!(r.intensity, intensity);
        assert_eq!(r.hue_phase, hue_phase);
        for x in 0..bars {
            assert_eq!(r.bar_values[x], plain[x].value);
            assert_eq!(r.bar_fall[x], plain[x].fall);
            assert_eq!(r.bar_mem[x], plain[x].mem);
            assert_eq!(r.bar_peak[x], plain[x].peak);
            assert_eq!(r.prev_bar[x], plain[x].prev);
            assert_eq!(r.spring_pos[x], plain[x].pos);
            assert_eq!(r.spring_vel[x], plain[x].vel);

            let rows = r.max_height();
            let (bar_height, cap) = r.update_heights(x, rows, &math);
            let expected = plain[x].pos.clamp(0.0, 1.0) * 9.0;
            let top = expected * 8.0;
            if top > plain[x].cap {
                plain[x].active = true;
                plain[x].cap = top;
            } else {
                plain[x].cap = (plain[x].cap - 1.0).max(top);
            }
            assert_eq!(bar_height, expected);
            assert_eq!(cap, plain[x].cap);
            assert_eq!(r.cap_heights[x], plain[x].cap);
            assert_eq!(r.cap_active[x], plain[x].active);
        }
    }
    // All three ways of adjusting the gain were taken.
    assert!(shrunk > 0 && grown > 0 && held > 0);
}

#[test]
fn display_without_bars_ignores_frames() {
    let mut r: SpectrumRenderer<f32> = SpectrumRenderer::new(0, 0, 48000, &[], 0.0, 1.0);
    r.advance_frame(&[1.0, 2.0], &Floats { monstercat: 0.0 });
    assert_eq!((r.sensitivity, r.intensity, r.hue_phase), (1.0, 0.0, 0.0));
}

#[test]
fn cap_rises_with_the_bar_and_falls_behind_it() {
    let math = Floats { monstercat: 0.0 };
    let mut r = display(2, 11);
    // A silent bar does not activate its cap.
    assert_eq!(r.update_heights(0, 10, &math), (0.0, 0.0));
    assert_eq!(r.cap_active, vec![false, false]);
    r.spring_pos[0] = 0.5;
    assert_eq!(r.update_heights(0, 10, &math), (5.0, 40.0));
    assert_eq!(r.cap_active, vec![true, false]);
    r.spring_pos[0] = -0.2;
    assert_eq!(r.update_heights(0, 10, &math), (0.0, 39.0));
    assert_eq!(r.update_heights(0, 10, &math), (0.0, 38.0));
    r.spring_pos[0] = 0.47;
    assert_eq!(r.update_heights(0, 10, &math).1, 0.47f32 * 10.0 * 8.0);
    // An overshooting spring shows as a full bar, and the cap stays activated.
    r.spring_pos[0] = 1.7;
    assert_eq!(r.update_heights(0, 10, &math), (10.0, 80.0));
    r.spring_pos[0] = 0.0;
    for _ in 0..100 {
        r.update_heights(0, 10, &math);
    }
    assert_eq!(r.cap_heights, vec![0.0, 0.0]);
    assert_eq!(r.cap_active, vec![true, false]);
}

#[test]
fn gain_follows_silence_and_overshoot() {
    let math = Floats { monstercat: 0.0 };
    let mut r = display(1, 1);
    r.update_autosens(true, false, &math);
    assert_eq!(r.sensitivity, 1.0);
    r.update_autosens(false, false, &math);
    assert!(r.sensitivity > 1.0);
    r.sensitivity = 1.0;
    r.update_autosens(false, true, &math);
    assert!(r.sensitivity < 1.0);
    r.sensitivity = 1.0;
    r.update_autosens(true, true, &math);
    assert!(r.sensitivity < 1.0);
}

#[test]
fn filter_choice() {
    assert_eq!(neighbour_filter(0, false), NeighbourFilter::Off);
    assert_eq!(neighbour_filter(0, true), NeighbourFilter::Monstercat);
    assert_eq!(neighbour_filter(1, false), NeighbourFilter::Waves);
    assert_eq!(neighbour_filter(1, true), NeighbourFilter::Waves);
}

fn with_values(values: &[f32]) -> SpectrumRenderer<f32> {
    let mut r = display(values.len() as u16, 5);
    r.bar_values = values.to_vec();
    r
}

#[test]
fn filter_is_off_by_default() {
    let mut r = with_values(&[0.1, 0.9, 0.2]);
    r.apply_monstercat_filter(&Floats { monstercat: 0.0 });
    assert_eq!(r.bar_values, vec![0.1, 0.9, 0.2]);
}

#[test]
fn monstercat_lifts_both_sides() {
    let mut r = with_values(&[0.0, 0.0, 8.0, 0.0, 3.0, 0.0]);
    // A factor of 1.5 * 4/3 = 2 for each step.
    r.spread(NeighbourFilter::Monstercat, 2, &Floats { monstercat: 4.0 / 3.0 });
    assert_eq!(r.bar_values, vec![2.0, 4.0, 8.0, 4.0, 3.0, 1.0]);
}

#[test]
fn monstercat_matches_the_plain_loops() {
    let math = Floats { monstercat: 1.1 };
    let values = [0.3f32, 0.9, 0.1, 0.05, 0.7, 0.2, 0.0];
    let mut r = with_values(&values);
    r.apply_monstercat_filter(&math);
    let mut plain = values.to_vec();
    let bars = plain.len();
    for z in 0..bars {
        let base = plain[z];
        for my in (0..z).rev() {
            let v = base / (1.1f32 * 1.5).powf((z - my) as f32);
            if v > plain[my] {
                plain[my] = v;
            }
        }
        for my in z + 1..bars {
            let v = base / (1.1f32 * 1.5).powf((my - z) as f32);
            if v > plain[my] {
                plain[my] = v;
            }
        }
    }
    assert_eq!(r.bar_values, plain);
    assert_ne!(r.bar_values, values.to_vec());
}

#[test]
fn waves_match_the_plain_loops() {
    let math = Floats { monstercat: 0.0 };
    let values = [0.3f32, 0.9, 0.1, 0.05, 0.7, 0.2, 0.0];
    let mut r = with_values(&values);
    r.spread_all(NeighbourFilter::Waves, &math);
    let mut plain = values.to_vec();
    let bars = plain.len();
    let eighth = 40.0f32;
    for z in 0..bars {
        plain[z] /= 1.25;
        let base = plain[z];
        for my in (0..z).rev() {
            let de = (z - my) as f32;
            let v = base - de * de / eighth;
            if v > plain[my] {
                plain[my] = v;
            }
        }
        for my in z + 1..bars {
            let de = (my - z) as f32;
            let v = base - de * de / eighth;
            if v > plain[my] {
                plain[my] = v;
            }
        }
    }
    assert_eq!(r.bar_values, plain);
}

#[test]
fn springs_report_an_overshoot() {
    let math = Floats { monstercat: 0.0 };
    let mut r = with_values(&[0.0, 9.0, 0.0]);
    assert!(r.step_springs(&math));
    assert!(r.spring_pos[1] > 1.0);
    assert_eq!((r.spring_pos[0], r.spring_pos[2]), (0.0, 0.0));
    let mut calm = with_values(&[0.0, 0.5, 0.0]);
    assert!(!calm.step_springs(&math));
    assert_eq!(calm.step_spring(2, &math), 0.0);
}

#[test]
fn frames_leave_the_screen_alone() {
    let math = Floats { monstercat: 1.0 };
    let mut r = display(3, 4);
    r.spring_pos[1] = 0.5;
    r.update_heights(1, 3, &math);
    let (frame, ranges, caps, active) =
        (r.frame_buffer.clone(), r.bar_ranges.clone(), r.cap_heights.clone(), r.cap_active.clone());
    r.advance_frame(&[0.5; 6], &math);
    assert_eq!((r.width, r.height), (3, 4));
    assert_eq!(r.frame_buffer, frame);
    assert_eq!(r.bar_ranges, ranges);
    assert_eq!(r.cap_heights, caps);
    assert_eq!(r.cap_active, active);
    assert!(r.bar_values[0] > 0.0);
}

fn tint(bar_height: f32, hue_phase: f32, at: GradientAt) -> Color {
    match at {
        GradientAt::Peak => Color::Rgb { r: 255, g: hue_phase as u8, b: 0 },
        GradientAt::Eighths(e) => Color::Rgb { r: e as u8, g: hue_phase as u8, b: bar_height as u8 },
    }
}

fn whole(height: f32) -> usize {
    height as usize
}

#[test]
fn drawing_pass_draws_bar_by_bar() {
    let math = Floats { monstercat: 0.0 };
    let mut frame_wise = display(6, 9);
    let mut bar_wise = display(6, 9);
    let mut sent = 0;
    for frame in 0..60usize {
        let data: Vec<f32> = (0..12).map(|i| ((frame * 5 + i * 11) % 23) as f32 / 60.0).collect();
        frame_wise.advance_frame(&data, &math);
        bar_wise.advance_frame(&data, &math);
        let columns = frame_wise.draw_frame(8, &math, whole, tint);
        assert_eq!(columns.len(), 6);
        let hue_phase = bar_wise.hue_phase;
        for x in 0..6 {
            let (bar_height, cap) = bar_wise.update_heights(x, 8, &math);
            let gradient = |at: GradientAt| tint(bar_height, hue_phase, at);
            let commands = bar_wise.draw_bar(x, (bar_height * 8.0) as usize, cap as usize, gradient);
            assert_eq!(columns[x], commands);
            for command in commands {
                bar_wise.commit(&command);
                sent += 1;
            }
        }
        for command in columns.iter().flatten() {
            frame_wise.commit(command);
        }
        assert_eq!(frame_wise.frame_buffer, bar_wise.frame_buffer);
        assert_eq!(frame_wise.cap_heights, bar_wise.cap_heights);
        assert_eq!(frame_wise.cap_active, bar_wise.cap_active);
    }
    assert!(sent > 0);
}

#[test]
fn drawing_pass_moves_the_cap_before_it_draws() {
    let math = Floats { monstercat: 0.0 };
    let mut r = display(2, 4);
    r.spring_pos[1] = 0.5;
    // The bar is 12 eighths high and takes its cap along, which covers eighths 12 to 20.
    let columns = r.draw_frame(3, &math, whole, tint);
    assert_eq!(r.cap_heights, vec![0.0, 12.0]);
    assert_eq!(r.cap_active, vec![false, true]);
    assert_eq!(columns[0], vec![]);
    let peak = Color::Rgb { r: 255, g: 0, b: 0 };
    let cells: Vec<(u16, u16, char, Color)> =
        columns[1].iter().map(|c| (c.col, c.row, c.cell.ch, c.cell.fg)).collect();
    assert_eq!(
        cells,
        vec![
            (1, 1, '▄', peak),
            (1, 2, '▀', peak),
            (1, 3, '▀', Color::Rgb { r: 6, g: 0, b: 1 }),
        ]
    );
}

#[test]
fn shown_frame_is_sent_once() {
    let math = Floats { monstercat: 0.0 };
    let mut r = display(3, 5);
    r.spring_pos = vec![0.3, 1.0, 0.6];
    let columns = r.draw_frame(4, &math, whole, tint);
    assert!(columns.iter().all(|commands| !commands.is_empty()));
    for command in columns.iter().flatten() {
        r.commit(command);
    }
    // Caps that rest on their bars stay there, so the same frame needs nothing.
    assert_eq!(r.draw_frame(4, &math, whole, tint), vec![vec![]; 3]);
}

#[test]
fn silence_draws_nothing() {
    for monstercat in [0.0f32, 1.0] {
        let math = Floats { monstercat };
        let mut r = display(5, 6);
        for frame in 1..200usize {
            r.advance_frame(&[0.0; 512], &math);
            assert_eq!(r.draw_frame(5, &math, whole, tint), vec![vec![]; 5]);
            assert_eq!(r.cap_active, vec![false; 5]);
            assert_eq!(r.spring_pos, vec![0.0; 5]);
            assert_eq!((r.sensitivity, r.intensity), (1.0, 0.0));
            assert_eq!(r.hue_phase, ((7 * frame) % 360) as f32);
        }
        assert!(r.frame_buffer.iter().all(|cell| *cell == blank()));
    }
}
