use resampler::kernel::{kernel_value, lerp, Kernel, Window};
use resampler::laws::max_outputs;
use resampler::resampler::Resampler;
use resampler::trig::sin_pi;

const SC: i64 = 65536;

fn ramp(from: i64, to: i64) -> Vec<i64> {
    let mut v = Vec::new();
    let mut i = from;
    while i < to {
        v.push(i * SC);
        i += 1;
    }
    v
}

#[test]
fn sinc_golden_two_chunks() {
    // Sinc kernel, eight taps, input 1..=16 (scaled), 1 Hz -> 2 Hz,
    // output buffer of 32: golden table of the fixed-point pipeline.
    let mut rs = Resampler::new(Kernel::Sinc { taps: 8 });
    let input = ramp(1, 17);
    let mut out = vec![0i64; 32];
    rs.process(&input, &mut out, 1, 2);
    let golden1: Vec<i64> = vec![
        0, -4478, 0, 28588, 65536, 101768, 131072, 165330, 196608, 231462, 262144, 297366,
        327680, 363448, 393216, 429530, 458752, 495612, 524288, 561694, 589824, 627776, 655360,
        693858, 720896, 759940, 786432, 826022, 851968, 892104, 0, 0,
    ];
    assert_eq!(out, golden1);
    // whole-number positions reproduce the ramp exactly: slot 6 is 2.0
    assert_eq!(out[6], 2 * SC);
    assert_eq!(out[4], SC);

    // a second call continuing from carried history
    let input2 = ramp(17, 25);
    let mut out2 = vec![0i64; 16];
    rs.process(&input2, &mut out2, 1, 2);
    let golden2: Vec<i64> = vec![
        983040, 1024268, 1048576, 1090350, 1114112, 1156432, 1179648, 1222514, 1245184,
        1288596, 1310720, 1354678, 1376256, 1420760, 0, 0,
    ];
    assert_eq!(out2, golden2);
    // seamless continuation: the second call opens on the first chunk's tail
    assert_eq!(out2[0], 15 * SC);
}

#[test]
fn continuity_two_chunks_match_single() {
    // chunked processing equals one-shot processing on the overlap
    let mut chunked = Resampler::new(Kernel::Sinc { taps: 8 });
    let mut out_a = vec![0i64; 32];
    chunked.process(&ramp(1, 17), &mut out_a, 1, 2);
    let mut out_b = vec![0i64; 16];
    chunked.process(&ramp(17, 25), &mut out_b, 1, 2);

    let mut single = Resampler::new(Kernel::Sinc { taps: 8 });
    let mut out_s = vec![0i64; 46];
    single.process(&ramp(1, 25), &mut out_s, 1, 2);

    // first chunk spans 16 inputs = 32 outputs at this ratio
    for i in 0..30 {
        assert_eq!(out_a[i], out_s[i]);
    }
    for i in 0..14 {
        assert_eq!(out_b[i], out_s[i + 32]);
    }
}

#[test]
fn rate_identity_linear() {
    let input: Vec<i64> = vec![3000, 1000, 4000, 1000, 5000, 9000, 2000, 6000];
    let mut rs = Resampler::new(Kernel::Linear);
    let mut out = vec![0i64; 6];
    rs.process(&input, &mut out, 100, 100);
    for i in 0..6 {
        assert_eq!(out[i], input[i + 1]);
    }
}

#[test]
fn upsample_produces_more() {
    // 8 inputs at ratio 2 reach 14 output slots: more than the input length
    let sentinel = -999_999_999i64;
    let mut rs = Resampler::new(Kernel::Linear);
    let mut out = vec![sentinel; 20];
    rs.process(&ramp(1, 9), &mut out, 1, 2);
    let written = out.iter().filter(|v| **v != sentinel).count();
    assert_eq!(written, 14);
    assert_eq!(max_outputs(8, 1, 2), 14);
    assert!(written > 8);
}

#[test]
fn downsample_produces_fewer() {
    let sentinel = -999_999_999i64;
    let mut rs = Resampler::new(Kernel::Linear);
    let mut out = vec![sentinel; 20];
    rs.process(&ramp(1, 9), &mut out, 2, 1);
    let written = out.iter().filter(|v| **v != sentinel).count();
    assert_eq!(written, 2);
    assert_eq!(max_outputs(8, 2, 1), 2);
    assert!(written < 8);
}

#[test]
fn unreached_slots_left_untouched() {
    let sentinel = 123_456_789i64;
    let mut rs = Resampler::new(Kernel::Linear);
    let mut out = vec![sentinel; 8];
    rs.process(&vec![1000, 2000], &mut out, 1, 1);
    // two inputs at identical rates reach no written slot beyond index -1..0
    assert_eq!(out[1], sentinel);
    assert_eq!(out[7], sentinel);
}

#[test]
fn lerp_midpoint() {
    assert_eq!(lerp(0, 1000, 1, 2), 500);
    assert_eq!(lerp(1000, 0, 1, 2), 500);
    assert_eq!(lerp(-400, 400, 1, 4), -200);
    assert_eq!(lerp(700, 700, 3, 7), 700);
}

#[test]
fn window_keeps_its_size() {
    let hist: Vec<i64> = vec![10, 20, 30];
    let mut w = Window::seed(&hist);
    assert_eq!(w.len(), 4);
    assert_eq!(w.get(0), 0);
    assert_eq!(w.get(3), 30);
    w.push_sample(40);
    assert_eq!(w.len(), 4);
    assert_eq!(w.get(0), 10);
    assert_eq!(w.get(3), 40);
}

#[test]
fn kernel_value_at_zero_fraction() {
    let hist: Vec<i64> = vec![250];
    let w = Window::seed(&hist); // [0, 250]
    let k = Kernel::Linear;
    assert_eq!(kernel_value(&k, &w, 0, 2), 0);
    assert_eq!(kernel_value(&k, &w, 1, 2), 125);
}

#[test]
fn sine_fixed_point_values() {
    assert_eq!(sin_pi(50, 100), 32768);
    assert_eq!(sin_pi(25, 100), 23130);
    assert_eq!(sin_pi(150, 100), -32768);
    assert_eq!(sin_pi(0, 100), 0);
    assert_eq!(sin_pi(200, 100), 0);
}

#[test]
fn default_kernel_is_eight_tap_sinc() {
    let k = Kernel::default();
    assert_eq!(k, Kernel::Sinc { taps: 8 });
    let rs = Resampler::new(k);
    assert_eq!(rs.history_len(), 7);
    assert_eq!(rs.kernel(), Kernel::Sinc { taps: 8 });
}
