use stackblur::{blur, blur_partitioned, unoptimized_blur, unoptimized_blur_2, Channels};

/// A small deterministic byte generator, so the tests are repeatable.
fn bytes(n: usize, seed: u64) -> Vec<u8> {
    let mut state = seed.wrapping_mul(6364136223846793005).wrapping_add(1442695040888963407);
    let mut out = Vec::with_capacity(n);
    for _ in 0..n {
        state = state.wrapping_mul(6364136223846793005).wrapping_add(1442695040888963407);
        out.push((state >> 33) as u8);
    }
    out
}

#[test]
fn shape_is_preserved() {
    for &(w, h) in &[(1usize, 1usize), (3, 2), (7, 5), (16, 1), (1, 9)] {
        for &r in &[0usize, 1, 3] {
            let rgb = bytes(w * h * 3, 7);
            assert_eq!(blur(&rgb, w, h, Channels::RGB, r).len(), rgb.len());
            let rgba = bytes(w * h * 4, 8);
            assert_eq!(blur(&rgba, w, h, Channels::RGBA, r).len(), rgba.len());
            assert_eq!(unoptimized_blur(&rgb, w, h, 3, r as u8).len(), rgb.len());
            assert_eq!(unoptimized_blur_2(&rgba, w, h, 4, r as u8).len(), rgba.len());
            assert_eq!(blur_partitioned(&rgb, w, h, Channels::RGB, r, 2).len(), rgb.len());
        }
    }
}

#[test]
fn radius_zero_is_identity() {
    let data = bytes(6 * 4 * 3, 11);
    assert_eq!(blur(&data, 6, 4, Channels::RGB, 0), data);
    let data = bytes(5 * 3 * 4, 12);
    assert_eq!(blur(&data, 5, 3, Channels::RGBA, 0), data);
    let data = bytes(9 * 2 * 1, 13);
    assert_eq!(unoptimized_blur(&data, 9, 2, 1, 0), data);
    assert_eq!(unoptimized_blur_2(&data, 9, 2, 1, 0), data);
}

#[test]
fn single_pixel_is_unchanged() {
    let px = vec![10u8, 200, 30];
    for &r in &[0usize, 1, 2, 17, 255] {
        assert_eq!(blur(&px, 1, 1, Channels::RGB, r), px);
    }
    let px = vec![1u8, 2, 3, 4];
    for &r in &[0usize, 5, 255] {
        assert_eq!(blur(&px, 1, 1, Channels::RGBA, r), px);
        assert_eq!(unoptimized_blur(&px, 1, 1, 4, r as u8), px);
    }
}

#[test]
fn step_edge_blurs_to_monotone_ramp() {
    // A single row, single channel: 8 dark samples then 8 bright ones.
    let w = 16usize;
    let split = 8usize;
    let mut row = vec![0u8; w];
    for x in split..w {
        row[x] = 255;
    }
    let r = 3usize;
    let out = unoptimized_blur(&row, w, 1, 1, r as u8);
    assert_eq!(out.len(), w);
    for x in 1..w {
        assert!(out[x - 1] <= out[x], "not monotone at {}", x);
    }
    for x in 0..w {
        if x + r < split {
            assert_eq!(out[x], 0, "left plateau broken at {}", x);
        }
        if x >= split + r {
            assert_eq!(out[x], 255, "right plateau broken at {}", x);
        }
    }
    // The ramp really moves inside the band around the step.
    assert!(out[split - 1] > 0 && out[split - 1] < 255);
    assert!(out[split] > 0 && out[split] < 255);
}

#[test]
fn sliding_window_matches_direct_convolution() {
    // The primary correctness oracle: the O(1)-per-pixel engine against
    // the brute-force convolution, pixel for pixel.
    for &(w, h, c) in &[(10usize, 10usize, 3usize), (10, 10, 4), (5, 7, 1), (4, 4, 2)] {
        let data = bytes(w * h * c, (w * 31 + h * 7 + c) as u64);
        for r in 0..=5u8 {
            let direct = unoptimized_blur(&data, w, h, c, r);
            let direct2 = unoptimized_blur_2(&data, w, h, c, r);
            assert_eq!(direct, direct2);
            if c == 3 {
                let fast = blur(&data, w, h, Channels::RGB, r as usize);
                assert_eq!(fast, direct, "w={} h={} r={}", w, h, r);
            }
            if c == 4 {
                let fast = blur(&data, w, h, Channels::RGBA, r as usize);
                assert_eq!(fast, direct, "w={} h={} r={}", w, h, r);
            }
        }
    }
}

#[test]
fn large_radius_on_small_image() {
    let data = bytes(2 * 2 * 3, 99);
    for &r in &[254u8, 255] {
        let fast = blur(&data, 2, 2, Channels::RGB, r as usize);
        let direct = unoptimized_blur(&data, 2, 2, 3, r);
        assert_eq!(fast, direct);
    }
    let column = bytes(1 * 5 * 4, 100);
    let fast = blur(&column, 1, 5, Channels::RGBA, 200);
    let direct = unoptimized_blur(&column, 1, 5, 4, 200);
    assert_eq!(fast, direct);
}

#[test]
fn partitioned_matches_sequential() {
    let (w, h) = (9usize, 6usize);
    let data = bytes(w * h * 3, 21);
    for &r in &[0usize, 1, 4] {
        let seq = blur(&data, w, h, Channels::RGB, r);
        for &parts in &[1usize, 2, 3, 7, 64] {
            let par = blur_partitioned(&data, w, h, Channels::RGB, r, parts);
            assert_eq!(par, seq, "parts={} r={}", parts, r);
        }
    }
    let data = bytes(w * h * 4, 22);
    let seq = blur(&data, w, h, Channels::RGBA, 2);
    let par = blur_partitioned(&data, w, h, Channels::RGBA, 2, 4);
    assert_eq!(par, seq);
}

#[test]
fn channels_do_not_mix() {
    let (w, h) = (6usize, 5usize);
    let rgba = bytes(w * h * 4, 33);
    // The same pixels without their alpha channel.
    let mut rgb = Vec::with_capacity(w * h * 3);
    for p in 0..w * h {
        rgb.push(rgba[p * 4]);
        rgb.push(rgba[p * 4 + 1]);
        rgb.push(rgba[p * 4 + 2]);
    }
    let r = 2usize;
    let out_rgba = blur(&rgba, w, h, Channels::RGBA, r);
    let out_rgb = blur(&rgb, w, h, Channels::RGB, r);
    for p in 0..w * h {
        for ch in 0..3 {
            assert_eq!(out_rgba[p * 4 + ch], out_rgb[p * 3 + ch], "pixel {} channel {}", p, ch);
        }
    }
    // A constant alpha channel stays constant.
    let mut flat_alpha = rgba.clone();
    for p in 0..w * h {
        flat_alpha[p * 4 + 3] = 200;
    }
    let out = blur(&flat_alpha, w, h, Channels::RGBA, r);
    for p in 0..w * h {
        assert_eq!(out[p * 4 + 3], 200);
    }
}

#[test]
fn white_pixel_spreads_into_symmetric_patch() {
    // A 4x4 black RGB image with one white pixel at (1, 1), radius 1.
    // The triangular kernel (1, 2, 1) / 4 gives exact bytes.
    let (w, h) = (4usize, 4usize);
    let mut data = vec![0u8; w * h * 3];
    for ch in 0..3 {
        data[(1 * w + 1) * 3 + ch] = 255;
    }
    let out = blur(&data, w, h, Channels::RGB, 1);
    let expected_luma = [
        [15u8, 31, 15, 0],
        [31, 63, 31, 0],
        [15, 31, 15, 0],
        [0, 0, 0, 0],
    ];
    for y in 0..h {
        for x in 0..w {
            for ch in 0..3 {
                assert_eq!(
                    out[(y * w + x) * 3 + ch],
                    expected_luma[y][x],
                    "x={} y={} ch={}",
                    x,
                    y,
                    ch
                );
            }
        }
    }
    // Brightest at the white pixel, decaying to black at the far corner.
    assert!(out[(1 * w + 1) * 3] > out[(0 * w + 0) * 3]);
    assert_eq!(out[(3 * w + 3) * 3], 0);
}

#[test]
fn single_row_exact_values() {
    // One RGB row: a white pixel at x = 1 on black, radius 1.
    let row = vec![0u8, 0, 0, 255, 255, 255, 0, 0, 0, 0, 0, 0];
    let out = blur(&row, 4, 1, Channels::RGB, 1);
    // Window sums 255, 510, 255, 0 divided by 4.
    let expected = [63u8, 127, 63, 0];
    for x in 0..4 {
        for ch in 0..3 {
            assert_eq!(out[x * 3 + ch], expected[x]);
        }
    }
}

#[test]
fn channel_count_values() {
    assert_eq!(Channels::RGB.count(), 3);
    assert_eq!(Channels::RGBA.count(), 4);
}
