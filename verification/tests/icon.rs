use throttle::icon::{ico_bytes, rgba, SIZE};

fn pixel(px: &[u8], x: usize, y: usize) -> [u8; 4] {
    let i = (y * SIZE as usize + x) * 4;
    [px[i], px[i + 1], px[i + 2], px[i + 3]]
}

#[test]
fn the_badge_is_drawn() {
    let px = rgba();
    assert_eq!(px.len(), (SIZE * SIZE * 4) as usize);
    // Transparent outside, smoothed at the edge, a gradient inside.
    assert_eq!(pixel(&px, 0, 0), [0, 0, 0, 0]);
    assert_eq!(pixel(&px, 3, 20), [38, 46, 60, 40]);
    assert_eq!(pixel(&px, 6, 10), [40, 48, 63, 245]);
    assert_eq!(pixel(&px, 4, 16), [39, 47, 61, 255]);
    assert_eq!(pixel(&px, 32, 32), [36, 43, 56, 255]);
    // The arrows, in the colours of the rates.
    assert_eq!(pixel(&px, 21, 30), [0x4c, 0xaf, 0x50, 255]);
    assert_eq!(pixel(&px, 42, 30), [0x21, 0x96, 0xf3, 255]);
}

#[test]
fn opacity_follows_the_distance_from_the_outline() {
    let px = rgba();
    let s = SIZE as f32;
    for y in 0..SIZE as usize {
        for x in 0..SIZE as usize {
            let (fx, fy) = (x as f32 + 0.5, y as f32 + 0.5);
            let (half, radius) = (s * 0.5 - s * 0.06, s * 0.22);
            let dx = (fx - s * 0.5).abs() - (half - radius);
            let dy = (fy - s * 0.5).abs() - (half - radius);
            let outside = (dx.max(0.0).powi(2) + dy.max(0.0).powi(2)).sqrt();
            let dist = outside + dx.max(dy).min(0.0) - radius;
            let cover = (0.5 - dist).clamp(0.0, 1.0);
            assert_eq!(pixel(&px, x, y)[3], (cover * 255.0) as u8);
        }
    }
}

#[test]
fn the_arrows_mirror_each_other() {
    let px = rgba();
    let n = SIZE as usize - 1;
    for y in 0..=n {
        for x in 0..=n {
            let down = pixel(&px, x, y)[..3] == [0x4c, 0xaf, 0x50];
            let up = pixel(&px, n - x, n - y)[..3] == [0x21, 0x96, 0xf3];
            assert_eq!(down, up);
        }
    }
}

#[test]
fn the_file_holds_the_image_upside_down() {
    let (px, ico) = (rgba(), ico_bytes());
    assert_eq!(ico.len(), 22 + 40 + 64 * 64 * 4 + 64 * 8);
    assert_eq!(&ico[..14], &[0, 0, 1, 0, 1, 0, 64, 64, 0, 0, 1, 0, 32, 0]);
    assert_eq!(&ico[14..22], &[0x28, 0x42, 0, 0, 22, 0, 0, 0]);
    assert_eq!(&ico[22..38], &[40, 0, 0, 0, 64, 0, 0, 0, 128, 0, 0, 0, 1, 0, 32, 0]);
    assert!(ico[38..62].iter().all(|&b| b == 0));
    for y in 0..64 {
        for x in 0..64 {
            let [r, g, b, a] = pixel(&px, x, y);
            let at = 62 + ((63 - y) * 64 + x) * 4;
            assert_eq!(&ico[at..at + 4], &[b, g, r, a]);
        }
    }
    assert!(ico[62 + 64 * 64 * 4..].iter().all(|&b| b == 0));
}
