use canicasbrawl::collision_groups::{frozen_groups, marble_groups, ALL_GROUPS};
use canicasbrawl::faces::{dominant_color, dominant_color_from_png};
use canicasbrawl::hud::leader_badge_text;
use canicasbrawl::stall_detector::{detect_stall, StallDetector};
use canicasbrawl::torus_assets::{torus_faces, torus_model_name, torus_outer_radius_mm, torus_radii_mm};

#[test]
fn dominant_colour_of_a_face() {
    let pixels = vec![
        [255, 255, 255, 255], // background white
        [10, 10, 10, 255],    // outline black
        [100, 50, 200, 50],   // transparent
        [70, 130, 40, 255],   // cube (64, 128, 32)
        [80, 150, 60, 255],   // cube (64, 128, 32)
        [200, 20, 20, 255],   // cube (192, 0, 0)
    ];
    assert_eq!(dominant_color(&pixels), Some((80, 144, 48)));
    assert_eq!(dominant_color(&vec![[255, 255, 255, 255]]), None);
    assert_eq!(dominant_color(&vec![]), None);
    assert_eq!(dominant_color(&vec![[255, 0, 0, 255]]), Some((240, 16, 16)));
}

#[test]
fn collision_masks() {
    let m = marble_groups();
    let f = frozen_groups();
    assert_eq!(m.memberships, 1);
    assert_eq!(m.filters, ALL_GROUPS & !2);
    assert_eq!(f.memberships, 2);
    assert_eq!(f.filters, ALL_GROUPS & !3);
    let touch = |a: u32, af: u32, b: u32, bf: u32| (a & bf) != 0 && (b & af) != 0;
    assert!(touch(m.memberships, m.filters, m.memberships, m.filters));
    assert!(!touch(m.memberships, m.filters, f.memberships, f.filters));
    assert!(!touch(f.memberships, f.filters, f.memberships, f.filters));
    assert!(touch(f.memberships, f.filters, ALL_GROUPS, ALL_GROUPS));
}

#[test]
fn stall_after_five_slow_frames() {
    let mut d = StallDetector::new();
    assert!(!detect_stall(&mut d, None));
    for _ in 0..4 {
        assert!(!detect_stall(&mut d, Some(true)));
    }
    assert!(!detect_stall(&mut d, Some(false)));
    assert_eq!(d.consecutive_slow_frames(), 0);
    for _ in 0..4 {
        assert!(!detect_stall(&mut d, Some(true)));
    }
    assert!(detect_stall(&mut d, Some(true)));
    assert!(detect_stall(&mut d, Some(true)));
    assert_eq!(d.consecutive_slow_frames(), 6);
}

#[test]
fn torus_names() {
    assert_eq!(torus_model_name(150, 35), "torus_R150_r35");
    assert_eq!(torus_radii_mm("torus_R150_r35"), Some((150, 35)));
    assert_eq!(torus_radii_mm(&torus_model_name(-4, 2147483647)), Some((-4, 2147483647)));
    assert_eq!(torus_radii_mm("torus_RR7_rr8"), Some((7, 8)));
    assert_eq!(torus_radii_mm("torus_R1_r2_x"), None);
    assert_eq!(torus_radii_mm("sphere_R1_r2"), None);
    assert_eq!(torus_radii_mm("torus_Rx_r2"), None);
}

#[test]
fn leader_badge() {
    assert_eq!(leader_badge_text(Some("Finn")), "👑  Finn");
    assert_eq!(leader_badge_text(None), "👑  —");
}

#[test]
fn torus_faces_wrap_around_both_circles() {
    let faces = torus_faces();
    assert_eq!(faces.len(), 2 * 48 * 24);
    assert_eq!(faces[0], (1, 25, 26));
    assert_eq!(faces[1], (1, 26, 2));
    // last vertex of the first ring wraps to the ring's first vertex
    assert_eq!(faces[2 * 23], (24, 48, 25));
    assert_eq!(faces[2 * 23 + 1], (24, 25, 1));
    // last ring wraps to the first ring
    let last = 2 * (47 * 24 + 23);
    assert_eq!(faces[last], (1152, 24, 1));
    assert_eq!(faces[last + 1], (1152, 1, 1129));
    assert!(faces.iter().all(|&(a, b, c)| [a, b, c].iter().all(|&v| (1..=1152).contains(&v))));
}

fn png_bytes(width: u32, height: u32, rgba: Vec<u8>) -> Vec<u8> {
    let img = image::RgbaImage::from_raw(width, height, rgba).unwrap();
    let mut bytes: Vec<u8> = Vec::new();
    image::DynamicImage::ImageRgba8(img)
        .write_to(&mut std::io::Cursor::new(&mut bytes), image::ImageFormat::Png)
        .unwrap();
    bytes
}

#[test]
fn dominant_colour_of_a_png_face() {
    let bytes = png_bytes(
        3,
        1,
        vec![70, 130, 40, 255, 255, 255, 255, 255, 80, 150, 60, 255],
    );
    assert_eq!(dominant_color_from_png(&bytes), Some((80, 144, 48)));
    let blank = png_bytes(1, 1, vec![255, 255, 255, 255]);
    assert_eq!(dominant_color_from_png(&blank), None);
    assert_eq!(dominant_color_from_png(&b"not an image".to_vec()), None);
}

#[test]
fn torus_outer_radius_adds_both_radii() {
    assert_eq!(torus_outer_radius_mm("torus_R250_r50"), Some(300));
    assert_eq!(torus_outer_radius_mm("torus_R-10_r5"), Some(-5));
    assert_eq!(torus_outer_radius_mm("crosses"), None);
    assert_eq!(torus_outer_radius_mm("torus_R2147483647_r1"), Some(2147483648));
}
