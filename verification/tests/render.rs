use arris_debug::render::{inspect_dir, Raster, View, HEIGHT, WIDTH};

fn raster() -> Raster {
    let mut pixels = vec![[255u8, 255, 255]; (WIDTH * HEIGHT) as usize];
    pixels[0] = [0, 0, 0];
    pixels[1] = [0, 0, 0];
    pixels[WIDTH as usize + 3] = [200, 10, 10];
    Raster::from_pixels(pixels).unwrap()
}

#[test]
fn a_raster_has_its_fixed_size() {
    assert!(Raster::from_pixels(vec![[0u8; 3]; 3]).is_none());
    let r = raster();
    assert_eq!(r.pixels().len(), 480000);
    assert_eq!(r.pixel(3, 1), Some([200, 10, 10]));
    assert_eq!(r.pixel(0, 0), Some([0, 0, 0]));
    assert_eq!(r.pixel(WIDTH, 0), None);
    assert_eq!(r.pixel(0, HEIGHT), None);
}

#[test]
fn the_histogram_counts_each_colour_in_order() {
    let h = raster().histogram();
    assert_eq!(h, vec![([0, 0, 0], 2), ([200, 10, 10], 1), ([255, 255, 255], 479997)]);
}

#[test]
fn renders_go_under_the_workspace_target() {
    assert_eq!(inspect_dir("/w/crates/arris-debug"), "/w/crates/arris-debug/../../target/inspect");
    assert_ne!(View::Iso, View::Top);
}

#[test]
fn the_histogram_counts_every_pixel_once() {
    let total: usize = raster().histogram().iter().map(|(_, n)| *n).sum();
    assert_eq!(total, (WIDTH * HEIGHT) as usize);
}
