use geometrical_shapes::compose;

#[test]
fn composition_terminates_and_paints() {
    let canvas = compose();
    assert_eq!(canvas.width(), 1000);
    assert_eq!(canvas.height(), 1000);
    // The fixed rectangle corner was covered by a stroke.
    let c = canvas.pixel_at(50, 50).unwrap();
    assert_eq!(c.a, 255);
    assert!(c.r < 255 && c.g < 255 && c.b < 255);
    // Every pixel is either still the black background or an opaque
    // sampled color: fully opaque, each channel below 255.
    for y in 0..1000 {
        for x in 0..1000 {
            let c = canvas.pixel_at(x, y).unwrap();
            assert_eq!(c.a, 255);
            assert!(c.r < 255 && c.g < 255 && c.b < 255);
        }
    }
}
