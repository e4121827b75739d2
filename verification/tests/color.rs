use wowitsaraytracer::scalar::Scalar;
use wowitsaraytracer::vec3::Vec3;

fn word(x: f32) -> Scalar {
    Scalar::from_bits(x.to_bits())
}

/// A colour with channels in 0..1, brought to the display scale.
fn scaled(r: f32, g: f32, b: f32) -> Vec3 {
    Vec3::from_array([word(r * 255.), word(g * 255.), word(b * 255.)])
}

/// What the plain arithmetic gives, channel by channel.
fn expected_color(r: f32, g: f32, b: f32) -> u32 {
    ((b * 255.) as u32) | (((g * 255.) as u32) << 8) | (((r * 255.) as u32) << 16)
}

#[test]
fn to_color_of_pure_red_is_ff0000() {
    assert_eq!(scaled(1.0, 0.0, 0.0).to_color(), 0xFF0000);
}

#[test]
fn to_color_of_black_is_zero() {
    assert_eq!(scaled(0.0, 0.0, 0.0).to_color(), 0);
}

#[test]
fn to_color_puts_green_in_the_middle_and_blue_low() {
    assert_eq!(scaled(0.0, 1.0, 0.0).to_color(), 0x00FF00);
    assert_eq!(scaled(0.0, 0.0, 1.0).to_color(), 0x0000FF);
    assert_eq!(scaled(1.0, 1.0, 1.0).to_color(), 0xFFFFFF);
}

#[test]
fn to_color_truncates_each_channel() {
    // 0.5 * 255 = 127.5, 0.25 * 255 = 63.75, 0.999 * 255 = 254.745
    assert_eq!(scaled(0.5, 0.25, 0.999).to_color(), (127 << 16) | (63 << 8) | 254);
}

#[test]
fn to_color_does_not_clamp_a_channel_above_one() {
    let color = scaled(2.0, 0.0, 0.0).to_color();
    assert_eq!(color, 510 << 16);
    assert_eq!(color, 0x01FE_0000);
    assert_ne!(color, 0xFFFFFF);
    assert_ne!(color, 0xFF0000);
    // Green above one runs over into red's bits.
    assert_eq!(scaled(0.0, 2.0, 0.0).to_color(), 510 << 8);
    // What passes the top of the word is lost.
    let huge = Vec3::from_array([word(65_536.0), word(0.0), word(0.0)]);
    assert_eq!(huge.to_color(), 0);
}

#[test]
fn to_color_takes_negative_and_nan_channels_as_zero() {
    assert_eq!(scaled(-1.0, 0.5, f32::NAN).to_color(), 127 << 8);
}

#[test]
fn to_color_agrees_with_the_plain_arithmetic() {
    let values = [-2.0f32, -0.1, 0.0, 0.001, 0.1, 0.25, 0.5, 0.75, 0.9999, 1.0, 1.5, 2.0, 300.0];
    for &r in values.iter() {
        for &g in values.iter() {
            for &b in values.iter() {
                assert_eq!(scaled(r, g, b).to_color(), expected_color(r, g, b));
            }
        }
    }
}

#[test]
fn to_rgb_gives_the_three_bytes_red_first() {
    assert_eq!(scaled(1.0, 0.5, 0.0).to_rgb(), [255, 127, 0]);
    assert_eq!(scaled(2.0, -1.0, f32::NAN).to_rgb(), [255, 0, 0]);
}

#[test]
fn from_array_and_to_array_keep_the_order() {
    let v = Vec3::from_array([word(1.0), word(2.0), word(3.0)]);
    assert_eq!(v.x, word(1.0));
    assert_eq!(v.y, word(2.0));
    assert_eq!(v.z, word(3.0));
    assert_eq!(v.to_array(), [word(1.0), word(2.0), word(3.0)]);
}
