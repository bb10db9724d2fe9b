use tes3map::color::{from_rgb, gamma_multiply, overlay_half, pack_rgb, unpack_rgb, Rgba};

#[test]
fn pack_keeps_top_two_bits() {
    assert_eq!(pack_rgb(from_rgb(255, 0, 0)), 0b11_0000);
    assert_eq!(pack_rgb(from_rgb(0, 255, 0)), 0b00_1100);
    assert_eq!(pack_rgb(from_rgb(0, 0, 255)), 0b00_0011);
    assert_eq!(pack_rgb(from_rgb(128, 64, 191)), 0b10_0110);
}

#[test]
fn unpack_places_fields_in_high_bits() {
    assert_eq!(unpack_rgb(0b10_0110), from_rgb(128, 64, 128));
    assert_eq!(unpack_rgb(0), from_rgb(0, 0, 0));
    assert_eq!(unpack_rgb(63), from_rgb(192, 192, 192));
}

#[test]
fn unpack_reads_negative_bytes_by_their_bits() {
    // Only the low six bits carry colour; the sign bit is ignored.
    assert_eq!(unpack_rgb(-1), from_rgb(192, 192, 192));
    assert_eq!(unpack_rgb(-64), from_rgb(0, 0, 0));
}

#[test]
fn round_trip_of_quantized_colors() {
    for r in [0u8, 64, 128, 192] {
        for g in [0u8, 64, 128, 192] {
            for b in [0u8, 64, 128, 192] {
                let c = from_rgb(r, g, b);
                assert_eq!(unpack_rgb(pack_rgb(c)), c);
            }
        }
    }
}

#[test]
fn round_trip_rounds_towards_zero() {
    assert_eq!(unpack_rgb(pack_rgb(from_rgb(100, 200, 63))), from_rgb(64, 192, 0));
    assert_eq!(unpack_rgb(pack_rgb(Rgba { r: 255, g: 255, b: 255, a: 7 })), from_rgb(192, 192, 192));
}

#[test]
fn gamma_multiply_rounds_half_up() {
    let c = gamma_multiply(from_rgb(146, 82, 51), 20);
    assert_eq!(c, Rgba { r: 29, g: 16, b: 10, a: 51 });
    assert_eq!(gamma_multiply(from_rgb(0, 0, 0), 80), Rgba { r: 0, g: 0, b: 0, a: 204 });
}

#[test]
fn overlay_half_is_channel_mean() {
    let c = overlay_half(from_rgb(100, 51, 200), from_rgb(0, 0, 255));
    assert_eq!(c, Rgba { r: 50, g: 25, b: 227, a: 255 });
}
