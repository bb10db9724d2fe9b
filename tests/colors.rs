use tes3map::color::from_rgb;
use tes3map::region_color::{color_from_digest, color_key, generate_random_color, region_color};

#[test]
fn random_color_of_known_keys() {
    assert_eq!(generate_random_color(b"abc"), (33, 64, 226));
    assert_eq!(generate_random_color(b""), (136, 86, 27));
}

#[test]
fn color_key_format() {
    assert_eq!(color_key("Balmora", -3, -9), b"Balmora_(-3,-9)".to_vec());
    assert_eq!(color_key("Vivec", 0, 10), b"Vivec_(0,10)".to_vec());
    assert_eq!(color_key("", i32::MIN, i32::MAX), b"_(-2147483648,2147483647)".to_vec());
}

#[test]
fn region_color_is_deterministic() {
    let a = region_color("Bitter Coast Region", -5, 3);
    let b = region_color("Bitter Coast Region", -5, 3);
    assert_eq!(a, b);
    assert_eq!(a, from_rgb(62, 230, 61));
}

#[test]
fn region_color_differs_between_coordinates() {
    assert_eq!(region_color("Vivec", 0, 0), from_rgb(154, 0, 219));
    assert_eq!(region_color("Vivec", 1, 0), from_rgb(229, 134, 231));
    assert_ne!(region_color("Vivec", 0, 0), region_color("Vivec", 0, 1));
}

#[test]
fn digest_seeds_the_generator() {
    let mut d = vec![0u8; 32];
    d[7] = 1;
    // From seed 1 the first state is 0x4082_2041, whose top byte is zero.
    let (r, _, _) = color_from_digest(&d);
    assert_eq!(r, 0);
    // The four words are folded: the same word twice cancels out.
    let mut twice = vec![0u8; 32];
    twice[7] = 1;
    twice[15] = 1;
    twice[31] = 1;
    assert_eq!(color_from_digest(&twice), color_from_digest(&d));
}

#[test]
fn all_zero_digest_uses_the_replacement_seed() {
    let mut replaced = vec![0u8; 32];
    replaced[..8].copy_from_slice(&0x9e37_79b9_7f4a_7c15u64.to_be_bytes());
    assert_eq!(color_from_digest(&[0u8; 32]), color_from_digest(&replaced));
    assert_eq!(color_from_digest(&[0u8; 32]), (220, 100, 123));
}
