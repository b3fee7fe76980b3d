use rc_networking::{invalid_texture, sort_textures, Texture};

const PURPLE: [u8; 4] = [255, 0, 255, 255];
const BLACK: [u8; 4] = [0, 0, 0, 255];

#[test]
fn placeholder_alternates_purple_and_black() {
    assert_eq!(invalid_texture(0, 0, 16), PURPLE);
    assert_eq!(invalid_texture(7, 7, 16), PURPLE);
    assert_eq!(invalid_texture(8, 0, 16), BLACK);
    assert_eq!(invalid_texture(0, 8, 16), BLACK);
    assert_eq!(invalid_texture(8, 8, 16), PURPLE);
    assert_eq!(invalid_texture(15, 15, 16), PURPLE);
}

#[test]
fn placeholder_matches_float_formula() {
    for size in [2u32, 3, 5, 16, 17] {
        for x in 0..40u32 {
            for y in 0..40u32 {
                let rx = ((x as f32 + 1.0) / (size as f32 / 2.0)).ceil();
                let ry = ((y as f32 + 1.0) / (size as f32 / 2.0)).ceil();
                let want = if (rx + ry) % 2.0 == 0.0 { PURPLE } else { BLACK };
                assert_eq!(invalid_texture(x, y, size), want, "{} {} {}", x, y, size);
            }
        }
    }
}

#[test]
fn placeholder_of_empty_size_is_black() {
    assert_eq!(invalid_texture(0, 0, 0), BLACK);
}

fn tex(name: &str, height: u32) -> Texture<usize> {
    Texture { name: name.to_string(), height, image: height as usize * 10 }
}

#[test]
fn textures_sorted_tallest_first_and_stable() {
    let mut textures = vec![
        tex("a", 16),
        tex("b", 32),
        tex("huge", 1024),
        tex("c", 16),
        tex("d", 512),
        tex("e", 513),
        tex("f", 32),
    ];
    let out = sort_textures(&mut textures);
    let names: Vec<&str> = out.iter().map(|t| t.name.as_str()).collect();
    assert_eq!(names, vec!["d", "b", "f", "a", "c"]);
    assert_eq!(out[0].image, 5120);
    let left: Vec<&str> = textures.iter().map(|t| t.name.as_str()).collect();
    assert_eq!(left, vec!["huge", "e"]);
}

#[test]
fn no_textures() {
    let mut textures: Vec<Texture<()>> = Vec::new();
    assert!(sort_textures(&mut textures).is_empty());
}
