use rc_networking::{World, CHUNK_VOLUME};

fn at(x: usize, y: usize, z: usize) -> usize {
    x * 256 + y * 16 + z
}

#[test]
fn chunk_above_surface_is_empty() {
    assert!(World::generate_chunk(10, &[[50; 16]; 16]).is_none());
}

#[test]
fn chunk_below_surface_is_stone() {
    let c = World::generate_chunk(0, &[[50; 16]; 16]).unwrap();
    assert_eq!(c.len(), CHUNK_VOLUME);
    assert!(c.iter().all(|b| *b == 1));
}

#[test]
fn surface_layers() {
    let mut heights = [[0i32; 16]; 16];
    heights[3][4] = 5;
    let c = World::generate_chunk(0, &heights).unwrap();
    assert_eq!(c[at(3, 4, 4)], 1);
    assert_eq!(c[at(3, 5, 4)], 2);
    assert_eq!(c[at(3, 6, 4)], 2);
    assert!([3, 5, 6].contains(&c[at(3, 7, 4)]));
    assert_eq!(c[at(3, 8, 4)], 0);
    assert_eq!(c[at(0, 0, 0)], 2);
    assert!([3, 5, 6].contains(&c[at(0, 2, 0)]));
    assert_eq!(c[at(0, 3, 0)], 0);
}

#[test]
fn negative_chunk_heights() {
    let c = World::generate_chunk(-1, &[[-10; 16]; 16]).unwrap();
    assert_eq!(c[at(0, 0, 0)], 1);
    assert_eq!(c[at(0, 5, 0)], 1);
    assert_eq!(c[at(0, 6, 0)], 2);
    assert!([3, 5, 6].contains(&c[at(0, 8, 0)]));
    assert_eq!(c[at(0, 9, 0)], 0);
}

#[test]
fn grass_is_mostly_plain() {
    let mut plain = 0;
    for _ in 0..20 {
        let c = World::generate_chunk(3, &[[50; 16]; 16]).unwrap();
        plain += (0..16).flat_map(|x| (0..16).map(move |z| (x, z))).filter(|(x, z)| c[at(*x, 4, *z)] == 3).count();
    }
    assert!(plain > 20 * 256 * 9 / 10);
}
