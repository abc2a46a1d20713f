use ray_tracer::{bounding_box_of, bx, Aabb, Buffer, Perlin, Quad, Vec3};
use ray_tracer::perlin::POINT_COUNT;
use ray_tracer::raster::pixel_index;

#[test]
fn quad_bbox_spans_corners() {
    let q = Quad::new(Vec3::new(1, 2, 3), Vec3::new(4, 0, 0), Vec3::new(0, -5, 2));
    assert_eq!(q.bounding_box(), Aabb::set(Vec3::new(1, -3, 3), Vec3::new(5, 2, 5)));
}

#[test]
fn box_builder_bbox_any_corner_order() {
    let a = Vec3::new(130, 0, 65);
    let b = Vec3::new(295, 165, 230);
    let sides = bx(a, b);
    assert_eq!(sides.len(), 6);
    let expected = Aabb::set(a, b);
    assert_eq!(bounding_box_of(&sides), Some(expected));
    let swapped = bx(b, a);
    assert_eq!(bounding_box_of(&swapped), Some(expected));
    let mixed = bx(Vec3::new(130, 165, 65), Vec3::new(295, 0, 230));
    assert_eq!(bounding_box_of(&mixed), Some(expected));
    assert_eq!(sides[0].q, Vec3::new(130, 0, 230));
    assert_eq!(sides[1].u, Vec3::new(0, 0, -165));
    assert_eq!(sides[5].v, Vec3::new(0, 0, 165));
    assert_eq!(bounding_box_of(&Vec::new()), None);
}

fn is_permutation(p: &[i32]) -> bool {
    let mut v = p.to_vec();
    v.sort();
    v == (0..POINT_COUNT as i32).collect::<Vec<i32>>()
}

#[test]
fn perlin_tables_are_permutations() {
    let p = Perlin::new();
    assert!(is_permutation(&p.perm_x));
    assert!(is_permutation(&p.perm_y));
    assert!(is_permutation(&p.perm_z));
    let g = Perlin::perlin_generate_perm();
    assert!(is_permutation(&g));
}

#[test]
fn perlin_permute_shuffles() {
    let mut seen_moved = false;
    for _ in 0..8 {
        let g = Perlin::perlin_generate_perm();
        if g != (0..POINT_COUNT as i32).collect::<Vec<i32>>() {
            seen_moved = true;
        }
    }
    assert!(seen_moved);
    let mut p = vec![0, 1, 2, 3, 4];
    Perlin::permute(&mut p, 5);
    let mut s = p.clone();
    s.sort();
    assert_eq!(s, vec![0, 1, 2, 3, 4]);
}

#[test]
fn perlin_permute_with_given_targets() {
    let mut p = vec![0, 1, 2, 3];
    Perlin::permute_with(&mut p, &vec![0, 0, 1, 2]);
    assert_eq!(p, vec![3, 0, 1, 2]);
    let mut q = vec![5, 6, 7];
    Perlin::permute_with(&mut q, &vec![0, 1, 2]);
    assert_eq!(q, vec![5, 6, 7]);
}

#[test]
fn perlin_lattice_hash() {
    let p = Perlin::new();
    for (i, j, k) in [(0, 0, 0), (1, 2, 3), (-1, 300, -257), (255, 256, 511)] {
        let h = p.lattice(i, j, k);
        assert!(h < POINT_COUNT);
        let expected = p.perm_x[(i & 255) as usize] ^ p.perm_y[(j & 255) as usize] ^ p.perm_z[(k & 255) as usize];
        assert_eq!(h, expected as usize);
    }
    assert_eq!(p.lattice(-1, 0, 0), p.lattice(255, 256, -256));
}

#[test]
fn raster_pixel_index_and_buffers() {
    assert_eq!(pixel_index(4, 3, 1, 0), 9);
    assert_eq!(pixel_index(4, 3, 1, 2), 1);
    assert_eq!(pixel_index(4, 3, 3, 0), 11);
    assert!(Buffer::Color.clears_color());
    assert!(!Buffer::Color.clears_depth());
    assert!(Buffer::Depth.clears_depth());
    assert!(!Buffer::Depth.clears_color());
    assert!(Buffer::Both.clears_color() && Buffer::Both.clears_depth());
}
