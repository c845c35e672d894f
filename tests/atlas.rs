use sprite_atlas::{AtlasError, Region, TextureAtlas, TextureImage};

fn image(id: u64, w: u32, h: u32) -> TextureImage {
    TextureImage::new(id, w, h, vec![0u8; (w * h * 4) as usize])
}

fn apart(a: Region, b: Region) -> bool {
    a[2] < b[0] || b[2] < a[0] || a[3] < b[1] || b[3] < a[1]
}

#[test]
fn basic_placement() {
    let mut atlas = TextureAtlas::new((8, 8));
    let a = image(1, 2, 2);
    let b = image(2, 2, 2);
    assert_eq!(atlas.add_texture(&a), Ok([1, 1, 3, 3]));
    assert_eq!(atlas.add_texture(&b), Ok([4, 1, 6, 3]));
    assert_eq!(atlas.get_texture_block(&a), Some([1, 1, 3, 3]));
    let rb = atlas.get_texture_block(&b).unwrap();
    // B shares no point with A's box widened by one unit, [0, 0, 4, 4].
    assert!(rb[0] >= 4 || rb[2] <= 0 || rb[1] >= 4 || rb[3] <= 0);
}

#[test]
fn third_image_starts_next_row() {
    let mut atlas = TextureAtlas::new((8, 8));
    atlas.add_texture(&image(1, 2, 2)).unwrap();
    atlas.add_texture(&image(2, 2, 2)).unwrap();
    assert_eq!(atlas.add_texture(&image(3, 2, 2)), Ok([1, 4, 3, 6]));
}

#[test]
fn overflow_on_full_surface() {
    let mut atlas = TextureAtlas::new((4, 4));
    assert_eq!(atlas.add_texture(&image(1, 3, 3)), Ok([1, 1, 4, 4]));
    assert_eq!(atlas.add_texture(&image(2, 3, 3)), Err(AtlasError::Overflow));
    assert_eq!(atlas.len(), 1);
    assert_eq!(atlas.get_texture_block(&image(2, 3, 3)), None);
}

#[test]
fn overflow_leaves_atlas_unchanged() {
    let mut atlas = TextureAtlas::new((7, 7));
    let mut placed = Vec::new();
    let mut id = 0u64;
    loop {
        id += 1;
        let before = atlas.len();
        match atlas.add_texture(&image(id, 2, 2)) {
            Ok(r) => placed.push(r),
            Err(e) => {
                assert_eq!(e, AtlasError::Overflow);
                assert_eq!(atlas.len(), before);
                break;
            }
        }
    }
    assert_eq!(placed, vec![[1, 1, 3, 3], [4, 1, 6, 3], [1, 4, 3, 6], [4, 4, 6, 6]]);
    for (i, r) in placed.iter().enumerate() {
        assert_eq!(atlas.get_texture_block(&image(i as u64 + 1, 2, 2)), Some(*r));
    }
}

#[test]
fn image_as_wide_as_surface_overflows() {
    let mut atlas = TextureAtlas::new((8, 8));
    assert_eq!(atlas.add_texture(&image(1, 8, 1)), Err(AtlasError::Overflow));
    assert_eq!(atlas.add_texture(&image(2, 1, 8)), Err(AtlasError::Overflow));
    assert_eq!(atlas.add_texture(&image(3, 7, 1)), Ok([1, 1, 8, 2]));
    assert_eq!(atlas.len(), 1);
}

#[test]
fn get_or_add_is_stable() {
    let mut atlas = TextureAtlas::new((16, 16));
    let a = image(7, 3, 2);
    let first = atlas.get_or_add(&a).unwrap();
    let second = atlas.get_or_add(&a).unwrap();
    assert_eq!(first, second);
    // The same identifier with another size keeps its region.
    let changed = image(7, 5, 5);
    assert_eq!(atlas.get_or_add(&changed), Ok(first));
    assert_eq!(atlas.len(), 1);
}

#[test]
fn lookup_before_placement_is_none() {
    let atlas = TextureAtlas::new((16, 16));
    assert_eq!(atlas.get_texture_block(&image(1, 1, 1)), None);
    assert_eq!(atlas.len(), 0);
    assert_eq!(atlas.size(), (16, 16));
}

#[test]
fn mixed_sizes_stay_apart_and_in_bounds() {
    let (w, h) = (64u32, 48u32);
    let mut atlas = TextureAtlas::new((w, h));
    let sizes = [(5, 3), (1, 1), (10, 7), (3, 12), (20, 2), (7, 7), (2, 9), (15, 15), (4, 4)];
    let mut placed: Vec<Region> = Vec::new();
    for (i, &(iw, ih)) in sizes.iter().enumerate() {
        if let Ok(r) = atlas.add_texture(&image(i as u64, iw, ih)) {
            assert_eq!((r[2] - r[0], r[3] - r[1]), (iw, ih));
            placed.push(r);
        }
    }
    assert!(placed.len() >= 2);
    for (i, a) in placed.iter().enumerate() {
        assert!(1 <= a[0] && a[0] < a[2] && a[2] <= w);
        assert!(1 <= a[1] && a[1] < a[3] && a[3] <= h);
        for b in placed.iter().skip(i + 1) {
            assert!(apart(*a, *b));
        }
    }
}

#[test]
fn image_accessors() {
    let img = TextureImage::new(9, 4, 2, vec![1, 2, 3]);
    assert_eq!(img.id(), 9);
    assert_eq!(img.width(), 4);
    assert_eq!(img.height(), 2);
    assert_eq!(img.pixels, vec![1, 2, 3]);
}

#[test]
fn full_surface_rejects_even_a_single_unit() {
    let mut atlas = TextureAtlas::new((4, 4));
    // Grown by one unit right and below, the 3 by 3 region covers all 16 units.
    assert_eq!(atlas.add_texture(&image(1, 3, 3)), Ok([1, 1, 4, 4]));
    assert_eq!(atlas.add_texture(&image(2, 1, 1)), Err(AtlasError::Overflow));
    assert_eq!(atlas.len(), 1);
}

#[test]
fn grown_areas_sum_within_surface() {
    let (w, h) = (20u32, 20u32);
    let mut atlas = TextureAtlas::new((w, h));
    let mut total = 0u32;
    for id in 0..100u64 {
        let (iw, ih) = (1 + (id % 4) as u32, 1 + (id % 3) as u32);
        if let Ok(r) = atlas.add_texture(&image(id, iw, ih)) {
            total += (r[2] - r[0] + 1) * (r[3] - r[1] + 1);
        }
    }
    assert!(atlas.len() > 0);
    assert!(total <= w * h);
}
