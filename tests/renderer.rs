use sprite_atlas::{AtlasError, Corner, GameRenderer, TextureImage};

type Sprite = ((f32, f32), f32, f32);

fn image(id: u64, w: u32, h: u32) -> TextureImage {
    let pixels: Vec<u8> = (0..w * h * 4).map(|i| (i % 251) as u8 + id as u8).collect();
    TextureImage::new(id, w, h, pixels)
}

#[test]
fn draw_appends_six_vertices_and_flush_empties() {
    let mut r: GameRenderer<Sprite> = GameRenderer::new((64, 64));
    let a = image(1, 2, 2);
    assert_eq!(r.draw_texture(&a, ((0.0, 0.0), 1.0, 0.0)), Ok(()));
    assert_eq!(r.vertex_count(), 6);
    assert_eq!(r.draw_texture(&a, ((5.0, 5.0), 2.0, 1.0)), Ok(()));
    assert_eq!(r.vertex_count(), 12);
    let frame = r.do_render();
    assert_eq!(frame.vertices.len(), 12);
    assert_eq!(r.vertex_count(), 0);
    let empty = r.do_render();
    assert_eq!(empty.vertices.len(), 0);
    assert_eq!(empty.uploads.len(), 0);
}

#[test]
fn quad_corner_order_and_tex_coords() {
    let mut r: GameRenderer<Sprite> = GameRenderer::new((64, 64));
    let a = image(1, 2, 2);
    let s = ((3.0, 4.0), 1.5, 0.25);
    r.draw_texture(&a, s).unwrap();
    let frame = r.do_render();
    let corners: Vec<Corner> = frame.vertices.iter().map(|v| v.corner).collect();
    assert_eq!(
        corners,
        vec![
            Corner::LowerLeft,
            Corner::UpperLeft,
            Corner::LowerRight,
            Corner::UpperLeft,
            Corner::UpperRight,
            Corner::LowerRight
        ]
    );
    let coords: Vec<(u32, u32)> = frame.vertices.iter().map(|v| v.tex_coord).collect();
    assert_eq!(coords, vec![(1, 1), (1, 3), (3, 1), (1, 3), (3, 3), (3, 1)]);
    for v in frame.vertices.iter() {
        assert_eq!(v.size, (2, 2));
        assert_eq!(v.image, 1);
        assert_eq!(v.sprite, s);
    }
}

#[test]
fn corner_positions_without_rotation() {
    let (position, scale, rotation) = ((0.0f32, 0.0f32), 1.0f32, 0.0f32);
    let corners = [Corner::LowerLeft, Corner::UpperLeft, Corner::UpperRight, Corner::LowerRight];
    let got: Vec<(f32, f32)> = corners
        .iter()
        .map(|c| {
            let (dx, dy) = c.offset_x2(2, 2);
            let (x, y) = (dx as f32 / 2.0 * scale, dy as f32 / 2.0 * scale);
            (
                position.0 + x * rotation.cos() - y * rotation.sin(),
                position.1 + x * rotation.sin() + y * rotation.cos(),
            )
        })
        .collect();
    assert_eq!(got, vec![(-1.0, -1.0), (-1.0, 1.0), (1.0, 1.0), (1.0, -1.0)]);
}

#[test]
fn corner_offsets_exact() {
    assert_eq!(Corner::LowerLeft.offset_x2(5, 3), (-5, -3));
    assert_eq!(Corner::UpperLeft.offset_x2(5, 3), (-5, 3));
    assert_eq!(Corner::UpperRight.offset_x2(5, 3), (5, 3));
    assert_eq!(Corner::LowerRight.offset_x2(5, 3), (5, -3));
    assert_eq!(Corner::UpperRight.tex_coord([2, 4, 9, 7]), (9, 7));
    assert_eq!(Corner::LowerRight.tex_coord([2, 4, 9, 7]), (9, 4));
}

#[test]
fn upload_comes_with_first_draw_only() {
    let mut r: GameRenderer<Sprite> = GameRenderer::new((32, 32));
    let a = image(1, 2, 2);
    let b = image(2, 3, 1);
    r.draw_texture(&a, ((0.0, 0.0), 1.0, 0.0)).unwrap();
    r.draw_texture(&a, ((1.0, 0.0), 1.0, 0.0)).unwrap();
    r.draw_texture(&b, ((2.0, 0.0), 1.0, 0.0)).unwrap();
    let frame = r.do_render();
    assert_eq!(frame.uploads.len(), 2);
    assert_eq!(frame.uploads[0].image, 1);
    assert_eq!((frame.uploads[0].x, frame.uploads[0].y), (1, 1));
    assert_eq!((frame.uploads[0].width, frame.uploads[0].height), (2, 2));
    assert_eq!(frame.uploads[0].pixels, a.pixels);
    assert_eq!(frame.uploads[1].image, 2);
    assert_eq!((frame.uploads[1].x, frame.uploads[1].y), (4, 1));
    assert_eq!(frame.uploads[1].pixels, b.pixels);
    // Every vertex shows an image uploaded in this frame.
    for v in frame.vertices.iter() {
        assert!(frame.uploads.iter().any(|u| u.image == v.image));
    }
    // Next frame: the image is on the texture already.
    r.draw_texture(&a, ((0.0, 0.0), 1.0, 0.0)).unwrap();
    let next = r.do_render();
    assert_eq!(next.uploads.len(), 0);
    assert_eq!(next.vertices.len(), 6);
    assert_eq!(next.vertices[0].tex_coord, (1, 1));
}

#[test]
fn draw_overflow_changes_nothing() {
    let mut r: GameRenderer<Sprite> = GameRenderer::new((4, 4));
    r.draw_texture(&image(1, 3, 3), ((0.0, 0.0), 1.0, 0.0)).unwrap();
    assert_eq!(
        r.draw_texture(&image(2, 3, 3), ((0.0, 0.0), 1.0, 0.0)),
        Err(AtlasError::Overflow)
    );
    assert_eq!(r.vertex_count(), 6);
    assert_eq!(r.atlas_ref().len(), 1);
    let frame = r.do_render();
    assert_eq!(frame.uploads.len(), 1);
    assert_eq!(frame.vertices.len(), 6);
}
