//! Per-frame sprite batching over one atlas.
//!
//! Each draw request resolves the image's atlas region, placing the image if
//! it is new, and appends one quad of six vertices. A flush hands over, in
//! one frame, the pixel uploads that new placements call for and the
//! vertices in draw order, and starts the next frame empty. The screen-space
//! position of each vertex (centre, scale and rotation applied to the corner)
//! is computed by whoever submits the frame, from the sprite value carried in
//! the vertex.
use vstd::prelude::*;
use crate::atlas::{
    get_or_add_spec, lemma_lookup_absent, lemma_lookup_found, lookup, AtlasError, Region,
    TextureAtlas, TextureImage,
};

verus! {

/// A corner of a sprite's quad.
#[derive(Debug, Clone, Copy, PartialEq, Eq, Structural)]
pub enum Corner {
    LowerLeft,
    UpperLeft,
    UpperRight,
    LowerRight,
}

impl Corner {
    /// Twice the corner's offset from the centre of a `w` by `h` sprite,
    /// before scale and rotation.
    pub open spec fn spec_offset_x2(self, w: int, h: int) -> (int, int) {
        match self {
            Corner::LowerLeft => (-w, -h),
            Corner::UpperLeft => (-w, h),
            Corner::UpperRight => (w, h),
            Corner::LowerRight => (w, -h),
        }
    }

    /// The corner's texture coordinate: the matching corner of the region.
    pub open spec fn spec_tex_coord(self, r: Region) -> (u32, u32) {
        match self {
            Corner::LowerLeft => (r[0], r[1]),
            Corner::UpperLeft => (r[0], r[3]),
            Corner::UpperRight => (r[2], r[3]),
            Corner::LowerRight => (r[2], r[1]),
        }
    }

    pub fn offset_x2(&self, w: u32, h: u32) -> (r: (i64, i64))
        ensures
            r.0 == self.spec_offset_x2(w as int, h as int).0,
            r.1 == self.spec_offset_x2(w as int, h as int).1,
    {
        let w = w as i64;
        let h = h as i64;
        match self {
            Corner::LowerLeft => (-w, -h),
            Corner::UpperLeft => (-w, h),
            Corner::UpperRight => (w, h),
            Corner::LowerRight => (w, -h),
        }
    }

    pub fn tex_coord(&self, r: Region) -> (t: (u32, u32))
        ensures
            t == self.spec_tex_coord(r),
    {
        match self {
            Corner::LowerLeft => (r[0], r[1]),
            Corner::UpperLeft => (r[0], r[3]),
            Corner::UpperRight => (r[2], r[3]),
            Corner::LowerRight => (r[2], r[1]),
        }
    }
}

/// One vertex of a drawn sprite: the sprite value it was drawn with (where
/// and how), the image, which corner of the quad, the sprite's size in
/// pixels and the texture coordinate in atlas pixels.
pub struct SpriteVertex<T> {
    pub sprite: T,
    pub image: u64,
    pub corner: Corner,
    pub size: (u32, u32),
    pub tex_coord: (u32, u32),
}

/// The pixels of a newly placed image, to be written to the atlas texture
/// at `(x, y)`.
pub struct TextureUpload {
    pub image: u64,
    pub x: u32,
    pub y: u32,
    pub width: u32,
    pub height: u32,
    pub pixels: Vec<u8>,
}

/// What one frame submits: the uploads first, then the vertices in draw
/// order.
pub struct Frame<T> {
    pub uploads: Vec<TextureUpload>,
    pub vertices: Vec<SpriteVertex<T>>,
}

pub open spec fn vertex_of<T>(sprite: T, image: u64, corner: Corner, r: Region) -> SpriteVertex<T> {
    SpriteVertex {
        sprite,
        image,
        corner,
        size: ((r[2] - r[0]) as u32, (r[3] - r[1]) as u32),
        tex_coord: corner.spec_tex_coord(r),
    }
}

/// The six vertices of a sprite's quad, two triangles: lower-left,
/// upper-left, lower-right, then upper-left, upper-right, lower-right.
pub open spec fn quad<T>(sprite: T, image: u64, r: Region) -> Seq<SpriteVertex<T>> {
    seq![
        vertex_of(sprite, image, Corner::LowerLeft, r),
        vertex_of(sprite, image, Corner::UpperLeft, r),
        vertex_of(sprite, image, Corner::LowerRight, r),
        vertex_of(sprite, image, Corner::UpperLeft, r),
        vertex_of(sprite, image, Corner::UpperRight, r),
        vertex_of(sprite, image, Corner::LowerRight, r),
    ]
}

/// Each drawn sprite adds exactly six vertices.
pub proof fn lemma_quad_has_six_vertices<T>(sprite: T, image: u64, r: Region)
    ensures
        quad(sprite, image, r).len() == 6,
{
}

/// Whether `us` holds an upload of image `id`.
pub open spec fn has_upload(us: Seq<TextureUpload>, id: u64) -> bool {
    exists|k: int| 0 <= k < us.len() && (#[trigger] us[k]).image == id
}

/// The upload that placing `image` at region `r` calls for.
pub open spec fn upload_of(image: &TextureImage, r: Region, u: TextureUpload) -> bool {
    &&& u.image == image.id
    &&& u.x == r[0]
    &&& u.y == r[1]
    &&& u.width == image.width
    &&& u.height == image.height
    &&& u.pixels@ == image.pixels@
}

/// The frame being built, over one atlas.
pub struct GameRenderer<T> {
    atlas: TextureAtlas,
    vertices: Vec<SpriteVertex<T>>,
    uploads: Vec<TextureUpload>,
    uploaded: Ghost<Set<u64>>,
}

impl<T: Copy> GameRenderer<T> {
    pub closed spec fn atlas(&self) -> TextureAtlas {
        self.atlas
    }

    /// The vertices drawn in this frame, in draw order.
    pub closed spec fn vertices(&self) -> Seq<SpriteVertex<T>> {
        self.vertices@
    }

    /// The uploads that this frame has to make.
    pub closed spec fn pending(&self) -> Seq<TextureUpload> {
        self.uploads@
    }

    /// The images whose uploads earlier frames handed over.
    pub closed spec fn uploaded(&self) -> Set<u64> {
        self.uploaded@
    }

    /// Every placed image was handed over for upload or waits in this frame,
    /// and so does every image that a vertex of this frame shows.
    pub open spec fn wf(&self) -> bool {
        &&& self.atlas().wf()
        &&& forall|k: int|
            0 <= k < self.atlas().entries().len() ==> self.uploaded().contains(
                (#[trigger] self.atlas().entries()[k]).0,
            ) || has_upload(self.pending(), self.atlas().entries()[k].0)
        &&& forall|i: int|
            0 <= i < self.vertices().len() ==> self.uploaded().contains(
                (#[trigger] self.vertices()[i]).image,
            ) || has_upload(self.pending(), self.vertices()[i].image)
    }

    /// An empty frame over an empty atlas of `size.0` by `size.1`.
    pub fn new(size: (u32, u32)) -> (r: GameRenderer<T>)
        ensures
            r.wf(),
            r.atlas().width() == size.0,
            r.atlas().height() == size.1,
            r.atlas().entries().len() == 0,
            r.vertices().len() == 0,
            r.pending().len() == 0,
            r.uploaded() == Set::<u64>::empty(),
    {
        GameRenderer {
            atlas: TextureAtlas::new(size),
            vertices: Vec::new(),
            uploads: Vec::new(),
            uploaded: Ghost(Set::empty()),
        }
    }

    pub fn atlas_ref(&self) -> (r: &TextureAtlas)
        ensures
            *r == self.atlas(),
    {
        &self.atlas
    }

    pub fn vertex_count(&self) -> (r: usize)
        ensures
            r == self.vertices().len(),
    {
        self.vertices.len()
    }

    fn vertex(sprite: T, image: u64, corner: Corner, r: Region) -> (v: SpriteVertex<T>)
        requires
            r[0] <= r[2],
            r[1] <= r[3],
        ensures
            v == vertex_of(sprite, image, corner, r),
    {
        SpriteVertex {
            sprite,
            image,
            corner,
            size: (r[2] - r[0], r[3] - r[1]),
            tex_coord: corner.tex_coord(r),
        }
    }

    /// Draws `image` with the placement `sprite`: resolves the image's
    /// region, placing it and queueing its upload if it is new, and appends
    /// the six vertices of its quad. Where the atlas has no room, nothing
    /// changes.
    pub fn draw_texture(&mut self, image: &TextureImage, sprite: T) -> (r: Result<(), AtlasError>)
        requires
            old(self).wf(),
            image.width > 0,
            image.height > 0,
        ensures
            final(self).wf(),
            final(self).uploaded() == old(self).uploaded(),
            final(self).atlas().width() == old(self).atlas().width(),
            final(self).atlas().height() == old(self).atlas().height(),
            ({
                let (es, res) = get_or_add_spec(
                    old(self).atlas().entries(),
                    old(self).atlas().width(),
                    old(self).atlas().height(),
                    image.id,
                    image.width as nat,
                    image.height as nat,
                );
                &&& final(self).atlas().entries() == es
                &&& match res {
                    Ok(reg) => {
                        &&& r is Ok
                        &&& final(self).vertices() == old(self).vertices() + quad(sprite, image.id, reg)
                        &&& lookup(old(self).atlas().entries(), image.id) is Some
                            ==> final(self).pending() == old(self).pending()
                        &&& lookup(old(self).atlas().entries(), image.id) is None ==> {
                            &&& final(self).pending().len() == old(self).pending().len() + 1
                            &&& final(self).pending().drop_last() == old(self).pending()
                            &&& upload_of(image, reg, final(self).pending().last())
                        }
                    },
                    Err(e) => {
                        &&& r == Err::<(), AtlasError>(e)
                        &&& final(self).vertices() == old(self).vertices()
                        &&& final(self).pending() == old(self).pending()
                    },
                }
            }),
    {
        let ghost s = self.atlas.entries();
        let ghost p = self.uploads@;
        let ghost vs = self.vertices@;
        proof {
            lemma_lookup_found(s, image.id);
            lemma_lookup_absent(s, image.id);
        }
        let reg = match self.atlas.get_texture_block(image) {
            Some(reg) => reg,
            None => {
                let reg = match self.atlas.add_texture(image) {
                    Ok(reg) => reg,
                    Err(e) => {
                        return Err(e);
                    },
                };
                let u = TextureUpload {
                    image: image.id,
                    x: reg[0],
                    y: reg[1],
                    width: image.width,
                    height: image.height,
                    pixels: image.pixels.clone(),
                };
                assert(u.pixels@ == image.pixels@);
                self.uploads.push(u);
                proof {
                    let t = self.atlas.entries();
                    assert(t.last() == (image.id, reg));
                    assert(has_upload(self.uploads@, image.id)) by {
                        assert(self.uploads@[self.uploads@.len() - 1].image == image.id);
                    }
                    assert forall|k: int| 0 <= k < p.len() implies #[trigger] self.uploads@[k] == p[k] by {}
                    assert forall|k: int| 0 <= k < t.len() implies self.uploaded().contains(
                        (#[trigger] t[k]).0,
                    ) || has_upload(self.uploads@, t[k].0) by {
                        if k < s.len() {
                            assert(t[k] == s[k]);
                            if has_upload(p, s[k].0) {
                                let j = choose|j: int| 0 <= j < p.len() && (#[trigger] p[j]).image == s[k].0;
                                assert(self.uploads@[j] == p[j]);
                            }
                        }
                    }
                    assert forall|i: int| 0 <= i < vs.len() implies self.uploaded().contains(
                        (#[trigger] vs[i]).image,
                    ) || has_upload(self.uploads@, vs[i].image) by {
                        if has_upload(p, vs[i].image) {
                            let j = choose|j: int| 0 <= j < p.len() && (#[trigger] p[j]).image == vs[i].image;
                            assert(self.uploads@[j] == p[j]);
                        }
                    }
                }
                reg
            },
        };
        proof {
            let t = self.atlas.entries();
            lemma_lookup_found(t, image.id);
            assert(lookup(t, image.id) == Some(reg));
            let k = choose|k: int| 0 <= k < t.len() && #[trigger] t[k] == (image.id, reg);
            assert(self.uploaded().contains(t[k].0) || has_upload(self.uploads@, t[k].0));
        }
        let ghost v0 = self.vertices@;
        self.vertices.push(Self::vertex(sprite, image.id, Corner::LowerLeft, reg));
        self.vertices.push(Self::vertex(sprite, image.id, Corner::UpperLeft, reg));
        self.vertices.push(Self::vertex(sprite, image.id, Corner::LowerRight, reg));
        self.vertices.push(Self::vertex(sprite, image.id, Corner::UpperLeft, reg));
        self.vertices.push(Self::vertex(sprite, image.id, Corner::UpperRight, reg));
        self.vertices.push(Self::vertex(sprite, image.id, Corner::LowerRight, reg));
        assert(self.vertices@ =~= v0 + quad(sprite, image.id, reg));
        Ok(())
    }

    /// Ends the frame: hands over its uploads and its vertices, in draw
    /// order, and leaves the next frame empty. Every vertex handed over shows
    /// an image whose upload is in this frame or in an earlier one.
    pub fn do_render(&mut self) -> (f: Frame<T>)
        requires
            old(self).wf(),
        ensures
            final(self).wf(),
            final(self).atlas() == old(self).atlas(),
            f.uploads@ == old(self).pending(),
            f.vertices@ == old(self).vertices(),
            final(self).vertices().len() == 0,
            final(self).pending().len() == 0,
            final(self).uploaded() == old(self).uploaded().union(
                Set::new(|id: u64| has_upload(old(self).pending(), id)),
            ),
            forall|i: int|
                0 <= i < f.vertices@.len() ==> old(self).uploaded().contains(
                    (#[trigger] f.vertices@[i]).image,
                ) || has_upload(f.uploads@, f.vertices@[i].image),
    {
        let mut uploads: Vec<TextureUpload> = Vec::new();
        let mut vertices: Vec<SpriteVertex<T>> = Vec::new();
        std::mem::swap(&mut uploads, &mut self.uploads);
        std::mem::swap(&mut vertices, &mut self.vertices);
        let ghost p = uploads@;
        self.uploaded = Ghost(self.uploaded@.union(Set::new(|id: u64| has_upload(p, id))));
        Frame { uploads, vertices }
    }
}

} // verus!
