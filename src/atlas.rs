//! Online first-fit packing of images into one fixed-size surface.
//!
//! Each image gets a region `[x0, y0, x1, y1]` of exactly its size. Regions
//! are never moved or freed, and any two of them keep at least one unit of
//! empty space between them, so that sampling one never bleeds into another.
use vstd::prelude::*;

verus! {

/// A region of the surface, `[x0, y0, x1, y1]`, with `x0 < x1` and `y0 < y1`.
pub type Region = [u32; 4];

/// An image to be placed: a stable identifier, its size in pixels and its
/// pixel bytes.
pub struct TextureImage {
    pub id: u64,
    pub width: u32,
    pub height: u32,
    pub pixels: Vec<u8>,
}

impl TextureImage {
    pub fn new(id: u64, width: u32, height: u32, pixels: Vec<u8>) -> (r: TextureImage)
        ensures
            r.id == id,
            r.width == width,
            r.height == height,
            r.pixels@ == pixels@,
    {
        TextureImage { id, width, height, pixels }
    }

    pub fn id(&self) -> (r: u64)
        ensures
            r == self.id,
    {
        self.id
    }

    pub fn width(&self) -> (r: u32)
        ensures
            r == self.width,
    {
        self.width
    }

    pub fn height(&self) -> (r: u32)
        ensures
            r == self.height,
    {
        self.height
    }
}

/// Why an image could not be placed.
#[derive(Debug, Clone, Copy, PartialEq, Eq, Structural)]
pub enum AtlasError {
    /// No free place of the image's size is left on the surface.
    Overflow,
}

/// Whether the candidate `[x, y, x + w, y + h]`, widened by one unit on every
/// side, shares a point with the region `r`.
pub open spec fn hits(r: Region, x: int, y: int, w: int, h: int) -> bool {
    x <= r[2] && r[0] <= x + w && y <= r[3] && r[1] <= y + h
}

/// Whether one unit of empty space, at least, lies between `a` and `b`: either
/// one widened by a unit on every side shares no point with the other.
pub open spec fn separated(a: Region, b: Region) -> bool {
    a[2] < b[0] || b[2] < a[0] || a[3] < b[1] || b[3] < a[1]
}

/// One past the rightmost right edge among the regions of `s` that the
/// candidate hits, or 0 where it hits none.
pub open spec fn max_right(s: Seq<(u64, Region)>, x: int, y: int, w: nat, h: nat) -> int
    decreases s.len(),
{
    if s.len() == 0 {
        0
    } else {
        let m = max_right(s.drop_last(), x, y, w, h);
        let r = s.last().1;
        if hits(r, x, y, w as int, h as int) && m < r[2] + 1 {
            r[2] + 1
        } else {
            m
        }
    }
}

/// The least of `ny` and one past each bottom edge among the regions of `s`
/// that the candidate hits.
pub open spec fn next_row(s: Seq<(u64, Region)>, x: int, y: int, w: nat, h: nat, ny: int) -> int
    decreases s.len(),
{
    if s.len() == 0 {
        ny
    } else {
        let m = next_row(s.drop_last(), x, y, w, h, ny);
        let r = s.last().1;
        if hits(r, x, y, w as int, h as int) && r[3] + 1 < m {
            r[3] + 1
        } else {
            m
        }
    }
}

/// The scan of the row at `y` from column `x` on, for a `w` by `h` image on a
/// surface `width` wide: the column of the first fit, if any, and the row
/// where the next scan line starts. A candidate that hits regions moves past
/// the rightmost of them; the next row starts below the highest bottom edge
/// met on the way.
pub open spec fn scan_row(
    s: Seq<(u64, Region)>,
    width: int,
    w: nat,
    h: nat,
    x: int,
    y: int,
    ny: int,
) -> (Option<int>, int)
    decreases if x <= width { width - x + 1 } else { 0 },
{
    if x + w > width {
        (None, ny)
    } else {
        let nx = max_right(s, x, y, w, h);
        if nx <= x {
            (Some(x), ny)
        } else {
            scan_row(s, width, w, h, nx, y, next_row(s, x, y, w, h, ny))
        }
    }
}

/// The first-fit scan from row `y` down: the top-left corner where the image
/// goes, if any. Each row is scanned from column 1; a row without a fit hands
/// over to the row that its scan computed.
pub open spec fn scan(s: Seq<(u64, Region)>, width: int, height: int, w: nat, h: nat, y: int) -> Option<(int, int)>
    decreases if y <= height { height - y + 1 } else { 0 },
{
    if y + h > height {
        None
    } else {
        let (fx, ny) = scan_row(s, width, w, h, 1, y, height);
        match fx {
            Some(x) => Some((x, y)),
            None => if y < ny {
                scan(s, width, height, w, h, ny)
            } else {
                None
            },
        }
    }
}

/// Where a `w` by `h` image goes among the regions of `s`: the scan starts at
/// `(1, 1)`, one unit in from the surface's corner.
pub open spec fn placement(s: Seq<(u64, Region)>, width: int, height: int, w: nat, h: nat) -> Option<Region> {
    match scan(s, width, height, w, h, 1) {
        Some((x, y)) => Some([x as u32, y as u32, (x + w) as u32, (y + h) as u32]),
        None => None,
    }
}

/// The region recorded for `id`, the latest if there were several.
pub open spec fn lookup(s: Seq<(u64, Region)>, id: u64) -> Option<Region>
    decreases s.len(),
{
    if s.len() == 0 {
        None
    } else if s.last().0 == id {
        Some(s.last().1)
    } else {
        lookup(s.drop_last(), id)
    }
}

/// No image has two regions.
pub open spec fn ids_unique(s: Seq<(u64, Region)>) -> bool {
    forall|i: int, j: int| 0 <= i < j < s.len() ==> s[i].0 != s[j].0
}

/// Every region lies on the surface, one unit in from its top and left edges.
pub open spec fn regions_in_bounds(s: Seq<(u64, Region)>, width: int, height: int) -> bool {
    forall|i: int|
        0 <= i < s.len() ==> 1 <= (#[trigger] s[i]).1[0] < s[i].1[2] <= width && 1 <= s[i].1[1]
            < s[i].1[3] <= height
}

/// Any two regions keep one unit of empty space between them.
pub open spec fn regions_separated(s: Seq<(u64, Region)>) -> bool {
    forall|i: int, j: int|
        0 <= i < s.len() && 0 <= j < s.len() && i != j ==> separated(
            #[trigger] s[i].1,
            #[trigger] s[j].1,
        )
}

/// What a lookup-or-place of image `id` (`w` by `h`) does: the regions after
/// it, and what it returns.
pub open spec fn get_or_add_spec(
    s: Seq<(u64, Region)>,
    width: int,
    height: int,
    id: u64,
    w: nat,
    h: nat,
) -> (Seq<(u64, Region)>, Result<Region, AtlasError>) {
    match lookup(s, id) {
        Some(r) => (s, Ok(r)),
        None => match placement(s, width, height, w, h) {
            Some(r) => (s.push((id, r)), Ok(r)),
            None => (s, Err(AtlasError::Overflow)),
        },
    }
}

proof fn lemma_max_right_clear(s: Seq<(u64, Region)>, x: int, y: int, w: nat, h: nat)
    requires
        max_right(s, x, y, w, h) <= x,
    ensures
        forall|k: int| 0 <= k < s.len() ==> !hits(#[trigger] s[k].1, x, y, w as int, h as int),
    decreases s.len(),
{
    if s.len() > 0 {
        lemma_max_right_clear(s.drop_last(), x, y, w, h);
        assert forall|k: int| 0 <= k < s.len() implies !hits(#[trigger] s[k].1, x, y, w as int, h as int) by {
            if k < s.len() - 1 {
                assert(s[k] == s.drop_last()[k]);
            }
        }
    }
}

proof fn lemma_max_right_bound(s: Seq<(u64, Region)>, x: int, y: int, w: nat, h: nat)
    ensures
        0 <= max_right(s, x, y, w, h) <= u32::MAX + 1,
    decreases s.len(),
{
    if s.len() > 0 {
        lemma_max_right_bound(s.drop_last(), x, y, w, h);
    }
}

proof fn lemma_next_row_below(s: Seq<(u64, Region)>, x: int, y: int, w: nat, h: nat, ny: int)
    requires
        y < ny,
    ensures
        y < next_row(s, x, y, w, h, ny) <= ny,
    decreases s.len(),
{
    if s.len() > 0 {
        lemma_next_row_below(s.drop_last(), x, y, w, h, ny);
    }
}

proof fn lemma_scan_row_fit(s: Seq<(u64, Region)>, width: int, w: nat, h: nat, x: int, y: int, ny: int)
    requires
        1 <= x,
    ensures
        scan_row(s, width, w, h, x, y, ny).0 matches Some(fx) ==> 1 <= fx && fx + w <= width
            && max_right(s, fx, y, w, h) <= fx,
    decreases if x <= width { width - x + 1 } else { 0 },
{
    if x + w <= width {
        let nx = max_right(s, x, y, w, h);
        if nx > x {
            lemma_scan_row_fit(s, width, w, h, nx, y, next_row(s, x, y, w, h, ny));
        }
    }
}

proof fn lemma_scan_fit(s: Seq<(u64, Region)>, width: int, height: int, w: nat, h: nat, y: int)
    requires
        1 <= y,
    ensures
        scan(s, width, height, w, h, y) matches Some((fx, fy)) ==> 1 <= fx && fx + w <= width && 1
            <= fy && fy + h <= height && max_right(s, fx, fy, w, h) <= fx,
    decreases if y <= height { height - y + 1 } else { 0 },
{
    if y + h <= height {
        lemma_scan_row_fit(s, width, w, h, 1, y, height);
        let (fx, ny) = scan_row(s, width, w, h, 1, y, height);
        if fx is None && y < ny {
            lemma_scan_fit(s, width, height, w, h, ny);
        }
    }
}

pub(crate) proof fn lemma_lookup_absent(s: Seq<(u64, Region)>, id: u64)
    ensures
        lookup(s, id) is None <==> forall|k: int| 0 <= k < s.len() ==> (#[trigger] s[k]).0 != id,
    decreases s.len(),
{
    if s.len() > 0 {
        lemma_lookup_absent(s.drop_last(), id);
        if lookup(s, id) is None {
            assert forall|k: int| 0 <= k < s.len() implies (#[trigger] s[k]).0 != id by {
                if k < s.len() - 1 {
                    assert(s[k] == s.drop_last()[k]);
                }
            }
        } else if s.last().0 != id {
            let k = choose|k: int| 0 <= k < s.len() - 1 && (#[trigger] s.drop_last()[k]).0 == id;
            assert(s[k] == s.drop_last()[k]);
        }
    }
}

/// A region that the lookup finds was recorded for that identifier.
pub proof fn lemma_lookup_found(s: Seq<(u64, Region)>, id: u64)
    ensures
        lookup(s, id) matches Some(r) ==> exists|k: int| 0 <= k < s.len() && #[trigger] s[k] == (id, r),
    decreases s.len(),
{
    if s.len() > 0 && s.last().0 != id {
        lemma_lookup_found(s.drop_last(), id);
        if lookup(s, id) is Some {
            let k = choose|k: int| 0 <= k < s.len() - 1 && #[trigger] s.drop_last()[k] == (id, lookup(s, id)->0);
            assert(s[k] == s.drop_last()[k]);
        }
    } else if s.len() > 0 {
        assert(s[s.len() - 1] == s.last());
    }
}

/// A placement found by the scan keeps the regions on the surface and apart.
proof fn lemma_placement_apart(s: Seq<(u64, Region)>, width: int, height: int, id: u64, w: nat, h: nat)
    requires
        regions_in_bounds(s, width, height),
        regions_separated(s),
        1 <= w,
        1 <= h,
        width <= u32::MAX,
        height <= u32::MAX,
        placement(s, width, height, w, h) is Some,
    ensures
        regions_in_bounds(s.push((id, placement(s, width, height, w, h)->0)), width, height),
        regions_separated(s.push((id, placement(s, width, height, w, h)->0))),
{
    lemma_scan_fit(s, width, height, w, h, 1);
    let (x, y) = scan(s, width, height, w, h, 1)->0;
    lemma_max_right_clear(s, x, y, w, h);
    let r = placement(s, width, height, w, h)->0;
    let t = s.push((id, r));
    assert(r[0] == x && r[1] == y && r[2] == x + w && r[3] == y + h);
    assert forall|k: int| 0 <= k < s.len() implies #[trigger] t[k] == s[k] by {}
    assert(t[s.len() as int] == (id, r));
    assert forall|i: int, j: int| 0 <= i < t.len() && 0 <= j < t.len() && i != j implies separated(
        #[trigger] t[i].1,
        #[trigger] t[j].1,
    ) by {
        if i == s.len() {
            assert(!hits(s[j].1, x, y, w as int, h as int));
        } else if j == s.len() {
            assert(!hits(s[i].1, x, y, w as int, h as int));
        }
    }
}

/// The whole units `x0 <= i < x1`, `y0 <= j < y1`.
pub open spec fn grid(x0: int, x1: int, y0: int, y1: int) -> Set<(int, int)> {
    Set::new(|p: (int, int)| x0 <= p.0 < x1 && y0 <= p.1 < y1)
}

/// The units of a region together with the column to its right and the row
/// below it.
pub open spec fn footprint(r: Region) -> Set<(int, int)> {
    grid(r[0] as int, r[2] + 1, r[1] as int, r[3] + 1)
}

/// The summed areas of the regions' footprints, `(w + 1) * (h + 1)` each.
pub open spec fn total_footprint(s: Seq<(u64, Region)>) -> int
    decreases s.len(),
{
    if s.len() == 0 {
        0
    } else {
        total_footprint(s.drop_last()) + (s.last().1[2] - s.last().1[0] + 1) * (s.last().1[3]
            - s.last().1[1] + 1)
    }
}

spec fn cover(s: Seq<(u64, Region)>) -> Set<(int, int)>
    decreases s.len(),
{
    if s.len() == 0 {
        Set::empty()
    } else {
        cover(s.drop_last()) + footprint(s.last().1)
    }
}

proof fn lemma_column_len(x: int, y0: int, y1: int)
    requires
        y0 <= y1,
    ensures
        grid(x, x + 1, y0, y1).finite(),
        grid(x, x + 1, y0, y1).len() == y1 - y0,
    decreases y1 - y0,
{
    if y0 == y1 {
        assert(grid(x, x + 1, y0, y1) =~= Set::empty());
    } else {
        lemma_column_len(x, y0, y1 - 1);
        assert(grid(x, x + 1, y0, y1) =~= grid(x, x + 1, y0, y1 - 1).insert((x, y1 - 1)));
    }
}

proof fn lemma_grid_len(x0: int, x1: int, y0: int, y1: int)
    requires
        x0 <= x1,
        y0 <= y1,
    ensures
        grid(x0, x1, y0, y1).finite(),
        grid(x0, x1, y0, y1).len() == (x1 - x0) * (y1 - y0),
    decreases x1 - x0,
{
    if x0 == x1 {
        assert(grid(x0, x1, y0, y1) =~= Set::empty());
    } else {
        lemma_grid_len(x0, x1 - 1, y0, y1);
        lemma_column_len(x1 - 1, y0, y1);
        let a = grid(x0, x1 - 1, y0, y1);
        let b = grid(x1 - 1, x1, y0, y1);
        assert(grid(x0, x1, y0, y1) =~= a + b);
        assert(a.disjoint(b));
        vstd::set_lib::lemma_set_disjoint_lens(a, b);
        assert((x1 - x0) * (y1 - y0) == (x1 - 1 - x0) * (y1 - y0) + (y1 - y0)) by (nonlinear_arith);
    }
}

proof fn lemma_cover_member(s: Seq<(u64, Region)>, p: (int, int))
    requires
        cover(s).contains(p),
    ensures
        exists|k: int| 0 <= k < s.len() && footprint(#[trigger] s[k].1).contains(p),
    decreases s.len(),
{
    let t = s.drop_last();
    if cover(t).contains(p) {
        lemma_cover_member(t, p);
        let k = choose|k: int| 0 <= k < t.len() && footprint(#[trigger] t[k].1).contains(p);
        assert(s[k] == t[k]);
    } else {
        assert(s[s.len() - 1] == s.last());
    }
}

proof fn lemma_cover_len(s: Seq<(u64, Region)>, width: int, height: int)
    requires
        regions_in_bounds(s, width, height),
        regions_separated(s),
    ensures
        cover(s).finite(),
        cover(s).len() == total_footprint(s),
        cover(s).subset_of(grid(1, width + 1, 1, height + 1)),
    decreases s.len(),
{
    if s.len() > 0 {
        let t = s.drop_last();
        let n = s.len() - 1;
        assert forall|k: int| 0 <= k < t.len() implies #[trigger] t[k] == s[k] by {}
        assert(s[n] == s.last());
        lemma_cover_len(t, width, height);
        let r = s.last().1;
        lemma_grid_len(r[0] as int, r[2] + 1, r[1] as int, r[3] + 1);
        assert(cover(t).disjoint(footprint(r))) by {
            assert forall|p: (int, int)| cover(t).contains(p) implies !footprint(r).contains(p) by {
                lemma_cover_member(t, p);
                let k = choose|k: int| 0 <= k < t.len() && footprint(#[trigger] t[k].1).contains(p);
                assert(separated(s[k].1, s[n].1));
            }
        }
        vstd::set_lib::lemma_set_disjoint_lens(cover(t), footprint(r));
    }
}

/// Regions grown by one unit to the right and below share no unit and stay
/// on the surface, so their areas, `(w + 1) * (h + 1)` each, sum to at most
/// the surface's area.
pub proof fn lemma_footprints_fit(s: Seq<(u64, Region)>, width: int, height: int)
    requires
        regions_in_bounds(s, width, height),
        regions_separated(s),
        0 <= width,
        0 <= height,
    ensures
        total_footprint(s) <= width * height,
{
    lemma_cover_len(s, width, height);
    lemma_grid_len(1, width + 1, 1, height + 1);
    vstd::set_lib::lemma_len_subset(cover(s), grid(1, width + 1, 1, height + 1));
}

/// An image that, grown by one unit to the right and below, would take the
/// summed footprints past the surface's area cannot be placed: the insert
/// fails with an overflow.
pub proof fn lemma_full_surface_overflows(s: Seq<(u64, Region)>, width: int, height: int, w: nat, h: nat)
    requires
        regions_in_bounds(s, width, height),
        regions_separated(s),
        0 <= width <= u32::MAX,
        0 <= height <= u32::MAX,
        1 <= w,
        1 <= h,
        total_footprint(s) + (w + 1) * (h + 1) > width * height,
    ensures
        placement(s, width, height, w, h) is None,
{
    if placement(s, width, height, w, h) is Some {
        let r = placement(s, width, height, w, h)->0;
        lemma_placement_apart(s, width, height, 0, w, h);
        lemma_scan_fit(s, width, height, w, h, 1);
        let t = s.push((0u64, r));
        assert(t.drop_last() =~= s);
        lemma_footprints_fit(t, width, height);
    }
}

/// A region placed for an image is found again under its identifier, so a
/// second lookup-or-place of the same image returns the same region and
/// changes nothing, whatever size the image claims the second time.
pub proof fn lemma_get_or_add_stable(
    s: Seq<(u64, Region)>,
    width: int,
    height: int,
    id: u64,
    w: nat,
    h: nat,
    w2: nat,
    h2: nat,
)
    requires
        get_or_add_spec(s, width, height, id, w, h).1 is Ok,
    ensures
        get_or_add_spec(get_or_add_spec(s, width, height, id, w, h).0, width, height, id, w2, h2)
            == get_or_add_spec(s, width, height, id, w, h),
{
}

/// An image at least as wide or as tall as the surface never fits: the margin
/// of one unit at the top and left leaves too little room.
pub proof fn lemma_oversized_overflows(s: Seq<(u64, Region)>, width: int, height: int, w: nat, h: nat)
    requires
        w >= width || h >= height,
    ensures
        placement(s, width, height, w, h) is None,
{
    lemma_scan_fit(s, width, height, w, h, 1);
}

/// A fixed-size surface and the regions given out on it, in the order in
/// which they were given.
pub struct TextureAtlas {
    size: (u32, u32),
    texture_blocks: Vec<(u64, Region)>,
}

impl TextureAtlas {
    pub closed spec fn width(&self) -> int {
        self.size.0 as int
    }

    pub closed spec fn height(&self) -> int {
        self.size.1 as int
    }

    /// The images placed so far with their regions, oldest first.
    pub closed spec fn entries(&self) -> Seq<(u64, Region)> {
        self.texture_blocks@
    }

    pub open spec fn wf(&self) -> bool {
        &&& ids_unique(self.entries())
        &&& regions_in_bounds(self.entries(), self.width(), self.height())
        &&& regions_separated(self.entries())
    }

    /// Any two regions of a well-formed atlas keep one unit of empty space
    /// between them, and every region lies on the surface with
    /// `1 <= x0 < x1 <= width` and `1 <= y0 < y1 <= height`.
    pub proof fn lemma_regions_placed_apart(&self, i: int, j: int)
        requires
            self.wf(),
            0 <= i < self.entries().len(),
            0 <= j < self.entries().len(),
        ensures
            i != j ==> separated(self.entries()[i].1, self.entries()[j].1),
            1 <= self.entries()[i].1[0] < self.entries()[i].1[2] <= self.width(),
            1 <= self.entries()[i].1[1] < self.entries()[i].1[3] <= self.height(),
    {
    }

    /// An empty atlas over a surface of `size.0` by `size.1`.
    pub fn new(size: (u32, u32)) -> (r: TextureAtlas)
        ensures
            r.wf(),
            r.width() == size.0,
            r.height() == size.1,
            r.entries() == Seq::<(u64, Region)>::empty(),
    {
        TextureAtlas { size, texture_blocks: Vec::new() }
    }

    pub fn size(&self) -> (r: (u32, u32))
        ensures
            r.0 == self.width(),
            r.1 == self.height(),
    {
        self.size
    }

    /// How many images have a region.
    pub fn len(&self) -> (r: usize)
        ensures
            r == self.entries().len(),
    {
        self.texture_blocks.len()
    }

    /// The region of an image placed before, if it was.
    pub fn get_texture_block(&self, texture: &TextureImage) -> (r: Option<Region>)
        ensures
            r == lookup(self.entries(), texture.id),
    {
        let ghost s = self.entries();
        let mut i: usize = self.texture_blocks.len();
        proof {
            assert(s.take(i as int) =~= s);
        }
        while i > 0
            invariant
                s == self.entries(),
                i <= s.len(),
                lookup(s, texture.id) == lookup(s.take(i as int), texture.id),
            decreases i,
        {
            let e = self.texture_blocks[i - 1];
            proof {
                assert(s.take(i as int).drop_last() =~= s.take(i - 1));
            }
            if e.0 == texture.id {
                return Some(e.1);
            }
            i = i - 1;
        }
        None
    }

    /// Over the regions, for the candidate `[x, y, x + w, y + h]`: one past
    /// the rightmost right edge it hits (0 if none), and the next row start.
    fn hits_in_row(&self, x: u64, y: u64, w: u64, h: u64, ny: u64) -> (r: (u64, u64))
        requires
            x <= u32::MAX + 1,
            y <= u32::MAX,
            w <= u32::MAX,
            h <= u32::MAX,
            y < ny <= u32::MAX,
        ensures
            r.0 == max_right(self.entries(), x as int, y as int, w as nat, h as nat),
            r.1 == next_row(self.entries(), x as int, y as int, w as nat, h as nat, ny as int),
    {
        let ghost s = self.entries();
        let mut nx: u64 = 0;
        let mut nny: u64 = ny;
        let mut i: usize = 0;
        while i < self.texture_blocks.len()
            invariant
                s == self.entries(),
                i <= s.len(),
                x <= u32::MAX + 1,
                y <= u32::MAX,
                w <= u32::MAX,
                h <= u32::MAX,
                y < ny <= u32::MAX,
                nx == max_right(s.take(i as int), x as int, y as int, w as nat, h as nat),
                nny == next_row(s.take(i as int), x as int, y as int, w as nat, h as nat, ny as int),
            decreases s.len() - i,
        {
            proof {
                assert(s.take(i + 1).drop_last() =~= s.take(i as int));
                lemma_next_row_below(s.take(i as int), x as int, y as int, w as nat, h as nat, ny as int);
            }
            let r = self.texture_blocks[i].1;
            let r0 = r[0] as u64;
            let r1 = r[1] as u64;
            let r2 = r[2] as u64;
            let r3 = r[3] as u64;
            if x <= r2 && r0 <= x + w && y <= r3 && r1 <= y + h {
                if nx < r2 + 1 {
                    nx = r2 + 1;
                }
                if r3 + 1 < nny {
                    nny = r3 + 1;
                }
            }
            i = i + 1;
        }
        proof {
            assert(s.take(s.len() as int) =~= s);
        }
        (nx, nny)
    }

    /// The scan of row `y` for a `w` by `h` image.
    fn find_in_row(&self, w: u64, h: u64, y: u64) -> (r: (Option<u64>, u64))
        requires
            1 <= w <= u32::MAX,
            1 <= h <= u32::MAX,
            1 <= y,
            y + h <= self.height(),
        ensures
            r.0 matches Some(x) ==> scan_row(self.entries(), self.width(), w as nat, h as nat, 1, y as int, self.height()).0 == Some(x as int),
            r.0 is None ==> scan_row(self.entries(), self.width(), w as nat, h as nat, 1, y as int, self.height()) == (None::<int>, r.1 as int),
            y < r.1 <= self.height(),
    {
        let ghost s = self.entries();
        let width = self.size.0 as u64;
        let mut x: u64 = 1;
        let mut ny: u64 = self.size.1 as u64;
        while x + w <= width
            invariant
                s == self.entries(),
                width == self.width(),
                1 <= w <= u32::MAX,
                1 <= h <= u32::MAX,
                1 <= y,
                y + h <= self.height(),
                1 <= x <= u32::MAX + 1,
                y < ny <= self.height(),
                scan_row(s, width as int, w as nat, h as nat, 1, y as int, self.height())
                    == scan_row(s, width as int, w as nat, h as nat, x as int, y as int, ny as int),
            decreases u32::MAX + 1 - x,
        {
            let (nx, nny) = self.hits_in_row(x, y, w, h, ny);
            if nx <= x {
                return (Some(x), ny);
            }
            proof {
                lemma_max_right_bound(s, x as int, y as int, w as nat, h as nat);
                lemma_next_row_below(s, x as int, y as int, w as nat, h as nat, ny as int);
            }
            x = nx;
            ny = nny;
        }
        (None, ny)
    }

    /// The first-fit scan for a `w` by `h` image: its top-left corner, if it
    /// fits.
    fn find_place(&self, w: u64, h: u64) -> (r: Option<(u64, u64)>)
        requires
            1 <= w <= u32::MAX,
            1 <= h <= u32::MAX,
        ensures
            match r {
                Some((x, y)) => scan(self.entries(), self.width(), self.height(), w as nat, h as nat, 1)
                    == Some((x as int, y as int)),
                None => scan(self.entries(), self.width(), self.height(), w as nat, h as nat, 1) is None,
            },
    {
        let ghost s = self.entries();
        let height = self.size.1 as u64;
        let mut y: u64 = 1;
        while y + h <= height
            invariant
                s == self.entries(),
                height == self.height(),
                1 <= w <= u32::MAX,
                1 <= h <= u32::MAX,
                1 <= y <= u32::MAX,
                scan(s, self.width(), height as int, w as nat, h as nat, 1)
                    == scan(s, self.width(), height as int, w as nat, h as nat, y as int),
            decreases u32::MAX + 1 - y,
        {
            let (fx, ny) = self.find_in_row(w, h, y);
            match fx {
                Some(x) => {
                    return Some((x, y));
                },
                None => {},
            }
            y = ny;
        }
        None
    }

    /// Places an image not placed before: the first free spot of the scan
    /// becomes its region. Where none is left, the atlas stays as it was.
    pub fn add_texture(&mut self, texture: &TextureImage) -> (r: Result<Region, AtlasError>)
        requires
            old(self).wf(),
            texture.width > 0,
            texture.height > 0,
            lookup(old(self).entries(), texture.id) is None,
        ensures
            final(self).wf(),
            final(self).width() == old(self).width(),
            final(self).height() == old(self).height(),
            match placement(old(self).entries(), old(self).width(), old(self).height(), texture.width as nat, texture.height as nat) {
                Some(reg) => r == Ok::<Region, AtlasError>(reg) && final(self).entries() == old(self).entries().push((texture.id, reg)),
                None => r == Err::<Region, AtlasError>(AtlasError::Overflow) && final(self).entries() == old(self).entries(),
            },
    {
        let ghost s = self.entries();
        let w = texture.width as u64;
        let h = texture.height as u64;
        match self.find_place(w, h) {
            Some((x, y)) => {
                proof {
                    lemma_scan_fit(s, self.width(), self.height(), w as nat, h as nat, 1);
                    lemma_placement_apart(s, self.width(), self.height(), texture.id, w as nat, h as nat);
                    lemma_lookup_absent(s, texture.id);
                }
                let region: Region = [x as u32, y as u32, (x + w) as u32, (y + h) as u32];
                self.texture_blocks.push((texture.id, region));
                proof {
                    assert(self.entries() == s.push((texture.id, region)));
                    assert forall|k: int| 0 <= k < s.len() implies #[trigger] self.entries()[k] == s[k] by {}
                }
                Ok(region)
            },
            None => Err(AtlasError::Overflow),
        }
    }

    /// The region of the image: the one it was given before, or a new one.
    /// An image keeps its region for the life of the atlas.
    pub fn get_or_add(&mut self, texture: &TextureImage) -> (r: Result<Region, AtlasError>)
        requires
            old(self).wf(),
            texture.width > 0,
            texture.height > 0,
        ensures
            final(self).wf(),
            final(self).width() == old(self).width(),
            final(self).height() == old(self).height(),
            (final(self).entries(), r) == get_or_add_spec(old(self).entries(), old(self).width(), old(self).height(), texture.id, texture.width as nat, texture.height as nat),
    {
        match self.get_texture_block(texture) {
            Some(region) => Ok(region),
            None => self.add_texture(texture),
        }
    }
}

} // verus!
