//! Sight the settlement "OK" button in a captured frame, so the round advance
//! fires when the score breakdown is actually visible.
//!
//! The button is a solid turquoise fill whose color is unique on the
//! settlement screen, so the detector is a color-blob finder: the countdown
//! digits are never compared, and the thresholds scale with the frame width.
//!
//! Pixels are numbered row by row from the top left corner. Two fill pixels
//! belong to one cluster when a chain of fill pixels leads from one to the
//! other, each within six columns and six rows of the one before.
use vstd::prelude::*;

verus! {

/// Frame width that the pixel threshold was calibrated at.
pub const CALIBRATION_WIDTH: u32 = 664;

/// Fewest fill pixels of a button at the calibration width.
pub const CALIBRATION_PIXELS: u32 = 800;

/// How far apart, in columns and in rows, two pixels of one cluster may lie.
pub const BRIDGE: u32 = 6;

/// What a frame shows: its size and its bytes, four to a pixel (red, green,
/// blue, alpha), row by row.
pub struct FrameModel {
    pub width: int,
    pub height: int,
    pub rgba: Seq<u8>,
}

/// A captured frame of at most `u32::MAX` pixels.
pub struct Frame {
    width: u32,
    height: u32,
    rgba: Vec<u8>,
}

/// A sighting: bounding box in frame pixels and classified fill count.
#[derive(Debug, Clone, Copy, PartialEq, Eq, Structural)]
pub struct ButtonSighting {
    pub x0: u32,
    pub y0: u32,
    pub x1: u32,
    pub y1: u32,
    pub pixels: u32,
}

/// The turquoise of the button: bright in green and blue, clearly weaker in
/// red, and with green and blue close to each other.
pub open spec fn button_cyan(r: u8, g: u8, b: u8) -> bool {
    &&& g > 190
    &&& b > 190
    &&& g - r > 60
    &&& b - r > 40
    &&& -90 < g - b < 90
}

impl FrameModel {
    /// How many pixels the frame has.
    pub open spec fn area(self) -> int {
        self.width * self.height
    }

    /// The column of pixel `i`.
    #[verifier::opaque]
    pub open spec fn col(self, i: int) -> int {
        i % self.width
    }

    /// The row of pixel `i`.
    #[verifier::opaque]
    pub open spec fn row(self, i: int) -> int {
        i / self.width
    }

    /// Pixel `i` lies in the frame and has the button's color.
    pub open spec fn fill(self, i: int) -> bool {
        &&& 0 <= i < self.area()
        &&& button_cyan(self.rgba[4 * i], self.rgba[4 * i + 1], self.rgba[4 * i + 2])
    }

    /// Pixels `i` and `j` are close enough to belong together.
    pub open spec fn near(self, i: int, j: int) -> bool {
        &&& -BRIDGE <= self.col(i) - self.col(j) <= BRIDGE
        &&& -BRIDGE <= self.row(i) - self.row(j) <= BRIDGE
    }

    /// A chain of fill pixels, each near the one before.
    pub open spec fn is_chain(self, path: Seq<int>) -> bool {
        &&& path.len() > 0
        &&& forall|k: int| 0 <= k < path.len() ==> self.fill(#[trigger] path[k])
        &&& forall|k: int, l: int|
            #![trigger path[k], path[l]]
            0 <= k && l == k + 1 && l < path.len() ==> self.near(path[k], path[l])
    }

    /// A chain of fill pixels leads from `i` to `j`.
    pub open spec fn joined(self, i: int, j: int) -> bool {
        exists|path: Seq<int>|
            #[trigger] self.is_chain(path) && path.first() == i && path.last() == j
    }

    /// The cluster that pixel `i` belongs to.
    pub open spec fn cluster(self, i: int) -> Set<int> {
        Set::new(|j: int| self.joined(i, j))
    }

    /// Pixel `i` is the first pixel of its cluster.
    pub open spec fn leads(self, i: int) -> bool {
        &&& self.fill(i)
        &&& forall|j: int| #[trigger] self.joined(i, j) ==> i <= j
    }

    /// `b` is the tight bounding box and the size of the cluster of pixel `i`.
    pub open spec fn measures(self, i: int, b: ButtonSighting) -> bool {
        &&& self.cluster(i).finite()
        &&& self.cluster(i).len() == b.pixels
        &&& forall|j: int| #[trigger] self.joined(i, j) ==> {
            &&& b.x0 <= self.col(j) <= b.x1
            &&& b.y0 <= self.row(j) <= b.y1
        }
        &&& exists|j: int| #[trigger] self.joined(i, j) && self.col(j) == b.x0
        &&& exists|j: int| #[trigger] self.joined(i, j) && self.col(j) == b.x1
        &&& exists|j: int| #[trigger] self.joined(i, j) && self.row(j) == b.y0
        &&& exists|j: int| #[trigger] self.joined(i, j) && self.row(j) == b.y1
    }

    /// Fewest pixels of a button in this frame: the calibrated count, scaled
    /// with the square of the width ratio.
    pub open spec fn least_pixels(self) -> int {
        let scaled = (CALIBRATION_PIXELS * self.width * self.width) / (CALIBRATION_WIDTH
            * CALIBRATION_WIDTH);
        if scaled > u32::MAX {
            u32::MAX as int
        } else {
            scaled
        }
    }

    /// A cluster of this shape is a button: large enough, between 2 and 4.5
    /// times as wide as tall, at least 55% fill, and with its center past 60%
    /// of the frame both ways.
    pub open spec fn qualifies(self, b: ButtonSighting) -> bool {
        let bw = b.x1 - b.x0 + 1;
        let bh = b.y1 - b.y0 + 1;
        &&& b.pixels >= self.least_pixels()
        &&& 20 * bh <= 10 * bw <= 45 * bh
        &&& 100 * b.pixels >= 55 * (bw * bh)
        &&& 10 * (b.x0 + b.x1) > 6 * (2 * self.width)
        &&& 10 * (b.y0 + b.y1) > 6 * (2 * self.height)
    }

    /// The cluster that pixel `i` leads measures `b` and is a button.
    pub open spec fn button_at(self, i: int, b: ButtonSighting) -> bool {
        &&& self.leads(i)
        &&& self.measures(i, b)
        &&& self.qualifies(b)
    }

    /// `b` is the largest button; of several equally large, the one whose
    /// first pixel comes first.
    pub open spec fn best_button(self, b: ButtonSighting) -> bool {
        exists|i: int| #[trigger]
            self.button_at(i, b) && forall|j: int, c: ButtonSighting| #[trigger]
                self.button_at(j, c) ==> c.pixels < b.pixels || (c.pixels == b.pixels && i <= j)
    }

    /// The frame shows no button.
    pub open spec fn no_button(self) -> bool {
        forall|i: int, b: ButtonSighting| !#[trigger] self.button_at(i, b)
    }
}

impl View for Frame {
    type V = FrameModel;

    closed spec fn view(&self) -> FrameModel {
        FrameModel {
            width: self.width as int,
            height: self.height as int,
            rgba: self.rgba@,
        }
    }
}

impl Frame {
    #[verifier::type_invariant]
    spec fn well_formed(self) -> bool {
        &&& self.rgba@.len() == 4 * (self.width * self.height)
        &&& self.width * self.height <= u32::MAX
    }

    /// A frame of the given size, or `None` where the bytes are not four to a
    /// pixel or the pixels are too many to count in a `u32`.
    pub fn new(width: u32, height: u32, rgba: Vec<u8>) -> (frame: Option<Frame>)
        ensures
            frame is Some <==> rgba@.len() == 4 * (width * height) && width * height <= u32::MAX,
            frame matches Some(f) ==> f@ == (FrameModel {
                width: width as int,
                height: height as int,
                rgba: rgba@,
            }),
    {
        proof {
            assert(0 <= width * height <= u32::MAX * u32::MAX) by (nonlinear_arith)
                requires
                    0 <= width <= u32::MAX,
                    0 <= height <= u32::MAX,
            ;
        }
        let area: u64 = width as u64 * height as u64;
        if area > u32::MAX as u64 || rgba.len() as u64 != 4 * area {
            return None;
        }
        Some(Frame { width, height, rgba })
    }
}

/// Whether a pixel has the button's color.
pub fn is_button_cyan(r: u8, g: u8, b: u8) -> (cyan: bool)
    ensures
        cyan == button_cyan(r, g, b),
{
    let (r, g, b) = (r as i16, g as i16, b as i16);
    g > 190 && b > 190 && g - r > 60 && b - r > 40 && g - b < 90 && b - g < 90
}

proof fn lemma_joined_self(m: FrameModel, i: int)
    requires
        m.fill(i),
    ensures
        m.joined(i, i),
{
    let path = seq![i];
    assert(m.is_chain(path));
    assert(path.first() == i && path.last() == i);
}

proof fn lemma_joined_step(m: FrameModel, i: int, j: int, k: int)
    requires
        m.joined(i, j),
        m.fill(k),
        m.near(j, k),
    ensures
        m.joined(i, k),
{
    let path = choose|path: Seq<int>| #[trigger]
        m.is_chain(path) && path.first() == i && path.last() == j;
    let longer = path.push(k);
    assert forall|a: int, b: int|
        #![trigger longer[a], longer[b]]
        0 <= a && b == a + 1 && b < longer.len() implies m.near(longer[a], longer[b]) by {
        if b < path.len() {
            assert(longer[a] == path[a] && longer[b] == path[b]);
        } else {
            assert(longer[a] == path.last());
        }
    }
    assert(m.is_chain(longer));
    assert(longer.first() == i && longer.last() == k);
}

proof fn lemma_joined_symmetric(m: FrameModel, i: int, j: int)
    requires
        m.joined(i, j),
    ensures
        m.joined(j, i),
{
    let path = choose|path: Seq<int>| #[trigger]
        m.is_chain(path) && path.first() == i && path.last() == j;
    let back = path.reverse();
    assert forall|a: int, b: int|
        #![trigger back[a], back[b]]
        0 <= a && b == a + 1 && b < back.len() implies m.near(back[a], back[b]) by {
        let k = path.len() - 1 - b;
        assert(back[b] == path[k]);
        assert(back[a] == path[k + 1]);
        assert(m.near(path[k], path[k + 1]));
    }
    assert(m.is_chain(back));
    assert(back.first() == j && back.last() == i);
}

/// The marked pixels are fill pixels, and with each one all fill pixels near it.
spec fn closed(m: FrameModel, marked: Seq<bool>) -> bool {
    &&& forall|i: int| 0 <= i < m.area() && #[trigger] marked[i] ==> m.fill(i)
    &&& forall|i: int, j: int|
        #![trigger marked[i], m.fill(j)]
        0 <= i < m.area() && marked[i] && m.fill(j) && m.near(i, j) ==> marked[j]
}

proof fn lemma_closed_holds_cluster(m: FrameModel, marked: Seq<bool>, i: int, j: int)
    requires
        closed(m, marked),
        0 <= i < m.area(),
        marked[i],
        m.joined(i, j),
    ensures
        m.fill(j),
        marked[j],
{
    let path = choose|path: Seq<int>| #[trigger]
        m.is_chain(path) && path.first() == i && path.last() == j;
    lemma_closed_holds_chain(m, marked, path);
    assert(m.fill(path[path.len() - 1]));
}

proof fn lemma_closed_holds_chain(m: FrameModel, marked: Seq<bool>, path: Seq<int>)
    requires
        closed(m, marked),
        m.is_chain(path),
        marked[path.first()],
    ensures
        marked[path.last()],
    decreases path.len(),
{
    if path.len() > 1 {
        let shorter = path.drop_last();
        assert forall|k: int| 0 <= k < shorter.len() implies m.fill(#[trigger] shorter[k]) by {
            assert(shorter[k] == path[k]);
        }
        assert forall|k: int, l: int|
            #![trigger shorter[k], shorter[l]]
            0 <= k && l == k + 1 && l < shorter.len() implies m.near(shorter[k], shorter[l]) by {
            assert(shorter[k] == path[k] && shorter[l] == path[l]);
        }
        lemma_closed_holds_chain(m, marked, shorter);
        let k = path.len() - 2;
        assert(shorter.last() == path[k]);
        assert(m.fill(path[k]));
        assert(m.near(path[k], path[k + 1]));
        assert(m.fill(path[k + 1]));
    }
}

proof fn lemma_pixel_number(m: FrameModel, x: int, y: int)
    requires
        0 <= x < m.width,
        0 <= y < m.height,
    ensures
        0 <= y * m.width + x < m.area(),
        m.col(y * m.width + x) == x,
        m.row(y * m.width + x) == y,
{
    reveal(FrameModel::col);
    reveal(FrameModel::row);
    vstd::arithmetic::div_mod::lemma_fundamental_div_mod_converse(
        y * m.width + x,
        m.width,
        y,
        x,
    );
    assert(0 <= y * m.width + x < m.width * m.height) by (nonlinear_arith)
        requires
            0 <= x < m.width,
            0 <= y < m.height,
    ;
}

proof fn lemma_pixel_place(m: FrameModel, i: int)
    requires
        0 <= i < m.area(),
        0 < m.width,
        0 < m.height,
    ensures
        0 <= m.col(i) < m.width,
        0 <= m.row(i) < m.height,
        i == m.row(i) * m.width + m.col(i),
{
    reveal(FrameModel::col);
    reveal(FrameModel::row);
    vstd::arithmetic::div_mod::lemma_fundamental_div_mod(i, m.width);
    vstd::arithmetic::div_mod::lemma_mod_bound(i, m.width);
    let q = i / m.width;
    let r = i % m.width;
    assert(i == m.width * q + r);
    assert(m.width * q == q * m.width) by (nonlinear_arith);
    assert(0 <= q < m.height) by (nonlinear_arith)
        requires
            0 <= i < m.width * m.height,
            i == m.width * q + r,
            0 <= r < m.width,
            0 < m.width,
    ;
}

/// How far the growth of a cluster from pixel `start` has come: `done` holds
/// the pixels that were taken from the stack, and what was visited is what was
/// visited before, what is done, and what waits on the stack.
spec fn growing(
    m: FrameModel,
    start: int,
    mask: Seq<bool>,
    before: Seq<bool>,
    visited: Seq<bool>,
    done: Set<int>,
    stack: Seq<usize>,
) -> bool {
    &&& 0 <= start < m.area() <= u32::MAX
    &&& mask.len() == m.area()
    &&& visited.len() == m.area()
    &&& visited[start]
    &&& closed(m, before)
    &&& forall|i: int| 0 <= i < m.area() ==> #[trigger] mask[i] == m.fill(i)
    &&& forall|i: int|
        0 <= i < m.area() ==> (#[trigger] visited[i] <==> before[i] || done.contains(i)
            || stack.contains(i as usize))
    &&& forall|k: int|
        0 <= k < stack.len() ==> (#[trigger] stack[k]) < m.area() && !before[stack[k] as int]
            && m.joined(start, stack[k] as int) && !done.contains(stack[k] as int)
    &&& stack.no_duplicates()
}

/// Every button-colored neighbor of these pixels was visited.
spec fn surrounded(m: FrameModel, pixels: Set<int>, visited: Seq<bool>) -> bool {
    forall|i: int, j: int|
        #![trigger pixels.contains(i), m.fill(j)]
        pixels.contains(i) && m.fill(j) && m.near(i, j) ==> visited[j]
}

/// Pixel `c`, at these coordinates, is done and belongs to the new cluster.
spec fn grown(
    m: FrameModel,
    start: int,
    before: Seq<bool>,
    done: Set<int>,
    c: int,
    cx: u32,
    cy: u32,
) -> bool {
    &&& 0 <= c < m.area()
    &&& m.fill(c)
    &&& !before[c]
    &&& done.contains(c)
    &&& m.joined(start, c)
    &&& cx == m.col(c)
    &&& cy == m.row(c)
}

/// The least and the greatest coordinate that is near `at` in a frame of this
/// extent.
spec fn reaches(at: u32, extent: u32, lo: u32, hi: u32) -> bool {
    &&& at < extent
    &&& lo == (if at < BRIDGE {
        0
    } else {
        at - BRIDGE
    })
    &&& hi == (if extent - 1 - at < BRIDGE {
        extent - 1
    } else {
        at + BRIDGE
    })
}

/// Mark the cluster of `seed`, which no mark has reached yet, and measure it.
fn grow_cluster(img: &Frame, mask: &Vec<bool>, visited: &mut Vec<bool>, seed: usize) -> (b:
    ButtonSighting)
    requires
        mask@.len() == img@.area(),
        forall|i: int| 0 <= i < img@.area() ==> #[trigger] mask@[i] == img@.fill(i),
        old(visited)@.len() == img@.area(),
        closed(img@, old(visited)@),
        img@.fill(seed as int),
        !old(visited)@[seed as int],
    ensures
        img@.measures(seed as int, b),
        b.x0 <= b.x1 < img@.width,
        b.y0 <= b.y1 < img@.height,
        final(visited)@.len() == img@.area(),
        closed(img@, final(visited)@),
        forall|i: int|
            0 <= i < img@.area() ==> (#[trigger] final(visited)@[i] <==> old(visited)@[i]
                || img@.joined(seed as int, i)),
{
    proof {
        use_type_invariant(img);
    }
    let ghost m = img@;
    let ghost before = visited@;
    let ghost start = seed as int;
    let w = img.width;
    let h = img.height;
    proof {
        assert(w > 0 && h > 0) by (nonlinear_arith)
            requires
                seed < w * h,
                0 <= w,
                0 <= h,
        ;
        lemma_pixel_place(m, start);
        lemma_joined_self(m, start);
        reveal(FrameModel::col);
        reveal(FrameModel::row);
        vstd::set_lib::lemma_int_range(0, m.area());
    }
    let sx: u32 = (seed as u64 % w as u64) as u32;
    let sy: u32 = (seed as u64 / w as u64) as u32;
    let (mut x0, mut x1, mut y0, mut y1) = (sx, sx, sy, sy);
    let mut pixels: u32 = 0;
    let mut stack: Vec<usize> = Vec::new();
    stack.push(seed);
    visited.set(seed, true);
    let ghost mut done: Set<int> = Set::empty();
    let ghost mut at_x0: int = start;
    let ghost mut at_x1: int = start;
    let ghost mut at_y0: int = start;
    let ghost mut at_y1: int = start;
    proof {
        assert(stack@ =~= seq![seed]);
        assert forall|i: int| 0 <= i < m.area() implies (#[trigger] visited@[i] <==> before[i]
            || done.contains(i) || stack@.contains(i as usize)) by {
            assert(i < mask.len());
            if i == start {
                assert(stack@[0] == i as usize);
            }
        }
    }
    while stack.len() > 0
        invariant
            m == img@,
            w == m.width,
            h == m.height,
            w > 0,
            h > 0,
            start == seed,
            growing(m, start, mask@, before, visited@, done, stack@),
            before.len() == m.area(),
            m.fill(start),
            !before[start],
            forall|i: int| #[trigger] done.contains(i) ==> 0 <= i < m.area() && !before[i]
                && m.joined(start, i),
            surrounded(m, done, visited@),
            done.finite(),
            done.subset_of(vstd::set_lib::set_int_range(0, m.area())),
            vstd::set_lib::set_int_range(0, m.area()).finite(),
            vstd::set_lib::set_int_range(0, m.area()).len() == m.area(),
            pixels == done.len(),
            x0 <= x1 < w,
            y0 <= y1 < h,
            x0 <= m.col(start) <= x1,
            y0 <= m.row(start) <= y1,
            forall|i: int| #[trigger]
                done.contains(i) ==> x0 <= m.col(i) <= x1 && y0 <= m.row(i) <= y1,
            at_x0 == start || done.contains(at_x0),
            at_x1 == start || done.contains(at_x1),
            at_y0 == start || done.contains(at_y0),
            at_y1 == start || done.contains(at_y1),
            m.col(at_x0) == x0,
            m.col(at_x1) == x1,
            m.row(at_y0) == y0,
            m.row(at_y1) == y1,
        decreases m.area() - done.len(),
    {
        let ghost full_stack = stack@;
        let cur: usize = match stack.pop() {
            Some(i) => i,
            None => 0,
        };
        let ghost c = cur as int;
        proof {
            assert(full_stack.last() == cur);
            assert(full_stack =~= stack@.push(cur));
            assert(full_stack[full_stack.len() - 1] == cur);
            lemma_pixel_place(m, c);
            assert(!stack@.contains(cur)) by {
                if stack@.contains(cur) {
                    let k = choose|k: int| 0 <= k < stack@.len() && stack@[k] == cur;
                    assert(full_stack[k] == full_stack[full_stack.len() - 1]);
                }
            }
            assert(done.insert(c).subset_of(vstd::set_lib::set_int_range(0, m.area())));
            vstd::set_lib::lemma_len_subset(
                done.insert(c),
                vstd::set_lib::set_int_range(0, m.area()),
            );
            assert(done.insert(c).len() == done.len() + 1);
            reveal(FrameModel::col);
            reveal(FrameModel::row);
        }
        let ghost done_before = done;
        proof {
            done = done.insert(c);
        }
        pixels = pixels + 1;
        let cx: u32 = (cur as u64 % w as u64) as u32;
        let cy: u32 = (cur as u64 / w as u64) as u32;
        assert(cx == m.col(c) && cy == m.row(c));
        if cx < x0 {
            x0 = cx;
            proof {
                at_x0 = c;
            }
        }
        if cx > x1 {
            x1 = cx;
            proof {
                at_x1 = c;
            }
        }
        if cy < y0 {
            y0 = cy;
            proof {
                at_y0 = c;
            }
        }
        if cy > y1 {
            y1 = cy;
            proof {
                at_y1 = c;
            }
        }
        let nx_lo: u32 = if cx < BRIDGE { 0 } else { cx - BRIDGE };
        let nx_hi: u32 = if w - 1 - cx < BRIDGE { w - 1 } else { cx + BRIDGE };
        let ny_lo: u32 = if cy < BRIDGE { 0 } else { cy - BRIDGE };
        let ny_hi: u32 = if h - 1 - cy < BRIDGE { h - 1 } else { cy + BRIDGE };
        let mut ny: u32 = ny_lo;
        while ny <= ny_hi
            invariant
                m == img@,
                w == m.width,
                h == m.height,
                start == seed,
                growing(m, start, mask@, before, visited@, done, stack@),
                surrounded(m, done_before, visited@),
                grown(m, start, before, done, c, cx, cy),
                reaches(cx, w, nx_lo, nx_hi),
                reaches(cy, h, ny_lo, ny_hi),
                ny_lo <= ny <= ny_hi + 1,
                forall|j: int| #[trigger] m.fill(j) && m.near(c, j) && m.row(j) < ny ==> visited@[j],
            decreases ny_hi + 1 - ny,
        {
            let mut nx: u32 = nx_lo;
            proof {
                assert forall|j: int| #[trigger]
                    m.fill(j) && m.near(c, j) && m.row(j) == ny && m.col(j) < nx implies visited@[j] by {
                    lemma_pixel_place(m, j);
                }
            }
            while nx <= nx_hi
                invariant
                    m == img@,
                    w == m.width,
                    h == m.height,
                    start == seed,
                    growing(m, start, mask@, before, visited@, done, stack@),
                    surrounded(m, done_before, visited@),
                    grown(m, start, before, done, c, cx, cy),
                    reaches(cx, w, nx_lo, nx_hi),
                    reaches(cy, h, ny_lo, ny_hi),
                    ny_lo <= ny <= ny_hi,
                    nx_lo <= nx <= nx_hi + 1,
                    forall|j: int| #[trigger]
                        m.fill(j) && m.near(c, j) && m.row(j) < ny ==> visited@[j],
                    forall|j: int| #[trigger]
                        m.fill(j) && m.near(c, j) && m.row(j) == ny && m.col(j) < nx ==> visited@[j],
                decreases nx_hi + 1 - nx,
            {
                proof {
                    lemma_pixel_number(m, nx as int, ny as int);
                }
                let i: usize = (ny as u64 * w as u64 + nx as u64) as usize;
                let ghost stack_before = stack@;
                let ghost visited_before = visited@;
                if mask[i] && !visited[i] {
                    visited.set(i, true);
                    stack.push(i);
                    proof {
                        lemma_joined_step(m, start, c, i as int);
                        assert(!before[i as int]);
                        assert(stack@ =~= stack_before.push(i));
                        assert(!stack_before.contains(i));
                        assert(stack@[stack@.len() - 1] == i);
                        assert forall|j: int| 0 <= j < m.area() implies (#[trigger] visited@[j]
                            <==> before[j] || done.contains(j) || stack@.contains(j as usize)) by {
                            if j == i {
                                assert(stack@.contains(i));
                            } else {
                                assert(visited@[j] == visited_before[j]);
                                if stack_before.contains(j as usize) {
                                    let k = choose|k: int|
                                        0 <= k < stack_before.len() && stack_before[k] == j as usize;
                                    assert(stack@[k] == j as usize);
                                }
                                if stack@.contains(j as usize) {
                                    let k = choose|k: int|
                                        0 <= k < stack@.len() && stack@[k] == j as usize;
                                    assert(stack_before[k] == j as usize);
                                }
                            }
                        }
                    }
                }
                proof {
                    assert forall|j: int| #[trigger]
                        m.fill(j) && m.near(c, j) && m.row(j) == ny && m.col(j) < nx + 1 implies visited@[j] by {
                        lemma_pixel_place(m, j);
                        if m.col(j) == nx {
                            assert(j == i);
                        }
                    }
                }
                nx = nx + 1;
            }
            proof {
                assert forall|j: int| #[trigger]
                    m.fill(j) && m.near(c, j) && m.row(j) < ny + 1 implies visited@[j] by {
                    lemma_pixel_place(m, j);
                }
            }
            ny = ny + 1;
        }
        proof {
            assert forall|i: int, j: int|
                #![trigger done.contains(i), m.fill(j)]
                done.contains(i) && m.fill(j) && m.near(i, j) implies visited@[j] by {
                lemma_pixel_place(m, j);
                if i != c {
                    assert(done_before.contains(i));
                }
            }
        }
    }
    proof {
        assert(closed(m, visited@)) by {
            assert forall|i: int| 0 <= i < m.area() && #[trigger] visited@[i] implies m.fill(i) by {
                if done.contains(i) {
                    assert(m.joined(start, i));
                    lemma_joined_fill(m, start, i);
                }
            }
            assert forall|i: int, j: int|
                #![trigger visited@[i], m.fill(j)]
                0 <= i < m.area() && visited@[i] && m.fill(j) && m.near(i, j) implies visited@[j] by {
                if before[i] {
                    assert(before[j]);
                } else {
                    assert(done.contains(i));
                }
            }
        }
        assert forall|j: int| m.joined(start, j) implies #[trigger] done.contains(j) by {
            lemma_closed_holds_cluster(m, visited@, start, j);
            if before[j] {
                lemma_joined_symmetric(m, start, j);
                lemma_closed_holds_cluster(m, before, j, start);
            }
        }
        assert(m.cluster(start) =~= done);
        assert(m.joined(start, at_x0) && m.joined(start, at_x1));
        assert(m.joined(start, at_y0) && m.joined(start, at_y1));
        assert forall|j: int| #[trigger] m.joined(start, j) implies x0 <= m.col(j) <= x1 && y0
            <= m.row(j) <= y1 by {
            assert(done.contains(j));
        }
    }
    ButtonSighting { x0, y0, x1, y1, pixels }
}

proof fn lemma_joined_fill(m: FrameModel, i: int, j: int)
    requires
        m.joined(i, j),
    ensures
        m.fill(i),
        m.fill(j),
{
    let path = choose|path: Seq<int>| #[trigger]
        m.is_chain(path) && path.first() == i && path.last() == j;
    assert(m.fill(path[0]));
    assert(m.fill(path[path.len() - 1]));
}

/// Whether a cluster of these measures is a button of this frame.
fn is_button_shape(img: &Frame, b: &ButtonSighting) -> (button: bool)
    requires
        b.x0 <= b.x1 < img@.width,
        b.y0 <= b.y1 < img@.height,
    ensures
        button == img@.qualifies(*b),
{
    let w = img.width as u128;
    let h = img.height as u128;
    proof {
        let wide = w as int;
        assert(CALIBRATION_WIDTH * CALIBRATION_WIDTH == 440_896) by (nonlinear_arith)
            requires
                CALIBRATION_WIDTH == 664,
        ;
        assert(0 <= CALIBRATION_PIXELS * wide <= 800 * u32::MAX);
        assert(0 <= CALIBRATION_PIXELS * wide * wide <= 800 * u32::MAX * u32::MAX)
            by (nonlinear_arith)
            requires
                0 <= wide <= u32::MAX,
                CALIBRATION_PIXELS == 800,
        ;
    }
    let scaled: u128 = (CALIBRATION_PIXELS as u128 * w * w) / (CALIBRATION_WIDTH as u128
        * CALIBRATION_WIDTH as u128);
    let least: u128 = if scaled > u32::MAX as u128 { u32::MAX as u128 } else { scaled };
    let bw: u128 = (b.x1 - b.x0) as u128 + 1;
    let bh: u128 = (b.y1 - b.y0) as u128 + 1;
    assert(0 <= bw * bh <= 0x1_0000_0000 * 0x1_0000_0000) by (nonlinear_arith)
        requires
            0 <= bw <= 0x1_0000_0000,
            0 <= bh <= 0x1_0000_0000,
    ;
    let pixels = b.pixels as u128;
    pixels >= least && 20 * bh <= 10 * bw && 10 * bw <= 45 * bh && 100 * pixels >= 55 * (bw * bh)
        && 10 * (b.x0 as u128 + b.x1 as u128) > 6 * (2 * w) && 10 * (b.y0 as u128 + b.y1 as u128)
        > 6 * (2 * h)
}

/// The measures of a cluster are its own: no two sightings measure it.
proof fn lemma_measures_unique(m: FrameModel, i: int, a: ButtonSighting, b: ButtonSighting)
    requires
        m.measures(i, a),
        m.measures(i, b),
    ensures
        a == b,
{
    let ax0 = choose|j: int| #[trigger] m.joined(i, j) && m.col(j) == a.x0;
    let ax1 = choose|j: int| #[trigger] m.joined(i, j) && m.col(j) == a.x1;
    let ay0 = choose|j: int| #[trigger] m.joined(i, j) && m.row(j) == a.y0;
    let ay1 = choose|j: int| #[trigger] m.joined(i, j) && m.row(j) == a.y1;
    let bx0 = choose|j: int| #[trigger] m.joined(i, j) && m.col(j) == b.x0;
    let bx1 = choose|j: int| #[trigger] m.joined(i, j) && m.col(j) == b.x1;
    let by0 = choose|j: int| #[trigger] m.joined(i, j) && m.row(j) == b.y0;
    let by1 = choose|j: int| #[trigger] m.joined(i, j) && m.row(j) == b.y1;
}

/// Pixel `i` leads the best button of those whose first pixel comes before `end`.
spec fn leads_best(m: FrameModel, i: int, b: ButtonSighting, end: int) -> bool {
    &&& m.button_at(i, b)
    &&& i < end
    &&& forall|j: int, c: ButtonSighting| #[trigger]
        m.button_at(j, c) && j < end ==> c.pixels < b.pixels || (c.pixels == b.pixels && i <= j)
}

/// The best button among the clusters whose first pixel comes before `end`.
spec fn best_before(m: FrameModel, best: Option<ButtonSighting>, end: int) -> bool {
    match best {
        None => forall|i: int, b: ButtonSighting| #[trigger] m.button_at(i, b) ==> end <= i,
        Some(b) => exists|i: int| leads_best(m, i, b, end),
    }
}

proof fn lemma_best_before(m: FrameModel, i: int, b: ButtonSighting, end: int)
    requires
        leads_best(m, i, b, end),
    ensures
        best_before(m, Some(b), end),
{
    let best = Some(b);
    assert(leads_best(m, i, best->0, end));
}

/// Find the OK button in an RGBA frame, if visible. A cluster qualifies when
/// it holds enough fill pixels (scaled to the frame width), is roughly three
/// times wider than tall, is mostly fill, and sits in the bottom-right
/// quadrant where the client renders it. The largest such cluster is returned.
pub fn ok_button_visible(img: &Frame) -> (best: Option<ButtonSighting>)
    ensures
        match best {
            Some(b) => img@.best_button(b),
            None => img@.no_button(),
        },
{
    proof {
        use_type_invariant(img);
    }
    let ghost m = img@;
    let area: usize = img.rgba.len() / 4;
    assert(area == m.area());
    let mut mask: Vec<bool> = Vec::new();
    let mut visited: Vec<bool> = Vec::new();
    let mut k: usize = 0;
    while k < area
        invariant
            m == img@,
            area == m.area(),
            m.rgba == img.rgba@,
            img.rgba.len() == 4 * area,
            k <= area,
            mask@.len() == k,
            visited@.len() == k,
            forall|i: int| 0 <= i < k ==> #[trigger] mask@[i] == m.fill(i),
            forall|i: int| 0 <= i < k ==> !#[trigger] visited@[i],
        decreases area - k,
    {
        mask.push(is_button_cyan(img.rgba[4 * k], img.rgba[4 * k + 1], img.rgba[4 * k + 2]));
        visited.push(false);
        k = k + 1;
    }
    let mut best: Option<ButtonSighting> = None;
    let mut seed: usize = 0;
    while seed < area
        invariant
            m == img@,
            area == m.area(),
            seed <= area,
            mask@.len() == m.area(),
            visited@.len() == m.area(),
            forall|i: int| 0 <= i < m.area() ==> #[trigger] mask@[i] == m.fill(i),
            closed(m, visited@),
            forall|i: int| 0 <= i < seed && m.fill(i) ==> #[trigger] visited@[i],
            forall|i: int|
                0 <= i < m.area() && #[trigger] visited@[i] ==> exists|l: int| #[trigger]
                    m.joined(l, i) && l < seed,
            best_before(m, best, seed as int),
        decreases area - seed,
    {
        let ghost s = seed as int;
        let ghost next = s + 1;
        let ghost visited_before = visited@;
        if mask[seed] && !visited[seed] {
            let b = grow_cluster(img, &mask, &mut visited, seed);
            proof {
                lemma_joined_self(m, s);
                assert forall|j: int| #[trigger] m.joined(s, j) implies s <= j by {
                    lemma_joined_fill(m, s, j);
                    if j < s {
                        assert(visited_before[j]);
                        lemma_joined_symmetric(m, s, j);
                        lemma_closed_holds_cluster(m, visited_before, j, s);
                    }
                }
                assert(m.leads(s));
            }
            let better = match best {
                None => true,
                Some(t) => b.pixels > t.pixels,
            };
            let button = is_button_shape(img, &b);
            let ghost best_old = best;
            if button && better {
                best = Some(b);
            }
            proof {
                assert(button == m.button_at(s, b));
                assert forall|j: int, c: ButtonSighting| #[trigger]
                    m.button_at(j, c) && j < s + 1 && s <= j implies button && c == b by {
                    lemma_measures_unique(m, s, b, c);
                }
                if button && better {
                    lemma_best_before(m, s, b, next);
                } else if let Some(t) = best_old {
                    let i = choose|i: int| leads_best(m, i, t, s);
                    lemma_best_before(m, i, t, next);
                }
                assert(best_before(m, best, next));
            }
        } else {
            proof {
                if m.leads(s) {
                    assert(visited@[s]);
                    let l = choose|l: int| #[trigger] m.joined(l, s) && l < s;
                    lemma_joined_symmetric(m, l, s);
                }
                if let Some(t) = best {
                    let i = choose|i: int| leads_best(m, i, t, s);
                    lemma_best_before(m, i, t, next);
                }
                assert(best_before(m, best, next));
            }
        }
        proof {
            assert forall|i: int| 0 <= i < m.area() && #[trigger] visited@[i] implies exists|l: int| #[trigger]
                m.joined(l, i) && l < s + 1 by {
                if visited_before[i] {
                    let l = choose|l: int| #[trigger] m.joined(l, i) && l < s;
                    assert(m.joined(l, i) && l < s + 1);
                } else {
                    assert(m.joined(s, i));
                }
            }
        }
        seed = seed + 1;
    }
    proof {
        if let Some(t) = best {
            let i = choose|i: int| leads_best(m, i, t, area as int);
            assert(m.button_at(i, t));
            assert forall|j: int, c: ButtonSighting| #[trigger] m.button_at(j, c) implies c.pixels
                < t.pixels || (c.pixels == t.pixels && i <= j) by {
                assert(m.fill(j));
            }
        } else {
            assert forall|i: int, b: ButtonSighting| !#[trigger] m.button_at(i, b) by {
                if m.button_at(i, b) {
                    assert(m.fill(i));
                }
            }
        }
    }
    best
}

/// A frame has at most one best button.
pub proof fn law_best_button_is_unique(m: FrameModel, a: ButtonSighting, b: ButtonSighting)
    requires
        m.best_button(a),
        m.best_button(b),
    ensures
        a == b,
{
    let i = choose|i: int| #[trigger]
        m.button_at(i, a) && forall|j: int, c: ButtonSighting| #[trigger]
            m.button_at(j, c) ==> c.pixels < a.pixels || (c.pixels == a.pixels && i <= j);
    let j = choose|i: int| #[trigger]
        m.button_at(i, b) && forall|j: int, c: ButtonSighting| #[trigger]
            m.button_at(j, c) ==> c.pixels < b.pixels || (c.pixels == b.pixels && i <= j);
    assert(m.button_at(i, a) && m.button_at(j, b));
    lemma_measures_unique(m, i, a, b);
}

/// The least fill scales with the square of the frame's width: a frame `k`
/// times as wide as the calibrated one needs `k * k` times the fill, and a
/// wider frame never needs less.
pub proof fn law_least_fill_scales_with_the_width(m: FrameModel, n: FrameModel, k: int)
    ensures
        0 <= k && m.width == CALIBRATION_WIDTH * k && CALIBRATION_PIXELS * (k * k) <= u32::MAX
            ==> m.least_pixels() == CALIBRATION_PIXELS * (k * k),
        0 <= m.width <= n.width ==> m.least_pixels() <= n.least_pixels(),
{
    let a = m.width as int;
    let b = n.width as int;
    let unit = CALIBRATION_WIDTH * CALIBRATION_WIDTH;
    if 0 <= k && a == CALIBRATION_WIDTH * k {
        assert(CALIBRATION_PIXELS * a * a == (CALIBRATION_PIXELS * (k * k)) * unit)
            by (nonlinear_arith)
            requires
                a == CALIBRATION_WIDTH * k,
                unit == CALIBRATION_WIDTH * CALIBRATION_WIDTH,
        ;
        vstd::arithmetic::div_mod::lemma_div_multiples_vanish(CALIBRATION_PIXELS * (k * k), unit);
    }
    if 0 <= a <= b {
        assert(CALIBRATION_PIXELS * a * a <= CALIBRATION_PIXELS * b * b) by (nonlinear_arith)
            requires
                0 <= a <= b,
        ;
        vstd::arithmetic::div_mod::lemma_div_is_ordered(
            CALIBRATION_PIXELS * a * a,
            CALIBRATION_PIXELS * b * b,
            unit,
        );
    }
}

/// What is sighted depends on the frame's size and on which of its pixels
/// have the button's color, and on nothing else that the frame shows.
pub proof fn law_sighting_depends_on_fill_alone(m: FrameModel, n: FrameModel, b: ButtonSighting)
    requires
        m.width == n.width,
        m.height == n.height,
        forall|i: int| m.fill(i) == n.fill(i),
    ensures
        m.best_button(b) == n.best_button(b),
        m.no_button() == n.no_button(),
{
    lemma_same_fill(m, n);
    lemma_same_fill(n, m);
    assert forall|i: int, c: ButtonSighting| #[trigger] m.button_at(i, c) == n.button_at(i, c) by {
        lemma_same_cluster(m, n, i, c);
    }
    assert forall|i: int, c: ButtonSighting| #[trigger] n.button_at(i, c) == m.button_at(i, c) by {
        lemma_same_cluster(m, n, i, c);
    }
    if m.best_button(b) {
        lemma_same_best(m, n, b);
    }
    if n.best_button(b) {
        lemma_same_best(n, m, b);
    }
}

proof fn lemma_same_fill(m: FrameModel, n: FrameModel)
    requires
        m.width == n.width,
        forall|i: int| m.fill(i) == n.fill(i),
    ensures
        forall|i: int| m.col(i) == n.col(i),
        forall|i: int| m.row(i) == n.row(i),
        forall|i: int, j: int| m.joined(i, j) ==> n.joined(i, j),
{
    reveal(FrameModel::col);
    reveal(FrameModel::row);
    assert forall|i: int, j: int| m.joined(i, j) implies n.joined(i, j) by {
        let path = choose|path: Seq<int>| #[trigger]
            m.is_chain(path) && path.first() == i && path.last() == j;
        assert(n.is_chain(path));
    }
}

proof fn lemma_same_cluster(m: FrameModel, n: FrameModel, i: int, c: ButtonSighting)
    requires
        m.width == n.width,
        m.height == n.height,
        forall|i: int| m.fill(i) == n.fill(i),
    ensures
        m.button_at(i, c) == n.button_at(i, c),
{
    lemma_same_fill(m, n);
    lemma_same_fill(n, m);
    assert(m.cluster(i) =~= n.cluster(i));
    assert forall|j: int| m.joined(i, j) == n.joined(i, j) by {}
    if m.button_at(i, c) {
        lemma_same_measures(m, n, i, c);
    }
    if n.button_at(i, c) {
        lemma_same_measures(n, m, i, c);
    }
}

proof fn lemma_same_measures(m: FrameModel, n: FrameModel, i: int, c: ButtonSighting)
    requires
        m.measures(i, c),
        m.cluster(i) == n.cluster(i),
        forall|j: int| m.col(j) == n.col(j),
        forall|j: int| m.row(j) == n.row(j),
        forall|j: int| m.joined(i, j) == n.joined(i, j),
    ensures
        n.measures(i, c),
{
    let x0 = choose|j: int| #[trigger] m.joined(i, j) && m.col(j) == c.x0;
    let x1 = choose|j: int| #[trigger] m.joined(i, j) && m.col(j) == c.x1;
    let y0 = choose|j: int| #[trigger] m.joined(i, j) && m.row(j) == c.y0;
    let y1 = choose|j: int| #[trigger] m.joined(i, j) && m.row(j) == c.y1;
    assert(n.joined(i, x0) && n.joined(i, x1) && n.joined(i, y0) && n.joined(i, y1));
}

proof fn lemma_same_best(m: FrameModel, n: FrameModel, b: ButtonSighting)
    requires
        m.best_button(b),
        forall|i: int, c: ButtonSighting| #[trigger] m.button_at(i, c) == n.button_at(i, c),
        forall|i: int, c: ButtonSighting| #[trigger] n.button_at(i, c) == m.button_at(i, c),
    ensures
        n.best_button(b),
{
    let i = choose|i: int| #[trigger]
        m.button_at(i, b) && forall|j: int, c: ButtonSighting| #[trigger]
            m.button_at(j, c) ==> c.pixels < b.pixels || (c.pixels == b.pixels && i <= j);
    assert(n.button_at(i, b));
}

/// What makes a box a button, as ratios: at least 800 fill pixels for each
/// 664 x 664 square of the frame's width, between 2 and 4.5 times as wide as
/// tall, at least 11 of 20 pixels filled, and the middle past three fifths of
/// the frame both ways. Nothing else counts.
pub proof fn law_what_makes_a_button(m: FrameModel, b: ButtonSighting)
    requires
        0 <= m.width <= u32::MAX,
    ensures
        ({
            let bw = b.x1 - b.x0 + 1;
            let bh = b.y1 - b.y0 + 1;
            m.qualifies(b) <==> {
                &&& b.pixels == u32::MAX || 440_896 * (b.pixels + 1) > 800 * (m.width * m.width)
                &&& 2 * bh <= bw
                &&& 2 * bw <= 9 * bh
                &&& 20 * b.pixels >= 11 * (bw * bh)
                &&& 5 * (b.x0 + b.x1) > 6 * m.width
                &&& 5 * (b.y0 + b.y1) > 6 * m.height
            }
        }),
{
    let bw = b.x1 - b.x0 + 1;
    let bh = b.y1 - b.y0 + 1;
    let need = 800 * (m.width * m.width);
    assert(CALIBRATION_PIXELS * m.width * m.width == need) by (nonlinear_arith)
        requires
            need == 800 * (m.width * m.width),
            CALIBRATION_PIXELS == 800,
    ;
    assert(CALIBRATION_WIDTH * CALIBRATION_WIDTH == 440_896) by (nonlinear_arith)
        requires
            CALIBRATION_WIDTH == 664,
    ;
    let least = need / 440_896;
    vstd::arithmetic::div_mod::lemma_fundamental_div_mod(need, 440_896);
    assert(100 * b.pixels >= 55 * (bw * bh) <==> 20 * b.pixels >= 11 * (bw * bh));
    let p = b.pixels as int;
    assert(p >= least <==> 440_896 * (p + 1) > need);
}

/// Sighting is independent of the window size: where a box with its fill to
/// scale qualifies in a frame, the box scaled by a whole factor qualifies in
/// the frame scaled by it. (The least fill is rounded down, so the fill has to
/// meet the unrounded one.)
pub proof fn law_buttons_scale_with_the_frame(
    m: FrameModel,
    b: ButtonSighting,
    n: FrameModel,
    c: ButtonSighting,
    k: int,
)
    requires
        0 < k,
        0 <= m.width,
        m.qualifies(b),
        440_896 * b.pixels >= 800 * (m.width * m.width),
        n.width == k * m.width <= u32::MAX,
        n.height == k * m.height,
        c.x0 == k * b.x0,
        c.y0 == k * b.y0,
        c.x1 + 1 == k * (b.x1 + 1),
        c.y1 + 1 == k * (b.y1 + 1),
        c.pixels == (k * k) * b.pixels,
    ensures
        n.qualifies(c),
{
    let bw = b.x1 - b.x0 + 1;
    let bh = b.y1 - b.y0 + 1;
    let w = m.width;
    assert(w <= u32::MAX) by (nonlinear_arith)
        requires
            0 < k,
            0 <= w,
            k * w <= u32::MAX,
    ;
    law_what_makes_a_button(m, b);
    law_what_makes_a_button(n, c);
    assert(c.x1 - c.x0 + 1 == k * bw && c.y1 - c.y0 + 1 == k * bh) by (nonlinear_arith)
        requires
            c.x0 == k * b.x0,
            c.y0 == k * b.y0,
            c.x1 + 1 == k * (b.x1 + 1),
            c.y1 + 1 == k * (b.y1 + 1),
            bw == b.x1 - b.x0 + 1,
            bh == b.y1 - b.y0 + 1,
    ;
    assert(2 * (k * bh) <= k * bw && 2 * (k * bw) <= 9 * (k * bh)) by (nonlinear_arith)
        requires
            0 < k,
            2 * bh <= bw,
            2 * bw <= 9 * bh,
    ;
    let p = b.pixels as int;
    assert(20 * ((k * k) * p) >= 11 * ((k * bw) * (k * bh))) by (nonlinear_arith)
        requires
            20 * p >= 11 * (bw * bh),
    ;
    assert(440_896 * ((k * k) * p) >= 800 * ((k * w) * (k * w))) by (nonlinear_arith)
        requires
            440_896 * p >= 800 * (w * w),
    ;
    assert(5 * (c.x0 + c.x1) > 6 * (k * w)) by (nonlinear_arith)
        requires
            0 < k,
            5 * (b.x0 + b.x1) > 6 * w,
            c.x0 == k * b.x0,
            c.x1 + 1 == k * (b.x1 + 1),
    ;
    let h = m.height;
    assert(5 * (c.y0 + c.y1) > 6 * (k * h)) by (nonlinear_arith)
        requires
            0 < k,
            5 * (b.y0 + b.y1) > 6 * h,
            c.y0 == k * b.y0,
            c.y1 + 1 == k * (b.y1 + 1),
    ;
}

/// A solid box three times as wide as tall, with its middle past three fifths
/// of the frame both ways and fill enough, is a button at every frame size.
pub proof fn law_a_solid_box_is_a_button(m: FrameModel, b: ButtonSighting)
    requires
        0 <= m.width <= u32::MAX,
        b.y0 <= b.y1,
        b.x1 - b.x0 + 1 == 3 * (b.y1 - b.y0 + 1),
        b.pixels == (b.x1 - b.x0 + 1) * (b.y1 - b.y0 + 1),
        440_896 * b.pixels >= 800 * (m.width * m.width),
        5 * (b.x0 + b.x1) > 6 * m.width,
        5 * (b.y0 + b.y1) > 6 * m.height,
    ensures
        m.qualifies(b),
{
    law_what_makes_a_button(m, b);
}

/// The button's color, by its channels: green and blue of at least 191, green
/// at least 61 and blue at least 41 above red, and less than 90 apart.
pub proof fn law_the_buttons_color(r: u8, g: u8, b: u8)
    ensures
        button_cyan(r, g, b) <==> 191 <= g && 191 <= b && r + 61 <= g && r + 41 <= b && g <= b + 89
            && b <= g + 89,
{
}

/// Pixels are numbered row by row, four bytes to each, and one is filled where
/// its bytes are of the button's color.
pub proof fn law_pixels_are_numbered_by_rows(m: FrameModel, x: int, y: int)
    requires
        0 <= x < m.width,
        0 <= y < m.height,
    ensures
        m.col(y * m.width + x) == x,
        m.row(y * m.width + x) == y,
        ({
            let at = 4 * (y * m.width + x);
            m.fill(y * m.width + x) <==> button_cyan(m.rgba[at], m.rgba[at + 1], m.rgba[at + 2])
        }),
        m.area() == m.width * m.height,
{
    lemma_pixel_number(m, x, y);
}

/// Clusters are what filled pixels make that lie up to six columns and six rows
/// apart: such pixels are in one cluster, being in one cluster is an
/// equivalence, and a set of pixels that no such step leaves holds the whole
/// cluster of each of its pixels.
pub proof fn law_clusters_bridge_six_pixels(
    m: FrameModel,
    i: int,
    j: int,
    k: int,
    s: spec_fn(int) -> bool,
)
    ensures
        m.fill(i) && m.fill(j) && -6 <= m.col(i) - m.col(j) <= 6 && -6 <= m.row(i) - m.row(j) <= 6
            ==> m.joined(i, j),
        m.joined(i, j) ==> m.fill(i) && m.fill(j) && m.joined(j, i),
        m.joined(i, j) && m.joined(j, k) ==> m.joined(i, k),
        m.joined(i, j) && s(i) && (forall|a: int, b: int|
            #![trigger m.fill(a), m.fill(b)]
            s(a) && m.fill(a) && m.fill(b) && -6 <= m.col(a) - m.col(b) <= 6 && -6 <= m.row(a)
                - m.row(b) <= 6 ==> s(b)) ==> s(j),
{
    if m.fill(i) && m.fill(j) && -6 <= m.col(i) - m.col(j) <= 6 && -6 <= m.row(i) - m.row(j) <= 6 {
        lemma_joined_self(m, i);
        lemma_joined_step(m, i, i, j);
    }
    if m.joined(i, j) {
        lemma_joined_fill(m, i, j);
        lemma_joined_symmetric(m, i, j);
        if m.joined(j, k) {
            lemma_joined_transitive(m, i, j, k);
        }
        if s(i) && (forall|a: int, b: int|
            #![trigger m.fill(a), m.fill(b)]
            s(a) && m.fill(a) && m.fill(b) && -6 <= m.col(a) - m.col(b) <= 6 && -6 <= m.row(a)
                - m.row(b) <= 6 ==> s(b)) {
            let path = choose|path: Seq<int>| #[trigger]
                m.is_chain(path) && path.first() == i && path.last() == j;
            lemma_chain_stays(m, s, path, (path.len() - 1) as int);
        }
    }
}

proof fn lemma_chain_stays(m: FrameModel, s: spec_fn(int) -> bool, path: Seq<int>, n: int)
    requires
        m.is_chain(path),
        0 <= n < path.len(),
        s(path[0]),
        forall|a: int, b: int|
            #![trigger m.fill(a), m.fill(b)]
            s(a) && m.fill(a) && m.fill(b) && -6 <= m.col(a) - m.col(b) <= 6 && -6 <= m.row(a)
                - m.row(b) <= 6 ==> s(b),
    ensures
        s(path[n]),
    decreases n,
{
    if n > 0 {
        lemma_chain_stays(m, s, path, n - 1);
        assert(m.near(path[n - 1], path[n]));
        assert(m.fill(path[n - 1]) && m.fill(path[n]));
    }
}

proof fn lemma_joined_transitive(m: FrameModel, i: int, j: int, k: int)
    requires
        m.joined(i, j),
        m.joined(j, k),
    ensures
        m.joined(i, k),
{
    let path = choose|path: Seq<int>| #[trigger]
        m.is_chain(path) && path.first() == j && path.last() == k;
    lemma_joined_along(m, i, path, (path.len() - 1) as int);
}

proof fn lemma_joined_along(m: FrameModel, i: int, path: Seq<int>, n: int)
    requires
        m.is_chain(path),
        0 <= n < path.len(),
        m.joined(i, path[0]),
    ensures
        m.joined(i, path[n]),
    decreases n,
{
    if n > 0 {
        lemma_joined_along(m, i, path, n - 1);
        assert(m.near(path[n - 1], path[n]));
        lemma_joined_step(m, i, path[n - 1], path[n]);
    }
}

/// A pixel that lies in the box.
pub open spec fn in_box(m: FrameModel, b: ButtonSighting, i: int) -> bool {
    0 <= i < m.area() && b.x0 <= m.col(i) <= b.x1 && b.y0 <= m.row(i) <= b.y1
}

/// The pixels of the first rows of a box.
spec fn box_rows(m: FrameModel, b: ButtonSighting, rows: int) -> Set<int> {
    Set::new(|i: int| in_box(m, b, i) && m.row(i) < b.y0 + rows)
}

proof fn lemma_box_rows(m: FrameModel, b: ButtonSighting, rows: int)
    requires
        b.x0 <= b.x1 < m.width,
        b.y0 <= b.y1 < m.height,
        0 <= rows <= b.y1 - b.y0 + 1,
    ensures
        box_rows(m, b, rows).finite(),
        box_rows(m, b, rows).len() == (b.x1 - b.x0 + 1) * rows,
    decreases rows,
{
    let bw = b.x1 - b.x0 + 1;
    if rows == 0 {
        assert forall|i: int| !box_rows(m, b, 0).contains(i) by {}
        assert(box_rows(m, b, 0) =~= Set::empty());
    } else {
        let y = b.y0 + rows - 1;
        let lo = y * m.width + b.x0;
        let row = vstd::set_lib::set_int_range(lo, lo + bw);
        let fewer = box_rows(m, b, rows - 1);
        lemma_box_rows(m, b, rows - 1);
        vstd::set_lib::lemma_int_range(lo, lo + bw);
        assert forall|i: int| row.contains(i) implies in_box(m, b, i) && m.row(i) == y by {
            lemma_pixel_number(m, i - y * m.width, y);
        }
        assert forall|i: int| in_box(m, b, i) && m.row(i) == y implies row.contains(i) by {
            lemma_pixel_place(m, i);
        }
        assert(box_rows(m, b, rows) =~= fewer.union(row));
        assert(fewer.disjoint(row));
        vstd::set_lib::lemma_set_disjoint_lens(fewer, row);
        assert(bw * rows == bw * (rows - 1) + bw) by (nonlinear_arith);
    }
}

proof fn lemma_box_joined(m: FrameModel, b: ButtonSighting, x: int, y: int)
    requires
        b.x0 <= x <= b.x1 < m.width,
        b.y0 <= y <= b.y1 < m.height,
        forall|i: int| #[trigger] m.fill(i) <==> in_box(m, b, i),
    ensures
        m.joined(b.y0 * m.width + b.x0, y * m.width + x),
    decreases (x - b.x0) + (y - b.y0),
{
    lemma_pixel_number(m, x, y);
    let i = y * m.width + x;
    assert(m.fill(i));
    if x > b.x0 {
        lemma_box_joined(m, b, x - 1, y);
        lemma_pixel_number(m, x - 1, y);
        lemma_joined_step(m, b.y0 * m.width + b.x0, y * m.width + (x - 1), i);
    } else if y > b.y0 {
        lemma_box_joined(m, b, x, y - 1);
        lemma_pixel_number(m, x, y - 1);
        lemma_joined_step(m, b.y0 * m.width + b.x0, (y - 1) * m.width + x, i);
    } else {
        lemma_joined_self(m, i);
    }
}

/// A frame in which exactly one solid box is filled shows that box, with its
/// corners and its number of pixels, where it qualifies as a button; and it
/// shows none where the box does not.
pub proof fn law_a_lone_box_is_sighted(m: FrameModel, b: ButtonSighting)
    requires
        b.x0 <= b.x1 < m.width,
        b.y0 <= b.y1 < m.height,
        forall|i: int| #[trigger] m.fill(i) <==> in_box(m, b, i),
        b.pixels == (b.x1 - b.x0 + 1) * (b.y1 - b.y0 + 1),
    ensures
        m.qualifies(b) ==> m.best_button(b) && !m.no_button(),
        !m.qualifies(b) ==> m.no_button(),
{
    let start = b.y0 * m.width + b.x0;
    let rows = b.y1 - b.y0 + 1;
    lemma_pixel_number(m, b.x0 as int, b.y0 as int);
    assert forall|j: int| #[trigger] m.joined(start, j) <==> in_box(m, b, j) by {
        if m.joined(start, j) {
            lemma_joined_fill(m, start, j);
        }
        if in_box(m, b, j) {
            lemma_pixel_place(m, j);
            lemma_box_joined(m, b, m.col(j), m.row(j));
        }
    }
    lemma_box_rows(m, b, rows);
    assert(m.cluster(start) =~= box_rows(m, b, rows));
    assert(m.leads(start)) by {
        assert(m.fill(start));
        assert forall|j: int| #[trigger] m.joined(start, j) implies start <= j by {
            lemma_pixel_place(m, j);
            assert(b.y0 * m.width <= m.row(j) * m.width) by (nonlinear_arith)
                requires
                    b.y0 <= m.row(j),
                    0 <= m.width,
            ;
        }
    }
    let right = b.y0 * m.width + b.x1;
    let low = b.y1 * m.width + b.x0;
    lemma_pixel_number(m, b.x1 as int, b.y0 as int);
    lemma_pixel_number(m, b.x0 as int, b.y1 as int);
    assert(m.joined(start, start) && m.joined(start, right) && m.joined(start, low));
    assert(m.measures(start, b));
    assert forall|j: int, c: ButtonSighting| #[trigger] m.button_at(j, c) implies j == start && c
        == b by {
        assert(m.fill(j));
        assert(m.joined(start, j));
        lemma_joined_symmetric(m, start, j);
        assert(start <= j);
        assert(j <= start);
        lemma_measures_unique(m, start, b, c);
    }
    if m.qualifies(b) {
        assert(m.button_at(start, b));
    }
}

/// A frame without fill shows no button.
pub proof fn law_no_fill_no_button(m: FrameModel)
    requires
        forall|i: int| !#[trigger] m.fill(i),
    ensures
        m.no_button(),
{
}

/// What is sighted is a whole cluster that qualifies: its pixels are counted,
/// its box touches it on all four sides and holds all of it. No cluster that
/// qualifies is larger, and none of the same size begins earlier.
pub proof fn law_what_is_sighted(m: FrameModel, b: ButtonSighting)
    requires
        m.best_button(b),
    ensures
        m.qualifies(b),
        exists|i: int| #[trigger] sighted_at(m, i, b) && forall|j: int, c: ButtonSighting|
            #[trigger] sighted_at(m, j, c) && m.qualifies(c) ==> c.pixels < b.pixels || c.pixels
                == b.pixels && i <= j,
{
    let i = choose|i: int| #[trigger]
        m.button_at(i, b) && forall|j: int, c: ButtonSighting| #[trigger]
            m.button_at(j, c) ==> c.pixels < b.pixels || (c.pixels == b.pixels && i <= j);
    lemma_measures_sighted(m, i, b);
    assert forall|j: int, c: ButtonSighting| #[trigger] sighted_at(m, j, c) && m.qualifies(
        c,
    ) implies c.pixels < b.pixels || c.pixels == b.pixels && i <= j by {
        lemma_sighted_measures(m, j, c);
        assert(m.button_at(j, c));
    }
}

/// `b` is the box and the size of the cluster whose first pixel is `i`.
pub open spec fn sighted_at(m: FrameModel, i: int, b: ButtonSighting) -> bool {
    let cluster = Set::new(|k: int| m.joined(i, k));
    &&& cluster.contains(i)
    &&& cluster.finite()
    &&& cluster.len() == b.pixels
    &&& forall|k: int| #[trigger]
        cluster.contains(k) ==> i <= k && b.x0 <= m.col(k) <= b.x1 && b.y0 <= m.row(k) <= b.y1
    &&& exists|k: int| #[trigger] cluster.contains(k) && m.col(k) == b.x0
    &&& exists|k: int| #[trigger] cluster.contains(k) && m.col(k) == b.x1
    &&& exists|k: int| #[trigger] cluster.contains(k) && m.row(k) == b.y0
    &&& exists|k: int| #[trigger] cluster.contains(k) && m.row(k) == b.y1
}

/// A frame that is said to show no button has no cluster that qualifies.
pub proof fn law_no_button_is_passed_over(m: FrameModel, i: int, b: ButtonSighting)
    requires
        m.no_button(),
        sighted_at(m, i, b),
    ensures
        !m.qualifies(b),
{
    lemma_sighted_measures(m, i, b);
    assert(!m.button_at(i, b));
}

proof fn lemma_sighted_measures(m: FrameModel, i: int, b: ButtonSighting)
    requires
        sighted_at(m, i, b),
    ensures
        m.leads(i),
        m.measures(i, b),
{
    let cluster = Set::new(|k: int| m.joined(i, k));
    assert(m.cluster(i) =~= cluster);
    assert(cluster.contains(i));
    lemma_joined_fill(m, i, i);
    assert forall|k: int| #[trigger] m.joined(i, k) implies i <= k && b.x0 <= m.col(k) <= b.x1
        && b.y0 <= m.row(k) <= b.y1 by {
        assert(cluster.contains(k));
    }
    let a0 = choose|k: int| #[trigger] cluster.contains(k) && m.col(k) == b.x0;
    let a1 = choose|k: int| #[trigger] cluster.contains(k) && m.col(k) == b.x1;
    let a2 = choose|k: int| #[trigger] cluster.contains(k) && m.row(k) == b.y0;
    let a3 = choose|k: int| #[trigger] cluster.contains(k) && m.row(k) == b.y1;
    assert(m.joined(i, a0) && m.joined(i, a1) && m.joined(i, a2) && m.joined(i, a3));
}

proof fn lemma_measures_sighted(m: FrameModel, i: int, b: ButtonSighting)
    requires
        m.leads(i),
        m.measures(i, b),
    ensures
        sighted_at(m, i, b),
{
    let cluster = Set::new(|k: int| m.joined(i, k));
    assert(m.cluster(i) =~= cluster);
    lemma_joined_self(m, i);
    assert(cluster.contains(i));
    let a0 = choose|k: int| #[trigger] m.joined(i, k) && m.col(k) == b.x0;
    let a1 = choose|k: int| #[trigger] m.joined(i, k) && m.col(k) == b.x1;
    let a2 = choose|k: int| #[trigger] m.joined(i, k) && m.row(k) == b.y0;
    let a3 = choose|k: int| #[trigger] m.joined(i, k) && m.row(k) == b.y1;
    assert(cluster.contains(a0) && cluster.contains(a1) && cluster.contains(a2)
        && cluster.contains(a3));
}

} // verus!
