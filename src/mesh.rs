use vstd::prelude::*;

use crate::error::GndError;
use crate::tables::Surface;

verus! {

/// Which side of a cell a ground quad covers.
#[derive(Debug, Clone, Copy, PartialEq, Eq, Structural)]
pub enum FaceKind {
    /// The cell's own top, over its four corner heights.
    Top,
    /// The vertical wall between the cell and the next cell down the grid (`y + 1`).
    Front,
    /// The vertical wall between the cell and the next cell across the grid (`x + 1`).
    Right,
}

/// One ground quad to emit: six vertices, two triangles.
#[derive(Debug, Clone, Copy, PartialEq, Eq, Structural)]
pub struct Face {
    pub kind: FaceKind,
    /// Column of the cell that owns the quad.
    pub x: u32,
    /// Row of the cell that owns the quad.
    pub y: u32,
    /// Index of the quad's tile.
    pub tile: usize,
    /// Index of the cell whose heights the quad reaches: the owner itself for a top face, the cell
    /// at `y + 1` for a front face, the cell at `x + 1` for a right face.
    pub neighbor: usize,
}

/// Column of cell `c` in a grid `w` cells wide.
pub open spec fn col_of(c: int, w: int) -> int {
    c % w
}

/// Row of cell `c` in a grid `w` cells wide.
pub open spec fn row_of(c: int, w: int) -> int {
    c / w
}

/// A cell with surface `s` has a top face: its top reference is not -1.
pub open spec fn has_top(s: Surface) -> bool {
    s.tile_up != -1
}

/// Cell `c`, with surface `s`, of a `w` by `h` grid has a front face: its front reference is not -1 and it is not on the last
/// row.
pub open spec fn has_front(s: Surface, c: int, w: int, h: int) -> bool {
    s.tile_front != -1 && row_of(c, w) + 1 < h
}

/// Cell `c`, with surface `s`, of a `w` wide grid has a right face: its right reference is not -1 and it is not on the last
/// column.
pub open spec fn has_right(s: Surface, c: int, w: int) -> bool {
    s.tile_right != -1 && col_of(c, w) + 1 < w
}

/// The quads that cell `c` owns, in the order top, front, right.
pub open spec fn cell_faces(surfaces: Seq<Surface>, w: int, h: int, c: int) -> Seq<Face> {
    let s = surfaces[c];
    let x = col_of(c, w) as u32;
    let y = row_of(c, w) as u32;
    let top = if has_top(s) {
        seq![Face { kind: FaceKind::Top, x, y, tile: s.tile_up as usize, neighbor: c as usize }]
    } else {
        Seq::empty()
    };
    let front = if has_front(s, c, w, h) {
        seq![
            Face {
                kind: FaceKind::Front,
                x,
                y,
                tile: s.tile_front as usize,
                neighbor: (c + w) as usize,
            },
        ]
    } else {
        Seq::empty()
    };
    let right = if has_right(s, c, w) {
        seq![
            Face {
                kind: FaceKind::Right,
                x,
                y,
                tile: s.tile_right as usize,
                neighbor: (c + 1) as usize,
            },
        ]
    } else {
        Seq::empty()
    };
    top + front + right
}

/// The quads of the first `n` cells, cell by cell in row-major order.
pub open spec fn faces_upto(surfaces: Seq<Surface>, w: int, h: int, n: int) -> Seq<Face>
    decreases n,
{
    if n <= 0 {
        Seq::empty()
    } else {
        faces_upto(surfaces, w, h, n - 1) + cell_faces(surfaces, w, h, n - 1)
    }
}

/// Every tile that cell `c` of a `w` by `h` grid would emit a quad with exists, given the cell's
/// top, front and right tile references.
pub open spec fn refs_ok(up: int, front: int, right: int, c: int, w: int, h: int, tiles: int) -> bool {
    &&& up != -1 ==> 0 <= up < tiles
    &&& front != -1 && row_of(c, w) + 1 < h ==> 0 <= front < tiles
    &&& right != -1 && col_of(c, w) + 1 < w ==> 0 <= right < tiles
}

/// Every tile that cell `c` would emit a quad with exists.
pub open spec fn cell_refs_ok(surfaces: Seq<Surface>, w: int, h: int, c: int, tiles: int) -> bool {
    let s = surfaces[c];
    refs_ok(s.tile_up as int, s.tile_front as int, s.tile_right as int, c, w, h, tiles)
}

/// Every quad of the grid refers to an existing tile.
pub open spec fn grid_refs_ok(surfaces: Seq<Surface>, w: int, h: int, tiles: int) -> bool {
    forall|c: int| 0 <= c < w * h ==> cell_refs_ok(surfaces, w, h, c, tiles)
}

/// Decides which ground quads a `width` by `height` grid emits: for every cell in row-major
/// order, a top face if its top reference is not -1, a front face if its front reference is not
/// -1 and the next row exists, a right face if its right reference is not -1 and the next column
/// exists. Only front and right walls are emitted, so that a wall shared by two cells is emitted
/// once. Fails with an index error when a quad that would be emitted names a tile outside `0..tile_count`; -1 is the
/// only reference that means "no face".
pub fn plan_faces(surfaces: &Vec<Surface>, width: u32, height: u32, tile_count: usize) -> (r: Result<
    Vec<Face>,
    GndError,
>)
    requires
        surfaces@.len() == width as int * height as int,
    ensures
        r.is_ok() <==> grid_refs_ok(surfaces@, width as int, height as int, tile_count as int),
        r.is_err() ==> r == Err::<Vec<Face>, GndError>(GndError::IndexError),
        r.is_ok() ==> r.unwrap()@ == faces_upto(
            surfaces@,
            width as int,
            height as int,
            width as int * height as int,
        ),
{
    let n = surfaces.len();
    let ghost w = width as int;
    let ghost h = height as int;
    let mut faces: Vec<Face> = Vec::new();
    let mut c: usize = 0;
    while c < n
        invariant
            n == surfaces@.len(),
            n == w * h,
            w == width,
            h == height,
            c <= n,
            faces@ == faces_upto(surfaces@, w, h, c as int),
            forall|k: int| 0 <= k < c ==> cell_refs_ok(surfaces@, w, h, k, tile_count as int),
        decreases n - c,
    {
        proof {
            let ci = c as int;
            assert(w > 0) by (nonlinear_arith)
                requires
                    c < w * h,
                    w >= 0,
                    h >= 0,
            ;
            assert(ci / w < h) by (nonlinear_arith)
                requires
                    ci < w * h,
                    w > 0,
                    ci >= 0,
            ;
            assert(ci + w < w * h <==> ci / w + 1 < h) by (nonlinear_arith)
                requires
                    ci < w * h,
                    w > 0,
                    ci >= 0,
            ;
        }
        let s = &surfaces[c];
        let x = (c % (width as usize)) as u32;
        let y = (c / (width as usize)) as u32;
        let ghost before = faces@;
        assert(y as int == row_of(c as int, w) && x as int == col_of(c as int, w));
        if s.tile_up != -1 {
            if s.tile_up < 0 || s.tile_up as usize >= tile_count {
                assert(!cell_refs_ok(surfaces@, w, h, c as int, tile_count as int));
                return Err(GndError::IndexError);
            }
            faces.push(Face { kind: FaceKind::Top, x, y, tile: s.tile_up as usize, neighbor: c });
        }
        if s.tile_front != -1 && y + 1 < height {
            if s.tile_front < 0 || s.tile_front as usize >= tile_count {
                assert(!cell_refs_ok(surfaces@, w, h, c as int, tile_count as int));
                return Err(GndError::IndexError);
            }
            faces.push(
                Face {
                    kind: FaceKind::Front,
                    x,
                    y,
                    tile: s.tile_front as usize,
                    neighbor: c + width as usize,
                },
            );
        }
        if s.tile_right != -1 && x + 1 < width {
            if s.tile_right < 0 || s.tile_right as usize >= tile_count {
                assert(!cell_refs_ok(surfaces@, w, h, c as int, tile_count as int));
                return Err(GndError::IndexError);
            }
            faces.push(
                Face { kind: FaceKind::Right, x, y, tile: s.tile_right as usize, neighbor: c + 1 },
            );
        }
        assert(faces@ =~= before + cell_faces(surfaces@, w, h, c as int));
        c = c + 1;
    }
    Ok(faces)
}

/// The plan holds a quad of kind `kind` owned by the cell at column `x`, row `y`.
pub open spec fn plan_has(plan: Seq<Face>, kind: FaceKind, x: int, y: int) -> bool {
    exists|i: int|
        0 <= i < plan.len() && plan[i].kind == kind && plan[i].x == x && plan[i].y == y
}

/// A quad is among those of the first `n` cells exactly when one of those cells owns it.
pub proof fn lemma_faces_upto_member(surfaces: Seq<Surface>, w: int, h: int, n: int, f: Face)
    requires
        n >= 0,
    ensures
        faces_upto(surfaces, w, h, n).contains(f) <==> exists|c: int|
            0 <= c < n && #[trigger] cell_faces(surfaces, w, h, c).contains(f),
    decreases n,
{
    if n > 0 {
        lemma_faces_upto_member(surfaces, w, h, n - 1, f);
        let a = faces_upto(surfaces, w, h, n - 1);
        let b = cell_faces(surfaces, w, h, n - 1);
        if (a + b).contains(f) {
            let i = choose|i: int| 0 <= i < (a + b).len() && (a + b)[i] == f;
            if i < a.len() {
                assert(a[i] == f);
                assert(a.contains(f));
                let c = choose|c: int|
                    0 <= c < n - 1 && #[trigger] cell_faces(surfaces, w, h, c).contains(f);
                assert(0 <= c < n && cell_faces(surfaces, w, h, c).contains(f));
            } else {
                assert(b[i - a.len()] == f);
                assert(b.contains(f));
                assert(0 <= n - 1 < n && cell_faces(surfaces, w, h, n - 1).contains(f));
            }
        }
        if exists|c: int| 0 <= c < n && #[trigger] cell_faces(surfaces, w, h, c).contains(f) {
            let c = choose|c: int| 0 <= c < n && #[trigger] cell_faces(surfaces, w, h, c).contains(f);
            if c < n - 1 {
                assert(a.contains(f));
                let i = choose|i: int| 0 <= i < a.len() && a[i] == f;
                assert((a + b)[i] == f);
            } else {
                let i = choose|i: int| 0 <= i < b.len() && b[i] == f;
                assert((a + b)[a.len() + i] == f);
            }
            assert((a + b).contains(f));
        }
    }
}

/// Cells of a grid `w` wide are told apart by their column and row.
proof fn lemma_cell_coords(w: int, h: int, c: int)
    requires
        w >= 0,
        0 <= c < w * h,
    ensures
        w > 0,
        0 <= col_of(c, w) < w,
        0 <= row_of(c, w) < h,
        forall|c2: int|
            0 <= c2 && col_of(c2, w) == col_of(c, w) && row_of(c2, w) == row_of(c, w) ==> c2 == c,
{
    assert(w > 0 && 0 <= c % w < w && 0 <= c / w < h) by (nonlinear_arith)
        requires
            0 <= c < w * h,
            w >= 0,
    ;
    assert forall|c2: int|
        0 <= c2 && col_of(c2, w) == col_of(c, w) && row_of(c2, w) == row_of(c, w) implies c2
        == c by {
        assert(c2 == w * (c2 / w) + c2 % w) by (nonlinear_arith)
            requires
                w > 0,
        ;
        assert(c == w * (c / w) + c % w) by (nonlinear_arith)
            requires
                w > 0,
        ;
    }
}

/// Some quad of `faces` is of kind `kind`.
pub open spec fn has_kind(faces: Seq<Face>, kind: FaceKind) -> bool {
    exists|i: int| 0 <= i < faces.len() && faces[i].kind == kind
}

/// The plan holds a quad of a kind at a cell's place exactly when the cell owns one.
#[verifier::rlimit(50)]
proof fn lemma_plan_has_cell(surfaces: Seq<Surface>, w: int, h: int, c: int, kind: FaceKind)
    requires
        surfaces.len() == w * h,
        w >= 0,
        0 <= c < w * h,
        w <= u32::MAX,
        h <= u32::MAX,
    ensures
        plan_has(faces_upto(surfaces, w, h, w * h), kind, col_of(c, w), row_of(c, w))
            <==> has_kind(cell_faces(surfaces, w, h, c), kind),
{
    let n = w * h;
    let plan = faces_upto(surfaces, w, h, n);
    let x = col_of(c, w);
    let y = row_of(c, w);
    let cf = cell_faces(surfaces, w, h, c);
    lemma_cell_coords(w, h, c);
    if plan_has(plan, kind, x, y) {
        let i = choose|i: int|
            0 <= i < plan.len() && plan[i].kind == kind && plan[i].x == x && plan[i].y == y;
        let f = plan[i];
        assert(plan.contains(f));
        lemma_faces_upto_member(surfaces, w, h, n, f);
        let c2 = choose|c2: int| 0 <= c2 < n && #[trigger] cell_faces(surfaces, w, h, c2).contains(f);
        let cf2 = cell_faces(surfaces, w, h, c2);
        let j = choose|j: int| 0 <= j < cf2.len() && cf2[j] == f;
        lemma_cell_coords(w, h, c2);
        assert(f.x == col_of(c2, w) as u32 && f.y == row_of(c2, w) as u32);
        assert(col_of(c2, w) == x && row_of(c2, w) == y);
        assert(c2 == c);
        assert(cf[j].kind == kind);
    }
    if has_kind(cf, kind) {
        let i = choose|i: int| 0 <= i < cf.len() && cf[i].kind == kind;
        let f = cf[i];
        assert(cf.contains(f));
        assert(f.x == x as u32 && f.y == y as u32);
        lemma_faces_upto_member(surfaces, w, h, n, f);
        let k = choose|k: int| 0 <= k < plan.len() && plan[k] == f;
        assert(plan[k].kind == kind && plan[k].x == x && plan[k].y == y);
    }
}

/// Which quads a cell owns: a top face exactly when its top reference is not -1; a front face
/// exactly when its front reference is not -1 and it is not on the last row; a right face exactly
/// when its right reference is not -1 and it is not on the last column. No face points off the grid.
pub proof fn lemma_face_emission(surfaces: Seq<Surface>, width: u32, height: u32, c: int)
    requires
        surfaces.len() == width as int * height as int,
        0 <= c < surfaces.len(),
    ensures
        ({
            let plan = faces_upto(surfaces, width as int, height as int, surfaces.len() as int);
            let x = col_of(c, width as int);
            let y = row_of(c, width as int);
            let s = surfaces[c];
            &&& plan_has(plan, FaceKind::Top, x, y) <==> s.tile_up != -1
            &&& plan_has(plan, FaceKind::Front, x, y) <==> s.tile_front != -1 && y + 1 < height
            &&& plan_has(plan, FaceKind::Right, x, y) <==> s.tile_right != -1 && x + 1 < width
        }),
{
    let w = width as int;
    let h = height as int;
    lemma_plan_has_cell(surfaces, w, h, c, FaceKind::Top);
    lemma_plan_has_cell(surfaces, w, h, c, FaceKind::Front);
    lemma_plan_has_cell(surfaces, w, h, c, FaceKind::Right);
    let cf = cell_faces(surfaces, w, h, c);
    let s = surfaces[c];
    if s.tile_up != -1 {
        assert(cf[0].kind == FaceKind::Top);
    }
    if has_front(s, c, w, h) {
        let i: int = if has_top(s) { 1 } else { 0 };
        assert(cf[i].kind == FaceKind::Front);
    }
    if has_right(s, c, w) {
        let i: int = cf.len() - 1;
        assert(cf[i].kind == FaceKind::Right);
    }
}

/// The quads depend on the cells' tile references alone.
pub proof fn lemma_faces_same_refs(s1: Seq<Surface>, s2: Seq<Surface>, w: int, h: int, n: int)
    requires
        forall|c: int|
            0 <= c < n ==> s1[c].tile_up == s2[c].tile_up && s1[c].tile_front == s2[c].tile_front
                && s1[c].tile_right == s2[c].tile_right,
    ensures
        faces_upto(s1, w, h, n) == faces_upto(s2, w, h, n),
    decreases n,
{
    if n > 0 {
        lemma_faces_same_refs(s1, s2, w, h, n - 1);
        assert(cell_faces(s1, w, h, n - 1) == cell_faces(s2, w, h, n - 1));
    }
}

} // verus!
