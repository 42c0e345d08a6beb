//! Storage of a staggered MAC flow grid: horizontal flow lives on the
//! vertical faces (`U`), vertical flow on the horizontal faces (`V`), and any
//! face can be fixed as a boundary constraint. The grid is generic over the
//! face value; the numerics run on top of it.
use vstd::prelude::*;

verus! {

/// A pair of unsigned grid numbers: a cell coordinate or a grid size.
#[derive(Debug, Clone, Copy, PartialEq, Eq, Structural)]
pub struct USizeVec2 {
    pub x: usize,
    pub y: usize,
}

/// Which family of faces: `U` carries horizontal flow, `V` vertical flow.
#[derive(Debug, Clone, Copy, PartialEq, Eq, Structural)]
pub enum MacFace {
    U,
    V,
}

/// Row-major index of cell (`x`, `y`) in a grid `width` cells wide.
pub open spec fn row_major(x: int, y: int, width: int) -> int {
    x + y * width
}

proof fn lemma_row_major_bounds(x: int, y: int, width: int, height: int)
    requires
        0 <= x < width,
        0 <= y < height,
    ensures
        0 <= row_major(x, y, width) < width * height,
        0 <= y * width <= row_major(x, y, width),
{
    assert(x + y * width < width * height) by (nonlinear_arith)
        requires
            0 <= x < width,
            0 <= y < height,
    ;
    assert(0 <= y * width) by (nonlinear_arith)
        requires
            0 <= y,
            0 <= width,
    ;
}

proof fn lemma_row_major_injective(x1: int, y1: int, x2: int, y2: int, width: int)
    requires
        0 <= x1 < width,
        0 <= x2 < width,
        0 <= y1,
        0 <= y2,
        row_major(x1, y1, width) == row_major(x2, y2, width),
    ensures
        x1 == x2,
        y1 == y2,
{
    assert(y1 == y2) by (nonlinear_arith)
        requires
            0 <= x1 < width,
            0 <= x2 < width,
            0 <= y1,
            0 <= y2,
            x1 + y1 * width == x2 + y2 * width,
    ;
}

/// The four faces around one cell: left and right `U` faces, top and bottom `V` faces.
#[derive(Debug, Clone, Copy)]
pub struct CellFaces<V> {
    pub u_min: V,
    pub u_max: V,
    pub v_min: V,
    pub v_max: V,
}

/// A sparse grid of per-cell values, row-major.
pub struct CellFlowGrid<C> {
    dim: USizeVec2,
    data: Vec<Option<C>>,
}

impl<C: Copy> CellFlowGrid<C> {
    fn from_cells(dim: USizeVec2, data: Vec<Option<C>>) -> (grid: Self)
        ensures
            grid.spec_dim() == dim,
            grid.cells() == data@,
    {
        CellFlowGrid { dim, data }
    }

    pub closed spec fn spec_dim(&self) -> USizeVec2 {
        self.dim
    }

    pub closed spec fn cells(&self) -> Seq<Option<C>> {
        self.data@
    }

    pub open spec fn wf(&self) -> bool {
        &&& self.cells().len() == self.spec_dim().x * self.spec_dim().y
        &&& self.spec_dim().x * self.spec_dim().y <= usize::MAX
    }

    pub fn dim(&self) -> (dim: USizeVec2)
        ensures
            dim == self.spec_dim(),
    {
        self.dim
    }

    /// Row-major index of `coord`.
    pub fn coord_to_index(&self, coord: USizeVec2) -> (index: usize)
        requires
            self.wf(),
            coord.x < self.spec_dim().x,
            coord.y < self.spec_dim().y,
        ensures
            index == row_major(coord.x as int, coord.y as int, self.spec_dim().x as int),
            index < self.cells().len(),
    {
        proof {
            lemma_row_major_bounds(coord.x as int, coord.y as int, self.dim.x as int, self.dim.y as int);
        }
        coord.x + coord.y * self.dim.x
    }

    /// The value of the cell at `coord`, if the cell has one.
    pub fn get_cell(&self, coord: USizeVec2) -> (value: Option<C>)
        requires
            self.wf(),
            coord.x < self.spec_dim().x,
            coord.y < self.spec_dim().y,
        ensures
            value == self.cells()[row_major(coord.x as int, coord.y as int, self.spec_dim().x as int)],
    {
        let index = self.coord_to_index(coord);
        self.data[index]
    }

    /// Every cell coordinate with its index, column by column.
    pub fn points(&self) -> (points: Vec<(USizeVec2, usize)>)
        requires
            self.wf(),
        ensures
            points@.len() == self.spec_dim().x * self.spec_dim().y,
            forall|i: int|
                0 <= i < points@.len() ==> #[trigger] points@[i] == grid_point(self.spec_dim(), i),
    {
        grid_points(self.dim)
    }
}

/// The `i`-th cell of a `dim` grid in column-by-column order, with its row-major index.
pub open spec fn grid_point(dim: USizeVec2, i: int) -> (USizeVec2, usize) {
    let x = i / (dim.y as int);
    let y = i % (dim.y as int);
    (USizeVec2 { x: x as usize, y: y as usize }, row_major(x, y, dim.x as int) as usize)
}

/// Every cell of a `dim` grid, column by column, each with its row-major index.
pub fn grid_points(dim: USizeVec2) -> (points: Vec<(USizeVec2, usize)>)
    requires
        dim.x * dim.y <= usize::MAX,
    ensures
        points@.len() == dim.x * dim.y,
        forall|i: int| 0 <= i < points@.len() ==> #[trigger] points@[i] == grid_point(dim, i),
{
    let mut points: Vec<(USizeVec2, usize)> = Vec::new();
    let mut x: usize = 0;
    while x < dim.x
        invariant
            x <= dim.x,
            dim.x * dim.y <= usize::MAX,
            points@.len() == x * dim.y,
            forall|i: int| 0 <= i < points@.len() ==> #[trigger] points@[i] == grid_point(dim, i),
        decreases dim.x - x,
    {
        let mut y: usize = 0;
        while y < dim.y
            invariant
                x < dim.x,
                y <= dim.y,
                dim.x * dim.y <= usize::MAX,
                points@.len() == x * dim.y + y,
                forall|i: int| 0 <= i < points@.len() ==> #[trigger] points@[i] == grid_point(dim, i),
            decreases dim.y - y,
        {
            proof {
                let k = points@.len() as int;
                assert(k / (dim.y as int) == x && k % (dim.y as int) == y) by (nonlinear_arith)
                    requires
                        k == x * dim.y + y,
                        0 <= y < dim.y,
                ;
                lemma_row_major_bounds(x as int, y as int, dim.x as int, dim.y as int);
            }
            points.push((USizeVec2 { x, y }, x + y * dim.x));
            y = y + 1;
        }
        proof {
            assert(x * dim.y + dim.y == (x + 1) * dim.y) by (nonlinear_arith);
        }
        x = x + 1;
    }
    points
}

/// A grid of `interior_dim` cells with `buffer_cells` more on every side.
pub fn buffered_grid_dim(interior_dim: USizeVec2, buffer_cells: usize) -> (dim: USizeVec2)
    requires
        interior_dim.x + 2 * buffer_cells <= usize::MAX,
        interior_dim.y + 2 * buffer_cells <= usize::MAX,
    ensures
        dim.x == interior_dim.x + 2 * buffer_cells,
        dim.y == interior_dim.y + 2 * buffer_cells,
{
    USizeVec2 { x: interior_dim.x + buffer_cells * 2, y: interior_dim.y + buffer_cells * 2 }
}

/// The cells next to `coord` inside a `dim` grid, in the order left, right,
/// above (smaller `y`), below.
pub open spec fn neighbour_cells_spec(coord: USizeVec2, dim: USizeVec2) -> Seq<USizeVec2> {
    let left = if coord.x > 0 { seq![USizeVec2 { x: (coord.x - 1) as usize, y: coord.y }] } else { seq![] };
    let right = if coord.x + 1 < dim.x { seq![USizeVec2 { x: (coord.x + 1) as usize, y: coord.y }] } else { seq![] };
    let up = if coord.y > 0 { seq![USizeVec2 { x: coord.x, y: (coord.y - 1) as usize }] } else { seq![] };
    let down = if coord.y + 1 < dim.y { seq![USizeVec2 { x: coord.x, y: (coord.y + 1) as usize }] } else { seq![] };
    left + right + up + down
}

/// The cells next to `coord` inside a `dim` grid: the candidates among
/// which the cells outside the fluid are picked.
pub fn neighbour_cells(coord: USizeVec2, dim: USizeVec2) -> (cells: Vec<USizeVec2>)
    ensures
        cells@ == neighbour_cells_spec(coord, dim),
{
    let mut cells: Vec<USizeVec2> = Vec::new();
    if coord.x > 0 {
        cells.push(USizeVec2 { x: coord.x - 1, y: coord.y });
    }
    if coord.x < dim.x && coord.x + 1 < dim.x {
        cells.push(USizeVec2 { x: coord.x + 1, y: coord.y });
    }
    if coord.y > 0 {
        cells.push(USizeVec2 { x: coord.x, y: coord.y - 1 });
    }
    if coord.y < dim.y && coord.y + 1 < dim.y {
        cells.push(USizeVec2 { x: coord.x, y: coord.y + 1 });
    }
    proof {
        assert(cells@ =~= neighbour_cells_spec(coord, dim));
    }
    cells
}

/// Face storage of a staggered MAC grid of `dim` cells.
pub struct StaggeredMacFlowGrid<V> {
    dim: USizeVec2,
    u_faces: Vec<V>,
    v_faces: Vec<V>,
    u_face_constraints: Vec<bool>,
    v_face_constraints: Vec<bool>,
}

/// Whether (`x`, `y`) names a face of the family `face` in a `dim` grid:
/// `U` faces have `x <= dim.x`, `y < dim.y`; `V` faces `x < dim.x`, `y <= dim.y`.
pub open spec fn valid_face(dim: USizeVec2, face: MacFace, x: int, y: int) -> bool {
    match face {
        MacFace::U => 0 <= x <= dim.x && 0 <= y < dim.y,
        MacFace::V => 0 <= x < dim.x && 0 <= y <= dim.y,
    }
}

/// Index of face (`x`, `y`) in the storage of its family.
pub open spec fn face_index_of(dim: USizeVec2, face: MacFace, x: int, y: int) -> int {
    match face {
        MacFace::U => row_major(x, y, dim.x + 1),
        MacFace::V => row_major(x, y, dim.x as int),
    }
}

impl<V: Copy> StaggeredMacFlowGrid<V> {
    pub closed spec fn spec_dim(&self) -> USizeVec2 {
        self.dim
    }

    pub closed spec fn wf(&self) -> bool {
        &&& self.dim.x < usize::MAX
        &&& self.dim.y < usize::MAX
        &&& self.dim.y * (self.dim.x + 1) <= usize::MAX
        &&& (self.dim.y + 1) * self.dim.x <= usize::MAX
        &&& self.u_faces@.len() == self.dim.y * (self.dim.x + 1)
        &&& self.v_faces@.len() == (self.dim.y + 1) * self.dim.x
        &&& self.u_face_constraints@.len() == self.u_faces@.len()
        &&& self.v_face_constraints@.len() == self.v_faces@.len()
    }

    /// The value stored on a face.
    pub closed spec fn face_value(&self, face: MacFace, x: int, y: int) -> V {
        match face {
            MacFace::U => self.u_faces@[face_index_of(self.dim, face, x, y)],
            MacFace::V => self.v_faces@[face_index_of(self.dim, face, x, y)],
        }
    }

    /// Whether a face is fixed as a boundary constraint.
    pub closed spec fn face_fixed(&self, face: MacFace, x: int, y: int) -> bool {
        match face {
            MacFace::U => self.u_face_constraints@[face_index_of(self.dim, face, x, y)],
            MacFace::V => self.v_face_constraints@[face_index_of(self.dim, face, x, y)],
        }
    }

    /// Some face of the grid is fixed.
    pub open spec fn spec_has_constraints(&self) -> bool {
        exists|face: MacFace, x: int, y: int|
            valid_face(self.spec_dim(), face, x, y) && #[trigger] self.face_fixed(face, x, y)
    }

    /// How many of the four faces around cell (`x`, `y`) are fixed.
    pub open spec fn spec_fixed_cell_face_count(&self, x: int, y: int) -> nat {
        (if self.face_fixed(MacFace::U, x, y) { 1nat } else { 0nat }) + (if self.face_fixed(
            MacFace::U,
            x + 1,
            y,
        ) {
            1nat
        } else {
            0nat
        }) + (if self.face_fixed(MacFace::V, x, y) { 1nat } else { 0nat }) + (if self.face_fixed(
            MacFace::V,
            x,
            y + 1,
        ) {
            1nat
        } else {
            0nat
        })
    }

    /// The faces around cell (`x`, `y`).
    pub open spec fn spec_cell_faces(&self, x: int, y: int) -> CellFaces<V> {
        CellFaces {
            u_min: self.face_value(MacFace::U, x, y),
            u_max: self.face_value(MacFace::U, x + 1, y),
            v_min: self.face_value(MacFace::V, x, y),
            v_max: self.face_value(MacFace::V, x, y + 1),
        }
    }

    /// Every face holds `value` and none is fixed.
    pub open spec fn uniform(&self, value: V) -> bool {
        forall|face: MacFace, x: int, y: int|
            valid_face(self.spec_dim(), face, x, y) ==> #[trigger] self.face_value(face, x, y) == value
                && !self.face_fixed(face, x, y)
    }

    /// A `dim` grid with every face at rest (`value`, the zero of the face
    /// values) and none fixed. The face counts must fit in memory.
    pub fn zero(dim: USizeVec2, value: V) -> (grid: Self)
        requires
            dim.x < usize::MAX,
            dim.y < usize::MAX,
            dim.y * (dim.x + 1) <= usize::MAX,
            (dim.y + 1) * dim.x <= usize::MAX,
        ensures
            grid.wf(),
            grid.spec_dim() == dim,
            grid.uniform(value),
    {
        let u_count = dim.y * (dim.x + 1);
        let v_count = (dim.y + 1) * dim.x;
        let grid = StaggeredMacFlowGrid {
            dim,
            u_faces: filled_vec(u_count, value),
            v_faces: filled_vec(v_count, value),
            u_face_constraints: filled_vec(u_count, false),
            v_face_constraints: filled_vec(v_count, false),
        };
        proof {
            assert forall|face: MacFace, x: int, y: int|
                valid_face(dim, face, x, y) implies #[trigger] grid.face_value(face, x, y) == value
                && !grid.face_fixed(face, x, y) by {
                grid.lemma_face_index_in_bounds(face, x, y);
                let k = face_index_of(dim, face, x, y);
                match face {
                    MacFace::U => {
                        assert(grid.u_faces@[k] == value);
                        assert(grid.u_face_constraints@[k] == false);
                    },
                    MacFace::V => {
                        assert(grid.v_faces@[k] == value);
                        assert(grid.v_face_constraints@[k] == false);
                    },
                }
            }
            assert(grid.spec_dim() == dim);
            assert(grid.uniform(value));
        }
        grid
    }

    proof fn lemma_face_index_in_bounds(&self, face: MacFace, x: int, y: int)
        requires
            self.u_faces@.len() == self.dim.y * (self.dim.x + 1),
            self.v_faces@.len() == (self.dim.y + 1) * self.dim.x,
            valid_face(self.dim, face, x, y),
        ensures
            0 <= face_index_of(self.dim, face, x, y),
            face == MacFace::U ==> face_index_of(self.dim, face, x, y) < self.u_faces@.len(),
            face == MacFace::V ==> face_index_of(self.dim, face, x, y) < self.v_faces@.len(),
    {
        match face {
            MacFace::U => {
                lemma_row_major_bounds(x, y, self.dim.x + 1, self.dim.y as int);
                assert((self.dim.x + 1) * self.dim.y == self.dim.y * (self.dim.x + 1)) by (nonlinear_arith);
            },
            MacFace::V => {
                lemma_row_major_bounds(x, y, self.dim.x as int, self.dim.y + 1);
                assert(self.dim.x * (self.dim.y + 1) == (self.dim.y + 1) * self.dim.x) by (nonlinear_arith);
            },
        }
    }

    proof fn lemma_face_index_injective(&self, face: MacFace, x1: int, y1: int, x2: int, y2: int)
        requires
            valid_face(self.dim, face, x1, y1),
            valid_face(self.dim, face, x2, y2),
            face_index_of(self.dim, face, x1, y1) == face_index_of(self.dim, face, x2, y2),
        ensures
            x1 == x2,
            y1 == y2,
    {
        match face {
            MacFace::U => lemma_row_major_injective(x1, y1, x2, y2, self.dim.x + 1),
            MacFace::V => lemma_row_major_injective(x1, y1, x2, y2, self.dim.x as int),
        }
    }

    pub fn dim(&self) -> (dim: USizeVec2)
        ensures
            dim == self.spec_dim(),
    {
        self.dim
    }

    /// Row-major index of cell `coord`.
    pub fn coord_to_index(&self, coord: USizeVec2) -> (index: usize)
        requires
            self.wf(),
            coord.x < self.spec_dim().x,
            coord.y < self.spec_dim().y,
        ensures
            index == row_major(coord.x as int, coord.y as int, self.spec_dim().x as int),
            index < self.spec_dim().x * self.spec_dim().y,
    {
        proof {
            lemma_row_major_bounds(coord.x as int, coord.y as int, self.dim.x as int, self.dim.y as int);
            assert(self.dim.x * self.dim.y <= (self.dim.y + 1) * self.dim.x) by (nonlinear_arith);
            assert(self.dim.x * self.dim.y == self.dim.y * self.dim.x) by (nonlinear_arith);
        }
        coord.x + coord.y * self.dim.x
    }

    /// Every cell coordinate with its index, column by column.
    pub fn points(&self) -> (points: Vec<(USizeVec2, usize)>)
        requires
            self.wf(),
        ensures
            points@.len() == self.spec_dim().x * self.spec_dim().y,
            forall|i: int|
                0 <= i < points@.len() ==> #[trigger] points@[i] == grid_point(self.spec_dim(), i),
    {
        proof {
            assert(self.dim.x * self.dim.y <= (self.dim.y + 1) * self.dim.x) by (nonlinear_arith);
        }
        grid_points(self.dim)
    }

    /// Index of face (`x`, `y`) in the storage of its family.
    fn face_index(&self, face: MacFace, x: usize, y: usize) -> (index: usize)
        requires
            self.wf(),
            valid_face(self.spec_dim(), face, x as int, y as int),
        ensures
            index == face_index_of(self.spec_dim(), face, x as int, y as int),
            face == MacFace::U ==> index < self.u_faces@.len(),
            face == MacFace::V ==> index < self.v_faces@.len(),
    {
        proof {
            self.lemma_face_index_in_bounds(face, x as int, y as int);
        }
        match face {
            MacFace::U => x + y * (self.dim.x + 1),
            MacFace::V => x + y * self.dim.x,
        }
    }

    /// The value on face (`x`, `y`).
    pub fn get_face(&self, face: MacFace, x: usize, y: usize) -> (value: V)
        requires
            self.wf(),
            valid_face(self.spec_dim(), face, x as int, y as int),
        ensures
            value == self.face_value(face, x as int, y as int),
    {
        let index = self.face_index(face, x, y);
        match face {
            MacFace::U => self.u_faces[index],
            MacFace::V => self.v_faces[index],
        }
    }

    /// Whether face (`x`, `y`) is fixed.
    pub fn is_face_fixed(&self, face: MacFace, x: usize, y: usize) -> (fixed: bool)
        requires
            self.wf(),
            valid_face(self.spec_dim(), face, x as int, y as int),
        ensures
            fixed == self.face_fixed(face, x as int, y as int),
    {
        let index = self.face_index(face, x, y);
        match face {
            MacFace::U => self.u_face_constraints[index],
            MacFace::V => self.v_face_constraints[index],
        }
    }

    /// Stores `value` on face (`x`, `y`); every other face and every
    /// constraint stay as they were.
    pub fn set_face(&mut self, face: MacFace, x: usize, y: usize, value: V)
        requires
            old(self).wf(),
            valid_face(old(self).spec_dim(), face, x as int, y as int),
        ensures
            final(self).wf(),
            final(self).spec_dim() == old(self).spec_dim(),
            final(self).face_value(face, x as int, y as int) == value,
            forall|f: MacFace, i: int, j: int|
                valid_face(old(self).spec_dim(), f, i, j) && !(f == face && i == x && j == y)
                    ==> #[trigger] final(self).face_value(f, i, j) == old(self).face_value(f, i, j),
            forall|f: MacFace, i: int, j: int|
                valid_face(old(self).spec_dim(), f, i, j) ==> #[trigger] final(self).face_fixed(f, i, j)
                    == old(self).face_fixed(f, i, j),
    {
        let index = self.face_index(face, x, y);
        match face {
            MacFace::U => self.u_faces.set(index, value),
            MacFace::V => self.v_faces.set(index, value),
        }
        proof {
            assert forall|f: MacFace, i: int, j: int|
                valid_face(old(self).spec_dim(), f, i, j) && !(f == face && i == x && j == y)
                    implies #[trigger] self.face_value(f, i, j) == old(self).face_value(f, i, j) by {
                old(self).lemma_face_index_in_bounds(f, i, j);
                if f == face && face_index_of(self.dim, f, i, j) == index as int {
                    self.lemma_face_index_injective(f, i, j, x as int, y as int);
                }
            }
        }
    }

    /// Marks face (`x`, `y`) fixed or free; values and every other
    /// constraint stay as they were.
    pub fn set_face_fixed(&mut self, face: MacFace, x: usize, y: usize, fixed: bool)
        requires
            old(self).wf(),
            valid_face(old(self).spec_dim(), face, x as int, y as int),
        ensures
            final(self).wf(),
            final(self).spec_dim() == old(self).spec_dim(),
            final(self).face_fixed(face, x as int, y as int) == fixed,
            forall|f: MacFace, i: int, j: int|
                valid_face(old(self).spec_dim(), f, i, j) && !(f == face && i == x && j == y)
                    ==> #[trigger] final(self).face_fixed(f, i, j) == old(self).face_fixed(f, i, j),
            forall|f: MacFace, i: int, j: int|
                valid_face(old(self).spec_dim(), f, i, j) ==> #[trigger] final(self).face_value(f, i, j)
                    == old(self).face_value(f, i, j),
    {
        let index = self.face_index(face, x, y);
        match face {
            MacFace::U => self.u_face_constraints.set(index, fixed),
            MacFace::V => self.v_face_constraints.set(index, fixed),
        }
        proof {
            assert forall|f: MacFace, i: int, j: int|
                valid_face(old(self).spec_dim(), f, i, j) && !(f == face && i == x && j == y)
                    implies #[trigger] self.face_fixed(f, i, j) == old(self).face_fixed(f, i, j) by {
                old(self).lemma_face_index_in_bounds(f, i, j);
                if f == face && face_index_of(self.dim, f, i, j) == index as int {
                    self.lemma_face_index_injective(f, i, j, x as int, y as int);
                }
            }
        }
    }
}

/// Whether face (`i`, `j`) of family `f` is one of the four faces around cell `coord`.
pub open spec fn on_cell(coord: USizeVec2, f: MacFace, i: int, j: int) -> bool {
    match f {
        MacFace::U => j == coord.y && (i == coord.x || i == coord.x + 1),
        MacFace::V => i == coord.x && (j == coord.y || j == coord.y + 1),
    }
}

impl<V: Copy> StaggeredMacFlowGrid<V> {
    /// What the cell-grid export holds for cell (`x`, `y`): nothing when the
    /// grid has constraints and the cell has no fixed face, or has only some
    /// fixed faces while partial cells are left out; otherwise its faces.
    pub open spec fn exported_cell(&self, x: int, y: int, include_partial_cells: bool) -> Option<CellFaces<V>> {
        let count = self.spec_fixed_cell_face_count(x, y);
        if self.spec_has_constraints() && (count == 0 || (count < 4 && !include_partial_cells)) {
            None
        } else {
            Some(self.spec_cell_faces(x, y))
        }
    }

    /// The faces around cell `coord`.
    pub fn get_cell(&self, coord: USizeVec2) -> (faces: CellFaces<V>)
        requires
            self.wf(),
            coord.x < self.spec_dim().x,
            coord.y < self.spec_dim().y,
        ensures
            faces == self.spec_cell_faces(coord.x as int, coord.y as int),
    {
        CellFaces {
            u_min: self.get_face(MacFace::U, coord.x, coord.y),
            u_max: self.get_face(MacFace::U, coord.x + 1, coord.y),
            v_min: self.get_face(MacFace::V, coord.x, coord.y),
            v_max: self.get_face(MacFace::V, coord.x, coord.y + 1),
        }
    }

    /// Sets the two `U` faces of cell `coord` to `value.0` and its two `V`
    /// faces to `value.1`, and leaves those four faces free.
    pub fn set_cell(&mut self, coord: USizeVec2, value: (V, V))
        requires
            old(self).wf(),
            coord.x < old(self).spec_dim().x,
            coord.y < old(self).spec_dim().y,
        ensures
            final(self).wf(),
            final(self).spec_dim() == old(self).spec_dim(),
            final(self).cell_written(*old(self), coord, value, false),
    {
        self.set_cell_inner(coord, value, false);
    }

    /// Sets the faces of cell `coord` as `set_cell` does and fixes all four.
    pub fn set_cell_fixed(&mut self, coord: USizeVec2, value: (V, V))
        requires
            old(self).wf(),
            coord.x < old(self).spec_dim().x,
            coord.y < old(self).spec_dim().y,
        ensures
            final(self).wf(),
            final(self).spec_dim() == old(self).spec_dim(),
            final(self).cell_written(*old(self), coord, value, true),
    {
        self.set_cell_inner(coord, value, true);
    }

    /// `self` is `before` with the four faces of cell `coord` holding
    /// `value` (`U` faces `value.0`, `V` faces `value.1`) and fixed as
    /// `fixed` says; every other face and constraint unchanged.
    pub open spec fn cell_written(&self, before: Self, coord: USizeVec2, value: (V, V), fixed: bool) -> bool {
        forall|f: MacFace, i: int, j: int|
            valid_face(before.spec_dim(), f, i, j) ==> {
                &&& #[trigger] self.face_value(f, i, j) == if on_cell(coord, f, i, j) {
                    if f == MacFace::U {
                        value.0
                    } else {
                        value.1
                    }
                } else {
                    before.face_value(f, i, j)
                }
                &&& self.face_fixed(f, i, j) == if on_cell(coord, f, i, j) {
                    fixed
                } else {
                    before.face_fixed(f, i, j)
                }
            }
    }

    #[verifier::rlimit(40)]
    fn set_cell_inner(&mut self, coord: USizeVec2, value: (V, V), fixed: bool)
        requires
            old(self).wf(),
            coord.x < old(self).spec_dim().x,
            coord.y < old(self).spec_dim().y,
        ensures
            final(self).wf(),
            final(self).spec_dim() == old(self).spec_dim(),
            final(self).cell_written(*old(self), coord, value, fixed),
    {
        self.set_face(MacFace::U, coord.x, coord.y, value.0);
        self.set_face(MacFace::U, coord.x + 1, coord.y, value.0);
        self.set_face_fixed(MacFace::U, coord.x, coord.y, fixed);
        self.set_face_fixed(MacFace::U, coord.x + 1, coord.y, fixed);
        self.set_face(MacFace::V, coord.x, coord.y, value.1);
        self.set_face(MacFace::V, coord.x, coord.y + 1, value.1);
        self.set_face_fixed(MacFace::V, coord.x, coord.y, fixed);
        self.set_face_fixed(MacFace::V, coord.x, coord.y + 1, fixed);
    }

    /// Frees every face; the values stay as they were.
    pub fn clear_constraints(&mut self)
        requires
            old(self).wf(),
        ensures
            final(self).wf(),
            final(self).spec_dim() == old(self).spec_dim(),
            !final(self).spec_has_constraints(),
            forall|f: MacFace, i: int, j: int|
                valid_face(old(self).spec_dim(), f, i, j) ==> #[trigger] final(self).face_value(f, i, j)
                    == old(self).face_value(f, i, j),
    {
        let u_count = self.u_face_constraints.len();
        let v_count = self.v_face_constraints.len();
        self.u_face_constraints = filled_vec(u_count, false);
        self.v_face_constraints = filled_vec(v_count, false);
        proof {
            assert forall|f: MacFace, i: int, j: int|
                valid_face(self.spec_dim(), f, i, j) implies !#[trigger] self.face_fixed(f, i, j) by {
                self.lemma_face_index_in_bounds(f, i, j);
            }
        }
    }

    /// How many of the four faces around cell `coord` are fixed.
    pub fn fixed_cell_face_count(&self, coord: USizeVec2) -> (count: usize)
        requires
            self.wf(),
            coord.x < self.spec_dim().x,
            coord.y < self.spec_dim().y,
        ensures
            count == self.spec_fixed_cell_face_count(coord.x as int, coord.y as int),
    {
        let mut count: usize = 0;
        if self.is_face_fixed(MacFace::U, coord.x, coord.y) {
            count = count + 1;
        }
        if self.is_face_fixed(MacFace::U, coord.x + 1, coord.y) {
            count = count + 1;
        }
        if self.is_face_fixed(MacFace::V, coord.x, coord.y) {
            count = count + 1;
        }
        if self.is_face_fixed(MacFace::V, coord.x, coord.y + 1) {
            count = count + 1;
        }
        count
    }

    /// Face (`k % w`, `k / w`) of family `face` has storage index `k`, where
    /// `w` is the width of that family's rows.
    proof fn lemma_face_of_index(&self, face: MacFace, k: int)
        requires
            self.wf(),
            0 <= k,
            face == MacFace::U ==> k < self.u_faces@.len(),
            face == MacFace::V ==> k < self.v_faces@.len(),
        ensures
            ({
                let w = if face == MacFace::U { self.dim.x + 1 } else { self.dim.x as int };
                &&& valid_face(self.dim, face, k % w, k / w)
                &&& face_index_of(self.dim, face, k % w, k / w) == k
            }),
    {
        let w = if face == MacFace::U { self.dim.x + 1 } else { self.dim.x as int };
        let h = if face == MacFace::U { self.dim.y as int } else { self.dim.y + 1 };
        assert(k < h * w) by {
            if face == MacFace::U {
                assert(self.dim.y * (self.dim.x + 1) == h * w);
            } else {
                assert((self.dim.y + 1) * self.dim.x == h * w) by (nonlinear_arith)
                    requires
                        h == self.dim.y + 1,
                        w == self.dim.x,
                ;
            }
        }
        assert(0 < w) by (nonlinear_arith)
            requires
                0 <= k < h * w,
                0 <= h,
                0 <= w,
        ;
        assert(k == k % w + (k / w) * w && 0 <= k % w < w && 0 <= k / w < h) by (nonlinear_arith)
            requires
                0 < w,
                0 <= k < h * w,
        ;
    }

    /// Whether any face of the grid is fixed.
    pub fn has_constraints(&self) -> (any: bool)
        requires
            self.wf(),
        ensures
            any == self.spec_has_constraints(),
    {
        let mut k: usize = 0;
        while k < self.u_face_constraints.len()
            invariant
                self.wf(),
                k <= self.u_face_constraints@.len(),
                forall|j: int| 0 <= j < k ==> !#[trigger] self.u_face_constraints@[j],
            decreases self.u_face_constraints@.len() - k,
        {
            if self.u_face_constraints[k] {
                proof {
                    self.lemma_face_of_index(MacFace::U, k as int);
                    let w = self.dim.x + 1;
                    assert(self.face_fixed(MacFace::U, k as int % w, k as int / w));
                }
                return true;
            }
            k = k + 1;
        }
        let mut k: usize = 0;
        while k < self.v_face_constraints.len()
            invariant
                self.wf(),
                k <= self.v_face_constraints@.len(),
                forall|j: int| 0 <= j < self.u_face_constraints@.len() ==> !#[trigger] self.u_face_constraints@[j],
                forall|j: int| 0 <= j < k ==> !#[trigger] self.v_face_constraints@[j],
            decreases self.v_face_constraints@.len() - k,
        {
            if self.v_face_constraints[k] {
                proof {
                    self.lemma_face_of_index(MacFace::V, k as int);
                    let w = self.dim.x as int;
                    assert(self.face_fixed(MacFace::V, k as int % w, k as int / w));
                }
                return true;
            }
            k = k + 1;
        }
        proof {
            assert forall|f: MacFace, i: int, j: int|
                valid_face(self.spec_dim(), f, i, j) implies !#[trigger] self.face_fixed(f, i, j) by {
                self.lemma_face_index_in_bounds(f, i, j);
            }
        }
        false
    }
}

impl<V: Copy> StaggeredMacFlowGrid<V> {
    /// The cells of the window of `dim` cells at `origin`, row-major, each as
    /// `exported_cell` says.
    pub fn to_cell_flow_grid_window(&self, origin: USizeVec2, dim: USizeVec2, include_partial_cells: bool) -> (cells: CellFlowGrid<CellFaces<V>>)
        requires
            self.wf(),
            origin.x + dim.x <= self.spec_dim().x,
            origin.y + dim.y <= self.spec_dim().y,
        ensures
            cells.wf(),
            cells.spec_dim() == dim,
            forall|x: int, y: int|
                0 <= x < dim.x && 0 <= y < dim.y ==> #[trigger] cells.cells()[row_major(x, y, dim.x as int)]
                    == self.exported_cell(origin.x + x, origin.y + y, include_partial_cells),
    {
        proof {
            let sd = self.spec_dim();
            assert(dim.x * dim.y <= sd.x * (sd.y + 1)) by (nonlinear_arith)
                requires
                    dim.x <= sd.x,
                    dim.y <= sd.y,
            ;
            assert(sd.x * (sd.y + 1) == (sd.y + 1) * sd.x) by (nonlinear_arith);
        }
        let has_constraints = self.has_constraints();
        let mut data: Vec<Option<CellFaces<V>>> = Vec::new();
        let mut y: usize = 0;
        while y < dim.y
            invariant
                self.wf(),
                origin.x + dim.x <= self.spec_dim().x,
                origin.y + dim.y <= self.spec_dim().y,
                dim.x * dim.y <= usize::MAX,
                has_constraints == self.spec_has_constraints(),
                y <= dim.y,
                data@.len() == y * dim.x,
                forall|i: int, j: int|
                    0 <= i < dim.x && 0 <= j < y ==> #[trigger] data@[row_major(i, j, dim.x as int)]
                        == self.exported_cell(origin.x + i, origin.y + j, include_partial_cells),
            decreases dim.y - y,
        {
            let mut x: usize = 0;
            while x < dim.x
                invariant
                    self.wf(),
                    origin.x + dim.x <= self.spec_dim().x,
                    origin.y + dim.y <= self.spec_dim().y,
                    dim.x * dim.y <= usize::MAX,
                    has_constraints == self.spec_has_constraints(),
                    y < dim.y,
                    x <= dim.x,
                    data@.len() == y * dim.x + x,
                    forall|i: int, j: int|
                        0 <= i < dim.x && 0 <= j < y ==> #[trigger] data@[row_major(i, j, dim.x as int)]
                            == self.exported_cell(origin.x + i, origin.y + j, include_partial_cells),
                    forall|i: int|
                        0 <= i < x ==> #[trigger] data@[row_major(i, y as int, dim.x as int)]
                            == self.exported_cell(origin.x + i, origin.y + y, include_partial_cells),
                decreases dim.x - x,
            {
                proof {
                    assert(y * dim.x + x < dim.x * dim.y) by (nonlinear_arith)
                        requires
                            x < dim.x,
                            y < dim.y,
                    ;
                }
                let coord = USizeVec2 { x: origin.x + x, y: origin.y + y };
                let mut keep = true;
                if has_constraints {
                    let fixed_face_count = self.fixed_cell_face_count(coord);
                    if fixed_face_count == 0 || (fixed_face_count < 4 && !include_partial_cells) {
                        keep = false;
                    }
                }
                let ghost before = data@;
                if keep {
                    data.push(Some(self.get_cell(coord)));
                } else {
                    data.push(None);
                }
                proof {
                    assert forall|i: int, j: int|
                        0 <= i < dim.x && 0 <= j < y implies #[trigger] data@[row_major(i, j, dim.x as int)]
                            == self.exported_cell(origin.x + i, origin.y + j, include_partial_cells) by {
                        lemma_row_major_bounds(i, j, dim.x as int, y as int);
                        assert(dim.x * y == y * dim.x) by (nonlinear_arith);
                        assert(data@[row_major(i, j, dim.x as int)] == before[row_major(i, j, dim.x as int)]);
                    }
                    assert forall|i: int|
                        0 <= i < x + 1 implies #[trigger] data@[row_major(i, y as int, dim.x as int)]
                            == self.exported_cell(origin.x + i, origin.y + y, include_partial_cells) by {
                        if i < x {
                            assert(data@[row_major(i, y as int, dim.x as int)] == before[row_major(i, y as int, dim.x as int)]);
                        }
                    }
                }
                x = x + 1;
            }
            proof {
                assert(y * dim.x + dim.x == (y + 1) * dim.x) by (nonlinear_arith);
            }
            y = y + 1;
        }
        proof {
            assert(data@.len() == dim.x * dim.y) by (nonlinear_arith)
                requires
                    data@.len() == y * dim.x,
                    y == dim.y,
            ;
        }
        CellFlowGrid::from_cells(dim, data)
    }

    /// The whole grid as cells, as `to_cell_flow_grid_window` gives them.
    pub fn to_cell_flow_grid(&self, include_partial_cells: bool) -> (cells: CellFlowGrid<CellFaces<V>>)
        requires
            self.wf(),
        ensures
            cells.wf(),
            cells.spec_dim() == self.spec_dim(),
            forall|x: int, y: int|
                0 <= x < self.spec_dim().x && 0 <= y < self.spec_dim().y
                    ==> #[trigger] cells.cells()[row_major(x, y, self.spec_dim().x as int)]
                    == self.exported_cell(x, y, include_partial_cells),
    {
        let dim = self.dim;
        self.to_cell_flow_grid_window(USizeVec2 { x: 0, y: 0 }, dim, include_partial_cells)
    }
}

/// A vector of `count` copies of `value`.
fn filled_vec<T: Copy>(count: usize, value: T) -> (v: Vec<T>)
    ensures
        v@.len() == count,
        forall|i: int| 0 <= i < count ==> #[trigger] v@[i] == value,
{
    let mut v: Vec<T> = Vec::new();
    let mut i: usize = 0;
    while i < count
        invariant
            i <= count,
            v@.len() == i,
            forall|k: int| 0 <= k < i ==> #[trigger] v@[k] == value,
        decreases count - i,
    {
        v.push(value);
        i = i + 1;
    }
    v
}

/// Reading a cell back after writing it gives the written values on its
/// faces, all four fixed or all four free as the write said.
pub proof fn lemma_cell_read_after_write<V: Copy>(
    before: StaggeredMacFlowGrid<V>,
    after: StaggeredMacFlowGrid<V>,
    coord: USizeVec2,
    value: (V, V),
    fixed: bool,
)
    requires
        coord.x < before.spec_dim().x,
        coord.y < before.spec_dim().y,
        after.cell_written(before, coord, value, fixed),
    ensures
        after.spec_cell_faces(coord.x as int, coord.y as int) == (CellFaces { u_min: value.0, u_max: value.0, v_min: value.1, v_max: value.1 }),
        after.spec_fixed_cell_face_count(coord.x as int, coord.y as int) == (if fixed { 4nat } else { 0nat }),
{
    let (x, y) = (coord.x as int, coord.y as int);
    assert(valid_face(before.spec_dim(), MacFace::U, x, y) && on_cell(coord, MacFace::U, x, y));
    assert(valid_face(before.spec_dim(), MacFace::U, x + 1, y) && on_cell(coord, MacFace::U, x + 1, y));
    assert(valid_face(before.spec_dim(), MacFace::V, x, y) && on_cell(coord, MacFace::V, x, y));
    assert(valid_face(before.spec_dim(), MacFace::V, x, y + 1) && on_cell(coord, MacFace::V, x, y + 1));
    assert(after.face_value(MacFace::U, x, y) == value.0);
    assert(after.face_value(MacFace::U, x + 1, y) == value.0);
    assert(after.face_value(MacFace::V, x, y) == value.1);
    assert(after.face_value(MacFace::V, x, y + 1) == value.1);
}

/// A cell written as fixed always appears in the cell export, partial cells
/// or not.
pub proof fn lemma_fixed_cell_exported<V: Copy>(
    before: StaggeredMacFlowGrid<V>,
    after: StaggeredMacFlowGrid<V>,
    coord: USizeVec2,
    value: (V, V),
    include_partial_cells: bool,
)
    requires
        coord.x < before.spec_dim().x,
        coord.y < before.spec_dim().y,
        after.spec_dim() == before.spec_dim(),
        after.cell_written(before, coord, value, true),
    ensures
        after.exported_cell(coord.x as int, coord.y as int, include_partial_cells) == Some(
            CellFaces { u_min: value.0, u_max: value.0, v_min: value.1, v_max: value.1 },
        ),
{
    lemma_cell_read_after_write(before, after, coord, value, true);
    let (x, y) = (coord.x as int, coord.y as int);
    assert(valid_face(after.spec_dim(), MacFace::U, x, y) && after.face_fixed(MacFace::U, x, y));
}

/// Which cells the export keeps. On a grid with constraints, leaving partial
/// cells out keeps exactly the cells whose four faces are all fixed, and
/// taking them in keeps exactly the cells with at least one fixed face; a
/// grid without constraints keeps every cell. A kept cell holds its faces.
pub proof fn lemma_export_keeps_constrained_cells<V: Copy>(
    grid: StaggeredMacFlowGrid<V>,
    x: int,
    y: int,
    include_partial_cells: bool,
)
    ensures
        ({
            let all_fixed = grid.face_fixed(MacFace::U, x, y) && grid.face_fixed(MacFace::U, x + 1, y)
                && grid.face_fixed(MacFace::V, x, y) && grid.face_fixed(MacFace::V, x, y + 1);
            let any_fixed = grid.face_fixed(MacFace::U, x, y) || grid.face_fixed(MacFace::U, x + 1, y)
                || grid.face_fixed(MacFace::V, x, y) || grid.face_fixed(MacFace::V, x, y + 1);
            let kept = grid.exported_cell(x, y, include_partial_cells) is Some;
            &&& grid.spec_has_constraints() && !include_partial_cells ==> (kept <==> all_fixed)
            &&& grid.spec_has_constraints() && include_partial_cells ==> (kept <==> any_fixed)
            &&& !grid.spec_has_constraints() ==> kept
            &&& kept ==> grid.exported_cell(x, y, include_partial_cells) == Some(grid.spec_cell_faces(x, y))
        }),
{
}

/// The neighbour cells of a cell inside the grid are exactly the cells of
/// the grid one step away from it, across a face.
pub proof fn lemma_neighbour_cells_are_adjacent(coord: USizeVec2, dim: USizeVec2, c: USizeVec2)
    requires
        coord.x < dim.x,
        coord.y < dim.y,
    ensures
        neighbour_cells_spec(coord, dim).contains(c) <==> {
            &&& c.x < dim.x
            &&& c.y < dim.y
            &&& (if c.x >= coord.x { c.x - coord.x } else { coord.x - c.x }) + (if c.y >= coord.y {
                c.y - coord.y
            } else {
                coord.y - c.y
            }) == 1
        },
{
    let s = neighbour_cells_spec(coord, dim);
    let dist = (if c.x >= coord.x { c.x - coord.x } else { coord.x - c.x }) + (if c.y >= coord.y {
        c.y - coord.y
    } else {
        coord.y - c.y
    });
    if s.contains(c) {
        let i = choose|i: int| 0 <= i < s.len() && s[i] == c;
        assert(s[i] == c);
    }
    if c.x < dim.x && c.y < dim.y && dist == 1 {
        let left = if coord.x > 0 { seq![USizeVec2 { x: (coord.x - 1) as usize, y: coord.y }] } else { seq![] };
        let right = if coord.x + 1 < dim.x { seq![USizeVec2 { x: (coord.x + 1) as usize, y: coord.y }] } else { seq![] };
        let up = if coord.y > 0 { seq![USizeVec2 { x: coord.x, y: (coord.y - 1) as usize }] } else { seq![] };
        let down = if coord.y + 1 < dim.y { seq![USizeVec2 { x: coord.x, y: (coord.y + 1) as usize }] } else { seq![] };
        assert(s == left + right + up + down);
        if c.x + 1 == coord.x {
            assert(s[0] == c);
        } else if c.x == coord.x + 1 {
            assert(s[left.len() as int] == c);
        } else if c.y + 1 == coord.y {
            assert(s[(left.len() + right.len()) as int] == c);
        } else {
            assert(s[(left.len() + right.len() + up.len()) as int] == c);
        }
    }
}

} // verus!