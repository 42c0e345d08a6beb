use jlh_maps::mac_grid::{
    buffered_grid_dim, grid_points, neighbour_cells, CellFaces, MacFace, StaggeredMacFlowGrid, USizeVec2,
};

fn dim(x: usize, y: usize) -> USizeVec2 {
    USizeVec2 { x, y }
}

fn faces(grid: &StaggeredMacFlowGrid<i32>, coord: USizeVec2) -> (i32, i32, i32, i32) {
    let f: CellFaces<i32> = grid.get_cell(coord);
    (f.u_min, f.u_max, f.v_min, f.v_max)
}

#[test]
fn zero_grid_has_every_face_at_rest() {
    let grid = StaggeredMacFlowGrid::zero(dim(3, 2), 0);
    assert_eq!(grid.dim(), dim(3, 2));
    for y in 0..2 {
        for x in 0..=3 {
            assert_eq!(grid.get_face(MacFace::U, x, y), 0);
            assert!(!grid.is_face_fixed(MacFace::U, x, y));
        }
    }
    for y in 0..=2 {
        for x in 0..3 {
            assert_eq!(grid.get_face(MacFace::V, x, y), 0);
        }
    }
    assert!(!grid.has_constraints());
}

#[test]
fn cells_are_indexed_row_major_and_listed_by_column() {
    let grid = StaggeredMacFlowGrid::zero(dim(3, 2), 0);
    assert_eq!(grid.coord_to_index(dim(2, 1)), 5);
    let points: Vec<(usize, usize, usize)> = grid.points().iter().map(|(c, i)| (c.x, c.y, *i)).collect();
    assert_eq!(points, vec![(0, 0, 0), (0, 1, 3), (1, 0, 1), (1, 1, 4), (2, 0, 2), (2, 1, 5)]);
    assert_eq!(grid_points(dim(0, 4)).len(), 0);
}

#[test]
fn setting_a_cell_writes_its_four_faces() {
    let mut grid = StaggeredMacFlowGrid::zero(dim(3, 2), 0);
    grid.set_cell(dim(1, 1), (5, -2));
    assert_eq!(faces(&grid, dim(1, 1)), (5, 5, -2, -2));
    assert_eq!(grid.get_face(MacFace::U, 1, 1), 5);
    assert_eq!(grid.get_face(MacFace::U, 2, 1), 5);
    assert_eq!(grid.get_face(MacFace::V, 1, 1), -2);
    assert_eq!(grid.get_face(MacFace::V, 1, 2), -2);
    assert_eq!(faces(&grid, dim(0, 1)), (0, 5, 0, 0));
    assert_eq!(grid.fixed_cell_face_count(dim(1, 1)), 0);
    assert!(!grid.has_constraints());
}

#[test]
fn fixed_cells_fix_their_faces_and_clearing_frees_them() {
    let mut grid = StaggeredMacFlowGrid::zero(dim(3, 2), 0);
    grid.set_cell_fixed(dim(0, 0), (1, 2));
    assert_eq!(grid.fixed_cell_face_count(dim(0, 0)), 4);
    assert_eq!(grid.fixed_cell_face_count(dim(1, 0)), 1);
    assert!(grid.has_constraints());
    grid.clear_constraints();
    assert!(!grid.has_constraints());
    assert_eq!(faces(&grid, dim(0, 0)), (1, 1, 2, 2));
}

#[test]
fn single_faces_can_be_set_and_fixed() {
    let mut grid = StaggeredMacFlowGrid::zero(dim(2, 2), 0);
    grid.set_face(MacFace::V, 1, 2, 9);
    grid.set_face_fixed(MacFace::V, 1, 2, true);
    assert_eq!(grid.get_face(MacFace::V, 1, 2), 9);
    assert!(grid.is_face_fixed(MacFace::V, 1, 2));
    assert!(!grid.is_face_fixed(MacFace::V, 0, 2));
    assert_eq!(grid.fixed_cell_face_count(dim(1, 1)), 1);
}

#[test]
fn unconstrained_grids_export_every_cell() {
    let mut grid = StaggeredMacFlowGrid::zero(dim(2, 2), 0);
    grid.set_cell(dim(1, 0), (3, 4));
    let cells = grid.to_cell_flow_grid(false);
    assert_eq!(cells.dim(), dim(2, 2));
    for y in 0..2 {
        for x in 0..2 {
            assert!(cells.get_cell(dim(x, y)).is_some());
        }
    }
    let c = cells.get_cell(dim(1, 0)).unwrap();
    assert_eq!((c.u_min, c.u_max, c.v_min, c.v_max), (3, 3, 4, 4));
}

#[test]
fn constrained_grids_export_only_fixed_cells() {
    let mut grid = StaggeredMacFlowGrid::zero(dim(3, 1), 0);
    grid.set_cell_fixed(dim(0, 0), (1, 1));
    let strict = grid.to_cell_flow_grid(false);
    assert!(strict.get_cell(dim(0, 0)).is_some());
    assert!(strict.get_cell(dim(1, 0)).is_none());
    assert!(strict.get_cell(dim(2, 0)).is_none());
    let partial = grid.to_cell_flow_grid(true);
    assert!(partial.get_cell(dim(1, 0)).is_some());
    assert!(partial.get_cell(dim(2, 0)).is_none());
}

#[test]
fn windows_export_a_part_of_the_grid() {
    let mut grid = StaggeredMacFlowGrid::zero(dim(4, 3), 0);
    grid.set_cell(dim(2, 1), (7, 8));
    let window = grid.to_cell_flow_grid_window(dim(1, 1), dim(2, 2), true);
    assert_eq!(window.dim(), dim(2, 2));
    assert_eq!(window.coord_to_index(dim(1, 0)), 1);
    let c = window.get_cell(dim(1, 0)).unwrap();
    assert_eq!((c.u_min, c.v_min), (7, 8));
    assert_eq!(window.points().len(), 4);
}

#[test]
fn buffered_grids_grow_on_every_side() {
    assert_eq!(buffered_grid_dim(dim(10, 4), 3), dim(16, 10));
    assert_eq!(buffered_grid_dim(dim(10, 4), 0), dim(10, 4));
}

#[test]
fn neighbour_cells_stay_inside_the_grid() {
    assert_eq!(neighbour_cells(dim(1, 1), dim(3, 3)), vec![dim(0, 1), dim(2, 1), dim(1, 0), dim(1, 2)]);
    assert_eq!(neighbour_cells(dim(0, 0), dim(3, 3)), vec![dim(1, 0), dim(0, 1)]);
    assert_eq!(neighbour_cells(dim(2, 2), dim(3, 3)), vec![dim(1, 2), dim(2, 1)]);
    assert!(neighbour_cells(dim(0, 0), dim(1, 1)).is_empty());
}
