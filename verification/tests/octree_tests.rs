use ecoord::morton::{morton_encode, split_by_3};
use ecoord::octree::{sort_by_morton_indices, GridPoint, OctantIndex, Octree};
use ecoord::CoordsError;

#[test]
fn test_basic_index_construction() {
    let index = OctantIndex::new(2, 1, 3, 0);

    assert!(index.is_ok());
}

#[test]
fn test_index_out_of_bounds() {
    let index = OctantIndex::new(0, 1, 0, 0);
    let expected = Err(CoordsError::IndexOutOfBounds {
        level: 0,
        maximum_index: 0,
        x: 1,
        y: 0,
        z: 0,
    });

    assert_eq!(index, expected);
}

#[test]
fn test_parent() {
    let index = OctantIndex::new(2, 3, 0, 0).expect("should work");
    let parent = index.get_parent().unwrap();

    assert_eq!(parent, OctantIndex::new(1, 1, 0, 0).expect("should work"));
}

#[test]
fn test_children() {
    let index = OctantIndex::new(1, 1, 0, 1).expect("should work");
    let children = index.get_children();

    assert_eq!(children.len(), 8);
    assert_eq!(children[0], OctantIndex::new_unchecked(2, 2, 0, 2));
    assert_eq!(children[7], OctantIndex::new_unchecked(2, 3, 1, 3));
    for child in &children {
        assert_eq!(child.get_parent().unwrap(), index);
    }
}

#[test]
fn test_ancestors_chain() {
    let octant = OctantIndex::new(2, 3, 2, 1).unwrap();
    let ancestors = octant.get_ancestors();

    assert_eq!(ancestors.len(), 3);
    assert_eq!(ancestors[0], OctantIndex::new_unchecked(0, 0, 0, 0));
    assert_eq!(ancestors[1], OctantIndex::new_unchecked(1, 1, 1, 0));
    assert_eq!(ancestors[2], octant);
}

#[test]
fn test_morton_encode_values() {
    assert_eq!(split_by_3(0b101), 0b1000001);
    // x = 101, y = 001, z = 000 interleave to 1000011
    assert_eq!(morton_encode(5, 1, 0), 0b1000011);
    assert_eq!(morton_encode(0, 0, 0), 0);
    assert_eq!(morton_encode(1, 1, 1), 0b111);
}

#[test]
fn test_sort_by_morton_indices_orders_by_level_then_code() {
    let indices = vec![
        OctantIndex::new_unchecked(1, 1, 1, 1),
        OctantIndex::new_unchecked(0, 0, 0, 0),
        OctantIndex::new_unchecked(1, 0, 0, 0),
        OctantIndex::new_unchecked(1, 1, 0, 0),
    ];
    let sorted = sort_by_morton_indices(&indices).unwrap();
    let keys: Vec<(u32, u64)> = sorted.iter().map(|p| (p.0.level, p.1)).collect();
    assert_eq!(keys, vec![(0, 0), (1, 0), (1, 1), (1, 7)]);
    assert_eq!(sorted[0].0, OctantIndex::new_unchecked(0, 0, 0, 0));
    assert_eq!(sorted[1].0, OctantIndex::new_unchecked(1, 0, 0, 0));
    assert_eq!(sorted[2].0, OctantIndex::new_unchecked(1, 1, 0, 0));
    assert_eq!(sorted[3].0, OctantIndex::new_unchecked(1, 1, 1, 1));
}

/// Quantizes a point of the enclosing cube onto the lattice, as a caller
/// supplying positions would.
fn grid_point(cube_lower: f64, cube_edge: f64, x: f64, y: f64, z: f64) -> GridPoint {
    let scale = (1u64 << 21) as f64;
    let to_grid = |c: f64| -> u64 { (((c - cube_lower) / cube_edge) * scale).floor() as u64 };
    GridPoint::new(to_grid(x), to_grid(y), to_grid(z)).unwrap()
}

#[test]
fn test_octree_two_points_split() {
    // two points at (0,0,0) and (64,64,64); the enclosing cube has the
    // strict power-of-two edge 128 centred on the data, lower corner -32
    let positions = vec![
        grid_point(-32.0, 128.0, 0.0, 0.0, 0.0),
        grid_point(-32.0, 128.0, 64.0, 64.0, 64.0),
    ];
    let octree = Octree::new(positions.clone(), 1, Some(0)).unwrap();

    // both points placed, in distinct cells, each within the root cube
    let mut placed: Vec<usize> = Vec::new();
    for (index, items) in octree.cells().iter() {
        assert!(items.len() <= 1);
        assert!(index.level <= 21);
        for item in items {
            placed.push(*item);
            // containment: the cell's octant address is the position's prefix
            let p = positions[*item];
            assert_eq!(p.x >> (21 - index.level), index.x);
            assert_eq!(p.y >> (21 - index.level), index.y);
            assert_eq!(p.z >> (21 - index.level), index.z);
        }
        // every ancestor of an occupied cell is occupied
        for ancestor in index.get_ancestors() {
            assert!(octree.occupancy_graph().is_cell_occupied(ancestor));
        }
    }
    placed.sort();
    assert_eq!(placed, vec![0, 1]);
    assert!(octree.get_max_occupied_level().unwrap() >= 1);
    assert!(octree
        .occupancy_graph()
        .is_cell_occupied(OctantIndex::new_unchecked(0, 0, 0, 0)));
}

#[test]
fn test_octree_capacity_bound() {
    let mut positions: Vec<GridPoint> = Vec::new();
    for i in 0..10u64 {
        positions.push(GridPoint::new(i * 1000, i * 2000, i * 3000).unwrap());
    }
    let octree = Octree::new(positions, 3, None).unwrap();
    let mut total = 0;
    for (_, items) in octree.cells().iter() {
        assert!(1 <= items.len() && items.len() <= 3);
        total += items.len();
    }
    assert_eq!(total, 10);
    assert_eq!(octree.cell_count(), octree.cells().len());
}

#[test]
fn test_octree_empty_rejected() {
    let result = Octree::new(Vec::new(), 1, None);
    assert!(result.is_err());
}
