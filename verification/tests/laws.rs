use ternary_surface_memory::BoundaryMode;
use ternary_surface_memory::SurfaceAddress;
use ternary_surface_memory::SurfaceMemory;
use ternary_surface_memory::Trit;

const ALL_TRITS: [Trit; 3] = [Trit::NegOne, Trit::Zero, Trit::PosOne];
const ALL_MODES: [BoundaryMode; 3] = [BoundaryMode::Clamp, BoundaryMode::Wrap, BoundaryMode::Mirror];

fn sample_surface() -> SurfaceMemory {
    // 3 wide, 2 tall
    SurfaceMemory::from_data(
        3,
        2,
        vec![Trit::PosOne, Trit::NegOne, Trit::Zero, Trit::Zero, Trit::PosOne, Trit::NegOne],
    )
}

#[test]
fn trit_int_roundtrip() {
    for t in ALL_TRITS {
        assert_eq!(Trit::from_i8(t.to_i8()), Some(t));
        assert_eq!(Trit::saturating_from_i8(t.to_i8()), t);
    }
    assert_eq!(Trit::NegOne.to_i8(), -1);
    assert_eq!(Trit::Zero.to_i8(), 0);
    assert_eq!(Trit::PosOne.to_i8(), 1);
    for v in i8::MIN..=i8::MAX {
        match Trit::from_i8(v) {
            Some(t) => assert_eq!(t.to_i8(), v),
            None => assert!(v < -1 || v > 1),
        }
    }
}

#[test]
fn trit_saturating_from_i8_edges() {
    assert_eq!(Trit::saturating_from_i8(i8::MIN), Trit::NegOne);
    assert_eq!(Trit::saturating_from_i8(-2), Trit::NegOne);
    assert_eq!(Trit::saturating_from_i8(0), Trit::Zero);
    assert_eq!(Trit::saturating_from_i8(2), Trit::PosOne);
    assert_eq!(Trit::saturating_from_i8(i8::MAX), Trit::PosOne);
}

#[test]
fn trit_order_follows_value() {
    assert!(Trit::NegOne < Trit::Zero);
    assert!(Trit::Zero < Trit::PosOne);
}

#[test]
fn new_surface_is_blank() {
    let surface = SurfaceMemory::new(5, 2);
    assert_eq!(surface.width(), 5);
    assert_eq!(surface.height(), 2);
    assert_eq!(surface.stride(), 5);
    assert_eq!(surface.len(), 10);
    assert!(!surface.is_empty());
    assert!(surface.data().iter().all(|t| *t == Trit::Zero));
    for row in 0..2 {
        for col in 0..5 {
            assert_eq!(surface.get(SurfaceAddress::new(row, col)), Some(Trit::Zero));
        }
    }
}

#[test]
fn empty_surface() {
    let surface = SurfaceMemory::new(0, 7);
    assert!(surface.is_empty());
    assert_eq!(surface.len(), 0);
    assert_eq!(surface.get(SurfaceAddress::new(0, 0)), None);
}

#[test]
fn from_data_keeps_layout() {
    let surface = sample_surface();
    assert_eq!(
        surface.data(),
        &[Trit::PosOne, Trit::NegOne, Trit::Zero, Trit::Zero, Trit::PosOne, Trit::NegOne][..]
    );
    // cell (row, col) is data[row * width + col]
    assert_eq!(surface.get(SurfaceAddress::new(1, 0)), Some(Trit::Zero));
    assert_eq!(surface.get(SurfaceAddress::new(0, 1)), Some(Trit::NegOne));
    assert_eq!(surface.get(SurfaceAddress::new(2, 0)), None);
    assert_eq!(surface.get(SurfaceAddress::new(0, 3)), None);
}

#[test]
fn read_after_write() {
    let mut surface = SurfaceMemory::new(3, 3);
    for t in ALL_TRITS {
        let before = surface.data().to_vec();
        assert!(surface.set(SurfaceAddress::new(1, 2), t));
        assert_eq!(surface.get(SurfaceAddress::new(1, 2)), Some(t));
        for row in 0..3u32 {
            for col in 0..3u32 {
                if (row, col) != (1, 2) {
                    let i = (row * 3 + col) as usize;
                    assert_eq!(surface.get(SurfaceAddress::new(row, col)), Some(before[i]));
                }
            }
        }
    }
}

#[test]
fn write_off_surface_changes_nothing() {
    let mut surface = sample_surface();
    let before = surface.data().to_vec();
    assert!(!surface.set(SurfaceAddress::new(u32::MAX, 0), Trit::NegOne));
    assert!(!surface.set(SurfaceAddress::new(0, 3), Trit::NegOne));
    assert_eq!(surface.data(), &before[..]);
}

#[test]
fn fill_sets_every_cell() {
    let mut surface = sample_surface();
    surface.fill(Trit::NegOne);
    assert_eq!(surface.len(), 6);
    assert!(surface.data().iter().all(|t| *t == Trit::NegOne));
}

#[test]
fn linear_address_extremes() {
    let addr = SurfaceAddress::new(u32::MAX, u32::MAX);
    let max = u32::MAX as u64;
    assert_eq!(addr.to_linear(u32::MAX), max * max + max);
    assert_eq!(SurfaceAddress::new(7, 3).to_linear(0), 3);
}

#[test]
fn boundary_is_identity_inside() {
    let surface = sample_surface();
    for mode in ALL_MODES {
        for row in 0..2i64 {
            for col in 0..3i64 {
                let plain = surface.get(SurfaceAddress::new(row as u32, col as u32)).unwrap();
                assert_eq!(surface.get_with_boundary(row, col, mode), plain);
            }
        }
    }
}

#[test]
fn wrap_is_periodic() {
    let surface = sample_surface();
    for row in -5i64..5 {
        for col in -7i64..7 {
            let here = surface.get_with_boundary(row, col, BoundaryMode::Wrap);
            assert_eq!(surface.get_with_boundary(row + 2, col, BoundaryMode::Wrap), here);
            assert_eq!(surface.get_with_boundary(row, col - 3, BoundaryMode::Wrap), here);
            assert_eq!(surface.get_with_boundary(row - 4, col + 6, BoundaryMode::Wrap), here);
        }
    }
}

#[test]
fn wrap_extreme_coordinates() {
    let surface = sample_surface();
    // i64::MIN is even, and its least non-negative residue modulo 3 is 1: cell (0, 1)
    assert_eq!(surface.get_with_boundary(i64::MIN, i64::MIN, BoundaryMode::Wrap), Trit::NegOne);
    // i64::MAX % 2 == 1 and i64::MAX % 3 == 1
    assert_eq!(surface.get_with_boundary(i64::MAX, i64::MAX, BoundaryMode::Wrap), Trit::PosOne);
}

#[test]
fn clamp_extreme_coordinates() {
    let surface = sample_surface();
    assert_eq!(surface.get_with_boundary(i64::MIN, i64::MIN, BoundaryMode::Clamp), Trit::PosOne);
    assert_eq!(surface.get_with_boundary(i64::MAX, i64::MAX, BoundaryMode::Clamp), Trit::NegOne);
    assert_eq!(surface.get_with_boundary(-3, 1, BoundaryMode::Clamp), Trit::NegOne);
    assert_eq!(surface.get_with_boundary(9, 1, BoundaryMode::Clamp), Trit::PosOne);
}

#[test]
fn mirror_reflects_at_edges() {
    // A 1-tall, 4-wide strip whose cells hold distinct values on the left.
    let surface = SurfaceMemory::from_data(
        4,
        1,
        vec![Trit::NegOne, Trit::Zero, Trit::PosOne, Trit::Zero],
    );
    // -k lands on k for 0 < k < 4
    assert_eq!(surface.get_with_boundary(0, -1, BoundaryMode::Mirror), Trit::Zero);
    assert_eq!(surface.get_with_boundary(0, -2, BoundaryMode::Mirror), Trit::PosOne);
    // 4 + k lands on 3 - k
    assert_eq!(surface.get_with_boundary(0, 4, BoundaryMode::Mirror), Trit::Zero);
    assert_eq!(surface.get_with_boundary(0, 5, BoundaryMode::Mirror), Trit::PosOne);
    assert_eq!(surface.get_with_boundary(0, 7, BoundaryMode::Mirror), Trit::NegOne);
    // -4 lands on 3 (odd bounce), -5 on 2
    assert_eq!(surface.get_with_boundary(0, -4, BoundaryMode::Mirror), Trit::Zero);
    assert_eq!(surface.get_with_boundary(0, -5, BoundaryMode::Mirror), Trit::PosOne);
    // 8 lands on 0 (odd bounce past the end)
    assert_eq!(surface.get_with_boundary(0, 8, BoundaryMode::Mirror), Trit::NegOne);
    // Rows of a 1-tall surface always land on row 0
    assert_eq!(surface.get_with_boundary(i64::MAX, 0, BoundaryMode::Mirror), Trit::NegOne);
    assert_eq!(surface.get_with_boundary(i64::MIN + 1, 0, BoundaryMode::Mirror), Trit::NegOne);
}

#[test]
fn bilinear_corner_reads() {
    let surface = sample_surface();
    let corners = surface.bilinear_corners(0, 1, BoundaryMode::Clamp);
    assert_eq!(corners, (Trit::NegOne, Trit::Zero, Trit::PosOne, Trit::NegOne));
    let corners = surface.bilinear_corners(1, 2, BoundaryMode::Wrap);
    assert_eq!(corners, (Trit::NegOne, Trit::Zero, Trit::Zero, Trit::PosOne));
    let corners = surface.bilinear_corners(-1, -1, BoundaryMode::Clamp);
    assert_eq!(corners, (Trit::PosOne, Trit::PosOne, Trit::PosOne, Trit::PosOne));
}

#[test]
fn copy_region_moves_rectangle_only() {
    let src = sample_surface();
    let mut dst = SurfaceMemory::new(4, 4);
    dst.fill(Trit::NegOne);
    assert!(SurfaceMemory::copy_region(
        &src,
        SurfaceAddress::new(0, 1),
        &mut dst,
        SurfaceAddress::new(1, 2),
        2,
        2,
    ));
    for row in 0..4u32 {
        for col in 0..4u32 {
            let expected = if (1..3).contains(&row) && (2..4).contains(&col) {
                src.get(SurfaceAddress::new(row - 1, col - 2 + 1)).unwrap()
            } else {
                Trit::NegOne
            };
            assert_eq!(dst.get(SurfaceAddress::new(row, col)), Some(expected));
        }
    }
    assert_eq!(dst.width(), 4);
    assert_eq!(dst.height(), 4);
}

#[test]
fn copy_region_refused_leaves_destination() {
    let src = sample_surface();
    let mut dst = SurfaceMemory::new(3, 3);
    dst.fill(Trit::PosOne);
    let before = dst.data().to_vec();
    // destination rectangle runs off the bottom
    assert!(!SurfaceMemory::copy_region(
        &src,
        SurfaceAddress::new(0, 0),
        &mut dst,
        SurfaceAddress::new(2, 0),
        1,
        2,
    ));
    // source rectangle runs off the right
    assert!(!SurfaceMemory::copy_region(
        &src,
        SurfaceAddress::new(0, 2),
        &mut dst,
        SurfaceAddress::new(0, 0),
        2,
        1,
    ));
    // origins so large that origin + size leaves u32
    assert!(!SurfaceMemory::copy_region(
        &src,
        SurfaceAddress::new(u32::MAX, 0),
        &mut dst,
        SurfaceAddress::new(0, 0),
        1,
        1,
    ));
    assert!(!SurfaceMemory::copy_region(
        &src,
        SurfaceAddress::new(0, 0),
        &mut dst,
        SurfaceAddress::new(0, u32::MAX),
        1,
        1,
    ));
    assert_eq!(dst.data(), &before[..]);
}

#[test]
fn copy_empty_region() {
    let src = sample_surface();
    let mut dst = SurfaceMemory::new(2, 2);
    assert!(SurfaceMemory::copy_region(
        &src,
        SurfaceAddress::new(2, 3),
        &mut dst,
        SurfaceAddress::new(2, 2),
        0,
        0,
    ));
    assert!(dst.data().iter().all(|t| *t == Trit::Zero));
}

#[test]
fn data_mut_writes_are_visible() {
    let mut surface = SurfaceMemory::new(2, 2);
    surface.data_mut()[3] = Trit::PosOne;
    assert_eq!(surface.get(SurfaceAddress::new(1, 1)), Some(Trit::PosOne));
    assert_eq!(surface.len(), 4);
}

#[test]
fn mirror_is_symmetric_about_zero() {
    let surface = SurfaceMemory::from_data(
        4,
        1,
        vec![Trit::NegOne, Trit::Zero, Trit::PosOne, Trit::Zero],
    );
    for col in -20i64..=20 {
        assert_eq!(
            surface.get_with_boundary(0, col, BoundaryMode::Mirror),
            surface.get_with_boundary(0, -col, BoundaryMode::Mirror)
        );
    }
    // |coord| % 8 folded back: 9 -> 1, 12 -> 4 -> 3, -13 -> 5 -> 2
    assert_eq!(surface.get_with_boundary(0, 9, BoundaryMode::Mirror), Trit::Zero);
    assert_eq!(surface.get_with_boundary(0, 12, BoundaryMode::Mirror), Trit::Zero);
    assert_eq!(surface.get_with_boundary(0, -13, BoundaryMode::Mirror), Trit::PosOne);
}
