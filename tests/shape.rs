use catan_term::shape::{BitShape, BitShape128};
use catan_term::space::Size2D;

#[test]
fn bitshape128_puts_the_top_left_cell_in_bit_zero() {
    let s = BitShape128::new(0b110000, Size2D::new(3, 2));
    assert_eq!(s.bits, 0b11);
    assert_eq!(s.size, Size2D::new(3, 2));
    let full = BitShape128::new(u128::MAX, Size2D::new(16, 8));
    assert_eq!(full.bits, u128::MAX);
}

#[test]
fn bitshape_packs_rows() {
    let s = BitShape::new(vec![0b101, 0b011], Size2D::new(3, 2));
    assert_eq!(s.bits, vec![0b110101]);
    assert!(s.is_filled_at(0, 0));
    assert!(!s.is_filled_at(1, 0));
    assert!(s.is_filled_at(2, 0));
    assert!(!s.is_filled_at(0, 1));
    assert!(s.is_filled_at(2, 1));
    assert!(!s.is_filled_at(3, 0));
    assert!(!s.is_filled_at(0, 2));
}

#[test]
fn bitshape_rows_cross_word_boundaries() {
    let s = BitShape::new(vec![1u128 << 99, 1, 1u128 << 50], Size2D::new(100, 3));
    assert_eq!(s.bits.len(), 3);
    assert_eq!(s.bits[0], 1);
    assert_eq!(s.bits[1], (1u128 << 71) | (1u128 << 121));
    assert_eq!(s.bits[2], 0);
    assert!(s.is_filled_at(0, 0));
    assert!(s.is_filled_at(99, 1));
    assert!(s.is_filled_at(49, 2));
    assert!(!s.is_filled_at(1, 0));
}

#[test]
fn paint_asks_the_painter_for_each_cell() {
    let s = BitShape::paint(Size2D::new(3, 2), |x, y| x == y);
    assert_eq!(s.bits, vec![0b10001]);
    assert!(s.is_filled_at(1, 1));
    assert!(!s.is_filled_at(2, 1));
    let big = BitShape::paint(Size2D::new(20, 10), |x, _| x % 2 == 0);
    assert_eq!(big.bits.len(), 2);
    assert!(big.is_filled_at(18, 9));
    assert!(!big.is_filled_at(19, 9));
}
