use rust_hdl::bits::{BitVec, BitsError};
use rust_hdl::design::Direction;
use rust_hdl::signal::Signal;

fn bv(width: u32, value: u64) -> BitVec {
    BitVec::new(width, value).unwrap()
}

#[test]
fn new_rejects_bad_width_and_value() {
    assert_eq!(BitVec::new(0, 0), Err(BitsError::WidthError));
    assert_eq!(BitVec::new(65, 0), Err(BitsError::WidthError));
    assert_eq!(BitVec::new(4, 16), Err(BitsError::RangeError));
    assert_eq!(BitVec::new(4, 15), Ok(BitVec { width: 4, value: 15 }));
    assert_eq!(BitVec::new(64, u64::MAX), Ok(BitVec { width: 64, value: u64::MAX }));
}

#[test]
fn add_wraps_at_width() {
    assert_eq!(bv(8, 200).add(&bv(8, 100)), Ok(bv(8, 44)));
    assert_eq!(bv(8, 20).add(&bv(8, 100)), Ok(bv(8, 120)));
    assert_eq!(bv(1, 1).add(&bv(1, 1)), Ok(bv(1, 0)));
    assert_eq!(bv(64, u64::MAX).add(&bv(64, 2)), Ok(bv(64, 1)));
}

#[test]
fn sub_wraps_at_width() {
    assert_eq!(bv(8, 3).sub(&bv(8, 5)), Ok(bv(8, 254)));
    assert_eq!(bv(8, 5).sub(&bv(8, 3)), Ok(bv(8, 2)));
    assert_eq!(bv(64, 0).sub(&bv(64, 1)), Ok(bv(64, u64::MAX)));
}

#[test]
fn mismatched_widths_are_refused() {
    assert_eq!(bv(8, 1).add(&bv(4, 1)), Err(BitsError::WidthMismatch));
    assert_eq!(bv(8, 1).sub(&bv(4, 1)), Err(BitsError::WidthMismatch));
    assert_eq!(bv(8, 1).and(&bv(4, 1)), Err(BitsError::WidthMismatch));
    assert_eq!(bv(8, 1).or(&bv(4, 1)), Err(BitsError::WidthMismatch));
    assert_eq!(bv(8, 1).xor(&bv(4, 1)), Err(BitsError::WidthMismatch));
    assert_eq!(bv(8, 1).eq(&bv(4, 1)), Err(BitsError::WidthMismatch));
    assert_eq!(bv(8, 1).lt(&bv(4, 1)), Err(BitsError::WidthMismatch));
    assert_eq!(bv(8, 1).le(&bv(4, 1)), Err(BitsError::WidthMismatch));
}

#[test]
fn bitwise_operations() {
    assert_eq!(bv(4, 0b1100).and(&bv(4, 0b1010)), Ok(bv(4, 0b1000)));
    assert_eq!(bv(4, 0b1100).or(&bv(4, 0b1010)), Ok(bv(4, 0b1110)));
    assert_eq!(bv(4, 0b1100).xor(&bv(4, 0b1010)), Ok(bv(4, 0b0110)));
    assert_eq!(bv(4, 0b1100).not(), bv(4, 0b0011));
    assert_eq!(bv(64, 0).not(), bv(64, u64::MAX));
}

#[test]
fn shifts_stay_in_width() {
    assert_eq!(bv(4, 0b1011).shl(1), bv(4, 0b0110));
    assert_eq!(bv(4, 0b1011).shl(4), bv(4, 0));
    assert_eq!(bv(4, 0b1011).shr(2), bv(4, 0b0010));
    assert_eq!(bv(4, 0b1011).shr(9), bv(4, 0));
    assert_eq!(bv(64, 1).shl(63), bv(64, 1u64 << 63));
}

#[test]
fn comparisons() {
    assert_eq!(bv(8, 3).eq(&bv(8, 3)), Ok(true));
    assert_eq!(bv(8, 3).lt(&bv(8, 3)), Ok(false));
    assert_eq!(bv(8, 3).le(&bv(8, 3)), Ok(true));
    assert_eq!(bv(8, 2).lt(&bv(8, 3)), Ok(true));
}

#[test]
fn bit_index_out_of_range() {
    assert_eq!(bv(4, 0b0100).bit(2), Ok(true));
    assert_eq!(bv(4, 0b0100).bit(1), Ok(false));
    assert_eq!(bv(4, 0b0100).bit(4), Err(BitsError::RangeError));
}

#[test]
fn zero_has_the_width() {
    assert_eq!(BitVec::zero(12), bv(12, 0));
}

#[test]
fn signal_two_phase_update() {
    assert_eq!(Signal::new(0, Direction::Internal).err(), Some(BitsError::WidthError));
    let mut s = Signal::new(8, Direction::Output).unwrap();
    assert_eq!(s.width(), 8);
    assert_eq!(s.direction(), Direction::Output);
    assert_eq!(s.propose(bv(4, 1)), Err(BitsError::WidthMismatch));
    assert_eq!(s.propose(bv(8, 7)), Ok(()));
    assert_eq!(s.read(), bv(8, 0));
    assert!(s.commit());
    assert_eq!(s.read(), bv(8, 7));
    assert!(!s.commit());
}

#[test]
fn slices_take_a_bit_range() {
    assert_eq!(bv(8, 0b1011_0110).slice(2, 6), Ok(bv(4, 0b1101)));
    assert_eq!(bv(8, 0b1011_0110).slice(0, 8), Ok(bv(8, 0b1011_0110)));
    assert_eq!(bv(64, u64::MAX).slice(0, 64), Ok(bv(64, u64::MAX)));
    assert_eq!(bv(8, 1).slice(3, 3), Err(BitsError::RangeError));
    assert_eq!(bv(8, 1).slice(4, 9), Err(BitsError::RangeError));
}
