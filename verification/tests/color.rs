use tcolr::color::{Aggregator, RGBSum};

#[test]
fn zero_has_no_sums() {
    assert_eq!(RGBSum::zero(), RGBSum { r: 0, g: 0, b: 0 });
}

#[test]
fn set_zero_forgets_the_sums() {
    let mut sum = RGBSum { r: 5, g: 6, b: 7 };
    assert_eq!(*sum.set_zero(), RGBSum { r: 0, g: 0, b: 0 });
    assert_eq!(sum, RGBSum::zero());
}

#[test]
fn add_is_channel_by_channel() {
    let mut sum = RGBSum { r: 1, g: 2, b: 3 };
    sum.add(&RGBSum { r: 10, g: 20, b: 30 });
    assert_eq!(sum, RGBSum { r: 11, g: 22, b: 33 });
    sum.add(&RGBSum { r: u64::MAX - 11, g: 0, b: 0 });
    assert_eq!(sum, RGBSum { r: u64::MAX, g: 22, b: 33 });
}

#[test]
fn div_rounds_down() {
    let mut sum = RGBSum { r: 10, g: 11, b: 3 };
    sum.div(4);
    assert_eq!(sum, RGBSum { r: 2, g: 2, b: 0 });
    sum.div(1);
    assert_eq!(sum, RGBSum { r: 2, g: 2, b: 0 });
}

#[test]
fn clone_keeps_every_channel() {
    let sum = RGBSum { r: 1, g: 2, b: 3 };
    assert_eq!(sum.clone(), sum);
}

#[test]
fn rgb_pixel_is_folded_in() {
    let mut sum = RGBSum { r: 1, g: 2, b: 3 };
    sum.aggregate(&(255u8, 0u8, 7u8));
    assert_eq!(sum, RGBSum { r: 256, g: 2, b: 10 });
}

#[test]
fn rgba_pixel_is_folded_in_without_its_alpha() {
    let mut sum = RGBSum { r: 1, g: 2, b: 3 };
    sum.aggregate(&(10u8, 20u8, 30u8, 200u8));
    assert_eq!(sum, RGBSum { r: 11, g: 22, b: 33 });
}

#[test]
fn wider_channels_are_folded_in_too() {
    let mut sum = RGBSum { r: 1, g: 2, b: 3 };
    sum.aggregate(&(65535u16, 256u16, 0u16));
    assert_eq!(sum, RGBSum { r: 65536, g: 258, b: 3 });
    sum.aggregate(&(1u32, 2u32, 3u32, 4u32));
    assert_eq!(sum, RGBSum { r: 65537, g: 260, b: 6 });
}
