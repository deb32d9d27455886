use lightyear_shared::packet::message::MessageId as Id;
use lightyear_shared::utils::wrapping_id::wrapping_diff;

#[test]
fn test_ordering() {
    assert!(Id(2) > Id(1));
    assert!(Id(1) < Id(2));
    assert!(Id(2) == Id(2));
    assert!(Id(0) > Id(65535));
    assert!(Id(0) < Id(32767));
    assert!(Id(0) > Id(32768));
}

#[test]
fn simple() {
    let a: u16 = 10;
    let b: u16 = 12;

    let result = wrapping_diff(a, b);

    assert_eq!(result, 2);
}

#[test]
fn simple_backwards() {
    let a: u16 = 10;
    let b: u16 = 12;

    let result = wrapping_diff(b, a);

    assert_eq!(result, -2);
}

#[test]
fn max_wrap() {
    let a: u16 = u16::MAX;
    let b: u16 = a.wrapping_add(2);

    let result = wrapping_diff(a, b);

    assert_eq!(result, 2);
}

#[test]
fn min_wrap() {
    let a: u16 = 0;
    let b: u16 = a.wrapping_sub(2);

    let result = wrapping_diff(a, b);

    assert_eq!(result, -2);
}

#[test]
fn max_wrap_backwards() {
    let a: u16 = u16::MAX;
    let b: u16 = a.wrapping_add(2);

    let result = wrapping_diff(b, a);

    assert_eq!(result, -2);
}

#[test]
fn min_wrap_backwards() {
    let a: u16 = 0;
    let b: u16 = a.wrapping_sub(2);

    let result = wrapping_diff(b, a);

    assert_eq!(result, 2);
}

#[test]
fn medium_min_wrap() {
    let diff: u16 = u16::MAX / 2;
    let a: u16 = 0;
    let b: u16 = a.wrapping_sub(diff);

    let result = i32::from(wrapping_diff(a, b));

    assert_eq!(result, -i32::from(diff));
}

#[test]
fn medium_min_wrap_backwards() {
    let diff: u16 = u16::MAX / 2;
    let a: u16 = 0;
    let b: u16 = a.wrapping_sub(diff);

    let result = i32::from(wrapping_diff(b, a));

    assert_eq!(result, i32::from(diff));
}

#[test]
fn medium_max_wrap() {
    let diff: u16 = u16::MAX / 2;
    let a: u16 = u16::MAX;
    let b: u16 = a.wrapping_add(diff);

    let result = i32::from(wrapping_diff(a, b));

    assert_eq!(result, i32::from(diff));
}

#[test]
fn medium_max_wrap_backwards() {
    let diff: u16 = u16::MAX / 2;
    let a: u16 = u16::MAX;
    let b: u16 = a.wrapping_add(diff);

    let result = i32::from(wrapping_diff(b, a));

    assert_eq!(result, -i32::from(diff));
}

#[test]
fn literal_differences() {
    assert_eq!(wrapping_diff(1, 2), 1);
    assert_eq!(wrapping_diff(2, 1), -1);
    assert_eq!(wrapping_diff(65535, 0), 1);
    assert_eq!(wrapping_diff(0, 65535), -1);
    assert_eq!(wrapping_diff(0, 32767), 32767);
    assert_eq!(wrapping_diff(0, 32768), -32768);
}

#[test]
fn difference_of_a_point_and_itself_is_zero() {
    for a in [0u16, 1, 32767, 32768, 65535] {
        assert_eq!(wrapping_diff(a, a), 0);
    }
}

#[test]
fn walking_the_difference_arrives() {
    let points = [0u16, 1, 2, 100, 32766, 32767, 32768, 32769, 65534, 65535];
    for a in points {
        for b in points {
            let d = wrapping_diff(a, b);
            assert_eq!(a.wrapping_add(d as u16), b);
        }
    }
}

#[test]
fn swapping_negates_except_opposite_points() {
    let points = [0u16, 1, 2, 100, 32766, 32767, 32768, 32769, 65534, 65535];
    for a in points {
        for b in points {
            let d = i32::from(wrapping_diff(a, b));
            let back = i32::from(wrapping_diff(b, a));
            if d == -32768 {
                assert_eq!(back, -32768);
            } else {
                assert_eq!(d, -back);
            }
        }
    }
}

#[test]
fn every_pair_matches_the_signed_difference() {
    let mut a: u16 = 0;
    loop {
        let mut b: u16 = 0;
        loop {
            assert_eq!(wrapping_diff(a, b), b.wrapping_sub(a) as i16);
            b = b.wrapping_add(257);
            if b < 257 {
                break;
            }
        }
        a = a.wrapping_add(251);
        if a < 251 {
            break;
        }
    }
}

#[test]
fn opposite_ids_are_each_greater_than_the_other() {
    assert!(Id(0) > Id(32768));
    assert!(Id(32768) > Id(0));
    assert!(!(Id(0) < Id(32768)));
}

#[test]
fn id_arithmetic_wraps() {
    assert_eq!(Id(65535).wrapping_add(1), Id(0));
    assert_eq!(Id(65535).wrapping_add(3), Id(2));
    assert_eq!(Id(7).wrapping_add(0), Id(7));
    assert_eq!(Id(2).distance_from(Id(65535)), 3);
    assert_eq!(Id(65535).distance_from(Id(2)), -3);
    assert!(Id(0).is_after(Id(65535)));
    assert!(!Id(65535).is_after(Id(0)));
    assert!(!Id(5).is_after(Id(5)));
    assert_eq!(Id::default(), Id(0));
}
