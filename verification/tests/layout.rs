use digit_layout::{DigitLayout, LayoutContent};

#[test]
fn test_unsigned() {
    assert!(matches!(
        DigitLayout::unsigned(8, 1).decode(),
        LayoutContent::Unsigned { width: 8 }
    ));

    assert!(matches!(
        DigitLayout::unsigned(16, 1).decode(),
        LayoutContent::Unsigned { width: 16 }
    ));

    assert!(matches!(
        DigitLayout::unsigned(32, 1).decode(),
        LayoutContent::Unsigned { width: 32 }
    ));

    assert!(matches!(
        DigitLayout::unsigned(64, 1).decode(),
        LayoutContent::Unsigned { width: 64 }
    ));
}

#[test]
fn test_real() {
    assert!(matches!(
        DigitLayout::real_number(0, 7, 1).decode(),
        LayoutContent::Real {
            exponent: 0,
            mantissa: 7,
        }
    ));

    assert!(matches!(
        DigitLayout::real_number(0, 15, 1).decode(),
        LayoutContent::Real {
            exponent: 0,
            mantissa: 15,
        }
    ));

    assert!(matches!(
        DigitLayout::real_number(0, 31, 1).decode(),
        LayoutContent::Real {
            exponent: 0,
            mantissa: 31,
        }
    ));

    assert!(matches!(
        DigitLayout::real_number(0, 63, 1).decode(),
        LayoutContent::Real {
            exponent: 0,
            mantissa: 63,
        }
    ));

    assert!(matches!(
        DigitLayout::real_number(5, 10, 1).decode(),
        LayoutContent::Real {
            exponent: 5,
            mantissa: 10,
        }
    ));

    assert!(matches!(
        DigitLayout::real_number(8, 7, 1).decode(),
        LayoutContent::Real {
            exponent: 8,
            mantissa: 7,
        }
    ));

    assert!(matches!(
        DigitLayout::real_number(8, 23, 1).decode(),
        LayoutContent::Real {
            exponent: 8,
            mantissa: 23,
        }
    ));

    assert!(matches!(
        DigitLayout::real_number(11, 52, 1).decode(),
        LayoutContent::Real {
            exponent: 11,
            mantissa: 52,
        }
    ));
}

#[test]
fn test_named() {
    assert!(matches!(
        DigitLayout::named("Bool", 1, 1).decode(),
        LayoutContent::Named {
            name: [b'b', b'o', b'o', b'l', 0, 0, 0, 0]
        }
    ));

    let q8_0 = DigitLayout::named("Q8_0", 32, 34);
    assert!(matches!(
        q8_0.decode(),
        LayoutContent::Named {
            name: [b'q', b'8', b'0', 0, 0, 0, 0, 0]
        }
    ));

    let iq2xxs = DigitLayout::named("IQ2XXS", 256, 66);
    assert!(matches!(
        iq2xxs.decode(),
        LayoutContent::Named {
            name: [b'i', b'q', b'2', b'x', b'x', b's', 0, 0]
        }
    ));

    let zzzzzz = DigitLayout::named("zzzzzz", 1, 1);
    assert!(matches!(
        zzzzzz.decode(),
        LayoutContent::Named {
            name: [b'z', b'z', b'z', b'z', b'z', b'z', 0, 0]
        }
    ));
}

#[test]
fn test_decode_methods() {
    let u8_layout = DigitLayout::unsigned(8, 1);
    assert_eq!(u8_layout.decode_unsigned(), 8);

    let u16_layout = DigitLayout::unsigned(16, 1);
    assert_eq!(u16_layout.decode_unsigned(), 16);

    let f32_layout = DigitLayout::real_number(8, 23, 1);
    assert_eq!(f32_layout.decode_exponent(), 8);
    assert_eq!(f32_layout.decode_mantissa(), 23);

    let f64_layout = DigitLayout::real_number(11, 52, 1);
    assert_eq!(f64_layout.decode_exponent(), 11);
    assert_eq!(f64_layout.decode_mantissa(), 52);
}

#[test]
fn test_group_size_and_nbytes() {
    let layout1 = DigitLayout::unsigned(32, 4);
    assert_eq!(layout1.group_size(), 4);
    assert_eq!(layout1.nbytes(), 16);

    let layout2 = DigitLayout::real_number(8, 23, 2);
    assert_eq!(layout2.group_size(), 2);
    assert_eq!(layout2.nbytes(), 8);

    let layout3 = DigitLayout::named("test", 3, 12);
    assert_eq!(layout3.group_size(), 3);
    assert_eq!(layout3.nbytes(), 12);
}

#[test]
fn test_to_u64() {
    let layout = DigitLayout::unsigned(32, 1);
    let u64_value = layout.to_u64();
    assert_ne!(u64_value, 0);

    let same_layout = DigitLayout::unsigned(32, 1);
    assert_eq!(layout.to_u64(), same_layout.to_u64());
    let different_layout = DigitLayout::unsigned(64, 1);
    assert_ne!(layout.to_u64(), different_layout.to_u64());
}

#[test]
fn test_display_impl() {
    let u8_layout = DigitLayout::unsigned(8, 1);
    assert_eq!(u8_layout.format(), "u8");

    let u8_array_layout = DigitLayout::unsigned(8, 4);
    assert_eq!(u8_array_layout.format(), "[u8; 4]");

    let f32_layout = DigitLayout::real_number(8, 23, 1);
    assert_eq!(f32_layout.format(), "f32_e8m23");

    let f32_array_layout = DigitLayout::real_number(8, 23, 2);
    assert_eq!(f32_array_layout.format(), "[f32_e8m23; 2]");

    let named_layout = DigitLayout::named("test", 1, 4);
    assert_eq!(named_layout.format(), "test");
}

#[test]
fn test_named_edge_cases() {
    let empty_name = DigitLayout::named("", 1, 1);
    let _ = empty_name.format();

    let alphanumeric = DigitLayout::named("a1B2c3", 1, 1);
    assert!(matches!(
        alphanumeric.decode(),
        LayoutContent::Named {
            name: [b'a', b'1', b'b', b'2', b'c', b'3', 0, 0]
        }
    ));

    let with_special = DigitLayout::named("a_b.c", 1, 1);
    assert!(matches!(
        with_special.decode(),
        LayoutContent::Named {
            name: [b'a', b'b', b'c', 0, 0, 0, 0, 0]
        }
    ));
}

#[test]
fn test_unsigned_round_trip_all_widths() {
    for &width in &[8u16, 16, 32, 64, 128] {
        for &group in &[1u16, 2, 5] {
            match DigitLayout::unsigned(width, group).decode() {
                LayoutContent::Unsigned { width: w } => assert_eq!(w, width as u32),
                _ => panic!("an unsigned layout decoded as another kind"),
            }
        }
    }
}

#[test]
fn test_real_round_trip_large_format() {
    let f128 = DigitLayout::real_number(15, 112, 1);
    assert!(matches!(
        f128.decode(),
        LayoutContent::Real {
            exponent: 15,
            mantissa: 112,
        }
    ));

    let grouped = DigitLayout::real_number(5, 10, 3);
    assert!(matches!(
        grouped.decode(),
        LayoutContent::Real {
            exponent: 5,
            mantissa: 10,
        }
    ));
}

#[test]
fn test_byte_size_law() {
    assert_eq!(DigitLayout::unsigned(8, 1).nbytes(), 1);
    assert_eq!(DigitLayout::unsigned(64, 3).nbytes(), 24);
    assert_eq!(DigitLayout::unsigned(128, 2).nbytes(), 32);
    assert_eq!(DigitLayout::real_number(11, 52, 1).nbytes(), 8);
    assert_eq!(DigitLayout::real_number(15, 112, 4).nbytes(), 64);
    assert_eq!(DigitLayout::unsigned(16, 7).group_size(), 7);
}

#[test]
fn test_raw_integer_injectivity() {
    let layouts = [
        DigitLayout::unsigned(8, 1),
        DigitLayout::unsigned(8, 2),
        DigitLayout::unsigned(16, 1),
        DigitLayout::real_number(0, 7, 1),
        DigitLayout::real_number(8, 23, 1),
        DigitLayout::named("q80", 1, 34),
        DigitLayout::named("q80", 1, 35),
        DigitLayout::named("bool", 1, 1),
    ];
    for (i, a) in layouts.iter().enumerate() {
        for (j, b) in layouts.iter().enumerate() {
            if i == j {
                assert_eq!(a.to_u64(), b.to_u64());
            } else {
                assert_ne!(a.to_u64(), b.to_u64());
            }
        }
    }
    assert_eq!(
        DigitLayout::named("Q8_0", 32, 34).to_u64(),
        DigitLayout::named("q8.0", 32, 34).to_u64()
    );
}

#[test]
fn test_kind_disjointness() {
    let unsigned_layouts = [
        DigitLayout::unsigned(8, 1),
        DigitLayout::unsigned(32768, 1),
    ];
    for l in &unsigned_layouts {
        assert!(matches!(l.decode(), LayoutContent::Unsigned { .. }));
    }
    let real_layouts = [
        DigitLayout::real_number(0, 7, 1),
        DigitLayout::real_number(15, 112, 1),
    ];
    for l in &real_layouts {
        assert!(matches!(l.decode(), LayoutContent::Real { .. }));
    }
    let named_layouts = [
        DigitLayout::named("", 1, 1),
        DigitLayout::named("zzzzzz", 1, 1),
        DigitLayout::named("0", 1, 1),
    ];
    for l in &named_layouts {
        assert!(matches!(l.decode(), LayoutContent::Named { .. }));
    }
}

#[test]
fn test_display_scenarios() {
    assert_eq!(DigitLayout::unsigned(8, 1).format(), "u8");
    assert_eq!(DigitLayout::unsigned(8, 4).format(), "[u8; 4]");
    assert_eq!(DigitLayout::real_number(8, 23, 1).format(), "f32_e8m23");
    assert_eq!(DigitLayout::named("bool", 1, 1).format(), "bool");
    assert_eq!(DigitLayout::named("Q8_0", 32, 34).format(), "q80");
}

#[test]
fn test_named_folding() {
    assert_eq!(DigitLayout::named("IQ2XXS", 256, 66).format(), "iq2xxs");
    assert_eq!(DigitLayout::named("zzzzzz", 1, 1).format(), "zzzzzz");
    assert_eq!(DigitLayout::named("a_b.c", 1, 1).format(), "abc");
    assert_eq!(DigitLayout::named("", 1, 1).format(), "");
}
