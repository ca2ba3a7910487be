use asciir::numeral::{digit_glyph, digit_value, parse_u8, push_numeral};
use asciir::Base;

#[test]
fn parsing_agrees_with_the_standard_library() {
    let alphabet = [
        '0', '1', '2', '7', '9', 'a', 'f', 'g', 'z', 'A', 'F', 'Z', '+', '-', ' ', '_', '\u{e9}',
    ];
    let mut tokens: Vec<String> = vec![String::new()];
    for a in alphabet {
        tokens.push(a.to_string());
        for b in alphabet {
            tokens.push(format!("{}{}", a, b));
            for c in alphabet {
                tokens.push(format!("{}{}{}", a, b, c));
            }
        }
    }
    for n in 0u32..=300 {
        tokens.push(format!("{}", n));
        tokens.push(format!("{:b}", n));
        tokens.push(format!("{:x}", n));
        tokens.push(format!("{:X}", n));
        tokens.push(format!("+{:04}", n));
    }
    for radix in [2u8, 8, 10, 16, 36] {
        for token in &tokens {
            assert_eq!(
                parse_u8(token, radix),
                u8::from_str_radix(token, radix as u32).ok(),
                "token {:?} in radix {}",
                token,
                radix
            );
        }
    }
}

#[test]
fn digits_agree_with_the_standard_library() {
    for v in 0u32..=0x250 {
        let c = char::from_u32(v).unwrap();
        let expected = c.to_digit(36).map(|d| d as u8).unwrap_or(36);
        assert_eq!(digit_value(c), expected);
    }
    for d in 0u8..36 {
        assert_eq!(digit_glyph(d), char::from_digit(d as u32, 36).unwrap());
    }
}

#[test]
fn numerals_are_written_as_the_standard_library_writes_them() {
    for n in 0u8..=255 {
        let mut s = String::from("x");
        push_numeral(&mut s, n, 10);
        assert_eq!(s, format!("x{}", n));
        let mut s = String::new();
        push_numeral(&mut s, n, 2);
        assert_eq!(s, format!("{:b}", n));
        let mut s = String::new();
        push_numeral(&mut s, n, 16);
        assert_eq!(s, format!("{:x}", n));
        let mut s = String::new();
        push_numeral(&mut s, n, 8);
        assert_eq!(s, format!("{:o}", n));
    }
}

#[test]
fn fields_are_formatted_as_the_standard_library_formats_them() {
    for n in 0u8..=255 {
        assert_eq!(Base::Binary.field(n), format!("{:07b}", n));
        assert_eq!(Base::Decimal.field(n), format!("{:3}", n));
        assert_eq!(Base::Hexadecimal.field(n), format!("{:02x}", n));
    }
    assert_eq!(Base::Binary.field(33), "0100001");
    assert_eq!(Base::Decimal.field(33), " 33");
    assert_eq!(Base::Decimal.field(7), "  7");
    assert_eq!(Base::Hexadecimal.field(33), "21");
    assert_eq!(Base::Hexadecimal.field(10), "0a");
    assert_eq!(Base::Binary.field(255), "11111111");
}

#[test]
fn the_radix_of_each_base() {
    assert_eq!(Base::Binary.radix(), 2);
    assert_eq!(Base::Decimal.radix(), 10);
    assert_eq!(Base::Hexadecimal.radix(), 16);
}
