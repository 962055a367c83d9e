use std::str::FromStr;

use ulidgen::ident::generate;
use ulidgen::ident::Identifier;
use ulidgen::render::render;

#[test]
fn native_form_of_zero() {
    let id = Identifier { value: 0 };
    assert_eq!(render(id, false), "00000000000000000000000000");
}

#[test]
fn native_form_of_the_largest_value() {
    let id = Identifier { value: u128::MAX };
    assert_eq!(render(id, false), "7ZZZZZZZZZZZZZZZZZZZZZZZZZ");
}

#[test]
fn native_form_exact_value() {
    let id = Identifier { value: 0x1122_3344_5566_7788_99AA_BBCC_DDEE_F00F };
    assert_eq!(render(id, false), "0H48SM8NB6EY49KANVSKEYXW0F");
}

#[test]
fn uuid_form_exact_value() {
    let id = Identifier { value: 0x1122_3344_5566_7788_99AA_BBCC_DDEE_F00F };
    assert_eq!(render(id, true), "11223344-5566-7788-99aa-bbccddeef00f");
}

#[test]
fn uuid_form_of_zero() {
    let id = Identifier { value: 0 };
    assert_eq!(render(id, true), "00000000-0000-0000-0000-000000000000");
}

#[test]
fn native_form_decodes_back() {
    let id = generate(false, None, None);
    let text = render(id, false);
    let decoded = rusty_ulid::Ulid::from_str(&text).unwrap();
    assert_eq!(u128::from(decoded), id.value);
}

#[test]
fn uuid_form_decodes_back() {
    let id = generate(false, None, None);
    let text = render(id, true);
    let decoded = uuid::Uuid::parse_str(&text).unwrap();
    assert_eq!(decoded.as_u128(), id.value);
}

#[test]
fn uuid_form_matches_the_canonical_shape() {
    let id = generate(false, None, None);
    let text = render(id, true);
    let chars: Vec<char> = text.chars().collect();
    assert_eq!(chars.len(), 36);
    for (i, c) in chars.iter().enumerate() {
        if i == 8 || i == 13 || i == 18 || i == 23 {
            assert_eq!(*c, '-');
        } else {
            assert!(c.is_ascii_hexdigit() && !c.is_ascii_uppercase());
        }
    }
}

#[test]
fn native_form_orders_as_the_values_do() {
    let small = render(Identifier { value: 7 }, false);
    let large = render(Identifier { value: 0x0001_0000_0000_0000_0000_0000 }, false);
    assert!(small < large);
}
