use cconst::marshal::{create_constant_func, marshall_value};

fn read_back(literal: &str) -> Vec<u8> {
    let inner = literal.strip_prefix("&[").unwrap().strip_suffix("]").unwrap();
    let mut out = Vec::new();
    for group in inner.split(", ") {
        if group.is_empty() {
            continue;
        }
        let digits = group.strip_prefix("0x").unwrap();
        assert_eq!(digits.len(), 2);
        out.push(u8::from_str_radix(digits, 16).unwrap());
    }
    out
}

#[test]
fn marshall_empty_value() {
    assert_eq!(marshall_value(&[]), "&[]");
}

#[test]
fn marshall_bytes_in_order_upper_case() {
    assert_eq!(marshall_value(&[0x00, 0xAB, 0x7F, 0xFF]), "&[0x00, 0xAB, 0x7F, 0xFF, ]");
}

#[test]
fn marshall_one_group_per_byte() {
    let bytes: Vec<u8> = (0..=255u8).collect();
    let lit = marshall_value(&bytes);
    assert_eq!(lit.len(), 6 * bytes.len() + 3);
    assert_eq!(read_back(&lit), bytes);
}

#[test]
fn marshall_u64_follows_memory_order() {
    let v: u64 = 0x0102_0304_0506_0708;
    let bytes = v.to_ne_bytes();
    let lit = marshall_value(&bytes);
    let back = read_back(&lit);
    assert_eq!(back.len(), 8);
    assert_eq!(u64::from_ne_bytes(back.try_into().unwrap()), v);
}

#[test]
fn accessor_text_is_exact() {
    let text = create_constant_func("answer", "u16", &[0x2A, 0x00]);
    let expected = "#[inline]\nfn answer() -> &'static u16 {\n    const BUF: &[u8] = &[0x2A, 0x00, ];\n    unsafe { &*(BUF.as_ptr() as *const u16) }\n}\n";
    assert_eq!(text, expected);
}
