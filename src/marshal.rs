//! Rendering raw bytes as a byte-array literal, and wrapping that literal in
//! accessor source text.
use vstd::prelude::*;

verus! {

/// The sixteen digits of an upper-case hexadecimal numeral, by value.
pub open spec fn hex_digits() -> Seq<char> {
    seq!['0', '1', '2', '3', '4', '5', '6', '7', '8', '9', 'A', 'B', 'C', 'D', 'E', 'F']
}

/// One byte as it stands in the literal: `0x`, two upper-case hex digits
/// (high nibble first), then the separator `, `.
pub open spec fn hex_group(b: u8) -> Seq<char> {
    seq!['0', 'x', hex_digits()[b as int / 16], hex_digits()[b as int % 16], ',', ' ']
}

/// The groups of all bytes, in order.
pub open spec fn hex_groups(bytes: Seq<u8>) -> Seq<char>
    decreases bytes.len(),
{
    if bytes.len() == 0 {
        Seq::empty()
    } else {
        hex_groups(bytes.drop_last()) + hex_group(bytes.last())
    }
}

/// The byte-array literal for `bytes`: `&[`, the groups, `]`.
pub open spec fn byte_literal(bytes: Seq<u8>) -> Seq<char> {
    seq!['&', '['] + hex_groups(bytes) + seq![']']
}

proof fn lemma_hex_groups(bytes: Seq<u8>)
    ensures
        hex_groups(bytes).len() == 6 * bytes.len(),
        forall|i: int|
            0 <= i < bytes.len() ==> #[trigger] hex_groups(bytes).subrange(6 * i, 6 * i + 6)
                == hex_group(bytes[i]),
    decreases bytes.len(),
{
    if bytes.len() > 0 {
        let front = bytes.drop_last();
        lemma_hex_groups(front);
        let g = hex_groups(bytes);
        assert forall|i: int| 0 <= i < bytes.len() implies #[trigger] g.subrange(6 * i, 6 * i + 6)
            == hex_group(bytes[i]) by {
            if i < front.len() {
                assert(g.subrange(6 * i, 6 * i + 6) =~= hex_groups(front).subrange(6 * i, 6 * i + 6));
            } else {
                assert(g.subrange(6 * i, 6 * i + 6) =~= hex_group(bytes.last()));
            }
        }
    }
}

/// A literal for `n` bytes is `&[`, then exactly `n` groups of six characters,
/// the `i`-th of which is the group of the `i`-th byte, then `]`.
pub proof fn lemma_byte_literal_groups(bytes: Seq<u8>)
    ensures
        byte_literal(bytes).len() == 6 * bytes.len() + 3,
        byte_literal(bytes).subrange(0, 2) == seq!['&', '['],
        byte_literal(bytes)[6 * bytes.len() as int + 2] == ']',
        forall|i: int|
            0 <= i < bytes.len() ==> #[trigger] byte_literal(bytes).subrange(6 * i + 2, 6 * i + 8)
                == hex_group(bytes[i]),
{
    lemma_hex_groups(bytes);
    let l = byte_literal(bytes);
    assert(l.subrange(0, 2) =~= seq!['&', '[']);
    assert forall|i: int| 0 <= i < bytes.len() implies #[trigger] l.subrange(6 * i + 2, 6 * i + 8)
        == hex_group(bytes[i]) by {
        assert(l.subrange(6 * i + 2, 6 * i + 8) =~= hex_groups(bytes).subrange(6 * i, 6 * i + 6));
    }
}

proof fn lemma_hex_group_injective(a: u8, b: u8)
    requires
        hex_group(a) == hex_group(b),
    ensures
        a == b,
{
    assert(hex_group(a)[2] == hex_group(b)[2]);
    assert(hex_group(a)[3] == hex_group(b)[3]);
    assert(a as int / 16 == b as int / 16);
    assert(a as int % 16 == b as int % 16);
}

/// The literal determines the bytes: two byte sequences with the same literal
/// are equal, so the bytes can be read back from the text unchanged.
pub proof fn lemma_byte_literal_injective(a: Seq<u8>, b: Seq<u8>)
    requires
        byte_literal(a) == byte_literal(b),
    ensures
        a == b,
{
    lemma_byte_literal_groups(a);
    lemma_byte_literal_groups(b);
    assert forall|i: int| 0 <= i < a.len() implies a[i] == b[i] by {
        assert(byte_literal(a).subrange(6 * i + 2, 6 * i + 8) == hex_group(a[i]));
        assert(byte_literal(b).subrange(6 * i + 2, 6 * i + 8) == hex_group(b[i]));
        lemma_hex_group_injective(a[i], b[i]);
    }
    assert(a =~= b);
}

/// The hex digit of a nibble, as a one-character string.
fn hex_digit(n: u8) -> (r: &'static str)
    requires
        n < 16,
    ensures
        r@ == seq![hex_digits()[n as int]],
{
    let table = "0123456789ABCDEF";
    proof {
        reveal_strlit("0123456789ABCDEF");
    }
    assert(table.is_ascii());
    let d = table.substring_ascii(n as usize, n as usize + 1);
    assert(d@ =~= seq![hex_digits()[n as int]]);
    d
}

/// Renders `bytes` as a byte-array literal, one group per byte, in order.
pub fn marshall_value(bytes: &[u8]) -> (r: String)
    ensures
        r@ == byte_literal(bytes@),
{
    let mut r = String::from_str("&[");
    proof {
        reveal_strlit("&[");
    }
    let mut i: usize = 0;
    while i < bytes.len()
        invariant
            i <= bytes@.len(),
            r@ == seq!['&', '['] + hex_groups(bytes@.subrange(0, i as int)),
        decreases bytes@.len() - i,
    {
        let b = bytes[i];
        r.append("0x");
        r.append(hex_digit(b / 16));
        r.append(hex_digit(b % 16));
        r.append(", ");
        proof {
            let next = bytes@.subrange(0, i + 1);
            assert(next.drop_last() =~= bytes@.subrange(0, i as int));
            assert(next.last() == b);
            reveal_strlit("0x");
            reveal_strlit(", ");
            assert("0x"@ =~= seq!['0', 'x']);
            assert(", "@ =~= seq![',', ' ']);
            assert(r@ =~= seq!['&', '['] + hex_groups(next));
        }
        i = i + 1;
    }
    r.append("]");
    proof {
        reveal_strlit("]");
    }
    assert("]"@ =~= seq![']']);
    assert(bytes@.subrange(0, i as int) =~= bytes@);
    assert(r@ =~= byte_literal(bytes@));
    r
}

/// The accessor for a constant: an inlined function `name` without arguments
/// that returns a `&'static ty`. Its body binds the byte-array literal `lit`
/// to a constant buffer and reinterprets the buffer's address as a `ty`.
pub open spec fn accessor_text(name: Seq<char>, ty: Seq<char>, lit: Seq<char>) -> Seq<char> {
    "#[inline]\nfn "@ + name + "() -> &'static "@ + ty + " {\n    const BUF: &[u8] = "@ + lit
        + ";\n    unsafe { &*(BUF.as_ptr() as *const "@ + ty + ") }\n}\n"@
}

/// Source text of the accessor `fname`, returning the value whose raw bytes
/// are `bytes` as a `&'static` reference to `typename`. The type name is
/// copied as given and not checked against the bytes.
pub fn create_constant_func(fname: &str, typename: &str, bytes: &[u8]) -> (r: String)
    ensures
        r@ == accessor_text(fname@, typename@, byte_literal(bytes@)),
{
    let lit = marshall_value(bytes);
    let mut r = String::from_str("#[inline]\nfn ");
    r.append(fname);
    r.append("() -> &'static ");
    r.append(typename);
    r.append(" {\n    const BUF: &[u8] = ");
    r.append(lit.as_str());
    r.append(";\n    unsafe { &*(BUF.as_ptr() as *const ");
    r.append(typename);
    r.append(") }\n}\n");
    r
}

} // verus!
