//! Text helpers shared by the pipelines: building strings character by
//! character, and the character-level specifications of the keys they form.
use vstd::prelude::*;

verus! {

/// Appends one character to a string (`String::push` of std).
#[verifier::external_body]
pub(crate) fn push_char(s: &mut String, c: char)
    ensures
        final(s)@ == old(s)@.push(c),
{
    s.push(c);
}

/// The lowercase hexadecimal character of a value below 16.
pub open spec fn hex_char(n: nat) -> char {
    if n < 10 {
        crate::bigint::digit_char(n)
    } else if n == 10 {
        'a'
    } else if n == 11 {
        'b'
    } else if n == 12 {
        'c'
    } else if n == 13 {
        'd'
    } else if n == 14 {
        'e'
    } else {
        'f'
    }
}

/// Two lowercase hexadecimal characters per byte, high nibble first.
pub open spec fn hex_digits(b: Seq<u8>) -> Seq<char>
    decreases b.len(),
{
    if b.len() == 0 {
        Seq::empty()
    } else {
        hex_digits(b.drop_last()) + seq![
            hex_char((b[b.len() - 1] / 16) as nat),
            hex_char((b[b.len() - 1] % 16) as nat),
        ]
    }
}

/// The text of an address, hash or other byte string in records and keys:
/// `0x` followed by the lowercase hexadecimal digits of the bytes.
pub open spec fn spec_hex(b: Seq<u8>) -> Seq<char> {
    seq!['0', 'x'] + hex_digits(b)
}


/// The value of a lowercase hexadecimal character.
spec fn hex_value(c: char) -> nat {
    if '0' <= c <= '9' {
        (c as int - 48) as nat
    } else {
        (c as int - 87) as nat
    }
}

proof fn lemma_hex_value(n: nat)
    requires
        n < 16,
    ensures
        hex_value(hex_char(n)) == n,
{
}

proof fn lemma_hex_digits_len(b: Seq<u8>)
    ensures
        hex_digits(b).len() == 2 * b.len(),
    decreases b.len(),
{
    if b.len() > 0 {
        lemma_hex_digits_len(b.drop_last());
    }
}

proof fn lemma_hex_digits_injective(a: Seq<u8>, b: Seq<u8>)
    requires
        hex_digits(a) == hex_digits(b),
    ensures
        a == b,
    decreases a.len(),
{
    lemma_hex_digits_len(a);
    lemma_hex_digits_len(b);
    if a.len() > 0 {
        let x = a[a.len() - 1];
        let y = b[b.len() - 1];
        let s = hex_digits(a);
        let n = s.len();
        assert(s[n - 2] == hex_char((x / 16) as nat));
        assert(s[n - 1] == hex_char((x % 16) as nat));
        assert(hex_digits(b)[n - 2] == hex_char((y / 16) as nat));
        assert(hex_digits(b)[n - 1] == hex_char((y % 16) as nat));
        lemma_hex_value((x / 16) as nat);
        lemma_hex_value((x % 16) as nat);
        lemma_hex_value((y / 16) as nat);
        lemma_hex_value((y % 16) as nat);
        assert(x == y);
        lemma_hex_digits_len(a.drop_last());
        lemma_hex_digits_len(b.drop_last());
        assert(hex_digits(a.drop_last()) =~= s.subrange(0, n - 2));
        assert(hex_digits(b.drop_last()) =~= hex_digits(b).subrange(0, n - 2));
        lemma_hex_digits_injective(a.drop_last(), b.drop_last());
        assert(a =~= a.drop_last().push(x));
        assert(b =~= b.drop_last().push(y));
    }
}

/// Law: distinct byte strings have distinct texts, so records and store keys
/// of distinct addresses never coincide.
pub proof fn lemma_hex_injective(a: Seq<u8>, b: Seq<u8>)
    requires
        spec_hex(a) == spec_hex(b),
    ensures
        a == b,
{
    assert(hex_digits(a) =~= spec_hex(a).skip(2));
    assert(hex_digits(b) =~= spec_hex(b).skip(2));
    lemma_hex_digits_injective(a, b);
}

fn nibble_char(n: u8) -> (c: char)
    requires
        n < 16,
    ensures
        c == hex_char(n as nat),
{
    if n < 10 {
        crate::bigint::digit_to_char(n)
    } else if n == 10 {
        'a'
    } else if n == 11 {
        'b'
    } else if n == 12 {
        'c'
    } else if n == 13 {
        'd'
    } else if n == 14 {
        'e'
    } else {
        'f'
    }
}

/// `0x` followed by the lowercase hexadecimal digits of `bytes`.
pub fn to_hex(bytes: &[u8]) -> (r: String)
    ensures
        r@ == spec_hex(bytes@),
{
    let mut r = String::new();
    push_char(&mut r, '0');
    push_char(&mut r, 'x');
    let mut i: usize = 0;
    while i < bytes.len()
        invariant
            i <= bytes.len(),
            r@ =~= seq!['0', 'x'] + hex_digits(bytes@.take(i as int)),
        decreases bytes.len() - i,
    {
        let b = bytes[i];
        push_char(&mut r, nibble_char(b / 16));
        push_char(&mut r, nibble_char(b % 16));
        proof {
            assert(bytes@.take((i + 1) as int).drop_last() =~= bytes@.take(i as int));
        }
        i = i + 1;
    }
    proof {
        assert(bytes@.take(bytes.len() as int) =~= bytes@);
    }
    r
}

} // verus!
