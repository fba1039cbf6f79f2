//! The lowercase ASCII view of a buffer, and byte-sequence searching over it.
use vstd::prelude::*;

verus! {

/// A byte the text view keeps: printable ASCII, from space to tilde.
pub open spec fn is_printable(b: u8) -> bool {
    0x20 <= b && b <= 0x7e
}

/// ASCII lowercasing of one byte.
pub open spec fn lower_byte(b: u8) -> u8 {
    if 0x41 <= b && b <= 0x5a {
        (b + 0x20) as u8
    } else {
        b
    }
}

/// What the text view holds in place of one byte of the buffer.
pub open spec fn text_byte(b: u8) -> u8 {
    if is_printable(b) {
        lower_byte(b)
    } else {
        0x20
    }
}

/// The text view of a buffer: one byte per input byte.
pub open spec fn text_view(data: Seq<u8>) -> Seq<u8> {
    data.map_values(|b: u8| text_byte(b))
}

/// `p` stands in `t` at position `i`.
pub open spec fn occurs_at(t: Seq<u8>, i: int, p: Seq<u8>) -> bool {
    0 <= i && i + p.len() <= t.len() && t.subrange(i, i + p.len()) == p
}

/// `p` stands somewhere in `t`.
pub open spec fn has_sub(t: Seq<u8>, p: Seq<u8>) -> bool {
    exists|i: int| occurs_at(t, i, p)
}

/// Number of non-overlapping occurrences of `p` in `t` from position `i`,
/// taken from left to right.
pub open spec fn occurrences_from(t: Seq<u8>, p: Seq<u8>, i: int) -> nat
    decreases t.len() - i,
{
    if i < 0 || i >= t.len() || p.len() == 0 {
        0
    } else if occurs_at(t, i, p) {
        1 + occurrences_from(t, p, i + p.len())
    } else {
        occurrences_from(t, p, i + 1)
    }
}

/// The characters of an ASCII byte sequence.
pub open spec fn ascii_chars(b: Seq<u8>) -> Seq<char> {
    b.map_values(|x: u8| x as char)
}

/// Every byte is below 128.
pub open spec fn all_ascii(b: Seq<u8>) -> bool {
    forall|i: int| 0 <= i < b.len() ==> b[i] < 128
}

/// Decimal digits of a natural number, most significant first.
pub open spec fn decimal(n: nat) -> Seq<u8>
    decreases n,
{
    if n < 10 {
        seq![(n + 0x30) as u8]
    } else {
        decimal(n / 10).push(((n % 10) + 0x30) as u8)
    }
}

/// Builds the text view of `data`.
pub fn normalize(data: &[u8]) -> (r: Vec<u8>)
    ensures
        r@ == text_view(data@),
{
    let mut r: Vec<u8> = Vec::with_capacity(data.len());
    let mut i: usize = 0;
    while i < data.len()
        invariant
            i <= data.len(),
            r@ == text_view(data@.subrange(0, i as int)),
        decreases data.len() - i,
    {
        let b = data[i];
        let c: u8 = if 0x20 <= b && b <= 0x7e {
            if 0x41 <= b && b <= 0x5a {
                b + 0x20
            } else {
                b
            }
        } else {
            0x20
        };
        r.push(c);
        i = i + 1;
        assert(text_view(data@.subrange(0, i as int)) =~= text_view(data@.subrange(0, i - 1)).push(c));
    }
    assert(data@.subrange(0, data.len() as int) =~= data@);
    r
}

/// Tells whether `p` stands in `t` at position `i`.
pub fn matches_at(t: &[u8], i: usize, p: &[u8]) -> (r: bool)
    ensures
        r == occurs_at(t@, i as int, p@),
{
    if i > t.len() || p.len() > t.len() - i {
        return false;
    }
    let mut j: usize = 0;
    while j < p.len()
        invariant
            i + p.len() <= t.len(),
            j <= p.len(),
            forall|k: int| 0 <= k < j ==> t@[i + k] == p@[k],
        decreases p.len() - j,
    {
        if t[i + j] != p[j] {
            assert(t@.subrange(i as int, i + p.len())[j as int] != p@[j as int]);
            return false;
        }
        j = j + 1;
    }
    assert(t@.subrange(i as int, i + p.len()) =~= p@);
    true
}

/// Tells whether `p` stands anywhere in `t`.
pub fn find_in(t: &[u8], p: &[u8]) -> (r: bool)
    ensures
        r == has_sub(t@, p@),
{
    if p.len() > t.len() {
        return false;
    }
    let mut i: usize = 0;
    while i <= t.len() - p.len()
        invariant
            p.len() <= t.len(),
            forall|k: int| 0 <= k < i ==> !occurs_at(t@, k, p@),
        decreases t.len() - p.len() + 1 - i,
    {
        if matches_at(t, i, p) {
            return true;
        }
        if i == t.len() - p.len() {
            return false;
        }
        i = i + 1;
    }
    false
}

/// Counts the non-overlapping occurrences of a non-empty `p` in `t`.
pub fn count_occurrences(t: &[u8], p: &[u8]) -> (r: usize)
    requires
        p.len() > 0,
    ensures
        r == occurrences_from(t@, p@, 0),
{
    let mut i: usize = 0;
    let mut n: usize = 0;
    while i < t.len()
        invariant
            p.len() > 0,
            n <= i,
            i <= t.len() + p.len(),
            n + occurrences_from(t@, p@, i as int) == occurrences_from(t@, p@, 0),
        decreases t.len() + p.len() - i,
    {
        if matches_at(t, i, p) {
            n = n + 1;
            i = i + p.len();
        } else {
            i = i + 1;
        }
    }
    n
}

/// Relies on `String::from_utf8`: a sequence of ASCII bytes is valid UTF-8,
/// and each byte becomes the character of the same code.
#[verifier::external_body]
pub(crate) fn ascii_string(b: Vec<u8>) -> (r: String)
    requires
        all_ascii(b@),
    ensures
        r@ == ascii_chars(b@),
{
    String::from_utf8(b).unwrap()
}

/// Appends the decimal digits of `n` to `out`.
pub fn push_decimal(n: u128, out: &mut Vec<u8>)
    ensures
        final(out)@ == old(out)@ + decimal(n as nat),
    decreases n,
{
    if n >= 10 {
        push_decimal(n / 10, out);
    }
    let d: u8 = (n % 10) as u8 + 0x30;
    out.push(d);
    assert(final(out)@ =~= old(out)@ + decimal(n as nat));
}

/// Every digit of `decimal(n)` is ASCII.
pub proof fn lemma_decimal_ascii(n: nat)
    ensures
        all_ascii(decimal(n)),
    decreases n,
{
    if n >= 10 {
        lemma_decimal_ascii(n / 10);
    }
}

/// The decimal rendering of `n` as a string.
pub fn decimal_string(n: u128) -> (r: String)
    ensures
        r@ == ascii_chars(decimal(n as nat)),
{
    let mut v: Vec<u8> = Vec::new();
    push_decimal(n, &mut v);
    assert(v@ =~= decimal(n as nat));
    proof {
        lemma_decimal_ascii(n as nat);
    }
    ascii_string(v)
}

} // verus!
