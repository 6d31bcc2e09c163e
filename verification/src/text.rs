//! Byte-level text building: literals, numbers in decimal and hexadecimal, indentation, and the
//! notion of one byte string occurring inside another.

use vstd::prelude::*;
use vstd::string::StringSliceAdditionalSpecFns;

verus! {

/// The bytes of a string literal, as they stand in emitted text.
pub open spec fn lit(s: &str) -> Seq<u8> {
    s.spec_bytes()
}

/// Appends the bytes of `s` to `out`.
pub fn push_str(out: &mut Vec<u8>, s: &str)
    ensures
        final(out)@ == old(out)@ + lit(s),
{
    push_bytes(out, s.as_bytes());
}

/// Appends `bytes` to `out`.
pub fn push_bytes(out: &mut Vec<u8>, bytes: &[u8])
    ensures
        final(out)@ == old(out)@ + bytes@,
{
    let mut i: usize = 0;
    while i < bytes.len()
        invariant
            i <= bytes@.len(),
            out@ == old(out)@ + bytes@.subrange(0, i as int),
        decreases bytes@.len() - i,
    {
        out.push(bytes[i]);
        i += 1;
    }
    assert(bytes@.subrange(0, i as int) == bytes@);
}

/// A fresh vector holding a copy of `bytes`.
pub fn copy_bytes(bytes: &[u8]) -> (out: Vec<u8>)
    ensures
        out@ == bytes@,
{
    let mut out: Vec<u8> = Vec::new();
    push_bytes(&mut out, bytes);
    out
}

/// Whether two byte strings hold the same bytes.
pub fn bytes_eq(a: &[u8], b: &[u8]) -> (same: bool)
    ensures
        same == (a@ == b@),
{
    if a.len() != b.len() {
        return false;
    }
    let mut i: usize = 0;
    while i < a.len()
        invariant
            i <= a@.len(),
            a@.len() == b@.len(),
            forall|k: int| 0 <= k < i ==> a@[k] == b@[k],
        decreases a@.len() - i,
    {
        if a[i] != b[i] {
            return false;
        }
        i += 1;
    }
    assert(a@ =~= b@);
    true
}

/// The ASCII digit for `d`, where `d < 10`.
pub open spec fn decimal_digit(d: nat) -> u8 {
    (0x30 + d) as u8
}

/// `n` in decimal, without leading zeros.
pub open spec fn decimal(n: nat) -> Seq<u8>
    decreases n,
{
    if n < 10 {
        seq![decimal_digit(n)]
    } else {
        decimal(n / 10).push(decimal_digit(n % 10))
    }
}

/// `v` in decimal, with a minus sign in front where it is negative.
pub open spec fn signed_decimal(v: int) -> Seq<u8> {
    if v < 0 {
        seq![0x2du8] + decimal((-v) as nat)
    } else {
        decimal(v as nat)
    }
}

/// The number that a string of decimal digits stands for.
pub open spec fn decimal_value(digits: Seq<u8>) -> nat
    decreases digits.len(),
{
    if digits.len() == 0 {
        0
    } else {
        decimal_value(digits.drop_last()) * 10 + (digits.last() - 0x30) as nat
    }
}

/// Reading back what `decimal` wrote gives the number again.
pub proof fn lemma_decimal_value(n: nat)
    ensures
        decimal_value(decimal(n)) == n,
    decreases n,
{
    if n < 10 {
        assert(decimal(n).drop_last() =~= Seq::<u8>::empty());
        assert(decimal_value(decimal(n).drop_last()) == 0);
    } else {
        lemma_decimal_value(n / 10);
        assert(decimal(n).drop_last() =~= decimal(n / 10));
    }
}

/// Different numbers have different decimal strings.
pub proof fn lemma_decimal_injective(a: nat, b: nat)
    requires
        decimal(a) == decimal(b),
    ensures
        a == b,
{
    lemma_decimal_value(a);
    lemma_decimal_value(b);
}

/// `decimal(n)` is a non-empty string of ASCII digits.
pub proof fn lemma_decimal_digits(n: nat)
    ensures
        decimal(n).len() >= 1,
        forall|i: int| 0 <= i < decimal(n).len() ==> 0x30 <= #[trigger] decimal(n)[i] <= 0x39,
    decreases n,
{
    if n >= 10 {
        lemma_decimal_digits(n / 10);
    }
}

/// Appends `n` in decimal.
pub fn push_decimal(out: &mut Vec<u8>, n: u64)
    ensures
        final(out)@ == old(out)@ + decimal(n as nat),
    decreases n,
{
    if n >= 10 {
        push_decimal(out, n / 10);
    }
    let d: u8 = (n % 10) as u8;
    out.push(0x30 + d);
    proof {
        if n >= 10 {
            assert(out@ =~= old(out)@ + decimal((n / 10) as nat).push(decimal_digit((n % 10) as nat)));
        } else {
            assert(out@ =~= old(out)@ + seq![decimal_digit(n as nat)]);
        }
    }
}

/// Appends `v` in decimal, with its sign.
pub fn push_signed_decimal(out: &mut Vec<u8>, v: i64)
    ensures
        final(out)@ == old(out)@ + signed_decimal(v as int),
{
    if v < 0 {
        out.push(0x2d);
        let magnitude: u64 = (-(v + 1)) as u64 + 1;
        push_decimal(out, magnitude);
        assert(out@ =~= old(out)@ + (seq![0x2du8] + decimal((-v) as nat)));
    } else {
        push_decimal(out, v as u64);
    }
}

/// The upper-case hexadecimal digit for `d`, where `d < 16`.
pub open spec fn hex_digit(d: nat) -> u8 {
    if d < 10 {
        (0x30 + d) as u8
    } else {
        (0x37 + d) as u8
    }
}

/// `n` in upper-case hexadecimal, without prefix or leading zeros.
pub open spec fn hex(n: nat) -> Seq<u8>
    decreases n,
{
    if n < 16 {
        seq![hex_digit(n)]
    } else {
        hex(n / 16).push(hex_digit(n % 16))
    }
}

/// The lowest `width` hexadecimal digits of `n`, padded with zeros on the left.
pub open spec fn hex_padded(n: nat, width: nat) -> Seq<u8>
    decreases width,
{
    if width == 0 {
        Seq::empty()
    } else {
        hex_padded(n / 16, (width - 1) as nat).push(hex_digit(n % 16))
    }
}

/// `hex_padded` always has exactly `width` digits.
pub proof fn lemma_hex_padded_len(n: nat, width: nat)
    ensures
        hex_padded(n, width).len() == width,
    decreases width,
{
    if width > 0 {
        lemma_hex_padded_len(n / 16, (width - 1) as nat);
    }
}

fn hex_digit_of(d: u8) -> (c: u8)
    requires
        d < 16,
    ensures
        c == hex_digit(d as nat),
{
    if d < 10 {
        0x30 + d
    } else {
        0x37 + d
    }
}

/// Appends `n` in hexadecimal.
pub fn push_hex(out: &mut Vec<u8>, n: u64)
    ensures
        final(out)@ == old(out)@ + hex(n as nat),
    decreases n,
{
    if n >= 16 {
        push_hex(out, n / 16);
    }
    out.push(hex_digit_of((n % 16) as u8));
    proof {
        if n >= 16 {
            assert(out@ =~= old(out)@ + hex((n / 16) as nat).push(hex_digit((n % 16) as nat)));
        } else {
            assert(out@ =~= old(out)@ + seq![hex_digit(n as nat)]);
        }
    }
}

/// Appends the lowest `width` hexadecimal digits of `n`, zero-padded.
pub fn push_hex_padded(out: &mut Vec<u8>, n: u64, width: usize)
    ensures
        final(out)@ == old(out)@ + hex_padded(n as nat, width as nat),
    decreases width,
{
    if width > 0 {
        push_hex_padded(out, n / 16, width - 1);
        out.push(hex_digit_of((n % 16) as u8));
        assert(out@ =~= old(out)@ + hex_padded((n / 16) as nat, (width - 1) as nat).push(
            hex_digit((n % 16) as nat),
        ));
    } else {
        assert(out@ =~= old(out)@ + Seq::<u8>::empty());
    }
}

/// `n` space characters.
pub open spec fn spaces(n: nat) -> Seq<u8> {
    Seq::new(n, |i: int| 0x20u8)
}

/// The indentation of a line nested `depth` levels deep, at `width` spaces per level.
pub open spec fn indent(width: nat, depth: nat) -> Seq<u8> {
    spaces(width * depth)
}

/// Appends `n` spaces.
pub fn push_spaces(out: &mut Vec<u8>, n: usize)
    ensures
        final(out)@ == old(out)@ + spaces(n as nat),
{
    let mut i: usize = 0;
    while i < n
        invariant
            i <= n,
            out@ == old(out)@ + spaces(i as nat),
        decreases n - i,
    {
        out.push(0x20);
        i += 1;
        assert(out@ =~= old(out)@ + spaces(i as nat));
    }
}

/// Appends the indentation for `depth` levels of nesting.
pub fn push_indent(out: &mut Vec<u8>, width: usize, depth: usize)
    ensures
        final(out)@ == old(out)@ + indent(width as nat, depth as nat),
{
    let mut level: usize = 0;
    assert(out@ =~= old(out)@ + indent(width as nat, 0)) by {
        assert(width * 0 == 0) by (nonlinear_arith);
    }
    while level < depth
        invariant
            level <= depth,
            out@ == old(out)@ + indent(width as nat, level as nat),
        decreases depth - level,
    {
        push_spaces(out, width);
        proof {
            assert(width * (level + 1) == width * level + width) by (nonlinear_arith);
            assert(out@ =~= old(out)@ + indent(width as nat, (level + 1) as nat));
        }
        level += 1;
    }
}

/// Whether `needle` stands in `text` at position `at`.
pub open spec fn occurs_at(needle: Seq<u8>, text: Seq<u8>, at: int) -> bool {
    &&& 0 <= at
    &&& at + needle.len() <= text.len()
    &&& text.subrange(at, at + needle.len()) == needle
}

/// Whether `needle` stands somewhere in `text` as a contiguous run of bytes.
pub open spec fn occurs_in(needle: Seq<u8>, text: Seq<u8>) -> bool {
    exists|at: int| occurs_at(needle, text, at)
}

/// Every string occurs in itself.
pub proof fn lemma_occurs_self(text: Seq<u8>)
    ensures
        occurs_in(text, text),
{
    assert(text.subrange(0, text.len() as int) =~= text);
    assert(occurs_at(text, text, 0));
}

/// What occurs in `head` occurs in `head + tail`.
pub broadcast proof fn lemma_occurs_head(needle: Seq<u8>, head: Seq<u8>, tail: Seq<u8>)
    requires
        occurs_in(needle, head),
    ensures
        #[trigger] occurs_in(needle, head + tail),
{
    let at = choose|at: int| occurs_at(needle, head, at);
    assert((head + tail).subrange(at, at + needle.len()) =~= head.subrange(at, at + needle.len()));
    assert(occurs_at(needle, head + tail, at));
}

/// What occurs in `tail` occurs in `head + tail`.
pub broadcast proof fn lemma_occurs_tail(needle: Seq<u8>, head: Seq<u8>, tail: Seq<u8>)
    requires
        occurs_in(needle, tail),
    ensures
        #[trigger] occurs_in(needle, head + tail),
{
    let at = choose|at: int| occurs_at(needle, tail, at);
    assert((head + tail).subrange(head.len() + at, head.len() + at + needle.len())
        =~= tail.subrange(at, at + needle.len()));
    assert(occurs_at(needle, head + tail, head.len() + at));
}

/// Occurrence is transitive.
pub proof fn lemma_occurs_trans(needle: Seq<u8>, middle: Seq<u8>, text: Seq<u8>)
    requires
        occurs_in(needle, middle),
        occurs_in(middle, text),
    ensures
        occurs_in(needle, text),
{
    let a = choose|at: int| occurs_at(needle, middle, at);
    let b = choose|at: int| occurs_at(middle, text, at);
    assert(text.subrange(b + a, b + a + needle.len()) =~= text.subrange(
        b,
        b + middle.len(),
    ).subrange(a, a + needle.len()));
    assert(occurs_at(needle, text, b + a));
}

/// The parts `part(0)`, ..., `part(n - 1)` one after another.
pub open spec fn join(n: nat, part: spec_fn(int) -> Seq<u8>) -> Seq<u8>
    decreases n,
{
    if n == 0 {
        Seq::empty()
    } else {
        join((n - 1) as nat, part) + part(n - 1)
    }
}

/// What occurs in one of the joined parts occurs in the whole.
pub proof fn lemma_join_occurs(n: nat, part: spec_fn(int) -> Seq<u8>, k: int, needle: Seq<u8>)
    requires
        0 <= k < n,
        occurs_in(needle, part(k)),
    ensures
        occurs_in(needle, join(n, part)),
    decreases n,
{
    if k == n - 1 {
        lemma_occurs_tail(needle, join((n - 1) as nat, part), part(n - 1));
    } else {
        lemma_join_occurs((n - 1) as nat, part, k, needle);
        lemma_occurs_head(needle, join((n - 1) as nat, part), part(n - 1));
    }
}

} // verus!
