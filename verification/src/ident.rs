//! Identifiers for emitted source text: every name found in the target is cleaned into a legal
//! identifier, and names that collide inside one container are told apart by a counter.

use vstd::prelude::*;
use crate::text::{
    bytes_eq, copy_bytes, decimal, lemma_decimal_digits, lemma_decimal_injective, push_decimal
};

verus! {

/// The byte that stands in for every byte that an identifier cannot hold.
pub const SUBSTITUTE: u8 = 0x5f;

pub open spec fn is_digit(b: u8) -> bool {
    0x30 <= b <= 0x39
}

/// Whether `b` is an ASCII letter, an ASCII digit or an underscore.
pub open spec fn is_ident_byte(b: u8) -> bool {
    is_digit(b) || (0x41 <= b <= 0x5a) || (0x61 <= b <= 0x7a) || b == SUBSTITUTE
}

pub open spec fn clean_byte(b: u8) -> u8 {
    if is_ident_byte(b) {
        b
    } else {
        SUBSTITUTE
    }
}

/// A legal identifier: not empty, made of letters, digits and underscores, no digit in front.
pub open spec fn valid_ident(s: Seq<u8>) -> bool {
    &&& s.len() > 0
    &&& !is_digit(s[0])
    &&& forall|i: int| 0 <= i < s.len() ==> is_ident_byte(#[trigger] s[i])
}

/// `name` with every illegal byte replaced by the substitute.
pub open spec fn cleaned(name: Seq<u8>) -> Seq<u8> {
    Seq::new(name.len(), |i: int| clean_byte(name[i]))
}

/// The identifier that stands for `name`: its bytes cleaned, and an underscore put in front
/// where the result would be empty or start with a digit.
pub open spec fn sanitize(name: Seq<u8>) -> Seq<u8> {
    let body = cleaned(name);
    if body.len() == 0 || is_digit(body[0]) {
        seq![SUBSTITUTE] + body
    } else {
        body
    }
}

/// Sanitizing always yields a legal identifier.
pub proof fn lemma_sanitize_valid(name: Seq<u8>)
    ensures
        valid_ident(sanitize(name)),
{
}

/// Sanitizing a legal identifier changes nothing.
pub proof fn lemma_sanitize_keeps_valid(name: Seq<u8>)
    requires
        valid_ident(name),
    ensures
        sanitize(name) == name,
{
    assert(cleaned(name) =~= name);
}

/// Sanitizing twice is sanitizing once.
pub proof fn lemma_sanitize_idempotent(name: Seq<u8>)
    ensures
        sanitize(sanitize(name)) == sanitize(name),
{
    lemma_sanitize_valid(name);
    lemma_sanitize_keeps_valid(sanitize(name));
}

fn ident_byte(b: u8) -> (ok: bool)
    ensures
        ok == is_ident_byte(b),
{
    (0x30 <= b && b <= 0x39) || (0x41 <= b && b <= 0x5a) || (0x61 <= b && b <= 0x7a) || b
        == SUBSTITUTE
}

/// Computes `sanitize(name)`.
pub fn sanitize_ident(name: &[u8]) -> (ident: Vec<u8>)
    ensures
        ident@ == sanitize(name@),
{
    let mut ident: Vec<u8> = Vec::new();
    let leading = name.len() == 0 || {
        let first = name[0];
        0x30 <= first && first <= 0x39
    };
    if leading {
        ident.push(SUBSTITUTE);
    }
    let ghost head = ident@;
    let mut i: usize = 0;
    while i < name.len()
        invariant
            i <= name@.len(),
            ident@ == head + cleaned(name@).subrange(0, i as int),
        decreases name@.len() - i,
    {
        let b = name[i];
        if ident_byte(b) {
            ident.push(b);
        } else {
            ident.push(SUBSTITUTE);
        }
        i += 1;
        assert(ident@ =~= head + cleaned(name@).subrange(0, i as int));
    }
    assert(cleaned(name@).subrange(0, i as int) =~= cleaned(name@));
    assert(ident@ =~= sanitize(name@));
    ident
}

/// The `k`-th spelling tried for an identifier: the base itself, then the base with an
/// underscore and the counter behind it.
pub open spec fn candidate(base: Seq<u8>, k: nat) -> Seq<u8> {
    if k == 0 {
        base
    } else {
        base + seq![SUBSTITUTE] + decimal(k)
    }
}

/// The first spelling from the `k`-th on that is not in `used`.
pub open spec fn pick_from(base: Seq<u8>, used: Seq<Seq<u8>>, k: nat) -> Seq<u8>
    decreases used.len() - k,
{
    if k < used.len() && used.contains(candidate(base, k)) {
        pick_from(base, used, k + 1)
    } else {
        candidate(base, k)
    }
}

/// The identifiers given to `names`, which share one container, in their order: each name gets
/// the first spelling of its sanitized form that no earlier name has taken.
pub open spec fn unique_idents(names: Seq<Seq<u8>>) -> Seq<Seq<u8>>
    decreases names.len(),
{
    if names.len() == 0 {
        Seq::empty()
    } else {
        let earlier = unique_idents(names.drop_last());
        earlier.push(pick_from(sanitize(names.last()), earlier, 0))
    }
}

/// The byte strings held by a vector of vectors.
pub open spec fn byte_rows(rows: Seq<Vec<u8>>) -> Seq<Seq<u8>> {
    Seq::new(rows.len(), |i: int| rows[i]@)
}

/// Spellings with different counters differ.
pub proof fn lemma_candidate_injective(base: Seq<u8>, j: nat, k: nat)
    requires
        candidate(base, j) == candidate(base, k),
    ensures
        j == k,
{
    lemma_decimal_digits(j);
    lemma_decimal_digits(k);
    if j != 0 && k != 0 {
        let a = candidate(base, j);
        let b = candidate(base, k);
        assert(a.subrange(base.len() as int + 1, a.len() as int) =~= decimal(j));
        assert(b.subrange(base.len() as int + 1, b.len() as int) =~= decimal(k));
        lemma_decimal_injective(j, k);
    }
}

/// Every spelling of a legal identifier is a legal identifier.
pub proof fn lemma_candidate_valid(base: Seq<u8>, k: nat)
    requires
        valid_ident(base),
    ensures
        valid_ident(candidate(base, k)),
{
    lemma_decimal_digits(k);
    if k != 0 {
        let c = candidate(base, k);
        assert forall|i: int| 0 <= i < c.len() implies is_ident_byte(#[trigger] c[i]) by {
            if i < base.len() {
                assert(c[i] == base[i]);
            } else if i == base.len() {
            } else {
                assert(c[i] == decimal(k)[i - base.len() - 1]);
            }
        }
        assert(c[0] == base[0]);
    }
}

proof fn lemma_remove_keeps(used: Seq<Seq<u8>>, at: int, item: Seq<u8>)
    requires
        0 <= at < used.len(),
        used.contains(item),
        used[at] != item,
    ensures
        used.remove(at).contains(item),
{
    let i = choose|i: int| 0 <= i < used.len() && used[i] == item;
    if i < at {
        assert(used.remove(at)[i] == item);
    } else {
        assert(used.remove(at)[i - 1] == item);
    }
}

/// A list that holds the first `n` spellings of `base` has at least `n` entries.
proof fn lemma_spellings_need_room(base: Seq<u8>, used: Seq<Seq<u8>>, n: nat)
    requires
        forall|j: nat| j < n ==> used.contains(#[trigger] candidate(base, j)),
    ensures
        n <= used.len(),
    decreases n,
{
    if n > 0 {
        let last = candidate(base, (n - 1) as nat);
        assert(used.contains(last));
        let at = choose|i: int| 0 <= i < used.len() && used[i] == last;
        let rest = used.remove(at);
        assert forall|j: nat| j < n - 1 implies rest.contains(#[trigger] candidate(base, j)) by {
            if candidate(base, j) == last {
                lemma_candidate_injective(base, j, (n - 1) as nat);
            }
            lemma_remove_keeps(used, at, candidate(base, j));
        }
        lemma_spellings_need_room(base, rest, (n - 1) as nat);
    }
}

proof fn lemma_pick_from(base: Seq<u8>, used: Seq<Seq<u8>>, k: nat)
    requires
        k <= used.len(),
        forall|j: nat| j < k ==> used.contains(#[trigger] candidate(base, j)),
    ensures
        !used.contains(pick_from(base, used, k)),
        exists|n: nat| pick_from(base, used, k) == candidate(base, n),
    decreases used.len() - k,
{
    if k < used.len() && used.contains(candidate(base, k)) {
        lemma_pick_from(base, used, k + 1);
    } else {
        if used.contains(candidate(base, k)) {
            lemma_spellings_need_room(base, used, k + 1);
        }
    }
}

/// The spelling picked for a name is one that nobody before it has taken.
pub proof fn lemma_pick_fresh(base: Seq<u8>, used: Seq<Seq<u8>>)
    ensures
        !used.contains(pick_from(base, used, 0)),
{
    lemma_pick_from(base, used, 0);
}

/// The spelling picked for a legal identifier is a legal identifier.
pub proof fn lemma_pick_valid(base: Seq<u8>, used: Seq<Seq<u8>>)
    requires
        valid_ident(base),
    ensures
        valid_ident(pick_from(base, used, 0)),
{
    lemma_pick_from(base, used, 0);
    let n = choose|n: nat| pick_from(base, used, 0) == candidate(base, n);
    lemma_candidate_valid(base, n);
}

/// Each name gets one identifier.
pub proof fn lemma_unique_idents_len(names: Seq<Seq<u8>>)
    ensures
        unique_idents(names).len() == names.len(),
    decreases names.len(),
{
    if names.len() > 0 {
        lemma_unique_idents_len(names.drop_last());
    }
}

/// The identifiers of the first `n` names do not depend on the names that follow.
pub proof fn lemma_unique_idents_prefix(names: Seq<Seq<u8>>, n: int)
    requires
        0 <= n <= names.len(),
    ensures
        unique_idents(names.take(n)) == unique_idents(names).take(n),
    decreases names.len(),
{
    lemma_unique_idents_len(names);
    if n == names.len() {
        assert(names.take(n) =~= names);
        assert(unique_idents(names).take(n) =~= unique_idents(names));
    } else {
        lemma_unique_idents_len(names.drop_last());
        lemma_unique_idents_prefix(names.drop_last(), n);
        assert(names.drop_last().take(n) =~= names.take(n));
        assert(unique_idents(names).take(n) =~= unique_idents(names.drop_last()).take(n));
    }
}

/// The identifier of the `i`-th name is the first free spelling of its sanitized form, given
/// the identifiers of the names before it.
pub proof fn lemma_unique_idents_at(names: Seq<Seq<u8>>, i: int)
    requires
        0 <= i < names.len(),
    ensures
        unique_idents(names).len() == names.len(),
        unique_idents(names)[i] == pick_from(
            sanitize(names[i]),
            unique_idents(names).take(i),
            0,
        ),
{
    lemma_unique_idents_len(names);
    lemma_unique_idents_prefix(names, i + 1);
    lemma_unique_idents_prefix(names, i);
    let upto = names.take(i + 1);
    assert(upto.drop_last() =~= names.take(i));
    assert(upto.last() == names[i]);
    assert(unique_idents(names).take(i + 1)[i] == unique_idents(names)[i]);
}

/// Every identifier handed out is legal, and no two names of one container share one.
pub proof fn lemma_unique_idents_distinct(names: Seq<Seq<u8>>)
    ensures
        unique_idents(names).len() == names.len(),
        forall|i: int| 0 <= i < names.len() ==> valid_ident(#[trigger] unique_idents(names)[i]),
        forall|i: int, j: int|
            0 <= i < j < names.len() ==> #[trigger] unique_idents(names)[i]
                != #[trigger] unique_idents(names)[j],
{
    lemma_unique_idents_len(names);
    let idents = unique_idents(names);
    assert forall|i: int| 0 <= i < names.len() implies valid_ident(#[trigger] idents[i]) by {
        lemma_unique_idents_at(names, i);
        lemma_sanitize_valid(names[i]);
        lemma_pick_valid(sanitize(names[i]), idents.take(i));
    }
    assert forall|i: int, j: int| 0 <= i < j < names.len() implies #[trigger] idents[i]
        != #[trigger] idents[j] by {
        lemma_unique_idents_at(names, j);
        lemma_pick_fresh(sanitize(names[j]), idents.take(j));
        assert(idents.take(j)[i] == idents[i]);
    }
}

/// A name whose sanitized form collides with no identifier before it is spelled as that form.
pub proof fn lemma_unique_idents_plain(names: Seq<Seq<u8>>, i: int)
    requires
        0 <= i < names.len(),
        forall|j: int| 0 <= j < i ==> #[trigger] unique_idents(names)[j] != sanitize(names[i]),
    ensures
        unique_idents(names)[i] == sanitize(names[i]),
{
    lemma_unique_idents_at(names, i);
    let earlier = unique_idents(names).take(i);
    if earlier.contains(sanitize(names[i])) {
        let j = choose|j: int| 0 <= j < earlier.len() && earlier[j] == sanitize(names[i]);
        assert(unique_idents(names)[j] == earlier[j]);
    }
}

fn holds_bytes(list: &Vec<Vec<u8>>, item: &[u8]) -> (found: bool)
    ensures
        found == byte_rows(list@).contains(item@),
{
    let mut i: usize = 0;
    while i < list.len()
        invariant
            i <= list@.len(),
            forall|k: int| 0 <= k < i ==> byte_rows(list@)[k] != item@,
        decreases list@.len() - i,
    {
        if bytes_eq(list[i].as_slice(), item) {
            assert(byte_rows(list@)[i as int] == item@);
            return true;
        }
        i += 1;
    }
    false
}

/// The first spelling of `base` that `used` does not hold.
pub fn fresh_ident(base: &[u8], used: &Vec<Vec<u8>>) -> (ident: Vec<u8>)
    ensures
        ident@ == pick_from(base@, byte_rows(used@), 0),
{
    let mut k: usize = 0;
    let mut ident = copy_bytes(base);
    while k < used.len() && holds_bytes(used, ident.as_slice())
        invariant
            k <= used@.len(),
            ident@ == candidate(base@, k as nat),
            pick_from(base@, byte_rows(used@), k as nat) == pick_from(base@, byte_rows(used@), 0),
        decreases used@.len() - k,
    {
        k += 1;
        ident = copy_bytes(base);
        ident.push(SUBSTITUTE);
        push_decimal(&mut ident, k as u64);
        assert(ident@ =~= candidate(base@, k as nat));
    }
    ident
}

/// Gives each of `names`, which share one container, its identifier.
pub fn assign_idents(names: &Vec<Vec<u8>>) -> (idents: Vec<Vec<u8>>)
    ensures
        byte_rows(idents@) == unique_idents(byte_rows(names@)),
{
    let mut idents: Vec<Vec<u8>> = Vec::new();
    let mut i: usize = 0;
    assert(byte_rows(names@).take(0) =~= Seq::<Seq<u8>>::empty());
    assert(byte_rows(idents@) =~= Seq::<Seq<u8>>::empty());
    while i < names.len()
        invariant
            i <= names@.len(),
            byte_rows(idents@) == unique_idents(byte_rows(names@).take(i as int)),
        decreases names@.len() - i,
    {
        let base = sanitize_ident(names[i].as_slice());
        let ident = fresh_ident(base.as_slice(), &idents);
        let ghost earlier = byte_rows(idents@);
        idents.push(ident);
        proof {
            let rows = byte_rows(names@);
            let upto = rows.take(i + 1);
            assert(upto.drop_last() =~= rows.take(i as int));
            assert(upto.last() == names@[i as int]@);
            assert(byte_rows(idents@) =~= earlier.push(ident@));
        }
        i += 1;
    }
    assert(byte_rows(names@).take(i as int) =~= byte_rows(names@));
    idents
}

} // verus!
