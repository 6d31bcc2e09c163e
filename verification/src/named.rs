//! Names as keys: looking an entry up by its name, and lists in which no name stands twice.

use vstd::prelude::*;
use crate::ident::byte_rows;
use crate::text::{bytes_eq, copy_bytes};

verus! {

/// No byte string stands twice in `names`.
pub open spec fn distinct(names: Seq<Seq<u8>>) -> bool {
    forall|i: int, j: int| 0 <= i < j < names.len() ==> names[i] != names[j]
}

/// The first position from `from` on at which `names` holds `name`.
pub open spec fn first_from(names: Seq<Seq<u8>>, name: Seq<u8>, from: int) -> Option<int>
    decreases names.len() - from,
{
    if from < 0 || from >= names.len() {
        None
    } else if names[from] == name {
        Some(from)
    } else {
        first_from(names, name, from + 1)
    }
}

/// The first position at which `names` holds `name`.
pub open spec fn first_named(names: Seq<Seq<u8>>, name: Seq<u8>) -> Option<int> {
    first_from(names, name, 0)
}

/// `first_from` finds the first match, and finds none only where there is none.
pub proof fn lemma_first_from(names: Seq<Seq<u8>>, name: Seq<u8>, from: int)
    requires
        0 <= from,
    ensures
        match first_from(names, name, from) {
            Some(i) => {
                &&& from <= i < names.len()
                &&& names[i] == name
                &&& forall|k: int| from <= k < i ==> names[k] != name
            },
            None => forall|k: int| from <= k < names.len() ==> names[k] != name,
        },
    decreases names.len() - from,
{
    if from < names.len() && names[from] != name {
        lemma_first_from(names, name, from + 1);
    }
}

/// A name is found exactly where the list holds it.
pub proof fn lemma_first_named(names: Seq<Seq<u8>>, name: Seq<u8>)
    ensures
        first_named(names, name) is Some <==> names.contains(name),
        first_named(names, name) matches Some(i) ==> 0 <= i < names.len() && names[i] == name,
{
    lemma_first_from(names, name, 0);
}

/// Something that carries a name.
pub trait Named {
    spec fn name_bytes(&self) -> Seq<u8>;

    fn name(&self) -> (name: &Vec<u8>)
        ensures
            name@ == self.name_bytes(),
    ;
}

/// The names of `items`, in their order.
pub open spec fn names_of<T: Named>(items: Seq<T>) -> Seq<Seq<u8>> {
    Seq::new(items.len(), |i: int| items[i].name_bytes())
}

/// The position of the first of `items` that is called `name`.
pub fn find_named<T: Named>(items: &Vec<T>, name: &[u8]) -> (at: Option<usize>)
    ensures
        match at {
            Some(i) => {
                &&& i < items@.len()
                &&& first_named(names_of(items@), name@) == Some(i as int)
                &&& names_of(items@)[i as int] == name@
            },
            None => {
                &&& first_named(names_of(items@), name@) is None
                &&& !names_of(items@).contains(name@)
            },
        },
{
    let ghost names = names_of(items@);
    let mut i: usize = 0;
    while i < items.len()
        invariant
            i <= items@.len(),
            names == names_of(items@),
            first_from(names, name@, i as int) == first_named(names, name@),
        decreases items@.len() - i,
    {
        if bytes_eq(items[i].name().as_slice(), name) {
            return Some(i);
        }
        i += 1;
    }
    proof {
        lemma_first_named(names, name@);
    }
    None
}

/// Copies of the names of `items`, in their order.
pub fn collect_names<T: Named>(items: &Vec<T>) -> (names: Vec<Vec<u8>>)
    ensures
        byte_rows(names@) == names_of(items@),
{
    let mut names: Vec<Vec<u8>> = Vec::new();
    let mut i: usize = 0;
    while i < items.len()
        invariant
            i <= items@.len(),
            names@.len() == i,
            forall|k: int| 0 <= k < i ==> names@[k]@ == items@[k].name_bytes(),
        decreases items@.len() - i,
    {
        names.push(copy_bytes(items[i].name().as_slice()));
        i += 1;
    }
    assert(byte_rows(names@) =~= names_of(items@));
    names
}

} // verus!
