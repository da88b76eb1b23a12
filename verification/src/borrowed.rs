//! Keys in borrowed form.
//!
//! A key can be looked up by any value that it can be borrowed as, such as a
//! `String` by a `str`.

use std::borrow::Borrow;
use vstd::prelude::*;
use vstd::std_specs::cmp::PartialEqSpec;

verus! {

/// Borrows a key with `std::borrow::Borrow::borrow`.
///
/// Nothing is claimed of the result: what a key looks like when borrowed is
/// up to its type. That a value is a form that a key gives is what
/// `borrows_as` expresses.
#[verifier::external_body]
fn borrow_key<K: Borrow<Q>, Q: ?Sized>(key: &K) -> (form: &Q) {
    key.borrow()
}

/// `form` is what the key may give when it is borrowed.
pub closed spec fn borrows_as<K: Borrow<Q>, Q: ?Sized>(key: K, form: &Q) -> bool {
    call_ensures(borrow_key::<K, Q>, (&key,), form)
}

/// `answer` is what comparing the borrowed form of `key` with `name` may give.
pub open spec fn answers<K: Borrow<Q>, Q: PartialEq + ?Sized>(
    key: K,
    name: &Q,
    answer: bool,
) -> bool {
    exists|form: &Q|
        {
            &&& #[trigger] borrows_as(key, form)
            &&& Q::obeys_eq_spec() ==> answer == form.eq_spec(name)
        }
}

/// The keys that `name` picks out are those equal to `key`.
pub open spec fn stands_for<K: Borrow<Q> + PartialEq, Q: PartialEq + ?Sized>(
    name: &Q,
    key: K,
) -> bool {
    forall|other: K, answer: bool| #[trigger]
        answers(other, name, answer) ==> answer == other.eq_spec(&key)
}

/// Borrowed keys are equal exactly if the keys are.
pub open spec fn borrow_agrees<K: Borrow<Q> + PartialEq, Q: PartialEq + ?Sized>() -> bool {
    &&& Q::obeys_eq_spec()
    &&& forall|a: K, b: K, a_form: &Q, b_form: &Q| #[trigger]
        borrows_as(a, a_form) && #[trigger] borrows_as(b, b_form) ==> a_form.eq_spec(b_form)
            == a.eq_spec(&b)
}

/// Where equality agrees across the borrow, the borrowed form of a key stands for the key.
pub proof fn lemma_borrowed_form_stands_for_key<K: Borrow<Q> + PartialEq, Q: PartialEq + ?Sized>(
    key: K,
    form: &Q,
)
    requires
        borrow_agrees::<K, Q>(),
        borrows_as(key, form),
    ensures
        stands_for(form, key),
{
}

/// Compares the borrowed form of a key with a name.
pub fn is_named<K: Borrow<Q>, Q: PartialEq + ?Sized>(key: &K, name: &Q) -> (answer: bool)
    ensures
        answers(*key, name, answer),
{
    let form = borrow_key::<K, Q>(key);
    assert(borrows_as(*key, form));
    *form == *name
}

/// The borrowed form of a key equals `name` exactly if the key equals `key`.
pub open spec fn names<K: Borrow<Q> + PartialEq, Q: PartialEq + ?Sized>(name: &Q, key: K) -> bool {
    &&& Q::obeys_eq_spec()
    &&& forall|other: K, form: &Q| #[trigger]
        borrows_as(other, form) ==> form.eq_spec(name) == other.eq_spec(&key)
}

/// What a name picks out is decided by the calls of `Borrow::borrow` and by
/// equality, and by nothing else.
proof fn lemma_names<K: Borrow<Q> + PartialEq, Q: PartialEq + ?Sized>(name: &Q, key: K)
    requires
        Q::obeys_eq_spec(),
        forall|other: K, form: &Q| #[trigger]
            call_ensures(borrow_key::<K, Q>, (&other,), form) ==> form.eq_spec(name)
                == other.eq_spec(&key),
    ensures
        names(name, key),
{
}

/// A name that picks out the keys equal to `key` stands for it.
pub proof fn law_names<K: Borrow<Q> + PartialEq, Q: PartialEq + ?Sized>(name: &Q, key: K)
    requires
        names(name, key),
    ensures
        stands_for(name, key),
{
}

/// Where equality agrees across the borrow, whatever equals the borrowed form
/// of a key is a name for the key.
pub proof fn law_borrowed_form_names_key<K: Borrow<Q> + PartialEq, Q: PartialEq + ?Sized>(
    key: K,
    form: &Q,
)
    requires
        Q::obeys_eq_spec(),
        forall|a: K, b: K, a_form: &Q, b_form: &Q| #[trigger]
            borrows_as(a, a_form) && #[trigger] borrows_as(b, b_form) ==> a_form.eq_spec(b_form)
                == a.eq_spec(&b),
        borrows_as(key, form),
    ensures
        names(form, key),
{
}

/// A key and a name are compared by the borrowed form of the key.
pub proof fn law_is_named<K: Borrow<Q> + PartialEq, Q: PartialEq + ?Sized>(
    key: &K,
    name: &Q,
    other: K,
    answer: bool,
)
    requires
        call_ensures(is_named::<K, Q>, (key, name), answer),
        names(name, other),
    ensures
        answer == key.eq_spec(&other),
{
}

} // verus!
