//! The first place at which something holds.

use crate::error::ParseResult;
use vstd::prelude::*;

verus! {

/// What reading `count` items one after the other gives, where `item` says
/// of each place what its item is, that the place holds none, or what is
/// wrong with it: the items in their order, or the first error.
pub open spec fn gather<T>(count: nat, item: spec_fn(int) -> ParseResult<Option<T>>) -> ParseResult<
    Seq<T>,
>
    decreases count,
{
    if count == 0 {
        Ok(Seq::empty())
    } else {
        match gather((count - 1) as nat, item) {
            Err(e) => Err(e),
            Ok(items) => match item(count - 1) {
                Err(e) => Err(e),
                Ok(None) => Ok(items),
                Ok(Some(t)) => Ok(items.push(t)),
            },
        }
    }
}

/// Reading that has failed after some items has failed after more.
pub proof fn lemma_gather_error_stays<T>(
    some: nat,
    more: nat,
    item: spec_fn(int) -> ParseResult<Option<T>>,
)
    requires
        some <= more,
        gather(some, item) is Err,
    ensures
        gather(more, item) == gather(some, item),
    decreases more,
{
    if some < more {
        lemma_gather_error_stays(some, (more - 1) as nat, item);
    }
}

/// Reading that passes over no place gives as many items as there are
/// places.
pub proof fn lemma_gather_len<T>(count: nat, item: spec_fn(int) -> ParseResult<Option<T>>)
    requires
        forall|i: int| 0 <= i < count ==> !(#[trigger] item(i) matches Ok(None)),
    ensures
        gather(count, item) matches Ok(items) ==> items.len() == count,
    decreases count,
{
    if count > 0 {
        lemma_gather_len((count - 1) as nat, item);
        assert(!(item(count - 1) matches Ok(None)));
    }
}

/// The least of the places `0` to `n - 1` at which `holds` is true.
pub open spec fn first_place(n: nat, holds: spec_fn(int) -> bool) -> Option<int>
    decreases n,
{
    if n == 0 {
        None
    } else {
        match first_place((n - 1) as nat, holds) {
            Some(place) => Some(place),
            None => if holds(n - 1) {
                Some(n - 1)
            } else {
                None
            },
        }
    }
}

/// A place found among the first `some` places is the one found among more.
pub proof fn lemma_first_place_stays(some: nat, more: nat, holds: spec_fn(int) -> bool)
    requires
        some <= more,
        first_place(some, holds) is Some,
    ensures
        first_place(more, holds) == first_place(some, holds),
    decreases more,
{
    if some < more {
        lemma_first_place_stays(some, (more - 1) as nat, holds);
    }
}

/// The place found is within range, `holds` is true at it and false at
/// every place before it; where none is found, `holds` is false everywhere.
pub proof fn lemma_first_place(n: nat, holds: spec_fn(int) -> bool)
    ensures
        match first_place(n, holds) {
            Some(place) => 0 <= place < n && holds(place) && forall|i: int|
                0 <= i < place ==> !#[trigger] holds(i),
            None => forall|i: int| 0 <= i < n ==> !#[trigger] holds(i),
        },
    decreases n,
{
    if n > 0 {
        lemma_first_place((n - 1) as nat, holds);
    }
}

} // verus!
