//! Values whose type has been forgotten.
//!
//! The registries keep stores of many component types, and queues of many
//! event types, in one list each. Two things are needed for that: a way to
//! speak, in contracts, of a value without naming its type ([`Erased`]), and
//! a way to get the typed value back at run time (`std::any::Any`, reached
//! through [`AnyRef`] and [`AnyMut`], of which [`any_ref_to`] and
//! [`any_mut_to`] say what they refer to).

use std::any::Any;
use vstd::prelude::*;

verus! {

/// Implemented by every type: a trait object of it can be made of anything.
pub trait Untyped {

}

impl<V> Untyped for V {

}

/// A value of some type, the type forgotten. Only contracts speak of such
/// values; none exists at run time.
pub struct Erased {
    pub value: Box<dyn Untyped>,
}

/// `value`, its type forgotten. Nothing can be computed from such a value:
/// it only serves to say that two things are the same value of the same
/// type. Equal values give equal erased values. That nothing else does (not
/// two different values of one type, nor values of two types) is not known
/// to the verifier; it enters a proof only where a cast at run time has shown
/// it (see `downcast` and `downcast_mut` of the slots).
pub open spec fn erased<V: 'static>(value: V) -> Erased {
    Erased { value: Box::new(value) }
}

/// A shared reference to a value of any type, as `std::any::Any` sees it.
/// It is opaque to the verifier, which does not know the trait `Any`; what
/// it refers to is told by [`any_ref_to`].
#[verifier::external_body]
pub struct AnyRef<'a> {
    pub(crate) target: &'a dyn Any,
}

/// A mutable reference to a value of any type, as `std::any::Any` sees it;
/// what it refers to is told by [`any_mut_to`].
#[verifier::external_body]
pub struct AnyMut<'a> {
    pub(crate) target: &'a mut dyn Any,
}

/// The shared reference, as `Any` sees it, to `value`.
pub uninterp spec fn any_ref_to(value: Erased) -> AnyRef<'static>;

/// The mutable reference, as `Any` sees it, to what is `value` when the
/// reference is made and `after` when it is let go.
pub uninterp spec fn any_mut_to(value: Erased, after: Erased) -> AnyMut<'static>;

impl<'a> AnyRef<'a> {
    /// The unsizing of `&S` to `&dyn Any`, which verified code cannot write.
    /// The result is the reference to `value`, and to nothing else.
    #[verifier::external_body]
    pub(crate) fn of<S: 'static>(value: &'a S) -> (any: AnyRef<'a>)
        ensures
            any == any_ref_to(erased(*value)),
    {
        AnyRef { target: value }
    }
}

impl<'a> AnyMut<'a> {
    /// The unsizing of `&mut S` to `&mut dyn Any`, which verified code cannot
    /// write. The result is the reference to `value`, and to nothing else.
    /// Nothing is claimed of what is written through it.
    #[verifier::external_body]
    pub(crate) fn of<S: 'static>(value: &'a mut S) -> (any: AnyMut<'a>)
        ensures
            any == any_mut_to(erased(*old(value)), erased(*final(value))),
    {
        AnyMut { target: value }
    }
}

/// `index` is the first place at which `marks` is true.
pub open spec fn is_first_marked(marks: Seq<bool>, index: int) -> bool {
    &&& 0 <= index < marks.len()
    &&& marks[index]
    &&& forall|j: int| 0 <= j < index ==> !marks[j]
}

/// The first place at which `marks` is true, if there is one. A registry
/// keeps its slots in a list and marks those of the type that is asked for;
/// the first of them is the one it uses.
pub open spec fn first_marked(marks: Seq<bool>) -> Option<int> {
    if exists|index: int| is_first_marked(marks, index) {
        Some(choose|index: int| is_first_marked(marks, index))
    } else {
        None
    }
}

/// There is one first place at most.
pub proof fn lemma_first_marked_is_unique(marks: Seq<bool>, index: int)
    requires
        is_first_marked(marks, index),
    ensures
        first_marked(marks) == Some(index),
{
    let chosen = choose|chosen: int| is_first_marked(marks, chosen);
    if chosen < index {
        assert(!marks[chosen]);
    }
    if index < chosen {
        assert(!marks[index]);
    }
}

/// Where any place is marked, a first one is; where there is a first one, it
/// is marked and none before it is.
pub proof fn lemma_first_marked_exists(marks: Seq<bool>)
    ensures
        match first_marked(marks) {
            Some(index) => is_first_marked(marks, index),
            None => forall|j: int| 0 <= j < marks.len() ==> !marks[j],
        },
    decreases marks.len(),
{
    if first_marked(marks) is None && marks.len() > 0 {
        let shorter = marks.drop_last();
        lemma_first_marked_exists(shorter);
        match first_marked(shorter) {
            Some(index) => {
                assert(is_first_marked(marks, index)) by {
                    assert(marks[index] == shorter[index]);
                    assert forall|j: int| 0 <= j < index implies !marks[j] by {
                        assert(marks[j] == shorter[j]);
                    }
                }
            },
            None => {
                assert forall|j: int| 0 <= j < marks.len() implies !marks[j] by {
                    if j < shorter.len() {
                        assert(marks[j] == shorter[j]);
                    } else if marks[j] {
                        assert(is_first_marked(marks, j)) by {
                            assert forall|k: int| 0 <= k < j implies !marks[k] by {
                                assert(marks[k] == shorter[k]);
                            }
                        }
                    }
                }
            },
        }
    }
}

/// A mark put behind the others is the first one only where none of them is
/// true.
pub proof fn lemma_first_marked_push(marks: Seq<bool>, mark: bool)
    ensures
        first_marked(marks.push(mark)) == (match first_marked(marks) {
            Some(index) => Some(index),
            None => if mark {
                Some(marks.len() as int)
            } else {
                None
            },
        }),
{
    let longer = marks.push(mark);
    lemma_first_marked_exists(marks);
    lemma_first_marked_exists(longer);
    match first_marked(marks) {
        Some(index) => {
            assert(is_first_marked(longer, index)) by {
                assert(longer[index] == marks[index]);
                assert forall|j: int| 0 <= j < index implies !longer[j] by {
                    assert(longer[j] == marks[j]);
                }
            }
            lemma_first_marked_is_unique(longer, index);
        },
        None => {
            assert forall|j: int| 0 <= j < marks.len() implies !longer[j] by {
                assert(longer[j] == marks[j]);
            }
            if mark {
                assert(is_first_marked(longer, marks.len() as int));
                lemma_first_marked_is_unique(longer, marks.len() as int);
            } else {
                match first_marked(longer) {
                    Some(index) => {
                        assert(longer[index]);
                    },
                    None => {},
                }
            }
        },
    }
}

} // verus!
