//! What holds of the parts of a value.
use vstd::prelude::*;
use crate::place::{Elem, Field, Place, Unboxed, Whole};

verus! {

/// The whole of a value is the value, and so is what a box holds: any value has it.
pub proof fn law_whole_is_the_value<T: 'static>(value: T, boxed: Box<T>)
    ensures
        Whole.valid(value),
        Whole.at(value) == value,
        Unboxed.valid(boxed),
        Unboxed.at(boxed) == *boxed,
{
}

/// An element of a vector is the one at its index. It is there if the vector is that long, and
/// changing it changes no other element, nor how many there are.
pub proof fn law_element_of_vector<T, E: 'static, P: Place<T, Target = Vec<E>>>(
    elem: Elem<P>,
    before: T,
    after: T,
)
    requires
        elem.base.valid(before),
    ensures
        elem.valid(before) <==> elem.index < elem.base.at(before)@.len(),
        elem.at(before) == elem.base.at(before)@[elem.index as int],
        elem.valid(before) && elem.only(before, after) ==> {
            &&& elem.base.only(before, after)
            &&& elem.base.at(after)@.len() == elem.base.at(before)@.len()
            &&& forall|i: int|
                0 <= i < elem.base.at(before)@.len() && i != elem.index ==> #[trigger] elem.base.at(
                    after,
                )@[i] == elem.base.at(before)@[i]
        },
{
}

/// The components of a pair are the first and the second, and changing one changes the pair there.
pub proof fn law_components_of_pair<T, A: 'static, B: 'static, P: Place<T, Target = (A, B)>>(
    base: P,
    before: T,
    after: T,
)
    ensures
        ({
            let (was, is) = (base.at(before), base.at(after));
            let first = Field::<P, 0> { base };
            let second = Field::<P, 1> { base };
            &&& first.valid(before) <==> base.valid(before)
            &&& second.valid(before) <==> base.valid(before)
            &&& first.at(before) == was.0
            &&& second.at(before) == was.1
            &&& first.only(before, after) <==> base.only(before, after) && is == (is.0, was.1)
            &&& second.only(before, after) <==> base.only(before, after) && is == (was.0, is.1)
        }),
{
}

/// The only component of a tuple of one.
pub proof fn law_component_of_one<T, A: 'static, P: Place<T, Target = (A,)>>(
    base: P,
    before: T,
    after: T,
)
    ensures
        ({
            let only = Field::<P, 0> { base };
            &&& only.valid(before) <==> base.valid(before)
            &&& only.at(before) == base.at(before).0
            &&& only.only(before, after) <==> base.only(before, after)
        }),
{
}

/// The components of a triple are the first, the second and the third, and changing one changes the
/// triple there.
pub proof fn law_components_of_triple<
    T,
    A: 'static,
    B: 'static,
    C: 'static,
    P: Place<T, Target = (A, B, C)>,
>(base: P, before: T, after: T)
    ensures
        ({
            let (was, is) = (base.at(before), base.at(after));
            let first = Field::<P, 0> { base };
            let second = Field::<P, 1> { base };
            let third = Field::<P, 2> { base };
            &&& first.at(before) == was.0
            &&& second.at(before) == was.1
            &&& third.at(before) == was.2
            &&& first.only(before, after) <==> {
                &&& base.only(before, after)
                &&& is == (is.0, was.1, was.2)
            }
            &&& second.only(before, after) <==> {
                &&& base.only(before, after)
                &&& is == (was.0, is.1, was.2)
            }
            &&& third.only(before, after) <==> {
                &&& base.only(before, after)
                &&& is == (was.0, was.1, is.2)
            }
        }),
{
}

/// The components of a quadruple are the first to the fourth, and changing one changes the quadruple
/// there.
pub proof fn law_components_of_quadruple<
    T,
    A: 'static,
    B: 'static,
    C: 'static,
    D: 'static,
    P: Place<T, Target = (A, B, C, D)>,
>(base: P, before: T, after: T)
    ensures
        ({
            let (was, is) = (base.at(before), base.at(after));
            let first = Field::<P, 0> { base };
            let second = Field::<P, 1> { base };
            let third = Field::<P, 2> { base };
            let fourth = Field::<P, 3> { base };
            &&& first.at(before) == was.0
            &&& second.at(before) == was.1
            &&& third.at(before) == was.2
            &&& fourth.at(before) == was.3
            &&& first.only(before, after) <==> {
                &&& base.only(before, after)
                &&& is == (is.0, was.1, was.2, was.3)
            }
            &&& second.only(before, after) <==> {
                &&& base.only(before, after)
                &&& is == (was.0, is.1, was.2, was.3)
            }
            &&& third.only(before, after) <==> {
                &&& base.only(before, after)
                &&& is == (was.0, was.1, is.2, was.3)
            }
            &&& fourth.only(before, after) <==> {
                &&& base.only(before, after)
                &&& is == (was.0, was.1, was.2, is.3)
            }
        }),
{
}

} // verus!
