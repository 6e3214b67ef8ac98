//! Lists seen as the list of what their elements stand for.

use vstd::prelude::*;

verus! {

/// What the elements of a list stand for.
pub open spec fn views<T: View>(v: Seq<T>) -> Seq<T::V> {
    Seq::new(v.len(), |i: int| v[i]@)
}

/// Pushing an element pushes what it stands for.
pub broadcast proof fn views_push<T: View>(v: Seq<T>, x: T)
    ensures
        #[trigger] views(v.push(x)) == views(v).push(x@),
{
    assert(views(v.push(x)) =~= views(v).push(x@));
}

/// Whether an outcome is the list described, or an equal error.
pub open spec fn list_is<T: View, E>(r: Result<Vec<T>, E>, described: Result<Seq<T::V>, E>) -> bool {
    match (r, described) {
        (Ok(a), Ok(b)) => views(a@) == b,
        (Err(a), Err(b)) => a == b,
        _ => false,
    }
}

/// What a value that may be missing stands for.
pub open spec fn option_view<T: View>(o: Option<T>) -> Option<T::V> {
    match o {
        Some(x) => Some(x@),
        None => None,
    }
}

/// A list is the one described exactly if both are errors, and the same, or both are lists, and
/// agree in all elements.
pub proof fn lists_agree<T: View, E>(v: Vec<T>, s: Seq<T::V>, a: E, b: E)
    ensures
        list_is(Ok::<Vec<T>, E>(v), Ok(s)) <==> v@.len() == s.len() && forall|i: int|
            0 <= i < s.len() ==> (#[trigger] v@[i])@ == s[i],
        list_is(Err::<Vec<T>, E>(a), Err::<Seq<T::V>, E>(b)) <==> a == b,
        !list_is(Ok::<Vec<T>, E>(v), Err(b)),
        !list_is(Err::<Vec<T>, E>(a), Ok(s)),
{
    if v@.len() == s.len() && forall|i: int| 0 <= i < s.len() ==> (#[trigger] v@[i])@ == s[i] {
        assert(views(v@) =~= s);
    }
    if views(v@) == s {
        assert forall|i: int| 0 <= i < s.len() implies (#[trigger] v@[i])@ == s[i] by {
            assert(views(v@)[i] == s[i]);
        }
    }
}

}
