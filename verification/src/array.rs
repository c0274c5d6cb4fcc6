//! Sequence operations over growable vectors: stack and queue primitives,
//! linear search, duplicate removal, random index selection, and in-place
//! element mapping.
use vstd::prelude::*;
use vstd::std_specs::cmp::PartialEqSpec;

verus! {

/// Removes and returns the last element of `array`; `None` on an empty vector,
/// which is left unchanged.
pub fn array_pop<T>(array: &mut Vec<T>) -> (r: Option<T>)
    ensures
        old(array)@.len() == 0 ==> final(array)@ == old(array)@ && r is None,
        old(array)@.len() > 0 ==> final(array)@ == old(array)@.drop_last() && r == Some(
            old(array)@.last(),
        ),
{
    array.pop()
}

/// Appends `value` at the end of `array`.
pub fn array_push<T>(array: &mut Vec<T>, value: T)
    ensures
        final(array)@ == old(array)@.push(value),
{
    array.push(value)
}

/// Law: on a non-empty sequence, popping the last element and pushing it back
/// restores the original content and order.
pub proof fn lemma_pop_then_push_restores<T>(s: Seq<T>)
    requires
        s.len() > 0,
    ensures
        s.drop_last().push(s.last()) == s,
{
    assert(s.drop_last().push(s.last()) =~= s);
}

/// Removes and returns the first element of `array`, moving every other
/// element down one position; `None` on an empty vector, which is left
/// unchanged.
pub fn array_shift<T>(array: &mut Vec<T>) -> (r: Option<T>)
    ensures
        old(array)@.len() == 0 ==> final(array)@ == old(array)@ && r is None,
        old(array)@.len() > 0 ==> final(array)@ == old(array)@.drop_first() && r == Some(
            old(array)@.first(),
        ),
{
    if array.is_empty() {
        return None;
    }
    let value = array.remove(0);
    assert(array@ =~= old(array)@.drop_first());
    Some(value)
}

/// Inserts `value` at position 0 of `array`, moving every other element up
/// one position.
pub fn array_unshift<T>(array: &mut Vec<T>, value: T)
    ensures
        final(array)@ == seq![value] + old(array)@,
{
    array.insert(0, value);
    assert(array@ =~= seq![value] + old(array)@);
}

/// Law: on a non-empty sequence, shifting the first element off and
/// unshifting it back restores the original content and order.
pub proof fn lemma_shift_then_unshift_restores<T>(s: Seq<T>)
    requires
        s.len() > 0,
    ensures
        seq![s.first()] + s.drop_first() == s,
{
    assert(seq![s.first()] + s.drop_first() =~= s);
}

/// Returns the index of the first element of `haystack` equal to `needle`
/// under `==`, or `None` when no element is.
pub fn array_search<T: PartialEq>(needle: &T, haystack: &Vec<T>) -> (r: Option<usize>)
    ensures
        T::obeys_eq_spec() ==> match r {
            Some(i) => 0 <= i < haystack@.len() && haystack@[i as int].eq_spec(needle) && (forall|
                j: int,
            |
                0 <= j < i ==> !(#[trigger] haystack@[j]).eq_spec(needle)),
            None => forall|j: int|
                0 <= j < haystack@.len() ==> !(#[trigger] haystack@[j]).eq_spec(needle),
        },
{
    let mut i: usize = 0;
    while i < haystack.len()
        invariant
            0 <= i <= haystack@.len(),
            T::obeys_eq_spec() ==> forall|j: int|
                0 <= j < i ==> !(#[trigger] haystack@[j]).eq_spec(needle),
        decreases haystack@.len() - i,
    {
        if haystack[i] == *needle {
            return Some(i);
        }
        i = i + 1;
    }
    None
}

/// Whether some element of `s` compares equal to `x` under `eq_spec`.
pub open spec fn contains_eq<T: PartialEq>(s: Seq<T>, x: T) -> bool {
    exists|j: int| 0 <= j < s.len() && (#[trigger] s[j]).eq_spec(&x)
}

/// The subsequence of first occurrences of `s`: each element of `s` is kept
/// exactly when no element equal to it was kept before.
pub open spec fn unique_of<T: PartialEq>(s: Seq<T>) -> Seq<T>
    decreases s.len(),
{
    if s.len() == 0 {
        Seq::empty()
    } else {
        let u = unique_of(s.drop_last());
        if contains_eq(u, s.last()) {
            u
        } else {
            u.push(s.last())
        }
    }
}

/// The sequence of values that the references in `s` point at.
pub open spec fn deref_seq<T>(s: Seq<&T>) -> Seq<T> {
    Seq::new(s.len(), |i: int| *s[i])
}

/// Returns references to the elements of `array` in first-occurrence order,
/// with later duplicates (under `==`) dropped.
pub fn array_unique<'a, T: PartialEq>(array: &'a Vec<T>) -> (r: Vec<&'a T>)
    ensures
        T::obeys_eq_spec() ==> deref_seq(r@) == unique_of(array@),
{
    let mut new_array: Vec<&'a T> = Vec::new();
    let mut i: usize = 0;
    while i < array.len()
        invariant
            0 <= i <= array@.len(),
            T::obeys_eq_spec() ==> deref_seq(new_array@) == unique_of(array@.subrange(0, i as int)),
        decreases array@.len() - i,
    {
        let ghost prefix = array@.subrange(0, i as int);
        let value: &T = &array[i];
        let mut found = false;
        let mut j: usize = 0;
        while j < new_array.len()
            invariant
                0 <= j <= new_array@.len(),
                T::obeys_eq_spec() ==> found == exists|k: int|
                    0 <= k < j && (#[trigger] (*new_array@[k])).eq_spec(value),
        decreases new_array@.len() - j,
        {
            if *new_array[j] == *value {
                found = true;
            }
            j = j + 1;
        }
        proof {
            if T::obeys_eq_spec() {
                let u = deref_seq(new_array@);
                if found {
                    let k = choose|k: int|
                        0 <= k < new_array@.len() && (#[trigger] (*new_array@[k])).eq_spec(value);
                    assert(u[k].eq_spec(&array@[i as int]));
                } else {
                    assert forall|k: int| 0 <= k < u.len() implies !(#[trigger] u[k]).eq_spec(
                        &array@[i as int],
                    ) by {
                        assert(!(*new_array@[k]).eq_spec(value));
                    }
                }
                assert(found == contains_eq(u, array@[i as int]));
            }
        }
        let ghost u_before = deref_seq(new_array@);
        if !found {
            new_array.push(value);
        }
        proof {
            assert(array@.subrange(0, i + 1 as int).drop_last() =~= prefix);
            if T::obeys_eq_spec() && !found {
                assert(deref_seq(new_array@) =~= u_before.push(*value));
            }
        }
        i = i + 1;
    }
    proof {
        assert(array@.subrange(0, array@.len() as int) =~= array@);
    }
    new_array
}

/// Law: `unique_of` drops duplicates: no earlier element of the result
/// compares equal to a later one.
pub proof fn lemma_unique_no_duplicates<T: PartialEq>(s: Seq<T>)
    ensures
        forall|i: int, j: int|
            #![trigger unique_of(s)[i], unique_of(s)[j]]
            0 <= i < j < unique_of(s).len() ==> !unique_of(s)[i].eq_spec(&unique_of(s)[j]),
    decreases s.len(),
{
    if s.len() > 0 {
        let s0 = s.drop_last();
        let u0 = unique_of(s0);
        let x = s.last();
        lemma_unique_no_duplicates(s0);
        if !contains_eq(u0, x) {
            let u = unique_of(s);
            assert forall|i: int, j: int|
                #![trigger u[i], u[j]]
                0 <= i < j < u.len() implies !u[i].eq_spec(&u[j]) by {
                if j < u0.len() {
                    assert(u[i] == u0[i] && u[j] == u0[j]);
                } else {
                    assert(u[j] == x);
                    assert(u[i] == u0[i]);
                    assert(!(#[trigger] u0[i]).eq_spec(&x));
                }
            }
        }
    }
}

/// Law: dropping duplicates loses no value: every element of `s` either
/// stands in `unique_of(s)` itself or compares equal to an element of it.
pub proof fn lemma_unique_covers<T: PartialEq>(s: Seq<T>)
    ensures
        forall|i: int|
            0 <= i < s.len() ==> unique_of(s).contains(#[trigger] s[i]) || contains_eq(
                unique_of(s),
                s[i],
            ),
    decreases s.len(),
{
    if s.len() > 0 {
        let s0 = s.drop_last();
        let u0 = unique_of(s0);
        let x = s.last();
        let u = unique_of(s);
        lemma_unique_covers(s0);
        assert forall|i: int| 0 <= i < s.len() implies u.contains(#[trigger] s[i]) || contains_eq(
            u,
            s[i],
        ) by {
            if i < s.len() - 1 {
                assert(s0[i] == s[i]);
                if u0.contains(s0[i]) {
                    let k = choose|k: int| 0 <= k < u0.len() && u0[k] == s0[i];
                    assert(u[k] == s[i]);
                    assert(u.contains(s[i]));
                } else {
                    let k = choose|k: int| 0 <= k < u0.len() && (#[trigger] u0[k]).eq_spec(&s0[i]);
                    assert(u[k].eq_spec(&s[i]));
                    assert(contains_eq(u, s[i]));
                }
            } else {
                assert(s[i] == x);
                if contains_eq(u0, x) {
                    assert(u == u0);
                } else {
                    assert(u[u0.len() as int] == x);
                    assert(u.contains(s[i]));
                }
            }
        }
    }
}

/// Applies `callback` to each element together with its index and stores the
/// returned value back at that index; the vector's length and the order of
/// its positions are unchanged. The callback sees each original element.
pub fn array_walk<T>(array: &mut Vec<T>, callback: impl Fn(&T, usize) -> T)
    requires
        forall|i: usize|
            i < old(array)@.len() ==> call_requires(callback, (&old(array)@[i as int], i)),
    ensures
        final(array)@.len() == old(array)@.len(),
        forall|i: usize|
            i < old(array)@.len() ==> call_ensures(
                callback,
                (&old(array)@[i as int], i),
                final(array)@[i as int],
            ),
{
    let mut i: usize = 0;
    while i < array.len()
        invariant
            0 <= i <= array@.len(),
            array@.len() == old(array)@.len(),
            forall|j: usize|
                j < old(array)@.len() ==> call_requires(callback, (&old(array)@[j as int], j)),
            forall|j: int| i <= j < array@.len() ==> array@[j] == old(array)@[j],
            forall|j: usize|
                j < i ==> call_ensures(callback, (&old(array)@[j as int], j), array@[j as int]),
        decreases array@.len() - i,
    {
        let new_value = callback(&array[i], i);
        array.set(i, new_value);
        i = i + 1;
    }
}

/// Relies on rand's thread-local generator `rand::rng` and on
/// `rand::RngExt::random_range`, which returns a value drawn from the
/// half-open range it is given; the range `0..bound` is non-empty, so the
/// draw is strictly below `bound`.
#[verifier::external_body]
fn random_index_below(bound: usize) -> (r: usize)
    requires
        bound >= 1,
    ensures
        r < bound,
{
    let mut rng = rand::rng();
    rand::RngExt::random_range(&mut rng, 0..bound)
}

/// Returns a randomly chosen index of `array`: `None` on an empty vector,
/// always 0 on a vector of length 1, and otherwise some index strictly
/// below the vector's length.
pub fn array_rand<T>(array: &Vec<T>) -> (r: Option<usize>)
    ensures
        match r {
            Some(i) => array@.len() > 0 && i < array@.len() && (array@.len() == 1 ==> i == 0),
            None => array@.len() == 0,
        },
{
    if array.is_empty() {
        return None;
    }
    let length = array.len();
    if length == 1 {
        return Some(0);
    }
    Some(random_index_below(length))
}

} // verus!
