//! Character-level scanning used by the text operations: turning text into a
//! character vector, and finding the first occurrence of one character
//! sequence inside another.
use vstd::prelude::*;

verus! {

/// Returns the characters of `s` as a vector, in order.
pub fn chars_of(s: &str) -> (r: Vec<char>)
    ensures
        r@ == s@,
{
    let len = s.unicode_len();
    let mut r: Vec<char> = Vec::new();
    let mut i: usize = 0;
    while i < len
        invariant
            0 <= i <= len,
            len == s@.len(),
            r@ == s@.subrange(0, i as int),
        decreases len - i,
    {
        r.push(s.get_char(i));
        proof {
            assert(r@ =~= s@.subrange(0, i + 1 as int));
        }
        i = i + 1;
    }
    proof {
        assert(s@.subrange(0, s@.len() as int) =~= s@);
    }
    r
}

/// Whether the needle `n` occurs in the haystack `h` starting exactly at
/// position `i`.
pub open spec fn match_at(h: Seq<char>, n: Seq<char>, i: int) -> bool {
    0 <= i && i + n.len() <= h.len() && h.subrange(i, i + n.len() as int) == n
}

/// The smallest position at or after `from` where `n` occurs in `h`, or
/// `None` when there is none. An empty needle occurs at every position.
pub open spec fn first_match_from(h: Seq<char>, n: Seq<char>, from: int) -> Option<int>
    decreases h.len() + 1 - from,
{
    if from + n.len() > h.len() {
        None
    } else if match_at(h, n, from) {
        Some(from)
    } else {
        first_match_from(h, n, from + 1)
    }
}

/// A found match lies at or after the starting point, matches there, and no
/// earlier position at or after the starting point matches; `None` means no
/// position at or after the starting point matches.
pub proof fn lemma_first_match_from_correct(h: Seq<char>, n: Seq<char>, from: int)
    ensures
        match first_match_from(h, n, from) {
            Some(i) => from <= i && match_at(h, n, i) && forall|j: int|
                from <= j < i ==> !match_at(h, n, j),
            None => forall|j: int| from <= j ==> !match_at(h, n, j),
        },
    decreases h.len() + 1 - from,
{
    if from + n.len() > h.len() {
        assert forall|j: int| from <= j implies !match_at(h, n, j) by {
            assert(j + n.len() > h.len());
        }
    } else if match_at(h, n, from) {
    } else {
        lemma_first_match_from_correct(h, n, from + 1);
    }
}

/// Positions below `upto` that do not match do not change the search result:
/// searching from `from` and from `upto` agree when nothing matches between.
pub proof fn lemma_first_match_skip(h: Seq<char>, n: Seq<char>, from: int, upto: int)
    requires
        from <= upto,
        forall|j: int| from <= j < upto ==> !match_at(h, n, j),
    ensures
        first_match_from(h, n, from) == first_match_from(h, n, upto),
    decreases upto - from,
{
    if from < upto {
        if from + n.len() > h.len() {
            assert(upto + n.len() > h.len());
            assert(first_match_from(h, n, upto) is None);
        } else {
            lemma_first_match_skip(h, n, from + 1, upto);
        }
    }
}

/// Whether `n` occurs in `h` at position `i`, by comparing characters.
fn is_match_at(h: &Vec<char>, n: &Vec<char>, i: usize) -> (b: bool)
    requires
        i + n@.len() <= h@.len(),
    ensures
        b == match_at(h@, n@, i as int),
{
    let hlen = h.len();
    let mut k: usize = 0;
    while k < n.len()
        invariant
            0 <= k <= n@.len(),
            i + n@.len() <= h@.len(),
            hlen == h@.len(),
            forall|m: int| 0 <= m < k ==> h@[i + m] == n@[m],
        decreases n@.len() - k,
    {
        if h[i + k] != n[k] {
            proof {
                assert(h@.subrange(i as int, i + n@.len() as int)[k as int] != n@[k as int]);
            }
            return false;
        }
        k = k + 1;
    }
    proof {
        assert(h@.subrange(i as int, i + n@.len() as int) =~= n@);
    }
    true
}

/// Returns the smallest position at or after `from` where `n` occurs in `h`,
/// or `None` when there is none.
pub fn find_from(h: &Vec<char>, n: &Vec<char>, from: usize) -> (r: Option<usize>)
    ensures
        match r {
            Some(i) => first_match_from(h@, n@, from as int) == Some(i as int),
            None => first_match_from(h@, n@, from as int) is None,
        },
{
    if n.len() > h.len() {
        return None;
    }
    let limit = h.len() - n.len();
    if from > limit {
        proof {
            assert(first_match_from(h@, n@, from as int) is None);
        }
        return None;
    }
    let mut i: usize = from;
    while i < limit
        invariant
            from <= i <= limit,
            n@.len() <= h@.len(),
            limit == h@.len() - n@.len(),
            forall|j: int| from <= j < i ==> !match_at(h@, n@, j),
        decreases limit - i,
    {
        if is_match_at(h, n, i) {
            proof {
                lemma_first_match_skip(h@, n@, from as int, i as int);
            }
            return Some(i);
        }
        i = i + 1;
    }
    if is_match_at(h, n, limit) {
        proof {
            lemma_first_match_skip(h@, n@, from as int, limit as int);
        }
        return Some(limit);
    }
    proof {
        lemma_first_match_skip(h@, n@, from as int, limit + 1 as int);
        assert(first_match_from(h@, n@, limit + 1 as int) is None);
    }
    None
}

} // verus!
