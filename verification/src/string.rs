//! Text operations over character sequences: length, substring search
//! (case-sensitive and case-insensitive), substring extraction, splitting,
//! joining, and first-character case conversion.
//!
//! Positions, offsets and lengths are counted in characters (Unicode scalar
//! values), not in bytes; on ASCII text the two coincide. The one exception
//! is `strlen`, which counts bytes.
use vstd::prelude::*;
use vstd::string::StringSliceAdditionalSpecFns;
use crate::search::{chars_of, find_from, first_match_from, lemma_first_match_from_correct, match_at};

verus! {

/// Returns the length of `string` in bytes (not in characters).
pub fn strlen(string: &str) -> (r: usize)
    ensures
        r == string.spec_bytes().len() as usize,
{
    string.len()
}

/// The magnitude of a negative machine integer, as an unsigned one.
fn neg_abs(x: isize) -> (r: usize)
    requires
        x < 0,
    ensures
        r == -(x as int),
{
    if x == isize::MIN {
        (isize::MAX as usize) + 1
    } else {
        (-x) as usize
    }
}

/// A start offset of a search within text of length `len`, brought into
/// `0..=len`: a negative offset counts from the end of the text, and an
/// offset outside the text yields `None`.
pub open spec fn norm_offset(len: int, offset: int) -> Option<int> {
    if offset > len {
        None
    } else if offset < 0 {
        if offset < -len {
            None
        } else {
            Some(len + offset)
        }
    } else {
        Some(offset)
    }
}

/// The position of the first occurrence of `n` in `h` at or after `offset`
/// (normalized by `norm_offset`), counted from the start of `h`; `None` when
/// the offset falls outside `h` or there is no occurrence.
pub open spec fn strpos_spec(h: Seq<char>, n: Seq<char>, offset: int) -> Option<int> {
    match norm_offset(h.len() as int, offset) {
        None => None,
        Some(start) => first_match_from(h, n, start),
    }
}

/// Returns the position of the first occurrence of `needle` in `haystack` at
/// or after `offset`, counted in characters from the start of `haystack`.
/// A negative offset counts from the end of `haystack`; an offset outside
/// `haystack` or a missing occurrence yields `None`.
pub fn strpos(haystack: &str, needle: &str, offset: isize) -> (r: Option<usize>)
    ensures
        match r {
            Some(p) => strpos_spec(haystack@, needle@, offset as int) == Some(p as int),
            None => strpos_spec(haystack@, needle@, offset as int) is None,
        },
{
    let h = chars_of(haystack);
    let n = chars_of(needle);
    let len = h.len();
    let start: usize = if offset > 0 {
        if offset as usize > len {
            return None;
        }
        offset as usize
    } else if offset < 0 {
        let neg = neg_abs(offset);
        if neg > len {
            return None;
        }
        len - neg
    } else {
        0
    };
    find_from(&h, &n, start)
}

/// The lowercasing that `str::to_lowercase` performs, as a function of the
/// characters alone.
pub uninterp spec fn lower_of(s: Seq<char>) -> Seq<char>;

/// Relies on str::to_lowercase: the result depends on the characters of the
/// input alone.
#[verifier::external_body]
fn to_lowercase_str(s: &str) -> (r: String)
    ensures
        r@ == lower_of(s@),
{
    s.to_lowercase()
}

/// Returns the position of the first occurrence of `needle` in `haystack` at
/// or after `offset`, comparing the lowercased forms of both; the position
/// counts characters of the lowercased haystack.
pub fn stripos(haystack: &str, needle: &str, offset: isize) -> (r: Option<usize>)
    ensures
        match r {
            Some(p) => strpos_spec(lower_of(haystack@), lower_of(needle@), offset as int) == Some(
                p as int,
            ),
            None => strpos_spec(lower_of(haystack@), lower_of(needle@), offset as int) is None,
        },
{
    let h = to_lowercase_str(haystack);
    let n = to_lowercase_str(needle);
    strpos(h.as_str(), n.as_str(), offset)
}

/// The part of `s` selected by `start` and `length`, both counted in
/// characters. A non-negative `start` at or past the end of `s` yields
/// `None`; a negative one counts from the end of `s` and is clamped to the
/// start. A zero `length` yields `None`; a positive one takes up to that
/// many characters; a negative one leaves that many characters off the end
/// of `s`, and yields `None` when the start position lies at or past that
/// truncation boundary.
pub open spec fn substr_spec(s: Seq<char>, start: int, length: int) -> Option<Seq<char>> {
    let len = s.len() as int;
    if start >= 0 && start >= len {
        None
    } else if length == 0 {
        None
    } else {
        let st = if start < 0 {
            if len + start < 0 {
                0
            } else {
                len + start
            }
        } else {
            start
        };
        if length < 0 {
            if st >= len + length {
                None
            } else {
                Some(s.subrange(st, len + length))
            }
        } else {
            Some(s.subrange(st, if st + length > len { len } else { st + length }))
        }
    }
}

/// Returns the part of `string` selected by `start` and `length` as
/// `substr_spec` describes, or `None` when that selection is absent.
pub fn substr(string: &str, start: isize, length: isize) -> (r: Option<String>)
    ensures
        match r {
            Some(t) => substr_spec(string@, start as int, length as int) == Some(t@),
            None => substr_spec(string@, start as int, length as int) is None,
        },
{
    let len = string.unicode_len();
    if start >= 0 && start as usize >= len {
        return None;
    }
    if length == 0 {
        return None;
    }
    let st: usize = if start < 0 {
        let neg = neg_abs(start);
        if neg >= len {
            0
        } else {
            len - neg
        }
    } else {
        start as usize
    };
    let end: usize = if length < 0 {
        let neg = neg_abs(length);
        if neg > len {
            return None;
        }
        let bound = len - neg;
        if st >= bound {
            return None;
        }
        bound
    } else {
        let want = length as usize;
        if want > len - st {
            len
        } else {
            st + want
        }
    };
    Some(string.substring_char(st, end).to_owned())
}

/// The character sequence that `char::to_uppercase` yields for a character:
/// the full Unicode uppercase mapping, one or more characters.
pub uninterp spec fn upper_first_of(c: char) -> Seq<char>;

/// Relies on char::to_uppercase: the uppercase mapping of a character
/// depends on the character alone.
#[verifier::external_body]
fn char_upper(c: char) -> (r: String)
    ensures
        r@ == upper_first_of(c),
{
    c.to_uppercase().collect::<String>()
}

/// The character sequence that `char::to_lowercase` yields for a character:
/// the full Unicode lowercase mapping, one or more characters.
pub uninterp spec fn lower_first_of(c: char) -> Seq<char>;

/// Relies on char::to_lowercase: the lowercase mapping of a character
/// depends on the character alone.
#[verifier::external_body]
fn char_lower(c: char) -> (r: String)
    ensures
        r@ == lower_first_of(c),
{
    c.to_lowercase().collect::<String>()
}

/// Returns `string` with its first character replaced by that character's
/// uppercase mapping; empty input yields empty output. The mapping is the
/// full Unicode one (`char::to_uppercase`), which for a few characters
/// yields more than one character (`ß` becomes `SS`), rather than a simple
/// one-to-one mapping, which std does not expose.
pub fn ucfirst(string: &str) -> (r: String)
    ensures
        string@.len() == 0 ==> r@ == Seq::<char>::empty(),
        string@.len() > 0 ==> r@ == upper_first_of(string@[0]) + string@.subrange(
            1,
            string@.len() as int,
        ),
{
    let len = string.unicode_len();
    if len == 0 {
        return String::new();
    }
    let first = string.get_char(0);
    let mut r = char_upper(first);
    r.append(string.substring_char(1, len));
    r
}

/// Returns `string` with its first character replaced by that character's
/// lowercase mapping; empty input yields empty output. The mapping is the
/// full Unicode one (`char::to_lowercase`), which for a few characters
/// yields more than one character (`İ` becomes `i` plus a combining dot),
/// rather than a simple one-to-one mapping, which std does not expose.
pub fn lcfirst(string: &str) -> (r: String)
    ensures
        string@.len() == 0 ==> r@ == Seq::<char>::empty(),
        string@.len() > 0 ==> r@ == lower_first_of(string@[0]) + string@.subrange(
            1,
            string@.len() as int,
        ),
{
    let len = string.unicode_len();
    if len == 0 {
        return String::new();
    }
    let first = string.get_char(0);
    let mut r = char_lower(first);
    r.append(string.substring_char(1, len));
    r
}

/// The pieces of `s` joined by `glue`: no glue around a single piece, one
/// glue between each adjacent pair.
pub open spec fn join_with(pieces: Seq<Seq<char>>, glue: Seq<char>) -> Seq<char>
    decreases pieces.len(),
{
    if pieces.len() == 0 {
        Seq::empty()
    } else if pieces.len() == 1 {
        pieces[0]
    } else {
        pieces[0] + glue + join_with(pieces.drop_first(), glue)
    }
}

/// Joining one more piece appends one glue and that piece, except onto an
/// empty list of pieces, which yields the piece alone.
pub proof fn lemma_join_push(pieces: Seq<Seq<char>>, glue: Seq<char>, p: Seq<char>)
    ensures
        join_with(pieces.push(p), glue) == if pieces.len() == 0 {
            p
        } else {
            join_with(pieces, glue) + glue + p
        },
    decreases pieces.len(),
{
    let q = pieces.push(p);
    if pieces.len() == 0 {
        assert(q[0] == p);
    } else if pieces.len() == 1 {
        assert(q.drop_first() =~= seq![p]);
        assert(join_with(q.drop_first(), glue) == p);
        assert(q[0] == pieces[0]);
    } else {
        assert(q.drop_first() =~= pieces.drop_first().push(p));
        lemma_join_push(pieces.drop_first(), glue, p);
        assert(q[0] == pieces[0]);
        assert(pieces[0] + glue + (join_with(pieces.drop_first(), glue) + glue + p) =~= (pieces[0]
            + glue + join_with(pieces.drop_first(), glue)) + glue + p);
    }
}

/// Returns the pieces of `pieces` from position `from` on, joined by `glue`.
fn join_range(pieces: &Vec<String>, glue: &str, from: usize) -> (r: String)
    requires
        from <= pieces@.len(),
    ensures
        r@ == join_with(pieces.deep_view().subrange(from as int, pieces@.len() as int), glue@),
{
    let mut result = String::new();
    let mut i: usize = from;
    while i < pieces.len()
        invariant
            from <= i <= pieces@.len(),
            result@ == join_with(pieces.deep_view().subrange(from as int, i as int), glue@),
        decreases pieces@.len() - i,
    {
        if i > from {
            result.append(glue);
        }
        result.append(pieces[i].as_str());
        proof {
            let dv = pieces.deep_view();
            assert(dv[i as int] == pieces@[i as int]@);
            assert(dv.subrange(from as int, i + 1 as int) =~= dv.subrange(from as int, i as int)
                .push(dv[i as int]));
            lemma_join_push(dv.subrange(from as int, i as int), glue@, dv[i as int]);
            assert(result@ =~= join_with(dv.subrange(from as int, i + 1 as int), glue@));
        }
        i = i + 1;
    }
    result
}

/// Joins the elements of `pieces` with the glue string `glue`; an empty
/// vector yields empty text.
pub fn implode(glue: &str, pieces: &Vec<String>) -> (r: String)
    ensures
        r@ == join_with(pieces.deep_view(), glue@),
{
    let r = join_range(pieces, glue, 0);
    proof {
        assert(pieces.deep_view().subrange(0, pieces@.len() as int) =~= pieces.deep_view());
    }
    r
}

/// The pieces of `s` split on the non-empty delimiter `d`: everything before
/// the first occurrence of `d`, followed by the pieces of what comes after
/// it; text without an occurrence is a single piece. An empty delimiter
/// leaves `s` as a single piece.
pub open spec fn split_on(s: Seq<char>, d: Seq<char>) -> Seq<Seq<char>>
    decreases s.len(),
    via split_on_decreases
{
    if d.len() == 0 {
        seq![s]
    } else {
        match first_match_from(s, d, 0) {
            None => seq![s],
            Some(i) => seq![s.subrange(0, i)] + split_on(
                s.subrange(i + d.len() as int, s.len() as int),
                d,
            ),
        }
    }
}

#[via_fn]
proof fn split_on_decreases(s: Seq<char>, d: Seq<char>) {
    if d.len() > 0 {
        lemma_first_match_from_correct(s, d, 0);
    }
}

/// Splits `string` on the non-empty delimiter `delimiter`, left to right.
fn split_all(string: &str, delimiter: &str) -> (r: Vec<String>)
    requires
        delimiter@.len() > 0,
    ensures
        r.deep_view() == split_on(string@, delimiter@),
{
    let d = chars_of(delimiter);
    let dlen = d.len();
    let mut parts: Vec<String> = Vec::new();
    let mut rem: &str = string;
    let ghost s0 = string@;
    let mut done = false;
    while !done
        invariant
            d@ == delimiter@,
            dlen == d@.len(),
            d@.len() > 0,
            !done ==> split_on(s0, d@) == parts.deep_view() + split_on(rem@, d@),
            done ==> parts.deep_view() == split_on(s0, d@),
        decreases rem@.len(), (if done { 0int } else { 1int }),
    {
        let ghost parts_dv = parts.deep_view();
        let remv = chars_of(rem);
        let rlen = remv.len();
        match find_from(&remv, &d, 0) {
            None => {
                parts.push(rem.to_owned());
                done = true;
                proof {
                    assert(parts.deep_view() =~= parts_dv.push(rem@));
                    assert(split_on(rem@, d@) == seq![rem@]);
                    assert(parts_dv.push(rem@) =~= parts_dv + seq![rem@]);
                }
            },
            Some(i) => {
                proof {
                    lemma_first_match_from_correct(rem@, d@, 0);
                    assert(match_at(rem@, d@, i as int));
                }
                let piece = rem.substring_char(0, i);
                parts.push(piece.to_owned());
                let ghost old_rem = rem@;
                rem = rem.substring_char(i + dlen, rlen);
                proof {
                    assert(parts.deep_view() =~= parts_dv.push(old_rem.subrange(0, i as int)));
                    assert(split_on(old_rem, d@) == seq![old_rem.subrange(0, i as int)] + split_on(
                        rem@,
                        d@,
                    ));
                    assert(parts_dv + split_on(old_rem, d@) =~= parts.deep_view() + split_on(
                        rem@,
                        d@,
                    ));
                }
            },
        }
    }
    parts
}

/// The result of splitting `s` on `delimiter` and keeping as much as `limit`
/// asks for: an empty delimiter yields `None`; limit 0 or 1 keeps the whole
/// text unsplit; a positive limit keeps that many pieces, the last of them
/// the rest of the text with the delimiters it still holds; a negative limit
/// drops that many pieces off the end, an empty list when none would remain.
pub open spec fn explode_spec(delimiter: Seq<char>, s: Seq<char>, limit: int) -> Option<
    Seq<Seq<char>>,
> {
    if delimiter.len() == 0 {
        None
    } else if limit == 0 || limit == 1 {
        Some(seq![s])
    } else {
        let pieces = split_on(s, delimiter);
        let n = pieces.len() as int;
        if limit > n {
            Some(pieces)
        } else if limit > 0 {
            Some(
                pieces.subrange(0, limit - 1).push(join_with(pieces.subrange(limit - 1, n), delimiter)),
            )
        } else if limit <= -n {
            Some(Seq::empty())
        } else {
            Some(pieces.subrange(0, n + limit))
        }
    }
}

/// Returns the first `upto` elements of `pieces` as a new vector.
fn clone_prefix(pieces: &Vec<String>, upto: usize) -> (r: Vec<String>)
    requires
        upto <= pieces@.len(),
    ensures
        r.deep_view() == pieces.deep_view().subrange(0, upto as int),
{
    let mut r: Vec<String> = Vec::new();
    let mut i: usize = 0;
    while i < upto
        invariant
            0 <= i <= upto <= pieces@.len(),
            r.deep_view() == pieces.deep_view().subrange(0, i as int),
        decreases upto - i,
    {
        let ghost r_dv = r.deep_view();
        r.push(pieces[i].clone());
        proof {
            assert(r.deep_view() =~= r_dv.push(pieces.deep_view()[i as int]));
            assert(r.deep_view() =~= pieces.deep_view().subrange(0, i + 1 as int));
        }
        i = i + 1;
    }
    r
}

/// Splits `string` on `delimiter` as `explode_spec` describes: `None` on an
/// empty delimiter; otherwise the split pieces, cut down or re-joined as the
/// `limit` asks.
pub fn explode(delimiter: &str, string: &str, limit: isize) -> (r: Option<Vec<String>>)
    ensures
        match r {
            Some(v) => explode_spec(delimiter@, string@, limit as int) == Some(v.deep_view()),
            None => explode_spec(delimiter@, string@, limit as int) is None,
        },
{
    if delimiter.is_empty() {
        return None;
    }
    if limit == 0 || limit == 1 {
        let mut v: Vec<String> = Vec::new();
        v.push(string.to_owned());
        proof {
            assert(v.deep_view() =~= seq![string@]);
        }
        return Some(v);
    }
    let pieces = split_all(string, delimiter);
    let n = pieces.len();
    if limit > 0 {
        if limit as usize > n {
            return Some(pieces);
        }
        let k = (limit as usize) - 1;
        let mut v = clone_prefix(&pieces, k);
        let tail = join_range(&pieces, delimiter, k);
        let ghost v_dv = v.deep_view();
        v.push(tail);
        proof {
            assert(v.deep_view() =~= v_dv.push(tail@));
        }
        return Some(v);
    }
    let drop_n = neg_abs(limit);
    if drop_n >= n {
        let v: Vec<String> = Vec::new();
        proof {
            assert(v.deep_view() =~= Seq::<Seq<char>>::empty());
        }
        return Some(v);
    }
    let keep = n - drop_n;
    let v = clone_prefix(&pieces, keep);
    Some(v)
}

} // verus!
