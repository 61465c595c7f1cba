//! Character-level text utilities: substring search, splitting on a
//! delimiter, and lexicographic order on character sequences.
//!
//! Everything here works on `&str` values whose views are `Seq<char>`;
//! the specification functions are the reference semantics the parser
//! and the header map are proved against.

use vstd::prelude::*;
use vstd::string::StrSliceExecFns;
use vstd::utf8::char_u32_cast;

verus! {

/// The line delimiter of the wire format.
pub open spec fn crlf() -> Seq<char> {
    seq!['\r', '\n']
}

/// The token delimiter of the request line.
pub open spec fn single_space() -> Seq<char> {
    seq![' ']
}

/// The separator between a header name and its value.
pub open spec fn colon_space() -> Seq<char> {
    seq![':', ' ']
}

/// The delimiter occurs in `s` at position `i`.
pub open spec fn match_at(s: Seq<char>, d: Seq<char>, i: int) -> bool {
    &&& 0 <= i
    &&& i + d.len() <= s.len()
    &&& s.subrange(i, i + d.len() as int) == d
}

/// Position of the first occurrence of `d` in `s`, or `-1` if there is none.
pub open spec fn first_match(s: Seq<char>, d: Seq<char>) -> int
    decreases s.len(),
{
    if s.len() < d.len() || s.len() == 0 {
        -1
    } else if s.subrange(0, d.len() as int) == d {
        0
    } else if first_match(s.drop_first(), d) < 0 {
        -1
    } else {
        1 + first_match(s.drop_first(), d)
    }
}

/// `first_match` finds exactly the first occurrence: a result of `-1`
/// means no position matches, and a non-negative result is a match that
/// no earlier position shares.
pub proof fn lemma_first_match(s: Seq<char>, d: Seq<char>)
    requires
        d.len() >= 1,
    ensures
        first_match(s, d) == -1 ==> forall|k: int| !match_at(s, d, k),
        first_match(s, d) >= 0 ==> match_at(s, d, first_match(s, d)),
        first_match(s, d) >= 0 ==> forall|k: int| 0 <= k < first_match(s, d) ==> !match_at(s, d, k),
    decreases s.len(),
{
    if s.len() < d.len() || s.len() == 0 {
        assert(forall|k: int| !match_at(s, d, k));
    } else if s.subrange(0, d.len() as int) == d {
    } else {
        lemma_first_match(s.drop_first(), d);
        let t = s.drop_first();
        assert forall|k: int| 1 <= k && match_at(s, d, k) implies match_at(t, d, k - 1) by {
            assert(t.subrange(k - 1, k - 1 + d.len() as int) =~= s.subrange(k, k + d.len() as int));
        };
        assert forall|k: int| 0 <= k && match_at(t, d, k) implies match_at(s, d, k + 1) by {
            assert(s.subrange(k + 1, k + 1 + d.len() as int) =~= t.subrange(k, k + d.len() as int));
        };
        assert(!match_at(s, d, 0));
        if first_match(t, d) < 0 {
            assert(forall|k: int| !match_at(s, d, k));
        } else {
            let i = first_match(t, d);
            assert(match_at(s, d, i + 1));
            assert forall|k: int| 0 <= k < i + 1 implies !match_at(s, d, k) by {
                if k >= 1 {
                    assert(!match_at(t, d, k - 1));
                }
            };
        }
    }
}

/// A position that matches, with no earlier match, is the first match.
pub proof fn lemma_first_match_is(s: Seq<char>, d: Seq<char>, i: int)
    requires
        d.len() >= 1,
        match_at(s, d, i),
        forall|k: int| 0 <= k < i ==> !match_at(s, d, k),
    ensures
        first_match(s, d) == i,
{
    lemma_first_match(s, d);
    let f = first_match(s, d);
    if f < i {
        assert(!match_at(s, d, f));
    }
    if f > i {
        assert(!match_at(s, d, i));
    }
}

/// If no position matches, the first match is `-1`.
pub proof fn lemma_first_match_none(s: Seq<char>, d: Seq<char>)
    requires
        d.len() >= 1,
        forall|k: int| !match_at(s, d, k),
    ensures
        first_match(s, d) == -1,
{
    lemma_first_match(s, d);
}

/// `s` split on every occurrence of the delimiter `d`, in order.
/// The result always has at least one element.
pub open spec fn split_on(s: Seq<char>, d: Seq<char>) -> Seq<Seq<char>>
    decreases s.len(),
    when d.len() >= 1
    via split_on_dec
{
    let i = first_match(s, d);
    if i < 0 {
        seq![s]
    } else {
        seq![s.subrange(0, i)] + split_on(s.subrange(i + d.len() as int, s.len() as int), d)
    }
}

#[via_fn]
proof fn split_on_dec(s: Seq<char>, d: Seq<char>) {
    lemma_first_match(s, d);
}

/// Checks whether `d` occurs in `s` at position `i`.
fn match_at_exec(s: &str, d: &str, i: usize) -> (r: bool)
    requires
        i + d@.len() <= s@.len(),
    ensures
        r == match_at(s@, d@, i as int),
{
    let sl = s.unicode_len();
    let dl = d.unicode_len();
    let mut j: usize = 0;
    while j < dl
        invariant
            j <= dl,
            dl == d@.len(),
            sl == s@.len(),
            i + dl <= sl,
            forall|t: int| 0 <= t < j ==> s@[i + t] == d@[t],
        decreases dl - j,
    {
        if s.get_char(i + j) != d.get_char(j) {
            proof {
                let sub = s@.subrange(i as int, i + d@.len() as int);
                assert(sub[j as int] == s@[i + j]);
                assert(!match_at(s@, d@, i as int));
            }
            return false;
        }
        j += 1;
    }
    proof {
        assert(s@.subrange(i as int, i + d@.len() as int) =~= d@);
    }
    true
}

/// Position of the first occurrence of `d` in `s`, if any.
pub fn find_sub(s: &str, d: &str) -> (r: Option<usize>)
    requires
        d@.len() >= 1,
    ensures
        match r {
            Some(i) => first_match(s@, d@) == i as int,
            None => first_match(s@, d@) == -1,
        },
{
    let sl = s.unicode_len();
    let dl = d.unicode_len();
    if sl < dl {
        proof {
            lemma_first_match_none(s@, d@);
        }
        return None;
    }
    let mut i: usize = 0;
    while i <= sl - dl
        invariant
            sl == s@.len(),
            dl == d@.len(),
            1 <= dl <= sl,
            i <= sl - dl + 1,
            forall|k: int| 0 <= k < i ==> !match_at(s@, d@, k),
        decreases sl - i,
    {
        if match_at_exec(s, d, i) {
            proof {
                lemma_first_match_is(s@, d@, i as int);
            }
            return Some(i);
        }
        i += 1;
    }
    proof {
        assert(forall|k: int| i <= k ==> !match_at(s@, d@, k));
        lemma_first_match_none(s@, d@);
    }
    None
}

/// Splits `s` on every occurrence of `d`, as [`split_on`] describes.
pub fn split_str(s: &str, d: &str) -> (r: Vec<String>)
    requires
        d@.len() >= 1,
    ensures
        r.deep_view() == split_on(s@, d@),
        r.deep_view().len() >= 1,
{
    let mut r: Vec<String> = Vec::new();
    let mut rest: &str = s;
    loop
        invariant_except_break
            d@.len() >= 1,
            split_on(s@, d@) == r.deep_view() + split_on(rest@, d@),
        ensures
            r.deep_view() == split_on(s@, d@),
            r.deep_view().len() >= 1,
        decreases rest@.len(),
    {
        proof {
            assert(Seq::<Seq<char>>::empty() + split_on(s@, d@) =~= split_on(s@, d@));
            lemma_first_match(rest@, d@);
        }
        let ghost prev = r.deep_view();
        let ghost prev_rest = rest@;
        match find_sub(rest, d) {
            Some(i) => {
                let dl = d.unicode_len();
                let rl = rest.unicode_len();
                let piece = rest.substring_char(0, i);
                r.push(piece.to_owned());
                rest = rest.substring_char(i + dl, rl);
                proof {
                    assert(r.deep_view() =~= prev.push(prev_rest.subrange(0, i as int)));
                    assert(split_on(prev_rest, d@) == seq![prev_rest.subrange(0, i as int)]
                        + split_on(rest@, d@));
                    assert(r.deep_view() + split_on(rest@, d@) =~= prev + split_on(prev_rest, d@));
                }
            },
            None => {
                r.push(rest.to_owned());
                proof {
                    assert(split_on(prev_rest, d@) == seq![prev_rest]);
                    assert(r.deep_view() =~= prev + split_on(prev_rest, d@));
                    assert(r.deep_view().len() >= 1);
                }
                break;
            },
        }
    }
    r
}

/// Strict lexicographic order on character sequences, by code point.
pub open spec fn lex_lt(a: Seq<char>, b: Seq<char>) -> bool
    decreases a.len(),
{
    if b.len() == 0 {
        false
    } else if a.len() == 0 {
        true
    } else if (a[0] as u32) < (b[0] as u32) {
        true
    } else if (a[0] as u32) > (b[0] as u32) {
        false
    } else {
        lex_lt(a.drop_first(), b.drop_first())
    }
}

/// Any two character sequences are ordered or equal.
pub proof fn lemma_lex_total(a: Seq<char>, b: Seq<char>)
    ensures
        lex_lt(a, b) || lex_lt(b, a) || a == b,
    decreases a.len(),
{
    if a.len() == 0 && b.len() == 0 {
        assert(a =~= b);
    } else if a.len() > 0 && b.len() > 0 {
        if (a[0] as u32) == (b[0] as u32) {
            char_u32_cast(a[0], a[0] as u32);
            char_u32_cast(b[0], b[0] as u32);
            assert(a[0] == b[0]);
            lemma_lex_total(a.drop_first(), b.drop_first());
            if a.drop_first() == b.drop_first() {
                assert(a.drop_first().len() == a.len() - 1);
                assert(b.drop_first().len() == b.len() - 1);
                assert(a.len() == b.len());
                assert forall|i: int| 0 <= i < a.len() implies a[i] == b[i] by {
                    if i > 0 {
                        assert(a.drop_first()[i - 1] == a[i]);
                        assert(b.drop_first()[i - 1] == b[i]);
                        assert(a.drop_first()[i - 1] == b.drop_first()[i - 1]);
                    } else {
                        assert(a[0] == b[0]);
                    }
                };
                assert(a =~= b);
            }
        }
    }
}

/// Lexicographic order is irreflexive.
pub proof fn lemma_lex_irrefl(a: Seq<char>)
    ensures
        !lex_lt(a, a),
    decreases a.len(),
{
    if a.len() > 0 {
        lemma_lex_irrefl(a.drop_first());
    }
}

/// Lexicographic order is transitive.
pub proof fn lemma_lex_trans(a: Seq<char>, b: Seq<char>, c: Seq<char>)
    requires
        lex_lt(a, b),
        lex_lt(b, c),
    ensures
        lex_lt(a, c),
    decreases a.len(),
{
    if a.len() > 0 && b.len() > 0 && c.len() > 0 {
        if (a[0] as u32) == (b[0] as u32) && (b[0] as u32) == (c[0] as u32) {
            lemma_lex_trans(a.drop_first(), b.drop_first(), c.drop_first());
        }
    }
}

/// Compares two strings in the order of [`lex_lt`].
pub fn str_lt(a: &str, b: &str) -> (r: bool)
    ensures
        r == lex_lt(a@, b@),
{
    let al = a.unicode_len();
    let bl = b.unicode_len();
    let mut i: usize = 0;
    proof {
        assert(a@.skip(0) =~= a@);
        assert(b@.skip(0) =~= b@);
    }
    while i < al && i < bl
        invariant
            al == a@.len(),
            bl == b@.len(),
            i <= al,
            i <= bl,
            lex_lt(a@, b@) == lex_lt(a@.skip(i as int), b@.skip(i as int)),
        decreases al - i,
    {
        let ca = a.get_char(i);
        let cb = b.get_char(i);
        proof {
            assert(a@.skip(i as int)[0] == a@[i as int]);
            assert(b@.skip(i as int)[0] == b@[i as int]);
        }
        if (ca as u32) < (cb as u32) {
            return true;
        }
        if (ca as u32) > (cb as u32) {
            return false;
        }
        proof {
            assert(a@.skip(i as int).drop_first() =~= a@.skip(i + 1));
            assert(b@.skip(i as int).drop_first() =~= b@.skip(i + 1));
        }
        i += 1;
    }
    proof {
        assert(a@.skip(i as int).len() == al - i);
        assert(b@.skip(i as int).len() == bl - i);
    }
    al < bl
}

} // verus!
