//! The split utility every sub-parser depends on: splitting a string at the
//! first occurrence of a separator (into exactly two or exactly three parts,
//! or failing), splitting at every occurrence, and the inverse join, with the
//! lemmas that relate them.

use vstd::prelude::*;

use crate::errors::ParseError;

verus! {

/// Holds when the separator occurs nowhere in `s`.
pub open spec fn sep_free(s: Seq<char>, sep: char) -> bool {
    forall|j: int| 0 <= j < s.len() ==> s[j] != sep
}

/// The split at the first occurrence of `sep`: the text before it and the
/// text after it, or `None` when `sep` does not occur.  The part after the
/// separator may itself contain further separators.
pub open spec fn split_first(s: Seq<char>, sep: char) -> Option<(Seq<char>, Seq<char>)>
    decreases s.len(),
{
    if s.len() == 0 {
        None
    } else if s[0] == sep {
        Some((Seq::<char>::empty(), s.skip(1)))
    } else {
        match split_first(s.skip(1), sep) {
            None => None,
            Some(p) => Some((seq![s[0]] + p.0, p.1)),
        }
    }
}

/// Two splits at the first separator in turn: three parts, of which only the
/// last may still contain the separator.
pub open spec fn split3_first(s: Seq<char>, sep: char) -> Option<
    (Seq<char>, Seq<char>, Seq<char>),
> {
    match split_first(s, sep) {
        None => None,
        Some(p) => match split_first(p.1, sep) {
            None => None,
            Some(q) => Some((p.0, q.0, q.1)),
        },
    }
}

/// The split at every occurrence of `sep`.  An input of length zero gives one
/// empty part, as splitting does in Rust; the result never has length zero.
pub open spec fn split_all(s: Seq<char>, sep: char) -> Seq<Seq<char>>
    decreases s.len(),
{
    if s.len() == 0 {
        seq![Seq::<char>::empty()]
    } else if s[0] == sep {
        seq![Seq::<char>::empty()] + split_all(s.skip(1), sep)
    } else {
        let rest = split_all(s.skip(1), sep);
        seq![seq![s[0]] + rest[0]] + rest.skip(1)
    }
}

/// The parts joined with one separator between each neighbouring pair.
pub open spec fn join(parts: Seq<Seq<char>>, sep: char) -> Seq<char>
    decreases parts.len(),
{
    if parts.len() == 0 {
        Seq::<char>::empty()
    } else if parts.len() == 1 {
        parts[0]
    } else {
        parts[0] + seq![sep] + join(parts.skip(1), sep)
    }
}

/// When the first occurrence of `sep` stands at index `i`, the first split is
/// the text before `i` and the text after `i`.
pub proof fn lemma_split_first_at(s: Seq<char>, sep: char, i: int)
    requires
        0 <= i < s.len(),
        s[i] == sep,
        sep_free(s.take(i), sep),
    ensures
        split_first(s, sep) == Some((s.take(i), s.skip(i + 1))),
    decreases i,
{
    if i == 0 {
        assert(s.take(0) =~= Seq::<char>::empty());
    } else {
        assert(s[0] != sep) by {
            assert(s.take(i)[0] != sep);
        }
        assert(s.skip(1)[i - 1] == s[i]);
        assert(sep_free(s.skip(1).take(i - 1), sep)) by {
            assert forall|j: int| 0 <= j < i - 1 implies #[trigger] s.skip(1).take(i - 1)[j] != sep by {
                assert(s.skip(1).take(i - 1)[j] == s.take(i)[j + 1]);
            }
        }
        lemma_split_first_at(s.skip(1), sep, i - 1);
        assert(seq![s[0]] + s.skip(1).take(i - 1) =~= s.take(i));
        assert(s.skip(1).skip(i) =~= s.skip(i + 1));
    }
}

/// When the separator occurs nowhere, the first split fails.
pub proof fn lemma_split_first_none(s: Seq<char>, sep: char)
    requires
        sep_free(s, sep),
    ensures
        split_first(s, sep) is None,
    decreases s.len(),
{
    if s.len() > 0 {
        assert(sep_free(s.skip(1), sep)) by {
            assert forall|j: int| 0 <= j < s.skip(1).len() implies #[trigger] s.skip(1)[j] != sep by {
                assert(s.skip(1)[j] == s[j + 1]);
            }
        }
        lemma_split_first_none(s.skip(1), sep);
    }
}

/// When the first occurrence of `sep` stands at index `i`, the full split is
/// the text before `i` followed by the full split of the text after `i`.
pub proof fn lemma_split_all_at(s: Seq<char>, sep: char, i: int)
    requires
        0 <= i < s.len(),
        s[i] == sep,
        sep_free(s.take(i), sep),
    ensures
        split_all(s, sep) == seq![s.take(i)] + split_all(s.skip(i + 1), sep),
    decreases i,
{
    if i == 0 {
        assert(s.take(0) =~= Seq::<char>::empty());
        assert(split_all(s, sep) =~~= seq![s.take(0)] + split_all(s.skip(1), sep));
    } else {
        assert(s.skip(1)[i - 1] == s[i]);
        assert(sep_free(s.skip(1).take(i - 1), sep)) by {
            assert forall|j: int| 0 <= j < i - 1 implies #[trigger] s.skip(1).take(i - 1)[j] != sep by {
                assert(s.skip(1).take(i - 1)[j] == s.take(i)[j + 1]);
            }
        }
        lemma_split_all_at(s.skip(1), sep, i - 1);
        let rest = split_all(s.skip(1), sep);
        assert(rest == seq![s.skip(1).take(i - 1)] + split_all(s.skip(1).skip(i), sep));
        assert(s[0] != sep) by {
            assert(s.take(i)[0] != sep);
        }
        assert(seq![s[0]] + rest[0] =~= s.take(i)) by {
            assert(rest[0] == s.skip(1).take(i - 1));
        }
        assert(rest.skip(1) =~~= split_all(s.skip(1).skip(i), sep));
        assert(s.skip(1).skip(i) =~= s.skip(i + 1));
        assert(split_all(s, sep) =~~= seq![s.take(i)] + split_all(s.skip(i + 1), sep));
    }
}

/// When the separator occurs nowhere, the full split is the one whole part.
pub proof fn lemma_split_all_none(s: Seq<char>, sep: char)
    requires
        sep_free(s, sep),
    ensures
        split_all(s, sep) == seq![s],
    decreases s.len(),
{
    if s.len() == 0 {
        assert(split_all(s, sep) =~~= seq![s]);
    } else {
        assert(sep_free(s.skip(1), sep)) by {
            assert forall|j: int| 0 <= j < s.skip(1).len() implies #[trigger] s.skip(1)[j] != sep by {
                assert(s.skip(1)[j] == s[j + 1]);
            }
        }
        lemma_split_all_none(s.skip(1), sep);
        assert(seq![s[0]] + s.skip(1) =~= s);
        assert(split_all(s, sep) =~~= seq![s]);
    }
}

/// The full split never has length zero.
pub proof fn lemma_split_all_len(s: Seq<char>, sep: char)
    ensures
        split_all(s, sep).len() >= 1,
    decreases s.len(),
{
    if s.len() > 0 && s[0] != sep {
        lemma_split_all_len(s.skip(1), sep);
    }
}

/// Splitting a join at its separator recovers the parts, provided no part
/// contains the separator.
pub proof fn lemma_split_join(parts: Seq<Seq<char>>, sep: char)
    requires
        parts.len() >= 1,
        forall|k: int| 0 <= k < parts.len() ==> sep_free(#[trigger] parts[k], sep),
    ensures
        split_all(join(parts, sep), sep) == parts,
    decreases parts.len(),
{
    if parts.len() == 1 {
        lemma_split_all_none(parts[0], sep);
        assert(split_all(join(parts, sep), sep) =~~= parts);
    } else {
        let s = join(parts, sep);
        let l = parts[0].len() as int;
        assert(s == parts[0] + seq![sep] + join(parts.skip(1), sep));
        assert(s[l] == sep);
        assert(sep_free(s.take(l), sep)) by {
            assert(s.take(l) =~= parts[0]);
        }
        lemma_split_all_at(s, sep, l);
        assert(s.take(l) =~= parts[0]);
        assert(s.skip(l + 1) =~= join(parts.skip(1), sep));
        lemma_split_join(parts.skip(1), sep);
        assert(split_all(s, sep) =~~= parts);
    }
}

/// Joining one more part appends one separator and the part.
pub proof fn lemma_join_push(parts: Seq<Seq<char>>, p: Seq<char>, sep: char)
    requires
        parts.len() >= 1,
    ensures
        join(parts.push(p), sep) == join(parts, sep) + seq![sep] + p,
    decreases parts.len(),
{
    if parts.len() == 1 {
        assert(parts.push(p)[0] == parts[0]);
        assert(parts.push(p).skip(1) =~~= seq![p]);
        assert(parts.push(p).len() == 2);
        assert(join(parts.push(p), sep) == parts.push(p)[0] + seq![sep] + join(
            parts.push(p).skip(1),
            sep,
        ));
        assert(seq![p].len() == 1);
        assert(join(seq![p], sep) == seq![p][0]);
        assert(join(parts, sep) == parts[0]);
        assert(join(parts.push(p), sep) =~= join(parts, sep) + seq![sep] + p);
    } else {
        assert(parts.push(p).skip(1) =~~= parts.skip(1).push(p));
        lemma_join_push(parts.skip(1), p, sep);
        assert(parts.push(p)[0] == parts[0]);
        assert(parts.push(p).len() >= 2);
        assert(join(parts.push(p), sep) == parts[0] + seq![sep] + join(parts.skip(1).push(p), sep));
        assert(join(parts.skip(1).push(p), sep) == join(parts.skip(1), sep) + seq![sep] + p);
        assert(join(parts, sep) == parts[0] + seq![sep] + join(parts.skip(1), sep));
        assert(join(parts.push(p), sep) =~= join(parts, sep) + seq![sep] + p);
    }
}

/// A join of non-empty separator-free parts never holds two neighbouring
/// separators.
pub proof fn lemma_join_no_adjacent(parts: Seq<Seq<char>>, sep: char)
    requires
        parts.len() >= 1,
        forall|k: int| 0 <= k < parts.len() ==> sep_free(#[trigger] parts[k], sep),
        forall|k: int| 0 <= k < parts.len() ==> (#[trigger] parts[k]).len() > 0,
    ensures
        forall|i: int|
            0 <= i < join(parts, sep).len() - 1 ==> !((#[trigger] join(parts, sep)[i]) == sep
                && join(parts, sep)[i + 1] == sep),
    decreases parts.len(),
{
    let s = join(parts, sep);
    if parts.len() == 1 {
        assert forall|i: int| 0 <= i < s.len() - 1 implies !((#[trigger] s[i]) == sep && s[i + 1]
            == sep) by {
            assert(s[i] != sep);
        }
    } else {
        let l = parts[0].len() as int;
        let rest = join(parts.skip(1), sep);
        assert(s == parts[0] + seq![sep] + rest);
        lemma_join_no_adjacent(parts.skip(1), sep);
        assert(rest[0] != sep) by {
            if parts.skip(1).len() == 1 {
                assert(rest == parts.skip(1)[0]);
                assert(rest[0] != sep);
            } else {
                assert(rest == parts.skip(1)[0] + seq![sep] + join(parts.skip(1).skip(1), sep));
                assert(rest[0] == parts.skip(1)[0][0]);
                assert(rest[0] != sep);
            }
        }
        assert forall|i: int| 0 <= i < s.len() - 1 implies !((#[trigger] s[i]) == sep && s[i + 1]
            == sep) by {
            if i < l {
                assert(s[i] == parts[0][i]);
                assert(s[i] != sep);
            } else if i == l {
                assert(s[i + 1] == rest[0]);
            } else {
                assert(s[i] == rest[i - l - 1]);
                assert(s[i + 1] == rest[i - l]);
            }
        }
    }
}

/// A join of parts free of some other character stays free of it, provided
/// the separator is not that character.
pub proof fn lemma_join_sep_free(parts: Seq<Seq<char>>, sep: char, other: char)
    requires
        other != sep,
        forall|k: int| 0 <= k < parts.len() ==> sep_free(#[trigger] parts[k], other),
    ensures
        sep_free(join(parts, sep), other),
    decreases parts.len(),
{
    if parts.len() <= 1 {
    } else {
        let l = parts[0].len() as int;
        let rest = join(parts.skip(1), sep);
        assert(join(parts, sep) == parts[0] + seq![sep] + rest);
        lemma_join_sep_free(parts.skip(1), sep, other);
        assert forall|i: int| 0 <= i < join(parts, sep).len() implies #[trigger] join(parts, sep)[i]
            != other by {
            if i < l {
                assert(join(parts, sep)[i] == parts[0][i]);
            } else if i == l {
                assert(join(parts, sep)[i] == sep);
            } else {
                assert(join(parts, sep)[i] == rest[i - l - 1]);
            }
        }
    }
}

/// Splitting text built as a separator-free part, the separator, and a
/// remainder recovers the part and the remainder.
pub proof fn lemma_split_first_concat(t: Seq<char>, r: Seq<char>, sep: char)
    requires
        sep_free(t, sep),
    ensures
        split_first(t + seq![sep] + r, sep) == Some((t, r)),
{
    let s = t + seq![sep] + r;
    let l = t.len() as int;
    assert(s[l] == sep);
    assert(sep_free(s.take(l), sep)) by {
        assert(s.take(l) =~= t);
    }
    lemma_split_first_at(s, sep, l);
    assert(s.take(l) =~= t);
    assert(s.skip(l + 1) =~= r);
}

/// The views of a sequence of owned strings.
pub open spec fn views_of(ts: Seq<String>) -> Seq<Seq<char>> {
    ts.map_values(|t: String| t@)
}

/// The index of the first occurrence of `sep` in `s`, or `None`, together
/// with what the first split yields there.
pub fn find_char(s: &str, sep: char) -> (r: Option<usize>)
    ensures
        match r {
            Some(i) => i < s@.len() && s@[i as int] == sep && sep_free(s@.take(i as int), sep)
                && split_first(s@, sep) == Some((s@.take(i as int), s@.skip(i as int + 1))),
            None => sep_free(s@, sep) && split_first(s@, sep) is None,
        },
{
    let n = s.unicode_len();
    let mut i: usize = 0;
    while i < n
        invariant
            n == s@.len(),
            i <= n,
            forall|j: int| 0 <= j < i ==> s@[j] != sep,
        decreases n - i,
    {
        if s.get_char(i) == sep {
            proof {
                assert(sep_free(s@.take(i as int), sep)) by {
                    assert forall|j: int| 0 <= j < i implies #[trigger] s@.take(i as int)[j] != sep by {
                        assert(s@.take(i as int)[j] == s@[j]);
                    }
                }
                lemma_split_first_at(s@, sep, i as int);
            }
            return Some(i);
        }
        i += 1;
    }
    proof {
        lemma_split_first_none(s@, sep);
    }
    None
}

/// Character-by-character string equality, so that contracts can speak of
/// view equality.
pub fn str_eq(a: &str, b: &str) -> (r: bool)
    ensures
        r == (a@ == b@),
{
    let an = a.unicode_len();
    let bn = b.unicode_len();
    if an != bn {
        return false;
    }
    let mut i: usize = 0;
    while i < an
        invariant
            an == a@.len(),
            bn == b@.len(),
            an == bn,
            i <= an,
            forall|j: int| 0 <= j < i ==> a@[j] == b@[j],
        decreases an - i,
    {
        if a.get_char(i) != b.get_char(i) {
            return false;
        }
        i += 1;
    }
    proof {
        assert(a@ =~= b@);
    }
    true
}

/// Split into exactly two parts at the first occurrence of `sep`, or fail
/// with an arity error carrying the whole input.
pub fn tuple2_from_split(s: &str, sep: char) -> (r: Result<(String, String), ParseError>)
    ensures
        match r {
            Ok(p) => split_first(s@, sep) == Some((p.0@, p.1@)),
            Err(e) => {
                &&& split_first(s@, sep) is None
                &&& e matches ParseError::Arity { expected, input }
                &&& expected == 2
                &&& input@ == s@
            },
        },
{
    match find_char(s, sep) {
        Some(i) => {
            let n = s.unicode_len();
            let left = s.substring_char(0, i).to_owned();
            let right = s.substring_char(i + 1, n).to_owned();
            proof {
                assert(s@.subrange(0, i as int) =~= s@.take(i as int));
                assert(s@.subrange(i as int + 1, n as int) =~= s@.skip(i as int + 1));
            }
            Ok((left, right))
        },
        None => Err(ParseError::Arity { expected: 2, input: s.to_owned() }),
    }
}

/// Split into exactly three parts: at the first occurrence of `sep`, then at
/// the first occurrence within the remainder; or fail with an arity error
/// carrying the whole input.
pub fn tuple3_from_split(s: &str, sep: char) -> (r: Result<
    (String, String, String),
    ParseError,
>)
    ensures
        match r {
            Ok(p) => split3_first(s@, sep) == Some((p.0@, p.1@, p.2@)),
            Err(e) => {
                &&& split3_first(s@, sep) is None
                &&& e matches ParseError::Arity { expected, input }
                &&& expected == 3
                &&& input@ == s@
            },
        },
{
    match tuple2_from_split(s, sep) {
        Err(_) => Err(ParseError::Arity { expected: 3, input: s.to_owned() }),
        Ok((a, rest)) => match tuple2_from_split(rest.as_str(), sep) {
            Err(_) => Err(ParseError::Arity { expected: 3, input: s.to_owned() }),
            Ok((b, c)) => Ok((a, b, c)),
        },
    }
}

/// Split at every occurrence of `sep`, as the full split describes it.
pub fn split_all_vec(s: &str, sep: char) -> (r: Vec<String>)
    ensures
        views_of(r@) == split_all(s@, sep),
    decreases s@.len(),
{
    match find_char(s, sep) {
        None => {
            let mut v: Vec<String> = Vec::new();
            v.push(s.to_owned());
            proof {
                lemma_split_all_none(s@, sep);
                assert(views_of(v@) =~~= split_all(s@, sep));
            }
            v
        },
        Some(i) => {
            let n = s.unicode_len();
            let head = s.substring_char(0, i).to_owned();
            let tail = s.substring_char(i + 1, n);
            let mut rest = split_all_vec(tail, sep);
            proof {
                assert(s@.subrange(0, i as int) =~= s@.take(i as int));
                assert(s@.subrange(i as int + 1, n as int) =~= s@.skip(i as int + 1));
                lemma_split_all_at(s@, sep, i as int);
            }
            let mut v: Vec<String> = Vec::new();
            v.push(head);
            v.append(&mut rest);
            proof {
                assert(views_of(v@) =~~= split_all(s@, sep));
            }
            v
        },
    }
}

} // verus!
