//! The format-parameters attribute: a payload type and a semicolon-delimited
//! list of parameters, each a name with an optional value after the first
//! `=`.  The parameters form a mapping; a repeated name keeps only its last
//! occurrence.

use vstd::prelude::*;

use crate::errors::ParseError;
use crate::num::{is_uint_str, parse_u8, uint_str_val};
use crate::util::{split_all, split_all_vec, split_first, str_eq, tuple2_from_split, views_of};

verus! {

/// The format-specific parameters of one payload type, as the `fmtp`
/// attribute carries them.  The parameter list keeps one entry per name; a
/// name that occurs again overwrites its earlier entry in place.
#[derive(Debug, PartialEq, Eq)]
pub struct Fmtp {
    pub key: u8,
    pub values: Vec<(String, Option<String>)>,
}

/// The mathematical content of a format-parameters attribute: the payload
/// type and the parameter mapping.
pub struct FmtpView {
    pub key: u8,
    pub values: Map<Seq<char>, Option<Seq<char>>>,
}

/// The view of an optional value text.
pub open spec fn opt_view(v: Option<String>) -> Option<Seq<char>> {
    match v {
        None => None,
        Some(t) => Some(t@),
    }
}

/// The view of one parameter entry.
pub open spec fn entry_view(e: (String, Option<String>)) -> (Seq<char>, Option<Seq<char>>) {
    (e.0@, opt_view(e.1))
}

/// The views of a parameter list's entries.
pub open spec fn entries_of(values: Seq<(String, Option<String>)>) -> Seq<
    (Seq<char>, Option<Seq<char>>),
> {
    values.map_values(|e: (String, Option<String>)| entry_view(e))
}

/// The mapping a sequence of entries denotes, later entries overwriting
/// earlier ones.
pub open spec fn entries_map(es: Seq<(Seq<char>, Option<Seq<char>>)>) -> Map<
    Seq<char>,
    Option<Seq<char>>,
>
    decreases es.len(),
{
    if es.len() == 0 {
        Map::empty()
    } else {
        entries_map(es.drop_last()).insert(es.last().0, es.last().1)
    }
}

/// No two entries share a name.
pub open spec fn keys_unique(es: Seq<(Seq<char>, Option<Seq<char>>)>) -> bool {
    forall|i: int, j: int| 0 <= i < j < es.len() ==> (#[trigger] es[i]).0 != (#[trigger] es[j]).0
}

/// One parameter, split at its first `=`: the name alone when no `=` occurs,
/// the name and the value otherwise.
pub open spec fn param_of(part: Seq<char>) -> (Seq<char>, Option<Seq<char>>) {
    match split_first(part, '=') {
        None => (part, None),
        Some(p) => (p.0, Some(p.1)),
    }
}

/// The mapping a semicolon-delimited parameter list denotes.
pub open spec fn params_map(parts: Seq<Seq<char>>) -> Map<Seq<char>, Option<Seq<char>>>
    decreases parts.len(),
{
    if parts.len() == 0 {
        Map::empty()
    } else {
        params_map(parts.drop_last()).insert(param_of(parts.last()).0, param_of(parts.last()).1)
    }
}

/// What a value text parses to: the decimal payload type up to the first
/// space, then the parameter mapping of the semicolon-delimited remainder.
pub open spec fn spec_parse_fmtp(s: Seq<char>) -> Option<FmtpView> {
    match split_first(s, ' ') {
        None => None,
        Some(p) => if is_uint_str(p.0) && uint_str_val(p.0) <= u8::MAX {
            Some(
                FmtpView { key: uint_str_val(p.0) as u8, values: params_map(split_all(p.1, ';')) },
            )
        } else {
            None
        },
    }
}

/// Overwriting the entry that holds a name leaves the denoted mapping as an
/// insertion for that name.
proof fn lemma_entries_map_update(
    es: Seq<(Seq<char>, Option<Seq<char>>)>,
    j: int,
    e: (Seq<char>, Option<Seq<char>>),
)
    requires
        0 <= j < es.len(),
        es[j].0 == e.0,
        keys_unique(es),
    ensures
        entries_map(es.update(j, e)) == entries_map(es).insert(e.0, e.1),
    decreases es.len(),
{
    if j == es.len() - 1 {
        assert(es.update(j, e).drop_last() =~= es.drop_last());
        assert(es.update(j, e).last() == e);
        assert(entries_map(es.drop_last()).insert(es.last().0, es.last().1).insert(e.0, e.1)
            =~= entries_map(es.drop_last()).insert(e.0, e.1));
    } else {
        assert(es.update(j, e).drop_last() =~= es.drop_last().update(j, e));
        assert(es.update(j, e).last() == es.last());
        assert(keys_unique(es.drop_last()));
        lemma_entries_map_update(es.drop_last(), j, e);
        assert(es.last().0 != e.0);
        assert(entries_map(es.drop_last()).insert(e.0, e.1).insert(es.last().0, es.last().1)
            =~= entries_map(es.drop_last()).insert(es.last().0, es.last().1).insert(e.0, e.1));
    }
}

/// Whether the entries hold a name, read off the denoted mapping's domain.
proof fn lemma_entries_map_dom(es: Seq<(Seq<char>, Option<Seq<char>>)>, k: Seq<char>)
    ensures
        entries_map(es).dom().contains(k) <==> exists|i: int|
            0 <= i < es.len() && (#[trigger] es[i]).0 == k,
    decreases es.len(),
{
    if es.len() > 0 {
        lemma_entries_map_dom(es.drop_last(), k);
        if entries_map(es).dom().contains(k) {
            if es.last().0 == k {
                assert(es[es.len() - 1].0 == k);
            } else {
                let i = choose|i: int|
                    0 <= i < es.drop_last().len() && (#[trigger] es.drop_last()[i]).0 == k;
                assert(es[i].0 == k);
            }
        }
        if exists|i: int| 0 <= i < es.len() && (#[trigger] es[i]).0 == k {
            let i = choose|i: int| 0 <= i < es.len() && (#[trigger] es[i]).0 == k;
            if i < es.len() - 1 {
                assert(es.drop_last()[i].0 == k);
            }
        }
    }
}

/// When no later entry holds the name, the denoted mapping takes the name's
/// value from the entry that holds it.
proof fn lemma_entries_map_at(es: Seq<(Seq<char>, Option<Seq<char>>)>, j: int, k: Seq<char>)
    requires
        0 <= j < es.len(),
        es[j].0 == k,
        forall|i: int| j < i < es.len() ==> (#[trigger] es[i]).0 != k,
    ensures
        entries_map(es).dom().contains(k),
        entries_map(es)[k] == es[j].1,
    decreases es.len(),
{
    if j < es.len() - 1 {
        assert(es.drop_last()[j] == es[j]);
        lemma_entries_map_at(es.drop_last(), j, k);
        assert(es[es.len() - 1].0 != k);
    }
}

/// Insert one parameter, keeping one entry per name: overwrite in place when
/// the name is already held, append otherwise.
fn insert_param(values: &mut Vec<(String, Option<String>)>, name: String, val: Option<String>)
    requires
        keys_unique(entries_of(old(values)@)),
    ensures
        keys_unique(entries_of(final(values)@)),
        entries_map(entries_of(final(values)@)) == entries_map(entries_of(old(values)@)).insert(
            name@,
            opt_view(val),
        ),
{
    let ghost oldes = entries_of(old(values)@);
    let ghost e = (name@, opt_view(val));
    let n = values.len();
    let mut i: usize = 0;
    while i < n
        invariant
            n == values@.len(),
            i <= n,
            values@ == old(values)@,
            entries_of(values@) == oldes,
            keys_unique(oldes),
            e == (name@, opt_view(val)),
            forall|j: int| 0 <= j < i ==> (#[trigger] oldes[j]).0 != name@,
        decreases n - i,
    {
        proof {
            assert(oldes[i as int] == entry_view(values@[i as int]));
        }
        if str_eq(values[i].0.as_str(), name.as_str()) {
            values.remove(i);
            values.insert(i, (name, val));
            proof {
                assert(entries_of(values@) =~= oldes.update(i as int, e)) by {
                    assert(values@ =~= old(values)@.update(i as int, values@[i as int]));
                    assert(entry_view(values@[i as int]) == e);
                    assert forall|j: int| 0 <= j < values@.len() implies #[trigger] entries_of(
                        values@,
                    )[j] == oldes.update(i as int, e)[j] by {
                        if j != i {
                            assert(values@[j] == old(values)@[j]);
                        }
                    }
                }
                lemma_entries_map_update(oldes, i as int, e);
                assert(keys_unique(oldes.update(i as int, e))) by {
                    assert(oldes.update(i as int, e)[i as int].0 == oldes[i as int].0);
                }
            }
            return ;
        }
        i += 1;
    }
    values.push((name, val));
    proof {
        assert(entries_of(values@) =~= oldes.push(e)) by {
            assert(values@ =~= old(values)@.push(values@[values@.len() - 1]));
            assert(entry_view(values@[values@.len() - 1]) == e);
        }
        assert(oldes.push(e).drop_last() =~= oldes);
        assert(oldes.push(e).last() == e);
        assert(keys_unique(oldes.push(e))) by {
            assert forall|a: int, b: int|
                0 <= a < b < oldes.push(e).len() implies (#[trigger] oldes.push(e)[a]).0 != (
            #[trigger] oldes.push(e)[b]).0 by {
                if b < oldes.len() {
                    assert(oldes[a].0 != oldes[b].0);
                } else {
                    assert(oldes[a].0 != name@);
                }
            }
        }
    }
}

/// The failure a format-parameters parse surfaces: an arity error carrying
/// the whole text when no space occurs, else a numeric-format error
/// carrying the payload-type text.
pub open spec fn fmtp_err_matches(s: Seq<char>, e: ParseError) -> bool {
    match split_first(s, ' ') {
        None => {
            &&& e matches ParseError::Arity { expected, input }
            &&& expected == 2
            &&& input@ == s
        },
        Some(p) => {
            &&& e matches ParseError::Numeric { input }
            &&& input@ == p.0
        },
    }
}

impl Fmtp {
    /// Parse the value text of an `fmtp` attribute.  Fails with an arity
    /// error when no space occurs, and with a numeric-format error carrying
    /// the payload-type text when it is not a decimal byte; the parameter
    /// list itself never fails.
    pub fn try_from(value: &str) -> (r: Result<Fmtp, ParseError>)
        ensures
            match r {
                Ok(m) => spec_parse_fmtp(value@) == Some(m@) && m.wf(),
                Err(e) => spec_parse_fmtp(value@) is None && fmtp_err_matches(value@, e),
            },
    {
        match tuple2_from_split(value, ' ') {
            Err(e) => Err(e),
            Ok((code, rest)) => match parse_u8(code.as_str()) {
                Err(e) => Err(e),
                Ok(key) => {
                    let parts = split_all_vec(rest.as_str(), ';');
                    let ghost sparts = split_all(rest@, ';');
                    let mut values: Vec<(String, Option<String>)> = Vec::new();
                    let mut i: usize = 0;
                    proof {
                        assert(entries_of(values@) =~= Seq::<
                            (Seq<char>, Option<Seq<char>>),
                        >::empty());
                        assert(sparts.take(0) =~= Seq::<Seq<char>>::empty());
                    }
                    let n = parts.len();
                    while i < n
                        invariant
                            n == parts@.len(),
                            i <= n,
                            views_of(parts@) == sparts,
                            keys_unique(entries_of(values@)),
                            entries_map(entries_of(values@)) == params_map(sparts.take(i as int)),
                        decreases n - i,
                    {
                        proof {
                            assert(views_of(parts@)[i as int] == parts@[i as int]@);
                        }
                        let (name, val): (String, Option<String>) = match tuple2_from_split(
                            parts[i].as_str(),
                            '=',
                        ) {
                            Ok((a, b)) => (a, Some(b)),
                            Err(_) => (parts[i].clone(), None),
                        };
                        proof {
                            assert((name@, opt_view(val)) == param_of(sparts[i as int]));
                        }
                        insert_param(&mut values, name, val);
                        proof {
                            assert(sparts.take(i + 1).drop_last() =~= sparts.take(i as int));
                            assert(sparts.take(i + 1).last() == sparts[i as int]);
                        }
                        i += 1;
                    }
                    proof {
                        assert(sparts.take(n as int) =~= sparts);
                    }
                    Ok(Fmtp { key, values })
                },
            },
        }
    }

    /// One entry per parameter name.
    pub open spec fn wf(&self) -> bool {
        keys_unique(entries_of(self.values@))
    }

    /// The entry held for a parameter name: `None` when the name is not
    /// held, and otherwise the entry, itself an optional value text.
    pub fn get(&self, name: &str) -> (r: Option<Option<String>>)
        requires
            self.wf(),
        ensures
            match r {
                Some(v) => self@.values.dom().contains(name@) && self@.values[name@] == opt_view(v),
                None => !self@.values.dom().contains(name@),
            },
    {
        let ghost es = entries_of(self.values@);
        let n = self.values.len();
        let mut i: usize = 0;
        while i < n
            invariant
                n == self.values@.len(),
                es == entries_of(self.values@),
                keys_unique(es),
                i <= n,
                forall|j: int| 0 <= j < i ==> (#[trigger] es[j]).0 != name@,
            decreases n - i,
        {
            proof {
                assert(es[i as int] == entry_view(self.values@[i as int]));
            }
            if str_eq(self.values[i].0.as_str(), name) {
                let found: Option<String> = match &self.values[i].1 {
                    None => None,
                    Some(v) => Some(v.clone()),
                };
                proof {
                    lemma_entries_map_last_holder(es, i as int, name@);
                }
                return Some(found);
            }
            i += 1;
        }
        proof {
            lemma_entries_map_dom(es, name@);
        }
        None
    }
}

/// In a list with one entry per name, the entry found at `j` is the one the
/// denoted mapping holds for that name.
proof fn lemma_entries_map_last_holder(
    es: Seq<(Seq<char>, Option<Seq<char>>)>,
    j: int,
    k: Seq<char>,
)
    requires
        0 <= j < es.len(),
        es[j].0 == k,
        keys_unique(es),
    ensures
        entries_map(es).dom().contains(k),
        entries_map(es)[k] == es[j].1,
{
    assert(forall|i: int| j < i < es.len() ==> (#[trigger] es[i]).0 != k);
    lemma_entries_map_at(es, j, k);
}

impl View for Fmtp {
    type V = FmtpView;

    open spec fn view(&self) -> FmtpView {
        FmtpView { key: self.key, values: entries_map(entries_of(self.values@)) }
    }
}

} // verus!
