//! Network-address literals as the connection line carries them: dotted
//! decimal IPv4 and colon-grouped hexadecimal IPv6, the latter with one
//! optional `::` run of elided zero groups.  Parsing and formatting are
//! verified inverse on well-formed addresses, formatting writing the
//! uncompressed lowercase canonical text.

use vstd::prelude::*;

use crate::num::{
    dec_string, hex_string, hex_val, is_digit, is_digits, is_hex_digit, is_hex_group,
    lemma_dec_string_first,
    lemma_dec_string_len, lemma_dec_string_val, lemma_hex_string_val, parse_hex_group, pow10,
    u16_to_hex, u64_to_dec, uint_val,
};
use crate::util::{
    join, lemma_join_no_adjacent, lemma_join_push, lemma_join_sep_free, lemma_split_all_none,
    lemma_split_join,
    sep_free, split_all, split_all_vec, views_of,
};

verus! {

/// A network address: four dotted decimal octets, or eight 16-bit groups.
#[derive(Debug, PartialEq, Eq)]
pub enum Ip {
    V4 { a: u8, b: u8, c: u8, d: u8 },
    V6 { groups: Vec<u16> },
}

/// The mathematical content of a network address.
pub enum IpView {
    V4 { a: u8, b: u8, c: u8, d: u8 },
    V6 { groups: Seq<u16> },
}

impl View for Ip {
    type V = IpView;

    open spec fn view(&self) -> IpView {
        match self {
            Ip::V4 { a, b, c, d } => IpView::V4 { a: *a, b: *b, c: *c, d: *d },
            Ip::V6 { groups } => IpView::V6 { groups: groups@ },
        }
    }
}

/// A well-formed address: an IPv6 value holds exactly eight groups.
pub open spec fn ip_wf(ip: IpView) -> bool {
    match ip {
        IpView::V4 { .. } => true,
        IpView::V6 { groups } => groups.len() == 8,
    }
}

/// One dotted-decimal octet: one to three digits, no leading zero, value at
/// most 255.
pub open spec fn is_octet(s: Seq<char>) -> bool {
    &&& is_digits(s)
    &&& s.len() <= 3
    &&& uint_val(s) <= 255
    &&& (s.len() > 1 ==> s[0] != '0')
}

/// What a dotted-decimal IPv4 literal parses to: exactly four octets.
pub open spec fn spec_parse_ipv4(s: Seq<char>) -> Option<IpView> {
    let parts = split_all(s, '.');
    if parts.len() == 4 && is_octet(parts[0]) && is_octet(parts[1]) && is_octet(parts[2])
        && is_octet(parts[3]) {
        Some(
            IpView::V4 {
                a: uint_val(parts[0]) as u8,
                b: uint_val(parts[1]) as u8,
                c: uint_val(parts[2]) as u8,
                d: uint_val(parts[3]) as u8,
            },
        )
    } else {
        None
    }
}

/// The split at the first `::`: the text before it and the text after it,
/// or `None` when no two neighbouring colons occur.
pub open spec fn split_double_colon(s: Seq<char>) -> Option<(Seq<char>, Seq<char>)>
    decreases s.len(),
{
    if s.len() < 2 {
        None
    } else if s[0] == ':' && s[1] == ':' {
        Some((Seq::<char>::empty(), s.skip(2)))
    } else {
        match split_double_colon(s.skip(1)) {
            None => None,
            Some(p) => Some((seq![s[0]] + p.0, p.1)),
        }
    }
}

/// Every part is a hexadecimal group.
pub open spec fn all_hex_groups(parts: Seq<Seq<char>>) -> bool {
    forall|i: int| 0 <= i < parts.len() ==> is_hex_group(#[trigger] parts[i])
}

/// The group values of hexadecimal parts.
pub open spec fn group_vals(parts: Seq<Seq<char>>) -> Seq<u16> {
    parts.map_values(|p: Seq<char>| (hex_val(p) as u16))
}

/// One side of a `::`: no groups when empty, else every colon-delimited part
/// must be a hexadecimal group.
pub open spec fn side_groups(s: Seq<char>) -> Option<Seq<Seq<char>>> {
    if s.len() == 0 {
        Some(Seq::<Seq<char>>::empty())
    } else {
        let parts = split_all(s, ':');
        if all_hex_groups(parts) {
            Some(parts)
        } else {
            None
        }
    }
}

/// What a colon-grouped IPv6 literal parses to.  Without `::`, exactly eight
/// hexadecimal groups.  With one `::`, at most seven groups on the two sides
/// together, the elision standing for the missing zero groups.
pub open spec fn spec_parse_ipv6(s: Seq<char>) -> Option<IpView> {
    match split_double_colon(s) {
        None => {
            let parts = split_all(s, ':');
            if parts.len() == 8 && all_hex_groups(parts) {
                Some(IpView::V6 { groups: group_vals(parts) })
            } else {
                None
            }
        },
        Some(p) => match (side_groups(p.0), side_groups(p.1)) {
            (Some(l), Some(r)) => if l.len() + r.len() <= 7 {
                Some(
                    IpView::V6 {
                        groups: group_vals(l) + Seq::new((8 - l.len() - r.len()) as nat, |i: int| 0u16)
                            + group_vals(r),
                    },
                )
            } else {
                None
            },
            _ => None,
        },
    }
}

/// What an address literal parses to: dotted decimal first, then colon
/// grouping.
pub open spec fn spec_parse_ip(s: Seq<char>) -> Option<IpView> {
    match spec_parse_ipv4(s) {
        Some(v) => Some(v),
        None => spec_parse_ipv6(s),
    }
}

/// The shortest hexadecimal spellings of a group sequence.
pub open spec fn hex_strings_of(groups: Seq<u16>) -> Seq<Seq<char>> {
    groups.map_values(|g: u16| hex_string(g as nat))
}

/// The canonical text of an address: dotted shortest decimal, or
/// colon-joined shortest lowercase hexadecimal with nothing elided.
pub open spec fn ip_string(ip: IpView) -> Seq<char> {
    match ip {
        IpView::V4 { a, b, c, d } => join(
            seq![
                dec_string(a as nat),
                dec_string(b as nat),
                dec_string(c as nat),
                dec_string(d as nat),
            ],
            '.',
        ),
        IpView::V6 { groups } => join(hex_strings_of(groups), ':'),
    }
}

/// Parse one dotted-decimal octet.  `None` exactly when the text is not an
/// octet.
fn parse_octet(s: &str) -> (r: Option<u8>)
    ensures
        match r {
            Some(v) => is_octet(s@) && v == uint_val(s@),
            None => !is_octet(s@),
        },
{
    let n = s.unicode_len();
    if n == 0 || n > 3 {
        return None;
    }
    if n > 1 && s.get_char(0) == '0' {
        return None;
    }
    let mut acc: u16 = 0;
    let mut i: usize = 0;
    while i < n
        invariant
            n == s@.len(),
            1 <= n <= 3,
            i <= n,
            forall|j: int| 0 <= j < i ==> is_digit(#[trigger] s@[j]),
            acc == uint_val(s@.take(i as int)),
            i == 0 ==> acc == 0,
            i == 1 ==> acc <= 9,
            i == 2 ==> acc <= 99,
            i == 3 ==> acc <= 999,
        decreases n - i,
    {
        let c = s.get_char(i);
        let cv = c as u32;
        if cv < 48 || cv > 57 {
            proof {
                assert(!is_digit(s@[i as int]));
            }
            return None;
        }
        proof {
            assert(s@.take(i + 1).drop_last() =~= s@.take(i as int));
            assert(s@.take(i + 1).last() == s@[i as int]);
        }
        acc = acc * 10 + ((cv - 48) as u16);
        i += 1;
    }
    proof {
        assert(s@.take(n as int) =~= s@);
        assert(is_digits(s@));
    }
    if acc > 255 {
        return None;
    }
    Some(acc as u8)
}

/// Parse a dotted-decimal IPv4 literal.  `None` exactly when the dotted
/// parts are not four octets.
pub fn parse_ipv4(s: &str) -> (r: Option<Ip>)
    ensures
        match r {
            Some(ip) => spec_parse_ipv4(s@) == Some(ip@),
            None => spec_parse_ipv4(s@) is None,
        },
{
    let parts = split_all_vec(s, '.');
    proof {
        assert(views_of(parts@).len() == parts@.len());
    }
    if parts.len() != 4 {
        return None;
    }
    proof {
        assert(views_of(parts@)[0] == parts@[0]@);
        assert(views_of(parts@)[1] == parts@[1]@);
        assert(views_of(parts@)[2] == parts@[2]@);
        assert(views_of(parts@)[3] == parts@[3]@);
    }
    let a = match parse_octet(parts[0].as_str()) {
        None => {
            return None;
        },
        Some(v) => v,
    };
    let b = match parse_octet(parts[1].as_str()) {
        None => {
            return None;
        },
        Some(v) => v,
    };
    let c = match parse_octet(parts[2].as_str()) {
        None => {
            return None;
        },
        Some(v) => v,
    };
    let d = match parse_octet(parts[3].as_str()) {
        None => {
            return None;
        },
        Some(v) => v,
    };
    Some(Ip::V4 { a, b, c, d })
}

/// The index of the first `::`, as a first split there, or `None`; the
/// executable counterpart of the double-colon split.
fn find_double_colon(s: &str) -> (r: Option<usize>)
    ensures
        match r {
            Some(i) => i + 1 < s@.len() && s@[i as int] == ':' && s@[i as int + 1] == ':'
                && split_double_colon(s@) == Some((s@.take(i as int), s@.skip(i as int + 2))),
            None => split_double_colon(s@) is None,
        },
{
    let n = s.unicode_len();
    if n < 2 {
        proof {
            lemma_split_double_colon_none(s@);
        }
        return None;
    }
    let mut i: usize = 0;
    while i + 1 < n
        invariant
            n == s@.len(),
            n >= 2,
            i <= n - 1,
            forall|j: int| 0 <= j < i ==> !((#[trigger] s@[j]) == ':' && s@[j + 1] == ':'),
        decreases n - i,
    {
        if s.get_char(i) == ':' && s.get_char(i + 1) == ':' {
            proof {
                lemma_split_double_colon_at(s@, i as int);
            }
            return Some(i);
        }
        i += 1;
    }
    proof {
        lemma_split_double_colon_none(s@);
    }
    None
}

/// When the first pair of neighbouring colons starts at `i`, the
/// double-colon split is the text before `i` and the text after `i + 2`.
proof fn lemma_split_double_colon_at(s: Seq<char>, i: int)
    requires
        0 <= i,
        i + 1 < s.len(),
        s[i] == ':',
        s[i + 1] == ':',
        forall|j: int| 0 <= j < i ==> !((#[trigger] s[j]) == ':' && s[j + 1] == ':'),
    ensures
        split_double_colon(s) == Some((s.take(i), s.skip(i + 2))),
    decreases i,
{
    if i == 0 {
        assert(s.take(0) =~= Seq::<char>::empty());
    } else {
        assert(!(s[0] == ':' && s[1] == ':'));
        assert(s.skip(1)[i - 1] == s[i]);
        assert(s.skip(1)[i] == s[i + 1]);
        assert(forall|j: int| 0 <= j < i - 1 ==> !(#[trigger] s.skip(1)[j] == ':' && s.skip(1)[j
            + 1] == ':'));
        lemma_split_double_colon_at(s.skip(1), i - 1);
        assert(seq![s[0]] + s.skip(1).take(i - 1) =~= s.take(i));
        assert(s.skip(1).skip(i + 1) =~= s.skip(i + 2));
    }
}

/// When no two neighbouring colons occur, the double-colon split fails.
proof fn lemma_split_double_colon_none(s: Seq<char>)
    requires
        forall|j: int| 0 <= j < s.len() - 1 ==> !((#[trigger] s[j]) == ':' && s[j + 1] == ':'),
    ensures
        split_double_colon(s) is None,
    decreases s.len(),
{
    if s.len() >= 2 {
        assert(forall|j: int| 0 <= j < s.skip(1).len() - 1 ==> !(#[trigger] s.skip(1)[j] == ':'
            && s.skip(1)[j + 1] == ':'));
        lemma_split_double_colon_none(s.skip(1));
    }
}

/// Parse the colon-delimited groups of one side of a `::`, or of a whole
/// uncompressed literal.
fn parse_groups(s: &str) -> (r: Option<Vec<u16>>)
    ensures
        ({
            let parts = split_all(s@, ':');
            match r {
                Some(g) => all_hex_groups(parts) && g@ == group_vals(parts),
                None => !all_hex_groups(parts),
            }
        }),
{
    let parts = split_all_vec(s, ':');
    let ghost sparts = split_all(s@, ':');
    let mut groups: Vec<u16> = Vec::new();
    let n = parts.len();
    let mut i: usize = 0;
    proof {
        assert(views_of(parts@).len() == sparts.len());
    }
    while i < n
        invariant
            n == parts@.len(),
            i <= n,
            sparts == split_all(s@, ':'),
            views_of(parts@) == sparts,
            groups@.len() == i,
            forall|j: int| 0 <= j < i ==> is_hex_group(#[trigger] sparts[j]),
            forall|j: int| 0 <= j < i ==> groups@[j] == hex_val(sparts[j]) as u16,
        decreases n - i,
    {
        proof {
            assert(views_of(parts@)[i as int] == parts@[i as int]@);
        }
        match parse_hex_group(parts[i].as_str()) {
            None => {
                proof {
                    assert(!is_hex_group(sparts[i as int]));
                }
                return None;
            },
            Some(v) => {
                groups.push(v);
            },
        }
        i += 1;
    }
    proof {
        assert(groups@ =~= group_vals(sparts));
    }
    Some(groups)
}

/// Parse a colon-grouped IPv6 literal.  `None` exactly when neither the
/// uncompressed nor the one-`::` form matches.
pub fn parse_ipv6(s: &str) -> (r: Option<Ip>)
    ensures
        match r {
            Some(ip) => spec_parse_ipv6(s@) == Some(ip@) && ip_wf(ip@),
            None => spec_parse_ipv6(s@) is None,
        },
{
    let n = s.unicode_len();
    match find_double_colon(s) {
        None => {
            match parse_groups(s) {
                None => None,
                Some(groups) => {
                    if groups.len() != 8 {
                        return None;
                    }
                    proof {
                        assert(groups@ =~= group_vals(split_all(s@, ':')));
                    }
                    Some(Ip::V6 { groups })
                },
            }
        },
        Some(i) => {
            let left = s.substring_char(0, i);
            let right = s.substring_char(i + 2, n);
            proof {
                assert(left@ =~= s@.take(i as int));
                assert(right@ =~= s@.skip(i as int + 2));
            }
            let lg: Vec<u16> = if left.unicode_len() == 0 {
                Vec::new()
            } else {
                match parse_groups(left) {
                    None => {
                        return None;
                    },
                    Some(g) => g,
                }
            };
            let rg: Vec<u16> = if right.unicode_len() == 0 {
                Vec::new()
            } else {
                match parse_groups(right) {
                    None => {
                        return None;
                    },
                    Some(g) => g,
                }
            };
            let ghost lparts = side_groups(left@)->0;
            let ghost rparts = side_groups(right@)->0;
            proof {
                if left@.len() == 0 {
                    assert(lg@ =~= group_vals(lparts));
                }
                if right@.len() == 0 {
                    assert(rg@ =~= group_vals(rparts));
                }
            }
            if lg.len() > 7 || rg.len() > 7 - lg.len() {
                proof {
                    assert(lparts.len() + rparts.len() > 7);
                }
                return None;
            }
            let fill: usize = 8 - lg.len() - rg.len();
            let mut groups: Vec<u16> = lg;
            let mut k: usize = 0;
            proof {
                assert(groups@ =~= group_vals(lparts) + Seq::new(0nat, |j: int| 0u16));
            }
            while k < fill
                invariant
                    k <= fill,
                    groups@ == group_vals(lparts) + Seq::new(k as nat, |j: int| 0u16),
                decreases fill - k,
            {
                groups.push(0);
                proof {
                    assert(group_vals(lparts) + Seq::new((k + 1) as nat, |j: int| 0u16)
                        =~= (group_vals(lparts) + Seq::new(k as nat, |j: int| 0u16)).push(0u16));
                }
                k += 1;
            }
            let mut rtail = rg;
            groups.append(&mut rtail);
            proof {
                let spec_mid = Seq::new((8 - lparts.len() - rparts.len()) as nat, |j: int| 0u16);
                assert(groups@ =~= group_vals(lparts) + spec_mid + group_vals(rparts));
            }
            Some(Ip::V6 { groups })
        },
    }
}

/// Parse an address literal: dotted decimal first, then colon grouping, as
/// the address description says.  `None` exactly when neither form matches.
pub fn parse_ip(s: &str) -> (r: Option<Ip>)
    ensures
        match r {
            Some(ip) => spec_parse_ip(s@) == Some(ip@) && ip_wf(ip@),
            None => spec_parse_ip(s@) is None,
        },
{
    match parse_ipv4(s) {
        Some(ip) => Some(ip),
        None => parse_ipv6(s),
    }
}

impl Ip {
    /// Write the canonical text of this address.
    pub fn to_string(&self) -> (r: String)
        ensures
            r@ == ip_string(self@),
    {
        match self {
            Ip::V4 { a, b, c, d } => {
                let mut out = u64_to_dec(*a as u64);
                out.append(".");
                out.append(u64_to_dec(*b as u64).as_str());
                out.append(".");
                out.append(u64_to_dec(*c as u64).as_str());
                out.append(".");
                out.append(u64_to_dec(*d as u64).as_str());
                proof {
                    reveal_strlit(".");
                    let ps = seq![
                        dec_string(*a as nat),
                        dec_string(*b as nat),
                        dec_string(*c as nat),
                        dec_string(*d as nat),
                    ];
                    assert(ps.skip(1) =~~= seq![
                        dec_string(*b as nat),
                        dec_string(*c as nat),
                        dec_string(*d as nat),
                    ]);
                    assert(ps.skip(1).skip(1) =~~= seq![dec_string(*c as nat), dec_string(*d as nat)]);
                    assert(ps.skip(1).skip(1).skip(1) =~~= seq![dec_string(*d as nat)]);
                    assert(("."@) =~= seq!['.']);
                    assert(join(ps.skip(1).skip(1).skip(1), '.') == dec_string(*d as nat));
                    assert(join(ps.skip(1).skip(1), '.') == ps.skip(1).skip(1)[0] + seq!['.']
                        + join(ps.skip(1).skip(1).skip(1), '.'));
                    assert(join(ps.skip(1), '.') == ps.skip(1)[0] + seq!['.'] + join(
                        ps.skip(1).skip(1),
                        '.',
                    ));
                    assert(join(ps, '.') == ps[0] + seq!['.'] + join(ps.skip(1), '.'));
                    assert(out@ =~= join(ps, '.'));
                }
                out
            },
            Ip::V6 { groups } => {
                let ghost hs = hex_strings_of(groups@);
                if groups.len() == 0 {
                    proof {
                        assert(hs.len() == 0);
                    }
                    return String::new();
                }
                let mut out = u16_to_hex(groups[0]);
                proof {
                    assert(hs.take(1) =~~= seq![hex_string(groups@[0] as nat)]);
                    assert(out@ =~= join(hs.take(1), ':'));
                }
                let n = groups.len();
                let mut i: usize = 1;
                while i < n
                    invariant
                        n == groups@.len(),
                        1 <= i <= n,
                        hs == hex_strings_of(groups@),
                        out@ == join(hs.take(i as int), ':'),
                    decreases n - i,
                {
                    out.append(":");
                    out.append(u16_to_hex(groups[i]).as_str());
                    proof {
                        reveal_strlit(":");
                        lemma_join_push(hs.take(i as int), hs[i as int], ':');
                        assert(hs.take(i + 1) =~~= hs.take(i as int).push(hs[i as int]));
                        assert(hs[i as int] == hex_string(groups@[i as int] as nat));
                        assert(out@ =~= join(hs.take(i + 1), ':'));
                    }
                    i += 1;
                }
                proof {
                    assert(hs.take(n as int) =~~= hs);
                }
                out
            },
        }
    }
}

/// Every address an address literal parses to is well-formed: the colon
/// forms always yield exactly eight groups.
pub proof fn lemma_parsed_ip_wf(s: Seq<char>)
    ensures
        match spec_parse_ip(s) {
            Some(ip) => ip_wf(ip),
            None => true,
        },
{
    if spec_parse_ipv4(s) is None {
        match split_double_colon(s) {
            None => {},
            Some(p) => {
                match (side_groups(p.0), side_groups(p.1)) {
                    (Some(l), Some(r)) => {
                        if l.len() + r.len() <= 7 {
                            assert(group_vals(l).len() == l.len());
                            assert(group_vals(r).len() == r.len());
                        }
                    },
                    _ => {},
                }
            },
        }
    }
}

/// A decimal octet spelling is an octet, re-parses to its value, and holds
/// no dot.
proof fn lemma_octet_string(v: u8)
    ensures
        is_octet(dec_string(v as nat)),
        uint_val(dec_string(v as nat)) == v,
        sep_free(dec_string(v as nat), '.'),
        dec_string(v as nat).len() > 0,
{
    lemma_dec_string_val(v as nat);
    lemma_dec_string_first(v as nat);
    assert(pow10(0) == 1);
    assert(pow10(1) == 10);
    assert(pow10(2) == 100);
    assert(pow10(3) == 1000);
    lemma_dec_string_len(v as nat, 3);
    assert forall|i: int| 0 <= i < dec_string(v as nat).len() implies #[trigger] dec_string(
        v as nat,
    )[i] != '.' by {
        assert(is_digit(dec_string(v as nat)[i]));
    }
}

/// A hexadecimal group spelling is a group, re-parses to its value, and
/// holds neither colon nor dot.
proof fn lemma_group_string(g: u16)
    ensures
        is_hex_group(hex_string(g as nat)),
        hex_val(hex_string(g as nat)) == g,
        sep_free(hex_string(g as nat), ':'),
        sep_free(hex_string(g as nat), '.'),
        hex_string(g as nat).len() > 0,
{
    lemma_hex_string_val(g as nat);
    assert forall|i: int| 0 <= i < hex_string(g as nat).len() implies #[trigger] hex_string(
        g as nat,
    )[i] != ':' && hex_string(g as nat)[i] != '.' by {
        assert(is_hex_digit(hex_string(g as nat)[i]));
    }
}

/// Law: parsing the canonical text of a well-formed address yields that
/// address again, so formatting then parsing is the identity.
pub proof fn lemma_ip_round_trip(ip: IpView)
    requires
        ip_wf(ip),
    ensures
        spec_parse_ip(ip_string(ip)) == Some(ip),
{
    match ip {
        IpView::V4 { a, b, c, d } => {
            let ps = seq![
                dec_string(a as nat),
                dec_string(b as nat),
                dec_string(c as nat),
                dec_string(d as nat),
            ];
            let s = ip_string(ip);
            lemma_octet_string(a);
            lemma_octet_string(b);
            lemma_octet_string(c);
            lemma_octet_string(d);
            assert(forall|k: int| 0 <= k < ps.len() ==> sep_free(#[trigger] ps[k], '.'));
            lemma_split_join(ps, '.');
            assert(split_all(s, '.') == ps);
            assert(spec_parse_ipv4(s) == Some(ip));
        },
        IpView::V6 { groups } => {
            let ps = hex_strings_of(groups);
            let s = ip_string(ip);
            assert(s == join(ps, ':'));
            assert(ps.len() == 8);
            assert forall|k: int| 0 <= k < ps.len() implies is_hex_group(#[trigger] ps[k])
                && sep_free(ps[k], ':') && sep_free(ps[k], '.') && ps[k].len() > 0
                && hex_val(ps[k]) == groups[k] by {
                assert(ps[k] == hex_string(groups[k] as nat));
                lemma_group_string(groups[k]);
            }
            lemma_split_join(ps, ':');
            assert(split_all(s, ':') == ps);
            // the dotted form fails: the text holds no dot at all
            lemma_join_sep_free(ps, ':', '.');
            lemma_split_all_none(s, '.');
            assert(split_all(s, '.').len() == 1);
            assert(spec_parse_ipv4(s) is None);
            // no two neighbouring colons occur, so nothing reads as elision
            lemma_join_no_adjacent(ps, ':');
            lemma_split_double_colon_none(s);
            assert(all_hex_groups(ps));
            assert(group_vals(ps) =~= groups);
            assert(spec_parse_ipv6(s) == Some(ip));
        },
    }
}

} // verus!
