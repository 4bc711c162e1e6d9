//! The connection line: network type, address family, and the connection
//! address with its optional TTL and multicast-count suffixes, parsed and
//! formatted as verified inverses.

use vstd::prelude::*;

use crate::errors::ParseError;
use crate::ip::{
    hex_strings_of, ip_string, ip_wf, lemma_ip_round_trip, lemma_parsed_ip_wf, parse_ip,
    spec_parse_ip, Ip, IpView,
};
use crate::num::{
    dec_string, hex_string, is_digit, is_digits, is_hex_digit, is_uint_str, lemma_dec_string_val,
    lemma_hex_string_val, parse_u16, parse_u8, u64_to_dec, uint_str_val,
};
use crate::util::{
    join, lemma_join_sep_free, lemma_split_all_len, lemma_split_all_none, lemma_split_first_concat,
    lemma_split_join, sep_free, split3_first, split_all, split_all_vec, str_eq,
    tuple3_from_split, views_of,
};

verus! {

/// The type of network named on a connection line; `IN` means the Internet.
#[derive(Debug, Clone, Copy, PartialEq, Eq, Structural)]
pub enum NetKind {
    IN,
}

/// The address family named on a connection line.
#[derive(Debug, Clone, Copy, PartialEq, Eq, Structural)]
pub enum AddrKind {
    IP4,
    IP6,
}

pub open spec fn spec_net_kind_str(k: NetKind) -> Seq<char> {
    match k {
        NetKind::IN => "IN"@,
    }
}

pub open spec fn spec_parse_net_kind(s: Seq<char>) -> Option<NetKind> {
    if s == "IN"@ {
        Some(NetKind::IN)
    } else {
        None
    }
}

pub open spec fn spec_addr_kind_str(k: AddrKind) -> Seq<char> {
    match k {
        AddrKind::IP4 => "IP4"@,
        AddrKind::IP6 => "IP6"@,
    }
}

pub open spec fn spec_parse_addr_kind(s: Seq<char>) -> Option<AddrKind> {
    if s == "IP4"@ {
        Some(AddrKind::IP4)
    } else if s == "IP6"@ {
        Some(AddrKind::IP6)
    } else {
        None
    }
}

impl NetKind {
    /// Parse the network-type vocabulary; any other text is a vocabulary
    /// error carrying the input.
    pub fn try_from(value: &str) -> (r: Result<NetKind, ParseError>)
        ensures
            match r {
                Ok(k) => spec_parse_net_kind(value@) == Some(k),
                Err(e) => {
                    &&& spec_parse_net_kind(value@) is None
                    &&& e matches ParseError::Vocabulary { input }
                    &&& input@ == value@
                },
            },
    {
        if str_eq(value, "IN") {
            Ok(NetKind::IN)
        } else {
            Err(ParseError::Vocabulary { input: value.to_owned() })
        }
    }

    /// The literal this network type spells as.
    pub fn to_string(&self) -> (r: String)
        ensures
            r@ == spec_net_kind_str(*self),
    {
        match self {
            NetKind::IN => "IN".to_owned(),
        }
    }
}

impl AddrKind {
    /// Parse the address-family vocabulary; any other text is a vocabulary
    /// error carrying the input.
    pub fn try_from(value: &str) -> (r: Result<AddrKind, ParseError>)
        ensures
            match r {
                Ok(k) => spec_parse_addr_kind(value@) == Some(k),
                Err(e) => {
                    &&& spec_parse_addr_kind(value@) is None
                    &&& e matches ParseError::Vocabulary { input }
                    &&& input@ == value@
                },
            },
    {
        if str_eq(value, "IP4") {
            Ok(AddrKind::IP4)
        } else if str_eq(value, "IP6") {
            Ok(AddrKind::IP6)
        } else {
            Err(ParseError::Vocabulary { input: value.to_owned() })
        }
    }

    /// The literal this address family spells as.
    pub fn to_string(&self) -> (r: String)
        ensures
            r@ == spec_addr_kind_str(*self),
    {
        match self {
            AddrKind::IP4 => "IP4".to_owned(),
            AddrKind::IP6 => "IP6".to_owned(),
        }
    }
}

/// A connection address: the address itself, an optional TTL for IPv4
/// multicast scoping, and an optional count of addresses in a multicast
/// block.
#[derive(Debug, PartialEq, Eq)]
pub struct Addr {
    pub ip: Ip,
    pub ttl: Option<u16>,
    pub count: Option<u8>,
}

/// The mathematical content of a connection address.
pub struct AddrView {
    pub ip: IpView,
    pub ttl: Option<u16>,
    pub count: Option<u8>,
}

impl View for Addr {
    type V = AddrView;

    open spec fn view(&self) -> AddrView {
        AddrView { ip: self.ip@, ttl: self.ttl, count: self.count }
    }
}

pub open spec fn addr_wf(a: AddrView) -> bool {
    ip_wf(a.ip)
}

/// What an address field parses to: the slash-delimited parts, of which the
/// first must be an address literal, the second, when present, a decimal
/// TTL, and the third, when present, a decimal count; parts beyond the
/// third are ignored.
pub open spec fn spec_parse_addr(s: Seq<char>) -> Option<AddrView> {
    let parts = split_all(s, '/');
    match spec_parse_ip(parts[0]) {
        None => None,
        Some(ip) => if parts.len() >= 2 {
            if is_uint_str(parts[1]) && uint_str_val(parts[1]) <= u16::MAX {
                if parts.len() >= 3 {
                    if is_uint_str(parts[2]) && uint_str_val(parts[2]) <= u8::MAX {
                        Some(
                            AddrView {
                                ip,
                                ttl: Some(uint_str_val(parts[1]) as u16),
                                count: Some(uint_str_val(parts[2]) as u8),
                            },
                        )
                    } else {
                        None
                    }
                } else {
                    Some(AddrView { ip, ttl: Some(uint_str_val(parts[1]) as u16), count: None })
                }
            } else {
                None
            }
        } else {
            Some(AddrView { ip, ttl: None, count: None })
        },
    }
}

/// The text of a connection address: the address, then `/<ttl>` when a TTL
/// is held, then `/<count>` when a count is held, never a slash with
/// nothing after it.
pub open spec fn addr_string(a: AddrView) -> Seq<char> {
    ip_string(a.ip) + (match a.ttl {
        None => Seq::<char>::empty(),
        Some(t) => seq!['/'] + dec_string(t as nat),
    }) + (match a.count {
        None => Seq::<char>::empty(),
        Some(c) => seq!['/'] + dec_string(c as nat),
    })
}

/// The failure an address-field parse surfaces: an address-format error
/// carrying the address part, else a numeric-format error carrying the bad
/// TTL or count part.
pub open spec fn addr_err_matches(s: Seq<char>, e: ParseError) -> bool {
    let parts = split_all(s, '/');
    if spec_parse_ip(parts[0]) is None {
        e matches ParseError::Address { input } && input@ == parts[0]
    } else if !(is_uint_str(parts[1]) && uint_str_val(parts[1]) <= u16::MAX) {
        e matches ParseError::Numeric { input } && input@ == parts[1]
    } else {
        e matches ParseError::Numeric { input } && input@ == parts[2]
    }
}

impl Addr {
    /// Parse the address field of a connection line.  An address failure is
    /// an address-format error carrying the address part; a bad TTL or
    /// count is a numeric-format error carrying that part.
    pub fn try_from(value: &str) -> (r: Result<Addr, ParseError>)
        ensures
            match r {
                Ok(a) => spec_parse_addr(value@) == Some(a@) && addr_wf(a@),
                Err(e) => spec_parse_addr(value@) is None && addr_err_matches(value@, e),
            },
    {
        let parts = split_all_vec(value, '/');
        proof {
            lemma_split_all_len(value@, '/');
            assert(views_of(parts@).len() == parts@.len());
            assert(views_of(parts@)[0] == parts@[0]@);
        }
        let ip = match parse_ip(parts[0].as_str()) {
            None => {
                return Err(ParseError::Address { input: parts[0].clone() });
            },
            Some(ip) => ip,
        };
        let ttl: Option<u16> = if parts.len() >= 2 {
            proof {
                assert(views_of(parts@)[1] == parts@[1]@);
            }
            match parse_u16(parts[1].as_str()) {
                Err(e) => {
                    return Err(e);
                },
                Ok(t) => Some(t),
            }
        } else {
            None
        };
        let count: Option<u8> = if parts.len() >= 3 {
            proof {
                assert(views_of(parts@)[2] == parts@[2]@);
            }
            match parse_u8(parts[2].as_str()) {
                Err(e) => {
                    return Err(e);
                },
                Ok(c) => Some(c),
            }
        } else {
            None
        };
        Ok(Addr { ip, ttl, count })
    }

    /// Write the text of this connection address.
    pub fn to_string(&self) -> (r: String)
        ensures
            r@ == addr_string(self@),
    {
        let mut out = self.ip.to_string();
        match self.ttl {
            None => {},
            Some(t) => {
                out.append("/");
                out.append(u64_to_dec(t as u64).as_str());
            },
        }
        match self.count {
            None => {},
            Some(c) => {
                out.append("/");
                out.append(u64_to_dec(c as u64).as_str());
            },
        }
        proof {
            reveal_strlit("/");
            assert(("/"@) =~= seq!['/']);
            assert(out@ =~= addr_string(self@));
        }
        out
    }
}

/// The connection line's fields: network type, address family, and the
/// connection address.
#[derive(Debug, PartialEq, Eq)]
pub struct Connection {
    pub nettype: NetKind,
    pub addrtype: AddrKind,
    pub connection_address: Addr,
}

/// The mathematical content of a connection line.
pub struct ConnectionView {
    pub nettype: NetKind,
    pub addrtype: AddrKind,
    pub connection_address: AddrView,
}

impl View for Connection {
    type V = ConnectionView;

    open spec fn view(&self) -> ConnectionView {
        ConnectionView {
            nettype: self.nettype,
            addrtype: self.addrtype,
            connection_address: self.connection_address@,
        }
    }
}

pub open spec fn connection_wf(c: ConnectionView) -> bool {
    addr_wf(c.connection_address)
}

/// What a connection line's value parses to: three space-delimited fields,
/// the network type, the address family, and the address field.
pub open spec fn spec_parse_connection(s: Seq<char>) -> Option<ConnectionView> {
    match split3_first(s, ' ') {
        None => None,
        Some(p) => match spec_parse_net_kind(p.0) {
            None => None,
            Some(n) => match spec_parse_addr_kind(p.1) {
                None => None,
                Some(a) => match spec_parse_addr(p.2) {
                    None => None,
                    Some(ca) => Some(
                        ConnectionView { nettype: n, addrtype: a, connection_address: ca },
                    ),
                },
            },
        },
    }
}

/// The text of a connection line's value: the three fields, space-joined.
pub open spec fn connection_string(c: ConnectionView) -> Seq<char> {
    spec_net_kind_str(c.nettype) + seq![' '] + spec_addr_kind_str(c.addrtype) + seq![' ']
        + addr_string(c.connection_address)
}

impl Connection {
    /// Parse the value of a connection line.  Fewer than three
    /// space-delimited fields is an arity error; each field's failure is
    /// that field's error, surfaced unchanged.
    pub fn try_from(value: &str) -> (r: Result<Connection, ParseError>)
        ensures
            match r {
                Ok(c) => spec_parse_connection(value@) == Some(c@) && connection_wf(c@),
                Err(e) => {
                    &&& spec_parse_connection(value@) is None
                    &&& match split3_first(value@, ' ') {
                        None => {
                            &&& e matches ParseError::Arity { expected, input }
                            &&& expected == 3
                            &&& input@ == value@
                        },
                        Some(p) => if spec_parse_net_kind(p.0) is None {
                            e matches ParseError::Vocabulary { input } && input@ == p.0
                        } else if spec_parse_addr_kind(p.1) is None {
                            e matches ParseError::Vocabulary { input } && input@ == p.1
                        } else {
                            addr_err_matches(p.2, e)
                        },
                    }
                },
            },
    {
        match tuple3_from_split(value, ' ') {
            Err(e) => Err(e),
            Ok((n, a, c)) => match NetKind::try_from(n.as_str()) {
                Err(e) => Err(e),
                Ok(nettype) => match AddrKind::try_from(a.as_str()) {
                    Err(e) => Err(e),
                    Ok(addrtype) => match Addr::try_from(c.as_str()) {
                        Err(e) => Err(e),
                        Ok(connection_address) => Ok(
                            Connection { nettype, addrtype, connection_address },
                        ),
                    },
                },
            },
        }
    }

    /// Write the value of this connection line.
    pub fn to_string(&self) -> (r: String)
        ensures
            r@ == connection_string(self@),
    {
        let mut out = self.nettype.to_string();
        out.append(" ");
        out.append(self.addrtype.to_string().as_str());
        out.append(" ");
        out.append(self.connection_address.to_string().as_str());
        proof {
            reveal_strlit(" ");
            assert((" "@) =~= seq![' ']);
            assert(out@ =~= connection_string(self@));
        }
        out
    }
}

/// The text of an address holds no slash and no space.
proof fn lemma_ip_string_free(ip: IpView)
    ensures
        sep_free(ip_string(ip), '/'),
        sep_free(ip_string(ip), ' '),
{
    match ip {
        IpView::V4 { a, b, c, d } => {
            let ps = seq![
                dec_string(a as nat),
                dec_string(b as nat),
                dec_string(c as nat),
                dec_string(d as nat),
            ];
            lemma_dec_string_val(a as nat);
            lemma_dec_string_val(b as nat);
            lemma_dec_string_val(c as nat);
            lemma_dec_string_val(d as nat);
            assert forall|k: int| 0 <= k < ps.len() implies sep_free(#[trigger] ps[k], '/')
                && sep_free(ps[k], ' ') by {
                assert(is_digits(ps[k]));
                assert forall|i: int| 0 <= i < ps[k].len() implies #[trigger] ps[k][i] != '/' && ps[k][i]
                    != ' ' by {
                    assert(is_digit(ps[k][i]));
                }
            }
            lemma_join_sep_free(ps, '.', '/');
            lemma_join_sep_free(ps, '.', ' ');
        },
        IpView::V6 { groups } => {
            let ps = hex_strings_of(groups);
            assert forall|k: int| 0 <= k < ps.len() implies sep_free(#[trigger] ps[k], '/')
                && sep_free(ps[k], ' ') by {
                assert(ps[k] == hex_string(groups[k] as nat));
                lemma_hex_string_val(groups[k] as nat);
                assert forall|i: int| 0 <= i < ps[k].len() implies #[trigger] ps[k][i] != '/' && ps[k][i]
                    != ' ' by {
                    assert(is_hex_digit(ps[k][i]));
                }
            }
            lemma_join_sep_free(ps, ':', '/');
            lemma_join_sep_free(ps, ':', ' ');
        },
    }
}

/// Law: parsing the text of a well-formed connection address yields that
/// address again, provided a count is only held together with a TTL, as
/// every parsed address satisfies.
pub proof fn lemma_addr_round_trip(a: AddrView)
    requires
        addr_wf(a),
        a.count is Some ==> a.ttl is Some,
    ensures
        spec_parse_addr(addr_string(a)) == Some(a),
{
    let s = addr_string(a);
    lemma_ip_string_free(a.ip);
    lemma_ip_round_trip(a.ip);
    match a.ttl {
        None => {
            assert(a.count is None);
            assert(s =~= ip_string(a.ip));
            lemma_split_all_none(s, '/');
            assert(split_all(s, '/') == seq![s]);
            assert(split_all(s, '/')[0] == s);
        },
        Some(t) => {
            lemma_dec_string_val(t as nat);
            assert(sep_free(dec_string(t as nat), '/')) by {
                assert forall|i: int| 0 <= i < dec_string(t as nat).len() implies #[trigger] dec_string(
                    t as nat,
                )[i] != '/' by {
                    assert(is_digit(dec_string(t as nat)[i]));
                }
            }
            match a.count {
                None => {
                    let ps = seq![ip_string(a.ip), dec_string(t as nat)];
                    assert(s =~= join(ps, '/')) by {
                        assert(ps.skip(1) =~~= seq![dec_string(t as nat)]);
                        assert(join(ps.skip(1), '/') == dec_string(t as nat));
                    }
                    lemma_split_join(ps, '/');
                    assert(split_all(s, '/') == ps);
                },
                Some(c) => {
                    lemma_dec_string_val(c as nat);
                    assert(sep_free(dec_string(c as nat), '/')) by {
                        assert forall|i: int|
                            0 <= i < dec_string(c as nat).len() implies #[trigger] dec_string(
                            c as nat,
                        )[i] != '/' by {
                            assert(is_digit(dec_string(c as nat)[i]));
                        }
                    }
                    let ps = seq![ip_string(a.ip), dec_string(t as nat), dec_string(c as nat)];
                    assert(s =~= join(ps, '/')) by {
                        assert(ps.skip(1) =~~= seq![dec_string(t as nat), dec_string(c as nat)]);
                        assert(ps.skip(1).skip(1) =~~= seq![dec_string(c as nat)]);
                        assert(join(ps.skip(1).skip(1), '/') == dec_string(c as nat));
                        assert(join(ps.skip(1), '/') == ps.skip(1)[0] + seq!['/'] + join(
                            ps.skip(1).skip(1),
                            '/',
                        ));
                        assert(join(ps, '/') == ps[0] + seq!['/'] + join(ps.skip(1), '/'));
                    }
                    lemma_split_join(ps, '/');
                    assert(split_all(s, '/') == ps);
                },
            }
        },
    }
}

/// Law: formatting any successfully parsed connection address and parsing
/// the formatted text yields the parsed value again.
pub proof fn lemma_parsed_addr_round_trip(s: Seq<char>)
    ensures
        match spec_parse_addr(s) {
            Some(a) => spec_parse_addr(addr_string(a)) == Some(a),
            None => true,
        },
{
    match spec_parse_addr(s) {
        Some(a) => {
            lemma_parsed_ip_wf(split_all(s, '/')[0]);
            lemma_addr_round_trip(a);
        },
        None => {},
    }
}

/// Law: parsing the text of a well-formed connection yields that connection
/// again, under the same proviso on TTL and count.
pub proof fn lemma_connection_round_trip(c: ConnectionView)
    requires
        connection_wf(c),
        c.connection_address.count is Some ==> c.connection_address.ttl is Some,
    ensures
        spec_parse_connection(connection_string(c)) == Some(c),
{
    let s = connection_string(c);
    reveal_strlit("IN");
    reveal_strlit("IP4");
    reveal_strlit("IP6");
    let n = spec_net_kind_str(c.nettype);
    let ak = spec_addr_kind_str(c.addrtype);
    let at = addr_string(c.connection_address);
    assert(sep_free(n, ' '));
    assert(sep_free(ak, ' '));
    assert(s =~= n + seq![' '] + (ak + seq![' '] + at));
    lemma_split_first_concat(n, ak + seq![' '] + at, ' ');
    lemma_split_first_concat(ak, at, ' ');
    assert(split3_first(s, ' ') == Some((n, ak, at)));
    assert(spec_parse_net_kind(n) == Some(c.nettype));
    assert(spec_parse_addr_kind(ak) == Some(c.addrtype)) by {
        assert(("IP4"@)[2] != ("IP6"@)[2]);
    }
    lemma_addr_round_trip(c.connection_address);
}

/// Law: formatting any successfully parsed connection and parsing the
/// formatted text yields the parsed value again.
pub proof fn lemma_parsed_connection_round_trip(s: Seq<char>)
    ensures
        match spec_parse_connection(s) {
            Some(c) => spec_parse_connection(connection_string(c)) == Some(c),
            None => true,
        },
{
    match spec_parse_connection(s) {
        Some(c) => {
            match split3_first(s, ' ') {
                Some(p) => {
                    lemma_parsed_ip_wf(split_all(p.2, '/')[0]);
                    lemma_connection_round_trip(c);
                },
                None => {},
            }
        },
        None => {},
    }
}

} // verus!
