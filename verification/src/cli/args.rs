//! What arguments mean.
use crate::config::Endpoint;
use crate::network::{
    ufvk_verdict, CustomActivations, Network, NetworkType, SlipstreamNetwork,
};
use crate::text::{
    chars_of, contains_text, debug_quoted, debug_text, dec, find_char, find_from, first_index_of,
    first_occurrence, lemma_first_occurrence, matches_at, parse_uint, parse_uint_spec, push_dec,
    range_is, starts_with, str_contains, string_of, trim_bounds, trim_spec, ParseUintError,
};
use vstd::prelude::*;

verus! {

/// The network that is asked for.
#[derive(Clone, Copy, Debug, PartialEq, Eq, Structural)]
pub enum NetworkArg {
    Main,
    Test,
}

impl NetworkArg {
    /// The stock network.
    pub open spec fn network(self) -> Network {
        match self {
            NetworkArg::Main => Network::MainNetwork,
            NetworkArg::Test => Network::TestNetwork,
        }
    }

    /// The type of the network.
    pub open spec fn network_type(self) -> NetworkType {
        match self {
            NetworkArg::Main => NetworkType::Main,
            NetworkArg::Test => NetworkType::Test,
        }
    }

    /// The stock network.
    pub fn to_network(self) -> (r: Network)
        ensures
            r == self.network(),
    {
        match self {
            NetworkArg::Main => Network::MainNetwork,
            NetworkArg::Test => Network::TestNetwork,
        }
    }

    /// The type of the network.
    pub fn to_network_type(self) -> (r: NetworkType)
        ensures
            r == self.network_type(),
    {
        match self {
            NetworkArg::Main => NetworkType::Main,
            NetworkArg::Test => NetworkType::Test,
        }
    }
}

/// Activation heights with that of the named upgrade replaced; none for a name that is
/// no upgrade's.
pub open spec fn with_upgrade(h: CustomActivations, name: Seq<char>, height: u32) -> Option<
    CustomActivations,
> {
    let at = Some(height);
    if name == "overwinter"@ {
        Some(CustomActivations { overwinter: at, ..h })
    } else if name == "sapling"@ {
        Some(CustomActivations { sapling: at, ..h })
    } else if name == "blossom"@ {
        Some(CustomActivations { blossom: at, ..h })
    } else if name == "heartwood"@ {
        Some(CustomActivations { heartwood: at, ..h })
    } else if name == "canopy"@ {
        Some(CustomActivations { canopy: at, ..h })
    } else if name == "nu5"@ {
        Some(CustomActivations { nu5: at, ..h })
    } else if name == "nu6"@ {
        Some(CustomActivations { nu6: at, ..h })
    } else if name == "nu6_1"@ {
        Some(CustomActivations { nu6_1: at, ..h })
    } else if name == "nu6_2"@ {
        Some(CustomActivations { nu6_2: at, ..h })
    } else {
        None
    }
}

/// Activation heights after one part of a schedule: nothing, the word for a chain whose
/// upgrades are all active from its first block on, or an upgrade and its height.
pub open spec fn apply_part(h: CustomActivations, part: Seq<char>) -> Result<
    CustomActivations,
    Seq<char>,
> {
    if part.len() == 0 {
        Ok(h)
    } else if part == "genesis"@ {
        Ok(CustomActivations::uniform(Some(1)))
    } else {
        match first_index_of(part, '=') {
            None => Err("expected upgrade=height, got "@ + debug_text(part)),
            Some(i) => match parse_uint_spec(trim_spec(part.skip(i + 1)), u32::MAX as nat) {
                Err(e) => Err("bad height in "@ + debug_text(part) + ": "@ + e.text()),
                Ok(height) => match with_upgrade(h, trim_spec(part.take(i)), height as u32) {
                    Some(updated) => Ok(updated),
                    None => Err("unknown upgrade "@ + debug_text(trim_spec(part.take(i)))),
                },
            },
        }
    }
}

/// Activation heights after a schedule, whose parts are separated by commas; a later part
/// overrides an earlier one.
pub open spec fn apply_schedule(h: CustomActivations, s: Seq<char>) -> Result<
    CustomActivations,
    Seq<char>,
>
    decreases s.len(),
{
    match first_index_of(s, ',') {
        Some(i) => if 0 <= i < s.len() {
            match apply_part(h, trim_spec(s.take(i))) {
                Ok(next) => apply_schedule(next, s.skip(i + 1)),
                Err(e) => Err(e),
            }
        } else {
            Ok(h)
        },
        None => apply_part(h, trim_spec(s)),
    }
}

fn set_upgrade(
    h: &mut CustomActivations,
    v: &Vec<char>,
    from: usize,
    to: usize,
    height: u32,
) -> (known: bool)
    requires
        from <= to <= v@.len(),
    ensures
        match with_upgrade(*old(h), v@.subrange(from as int, to as int), height) {
            Some(updated) => known && *final(h) == updated,
            None => !known && *final(h) == *old(h),
        },
{
    if range_is(v, from, to, "overwinter") {
        h.overwinter = Some(height);
    } else if range_is(v, from, to, "sapling") {
        h.sapling = Some(height);
    } else if range_is(v, from, to, "blossom") {
        h.blossom = Some(height);
    } else if range_is(v, from, to, "heartwood") {
        h.heartwood = Some(height);
    } else if range_is(v, from, to, "canopy") {
        h.canopy = Some(height);
    } else if range_is(v, from, to, "nu5") {
        h.nu5 = Some(height);
    } else if range_is(v, from, to, "nu6") {
        h.nu6 = Some(height);
    } else if range_is(v, from, to, "nu6_1") {
        h.nu6_1 = Some(height);
    } else if range_is(v, from, to, "nu6_2") {
        h.nu6_2 = Some(height);
    } else {
        return false;
    }
    true
}

fn take_part(h: CustomActivations, v: &Vec<char>, from: usize, to: usize) -> (r: Result<
    CustomActivations,
    String,
>)
    requires
        from <= to <= v@.len(),
    ensures
        match r {
            Ok(next) => apply_part(h, v@.subrange(from as int, to as int)) == Ok::<
                CustomActivations,
                Seq<char>,
            >(next),
            Err(e) => apply_part(h, v@.subrange(from as int, to as int)) == Err::<
                CustomActivations,
                Seq<char>,
            >(e@),
        },
{
    let ghost part = v@.subrange(from as int, to as int);
    if from == to {
        return Ok(h);
    }
    if range_is(v, from, to, "genesis") {
        return Ok(CustomActivations::all_from_genesis());
    }
    let text: String = string_of(v, from, to);
    let eq: usize = match find_char(v, from, to, '=') {
        Some(i) => i,
        None => {
            let mut m: String = "expected upgrade=height, got ".to_owned();
            let q: String = debug_quoted(text.as_str());
            m.push_str(q.as_str());
            return Err(m);
        },
    };
    assert(v@.subrange(eq + 1, to as int) =~= part.skip(eq - from + 1));
    assert(v@.subrange(from as int, eq as int) =~= part.take(eq - from));
    let (a, b): (usize, usize) = trim_bounds(v, eq + 1, to);
    let height: u32 = match parse_uint(v, a, b, u32::MAX as u64) {
        Ok(n) => n as u32,
        Err(e) => {
            let mut m: String = "bad height in ".to_owned();
            let q: String = debug_quoted(text.as_str());
            m.push_str(q.as_str());
            m.push_str(": ");
            let t: String = e.message();
            m.push_str(t.as_str());
            return Err(m);
        },
    };
    let (c, d): (usize, usize) = trim_bounds(v, from, eq);
    let mut next: CustomActivations = h;
    if set_upgrade(&mut next, v, c, d, height) {
        return Ok(next);
    }
    let mut m: String = "unknown upgrade ".to_owned();
    let name: String = string_of(v, c, d);
    let q: String = debug_quoted(name.as_str());
    m.push_str(q.as_str());
    Err(m)
}

/// Reads a schedule of activation heights.
pub fn parse_custom_heights(spec: &str) -> (r: Result<CustomActivations, String>)
    ensures
        match r {
            Ok(h) => apply_schedule(CustomActivations::uniform(None), spec@) == Ok::<
                CustomActivations,
                Seq<char>,
            >(h),
            Err(e) => apply_schedule(CustomActivations::uniform(None), spec@) == Err::<
                CustomActivations,
                Seq<char>,
            >(e@),
        },
{
    let v: Vec<char> = chars_of(spec);
    let n: usize = v.len();
    let mut h: CustomActivations = CustomActivations::default();
    let mut from: usize = 0;
    assert(v@.skip(0) =~= v@);
    loop
        invariant
            0 <= from <= n,
            n == v@.len(),
            v@ == spec@,
            apply_schedule(h, v@.skip(from as int)) == apply_schedule(
                CustomActivations::uniform(None),
                spec@,
            ),
        decreases n - from,
    {
        let ghost rest = v@.skip(from as int);
        assert(v@.subrange(from as int, n as int) =~= rest);
        match find_char(&v, from, n, ',') {
            Some(i) => {
                let (a, b): (usize, usize) = trim_bounds(&v, from, i);
                assert(v@.subrange(from as int, i as int) =~= rest.take(i - from));
                match take_part(h, &v, a, b) {
                    Ok(next) => {
                        h = next;
                    },
                    Err(e) => {
                        return Err(e);
                    },
                }
                assert(v@.skip(i + 1) =~= rest.skip(i - from + 1));
                from = i + 1;
            },
            None => {
                let (a, b): (usize, usize) = trim_bounds(&v, from, n);
                return take_part(h, &v, a, b);
            },
        }
    }
}

/// The network of a sync: a stock one, or the constants of the one that is asked for with
/// a schedule of its own.
pub fn resolve_network(arg: NetworkArg, custom_heights: Option<&str>) -> (r: Result<
    SlipstreamNetwork,
    String,
>)
    ensures
        match custom_heights {
            None => r == Ok::<SlipstreamNetwork, String>(
                SlipstreamNetwork::Standard(arg.network()),
            ),
            Some(spec) => match apply_schedule(CustomActivations::uniform(None), spec@) {
                Ok(heights) => r == Ok::<SlipstreamNetwork, String>(
                    SlipstreamNetwork::Custom { constants: arg.network_type(), heights },
                ),
                Err(e) => r matches Err(m) && m@ == "error: --custom-heights: "@ + e,
            },
        },
{
    match custom_heights {
        None => Ok(SlipstreamNetwork::Standard(arg.to_network())),
        Some(spec) => match parse_custom_heights(spec) {
            Ok(heights) => Ok(
                SlipstreamNetwork::Custom { constants: arg.to_network_type(), heights },
            ),
            Err(e) => {
                let mut m: String = "error: --custom-heights: ".to_owned();
                m.push_str(e.as_str());
                Err(m)
            },
        },
    }
}

/// A text without the slashes at its end.
pub open spec fn without_slashes(s: Seq<char>) -> Seq<char>
    decreases s.len(),
{
    if s.len() > 0 && s.last() == '/' {
        without_slashes(s.drop_last())
    } else {
        s
    }
}

/// What stands behind the scheme of a server: the first colon parts host and port.
pub open spec fn server_authority(s: Seq<char>, tls: bool, rest: Seq<char>) -> Result<
    (bool, Seq<char>, nat),
    Seq<char>,
> {
    let a = without_slashes(rest);
    match first_index_of(a, ':') {
        None => Err("server must include a port: "@ + s),
        Some(i) => match parse_uint_spec(a.skip(i + 1), 65_535) {
            Ok(port) => Ok((tls, a.take(i), port)),
            Err(e) => Err("bad port: "@ + e.text()),
        },
    }
}

/// What a server argument means: whether TLS is used, the host and the port, or the words
/// of the error.
pub open spec fn server_spec(s: Seq<char>) -> Result<(bool, Seq<char>, nat), Seq<char>> {
    if starts_with(s, "https://"@) {
        server_authority(s, true, s.skip(8))
    } else if starts_with(s, "http://"@) {
        server_authority(s, false, s.skip(7))
    } else {
        Err("server must start with http:// or https://: "@ + s)
    }
}

/// Reads a server argument.
pub fn parse_server(s: &str) -> (r: Result<Endpoint, String>)
    ensures
        match r {
            Ok(e) => server_spec(s@) == Ok::<(bool, Seq<char>, nat), Seq<char>>(
                (e.tls, e.host@, e.port as nat),
            ),
            Err(m) => server_spec(s@) == Err::<(bool, Seq<char>, nat), Seq<char>>(m@),
        },
{
    let v: Vec<char> = chars_of(s);
    let https: Vec<char> = chars_of("https://");
    let http: Vec<char> = chars_of("http://");
    proof {
        reveal_strlit("https://");
        reveal_strlit("http://");
    }
    let (tls, from): (bool, usize) = if matches_at(&v, &https, 0) {
        (true, 8)
    } else if matches_at(&v, &http, 0) {
        (false, 7)
    } else {
        let mut m: String = "server must start with http:// or https://: ".to_owned();
        m.push_str(s);
        return Err(m);
    };
    let ghost rest = s@.skip(from as int);
    let mut to: usize = v.len();
    assert(v@.subrange(from as int, to as int) =~= rest);
    while to > from && v[to - 1] == '/'
        invariant
            from <= to <= v@.len(),
            without_slashes(rest) == without_slashes(v@.subrange(from as int, to as int)),
        decreases to,
    {
        assert(v@.subrange(from as int, to as int).drop_last() =~= v@.subrange(
            from as int,
            to - 1,
        ));
        to = to - 1;
    }
    let ghost a = without_slashes(rest);
    assert(v@.subrange(from as int, to as int) == a);
    let colon: usize = match find_char(&v, from, to, ':') {
        Some(i) => i,
        None => {
            let mut m: String = "server must include a port: ".to_owned();
            m.push_str(s);
            return Err(m);
        },
    };
    assert(v@.subrange(colon + 1, to as int) =~= a.skip(colon - from + 1));
    assert(v@.subrange(from as int, colon as int) =~= a.take(colon - from));
    match parse_uint(&v, colon + 1, to, 65_535) {
        Ok(port) => Ok(Endpoint { host: string_of(&v, from, colon), port: port as u16, tls }),
        Err(e) => {
            let mut m: String = "bad port: ".to_owned();
            let t: String = e.message();
            m.push_str(t.as_str());
            Err(m)
        },
    }
}

/// What a range argument means: its first and its last height, or the words of the error.
pub open spec fn range_spec(s: Seq<char>) -> Result<(nat, nat), Seq<char>> {
    if contains_text(s, "..="@) {
        Err("range must be start..end (not ..=): "@ + s)
    } else {
        match first_occurrence(s, ".."@, 0) {
            None => Err("range must be start..end: "@ + s),
            Some(i) => match parse_uint_spec(trim_spec(s.take(i)), u64::MAX as nat) {
                Err(e) => Err("bad start: "@ + e.text()),
                Ok(start) => match parse_uint_spec(trim_spec(s.skip(i + 2)), u64::MAX as nat) {
                    Err(e) => Err("bad end: "@ + e.text()),
                    Ok(end) => if end < start {
                        Err("range end must be >= start"@)
                    } else {
                        Ok((start, end))
                    },
                },
            },
        }
    }
}

fn prefixed(prefix: &str, e: &ParseUintError) -> (r: String)
    ensures
        r@ == prefix@ + e.text(),
{
    let mut m: String = prefix.to_owned();
    let t: String = e.message();
    m.push_str(t.as_str());
    m
}

/// Reads a range argument.
pub fn parse_range(s: &str) -> (r: Result<(u64, u64), String>)
    ensures
        match r {
            Ok((start, end)) => range_spec(s@) == Ok::<(nat, nat), Seq<char>>(
                (start as nat, end as nat),
            ),
            Err(m) => range_spec(s@) == Err::<(nat, nat), Seq<char>>(m@),
        },
{
    if str_contains(s, "..=") {
        let mut m: String = "range must be start..end (not ..=): ".to_owned();
        m.push_str(s);
        return Err(m);
    }
    let v: Vec<char> = chars_of(s);
    let dots: Vec<char> = chars_of("..");
    proof {
        reveal_strlit("..");
        lemma_first_occurrence(s@, ".."@, 0);
    }
    let at: usize = match find_from(&v, &dots, 0) {
        Some(i) => i,
        None => {
            let mut m: String = "range must be start..end: ".to_owned();
            m.push_str(s);
            return Err(m);
        },
    };
    assert(first_occurrence(s@, ".."@, 0) == Some(at as int));
    let n: usize = v.len();
    assert(v@.subrange(0, at as int) =~= s@.take(at as int));
    assert(v@.subrange(at + 2, n as int) =~= s@.skip(at + 2));
    let (a, b): (usize, usize) = trim_bounds(&v, 0, at);
    let start: u64 = match parse_uint(&v, a, b, u64::MAX) {
        Ok(x) => x,
        Err(e) => {
            return Err(prefixed("bad start: ", &e));
        },
    };
    let (c, d): (usize, usize) = trim_bounds(&v, at + 2, n);
    let end: u64 = match parse_uint(&v, c, d, u64::MAX) {
        Ok(x) => x,
        Err(e) => {
            return Err(prefixed("bad end: ", &e));
        },
    };
    if end < start {
        return Err("range end must be >= start".to_owned());
    }
    Ok((start, end))
}

/// An account to bootstrap: its viewing key, which decodes, and its birthday.
#[derive(Debug)]
pub struct Account {
    pub ufvk: String,
    pub birthday: u32,
}

/// The words of the error where a viewing key and a birthday make no account.
pub open spec fn account_fault(
    constants: NetworkType,
    ufvk: Seq<char>,
    birthday: u64,
) -> Option<Seq<char>> {
    match ufvk_verdict(constants, ufvk) {
        Err(e) => Some("invalid --ufvk: "@ + e),
        Ok(_) => if birthday > u32::MAX {
            Some(
                "--birthday "@ + dec(birthday as nat) + " exceeds the u32 block-height range"@,
            )
        } else {
            None
        },
    }
}

/// Reads a viewing key and a birthday as an account.
pub fn parse_account(network: &SlipstreamNetwork, ufvk: &str, birthday: u64) -> (r: Result<
    Account,
    String,
>)
    ensures
        match account_fault(network.constants(), ufvk@, birthday) {
            None => r matches Ok(a) && a.ufvk@ == ufvk@ && a.birthday == birthday,
            Some(e) => r matches Err(m) && m@ == e,
        },
{
    let verdict: Result<(), String> = network.decode_viewing_key(ufvk);
    account_of(verdict, ufvk, birthday)
}

/// The account of a viewing key that was decoded, or not, and a birthday.
pub fn account_of(verdict: Result<(), String>, ufvk: &str, birthday: u64) -> (r: Result<
    Account,
    String,
>)
    ensures
        match verdict {
            Err(e) => r matches Err(m) && m@ == "invalid --ufvk: "@ + e@,
            Ok(_) => if birthday > u32::MAX {
                r matches Err(m) && m@ == "--birthday "@ + dec(birthday as nat)
                    + " exceeds the u32 block-height range"@
            } else {
                r matches Ok(a) && a.ufvk@ == ufvk@ && a.birthday == birthday
            },
        },
{
    match verdict {
        Err(e) => {
            let mut m: String = "invalid --ufvk: ".to_owned();
            m.push_str(e.as_str());
            Err(m)
        },
        Ok(_) => {
            if birthday > u32::MAX as u64 {
                let mut m: String = "--birthday ".to_owned();
                push_dec(&mut m, birthday);
                m.push_str(" exceeds the u32 block-height range");
                Err(m)
            } else {
                Ok(Account { ufvk: ufvk.to_owned(), birthday: birthday as u32 })
            }
        },
    }
}

/// The accounts that a sync bootstraps: one where a viewing key and its birthday are given,
/// none without a viewing key, be there a birthday or not. A viewing key needs a birthday.
pub fn validate_sync_args(
    network: &SlipstreamNetwork,
    ufvk: Option<&str>,
    birthday: Option<u64>,
) -> (r: Result<Vec<Account>, String>)
    ensures
        match ufvk {
            None => r matches Ok(v) && v@.len() == 0,
            Some(u) => match birthday {
                None => r matches Err(m) && m@
                    == "--ufvk requires --birthday: provide the wallet birthday height"@,
                Some(b) => match account_fault(network.constants(), u@, b) {
                    None => r matches Ok(v) && v@.len() == 1 && v@[0].ufvk@ == u@ && v@[0].birthday
                        == b,
                    Some(e) => r matches Err(m) && m@ == e,
                },
            },
        },
{
    let mut accounts: Vec<Account> = Vec::new();
    match ufvk {
        None => Ok(accounts),
        Some(u) => match birthday {
            None => Err(
                "--ufvk requires --birthday: provide the wallet birthday height".to_owned(),
            ),
            Some(b) => match parse_account(network, u, b) {
                Ok(a) => {
                    accounts.push(a);
                    Ok(accounts)
                },
                Err(e) => Err(e),
            },
        },
    }
}

/// The network that is asked for is the one that is meant, and its constants are its own.
pub proof fn law_networks_are_those_asked_for(arg: NetworkArg)
    ensures
        arg.network() == Network::MainNetwork <==> arg == NetworkArg::Main,
        arg.network_type() == NetworkType::Main <==> arg == NetworkArg::Main,
        arg.network_type() == SlipstreamNetwork::Standard(arg.network()).constants(),
{
}

/// A named upgrade gets the height, and every other keeps its own; a name that is no
/// upgrade's is refused.
pub proof fn law_named_upgrade_gets_the_height(h: CustomActivations, name: Seq<char>, height: u32)
    ensures
        with_upgrade(h, "overwinter"@, height) == Some(
            CustomActivations { overwinter: Some(height), ..h },
        ),
        with_upgrade(h, "sapling"@, height) == Some(
            CustomActivations { sapling: Some(height), ..h },
        ),
        with_upgrade(h, "blossom"@, height) == Some(
            CustomActivations { blossom: Some(height), ..h },
        ),
        with_upgrade(h, "heartwood"@, height) == Some(
            CustomActivations { heartwood: Some(height), ..h },
        ),
        with_upgrade(h, "canopy"@, height) == Some(
            CustomActivations { canopy: Some(height), ..h },
        ),
        with_upgrade(h, "nu5"@, height) == Some(CustomActivations { nu5: Some(height), ..h }),
        with_upgrade(h, "nu6"@, height) == Some(CustomActivations { nu6: Some(height), ..h }),
        with_upgrade(h, "nu6_1"@, height) == Some(CustomActivations { nu6_1: Some(height), ..h }),
        with_upgrade(h, "nu6_2"@, height) == Some(CustomActivations { nu6_2: Some(height), ..h }),
        with_upgrade(h, name, height) is Some ==> name == "overwinter"@ || name == "sapling"@ || name
            == "blossom"@ || name == "heartwood"@ || name == "canopy"@ || name == "nu5"@ || name
            == "nu6"@ || name == "nu6_1"@ || name == "nu6_2"@,
{
    reveal_strlit("overwinter");
    reveal_strlit("sapling");
    reveal_strlit("blossom");
    reveal_strlit("heartwood");
    reveal_strlit("canopy");
    reveal_strlit("nu5");
    reveal_strlit("nu6");
    reveal_strlit("nu6_1");
    reveal_strlit("nu6_2");
    assert("overwinter"@.len() == 10 && "heartwood"@.len() == 9 && "canopy"@.len() == 6);
    assert("sapling"@.len() == 7 && "blossom"@.len() == 7 && "sapling"@[0] != "blossom"@[0]);
    assert("nu5"@.len() == 3 && "nu6"@.len() == 3 && "nu5"@[2] != "nu6"@[2]);
    assert("nu6_1"@.len() == 5 && "nu6_2"@.len() == 5 && "nu6_1"@[4] != "nu6_2"@[4]);
}

/// A part of a schedule that is empty changes nothing, the word `genesis` activates all from
/// the first block on, and a name and a number around an equals sign, blanks aside, set one
/// upgrade's height.
pub proof fn law_schedule_parts(h: CustomActivations, name: Seq<char>, value: Seq<char>)
    requires
        forall|i: int| 0 <= i < name.len() ==> name[i] != '=',
    ensures
        apply_part(h, Seq::empty()) == Ok::<CustomActivations, Seq<char>>(h),
        apply_part(h, "genesis"@) == Ok::<CustomActivations, Seq<char>>(
            CustomActivations::uniform(Some(1)),
        ),
        ({
            let r = apply_part(h, name + seq!['='] + value);
            match parse_uint_spec(trim_spec(value), u32::MAX as nat) {
                Ok(height) => match with_upgrade(h, trim_spec(name), height as u32) {
                    Some(updated) => r == Ok::<CustomActivations, Seq<char>>(updated),
                    None => r is Err,
                },
                Err(_) => r is Err,
            }
        }),
{
    reveal_strlit("genesis");
    let part = name + seq!['='] + value;
    let n = name.len() as int;
    assert(part[n] == '=');
    crate::text::law_first_index(part, '=');
    match first_index_of(part, '=') {
        Some(i) => {
            if i < n {
                assert(part[i] == name[i]);
            }
            assert(i == n);
        },
        None => {},
    }
    assert(part.take(n) =~= name);
    assert(part.skip(n + 1) =~= value);
    if part == "genesis"@ {
        assert("genesis"@[n] == '=');
    }
}

/// A schedule is applied part by part, from the left: what follows a comma is applied to what
/// came of the part before it, unless that part is refused.
pub proof fn law_schedules_are_applied_part_by_part(
    h: CustomActivations,
    part: Seq<char>,
    rest: Seq<char>,
)
    requires
        forall|i: int| 0 <= i < part.len() ==> part[i] != ',',
    ensures
        apply_schedule(h, part) == apply_part(h, trim_spec(part)),
        apply_schedule(h, part + seq![','] + rest) == match apply_part(h, trim_spec(part)) {
            Ok(next) => apply_schedule(next, rest),
            Err(e) => Err(e),
        },
{
    crate::text::law_first_index(part, ',');
    assert(first_index_of(part, ',') is None) by {
        if first_index_of(part, ',') is Some {
            let i = first_index_of(part, ',')->Some_0;
            assert(part[i] == ',');
        }
    }
    let s = part + seq![','] + rest;
    let n = part.len() as int;
    assert(s[n] == ',');
    crate::text::law_first_index(s, ',');
    match first_index_of(s, ',') {
        Some(i) => {
            if i < n {
                assert(s[i] == part[i]);
            }
            assert(i == n);
        },
        None => {},
    }
    assert(s.take(n) =~= part);
    assert(s.skip(n + 1) =~= rest);
}

/// All slashes at the end of a text are dropped, and nothing else.
pub proof fn law_slashes_at_the_end_are_dropped(s: Seq<char>)
    ensures
        without_slashes(s).len() <= s.len(),
        without_slashes(s) == s.take(without_slashes(s).len() as int),
        without_slashes(s).len() > 0 ==> without_slashes(s).last() != '/',
        forall|i: int| without_slashes(s).len() <= i < s.len() ==> s[i] == '/',
    decreases s.len(),
{
    if s.len() > 0 && s.last() == '/' {
        let rest = s.drop_last();
        law_slashes_at_the_end_are_dropped(rest);
        let t = without_slashes(s);
        assert(t =~= s.take(t.len() as int));
        assert forall|i: int| t.len() <= i < s.len() implies s[i] == '/' by {
            if i < rest.len() {
                assert(rest[i] == s[i]);
            }
        }
    } else {
        assert(s.take(s.len() as int) =~= s);
    }
}

/// A server is its scheme, a host, a colon and a port of 16 bits: what stands before the first
/// colon is the host, and what stands behind it the port.
pub proof fn law_server_reads_as_its_parts(tls: bool, host: Seq<char>, port: Seq<char>)
    requires
        forall|i: int| 0 <= i < host.len() ==> host[i] != ':',
        port.len() == 0 || port.last() != '/',
    ensures
        ({
            let s = (if tls {
                "https://"@
            } else {
                "http://"@
            }) + host + seq![':'] + port;
            let r = server_spec(s);
            match parse_uint_spec(port, 65_535) {
                Ok(n) => r == Ok::<(bool, Seq<char>, nat), Seq<char>>((tls, host, n)),
                Err(e) => r == Err::<(bool, Seq<char>, nat), Seq<char>>("bad port: "@ + e.text()),
            }
        }),
{
    reveal_strlit("https://");
    reveal_strlit("http://");
    let scheme = if tls {
        "https://"@
    } else {
        "http://"@
    };
    let s = scheme + host + seq![':'] + port;
    let n = scheme.len() as int;
    assert(s.subrange(0, n) =~= scheme);
    assert(starts_with(s, scheme));
    if !tls {
        assert(s[4] == ':');
        if s.len() >= 8 {
            assert(s.subrange(0, 8)[4] == ':');
        }
        assert("https://"@[4] == 's');
        assert(!starts_with(s, "https://"@));
    }
    let a = host + seq![':'] + port;
    assert(s.skip(n) =~= a);
    assert(a.last() != '/') by {
        if port.len() > 0 {
            assert(a.last() == port.last());
        }
    }
    assert(without_slashes(a) == a);
    let k = host.len() as int;
    assert(a[k] == ':');
    crate::text::law_first_index(a, ':');
    match first_index_of(a, ':') {
        Some(i) => {
            if i < k {
                assert(a[i] == host[i]);
            }
            assert(i == k);
        },
        None => {},
    }
    assert(a.take(k) =~= host);
    assert(a.skip(k + 1) =~= port);
}

/// Slashes behind a server change nothing of what it means, and a server without a scheme or
/// without a port is refused.
pub proof fn law_servers_that_are_refused(s: Seq<char>, tls: bool, rest: Seq<char>)
    ensures
        !starts_with(s, "https://"@) && !starts_with(s, "http://"@) ==> server_spec(s) == Err::<
            (bool, Seq<char>, nat),
            Seq<char>,
        >("server must start with http:// or https://: "@ + s),
        (forall|i: int| 0 <= i < rest.len() ==> rest[i] != ':') ==> server_authority(s, tls, rest)
            == Err::<(bool, Seq<char>, nat), Seq<char>>("server must include a port: "@ + s),
        server_authority(s, tls, rest.push('/')) == server_authority(s, tls, rest),
{
    assert(rest.push('/').drop_last() =~= rest);
    if forall|i: int| 0 <= i < rest.len() ==> rest[i] != ':' {
        let a = without_slashes(rest);
        law_slashes_at_the_end_are_dropped(rest);
        crate::text::law_first_index(a, ':');
        if first_index_of(a, ':') is Some {
            let i = first_index_of(a, ':')->Some_0;
            assert(a[i] == rest[i]);
        }
    }
}

/// A range is two numbers around two dots, blanks aside, of which the second is not below the
/// first.
pub proof fn law_range_reads_as_its_ends(a: Seq<char>, b: Seq<char>)
    requires
        forall|i: int| 0 <= i < a.len() ==> a[i] != '.',
        forall|i: int| 0 <= i < b.len() ==> b[i] != '.',
        b.len() > 0 ==> b[0] != '=',
    ensures
        ({
            let r = range_spec(a + seq!['.', '.'] + b);
            match (
                parse_uint_spec(trim_spec(a), u64::MAX as nat),
                parse_uint_spec(trim_spec(b), u64::MAX as nat),
            ) {
                (Ok(start), Ok(end)) => if start <= end {
                    r == Ok::<(nat, nat), Seq<char>>((start, end))
                } else {
                    r == Err::<(nat, nat), Seq<char>>("range end must be >= start"@)
                },
                (Err(e), _) => r == Err::<(nat, nat), Seq<char>>("bad start: "@ + e.text()),
                (Ok(_), Err(e)) => r == Err::<(nat, nat), Seq<char>>("bad end: "@ + e.text()),
            }
        }),
{
    reveal_strlit("..=");
    reveal_strlit("..");
    let s = a + seq!['.', '.'] + b;
    let n = a.len() as int;
    assert(!contains_text(s, "..="@)) by {
        if contains_text(s, "..="@) {
            let i = choose|i: int| crate::text::occurs_at(s, "..="@, i);
            let p = s.subrange(i, i + 3);
            assert(p[0] == s[i] && p[1] == s[i + 1] && p[2] == s[i + 2]);
            assert("..="@[0] == '.' && "..="@[1] == '.' && "..="@[2] == '=');
            if i < n {
                assert(s[i] == a[i]);
            } else if i > n {
                if i == n + 1 {
                    assert(s[i + 1] == b[0]);
                } else {
                    assert(s[i] == b[i - n - 2]);
                }
            } else {
                assert(s[i + 2] == b[0]);
            }
        }
    }
    lemma_first_occurrence(s, ".."@, 0);
    assert(s.subrange(n, n + 2) =~= ".."@);
    assert(crate::text::occurs_at(s, ".."@, n));
    assert(first_occurrence(s, ".."@, 0) == Some(n)) by {
        let i = first_occurrence(s, ".."@, 0)->Some_0;
        if i < n {
            let p = s.subrange(i, i + 2);
            assert(p[0] == s[i]);
            assert(".."@[0] == '.');
            assert(s[i] == a[i]);
        }
    }
    assert(s.take(n) =~= a);
    assert(s.skip(n + 2) =~= b);
}

/// A range with an equals sign behind the dots, and a text without two dots, is refused, with
/// the text.
pub proof fn law_ranges_that_are_refused(s: Seq<char>)
    ensures
        contains_text(s, "..="@) ==> range_spec(s) == Err::<(nat, nat), Seq<char>>(
            "range must be start..end (not ..=): "@ + s,
        ),
        !contains_text(s, ".."@) && !contains_text(s, "..="@) ==> range_spec(s) == Err::<
            (nat, nat),
            Seq<char>,
        >("range must be start..end: "@ + s),
        range_spec(s) matches Ok((start, end)) ==> start <= end <= u64::MAX,
{
    lemma_first_occurrence(s, ".."@, 0);
    if range_spec(s) is Ok {
        let i = first_occurrence(s, ".."@, 0)->Some_0;
        let b = trim_spec(s.skip(i + 2));
        crate::text::lemma_read_digits(crate::text::numeral_digits(b), u64::MAX as nat);
    }
}

/// An account needs a viewing key that decodes and a birthday that is a block height; the key
/// is looked at first.
pub proof fn law_accounts_that_are_refused(
    constants: NetworkType,
    ufvk: Seq<char>,
    birthday: u64,
)
    ensures
        account_fault(constants, ufvk, birthday) is None <==> ufvk_verdict(constants, ufvk) is Ok
            && birthday <= 0xffff_ffff,
        ufvk_verdict(constants, ufvk) matches Err(e) ==> account_fault(constants, ufvk, birthday)
            == Some("invalid --ufvk: "@ + e),
        ufvk_verdict(constants, ufvk) is Ok && birthday > 0xffff_ffff ==> account_fault(
            constants,
            ufvk,
            birthday,
        ) == Some("--birthday "@ + dec(birthday as nat) + " exceeds the u32 block-height range"@),
{
}

} // verus!
