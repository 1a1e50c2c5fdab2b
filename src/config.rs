//! Monitored targets and the engine's settings.
use vstd::prelude::*;

use crate::text::{
    chars_of, find_char, find_in, parse_port, parse_u16, split_on, split_ranges, trim, trim_range,
};

verus! {

/// Interval between two ping cycles, unless configured otherwise.
pub const DEFAULT_PING_INTERVAL_MS: u64 = 1000;

/// Time an SSH probe may take, unless configured otherwise.
pub const DEFAULT_SSH_TIMEOUT_MS: u64 = 5000;

/// Capacity of each history and of the failure log, unless configured otherwise.
pub const DEFAULT_HISTORY_SIZE: usize = 100;

/// Port an SSH target uses when its address names none.
pub const DEFAULT_SSH_PORT: u16 = 22;

/// One monitored endpoint.
pub struct Target {
    /// The address, in the textual form of an IP address.
    pub ip: String,
    pub name: Option<String>,
    pub ssh_port: Option<u16>,
    pub ssh_user: Option<String>,
}

pub struct Config {
    pub targets: Vec<Target>,
    pub ping_interval_ms: u64,
    pub ssh_timeout_ms: u64,
    pub history_size: usize,
}

/// The text of an optional string.
pub open spec fn opt_view(o: Option<String>) -> Option<Seq<char>> {
    match o {
        Some(s) => Some(s@),
        None => None,
    }
}

impl Target {
    /// A target is probed over SSH exactly when it has both a port and a user.
    pub open spec fn ssh_eligible(&self) -> bool {
        self.ssh_port is Some && self.ssh_user is Some
    }

    pub fn is_ssh_enabled(&self) -> (r: bool)
        ensures
            r == self.ssh_eligible(),
    {
        self.ssh_port.is_some() && self.ssh_user.is_some()
    }

    /// The label shown for the target: its name, else its address.
    pub fn display_name(&self) -> (r: &str)
        ensures
            r@ == (match self.name {
                Some(n) => n@,
                None => self.ip@,
            }),
    {
        match &self.name {
            Some(n) => n.as_str(),
            None => self.ip.as_str(),
        }
    }
}

/// A target without a display name or SSH settings.
pub fn plain_target(ip: String, name: Option<String>) -> (t: Target)
    ensures
        t.ip == ip,
        t.name == name,
        t.ssh_port is None,
        t.ssh_user is None,
{
    Target { ip, name, ssh_port: None, ssh_user: None }
}

impl Default for Config {
    /// Two public DNS resolvers, pinged every second, with room for a hundred
    /// results per history.
    fn default() -> (r: Config)
        ensures
            r.targets@.len() == 2,
            r.targets[0].ip@ == "8.8.8.8"@,
            opt_view(r.targets[0].name) == Some("Google DNS"@),
            r.targets[1].ip@ == "1.1.1.1"@,
            opt_view(r.targets[1].name) == Some("Cloudflare DNS"@),
            forall|i: int| 0 <= i < 2 ==> !(#[trigger] r.targets[i]).ssh_eligible()
                && r.targets[i].ssh_port is None && r.targets[i].ssh_user is None,
            r.ping_interval_ms == DEFAULT_PING_INTERVAL_MS,
            r.ssh_timeout_ms == DEFAULT_SSH_TIMEOUT_MS,
            r.history_size == DEFAULT_HISTORY_SIZE,
    {
        let google = plain_target("8.8.8.8".to_owned(), Some("Google DNS".to_owned()));
        let cloudflare = plain_target("1.1.1.1".to_owned(), Some("Cloudflare DNS".to_owned()));
        let mut targets: Vec<Target> = Vec::new();
        targets.push(google);
        targets.push(cloudflare);
        Config {
            targets,
            ping_interval_ms: DEFAULT_PING_INTERVAL_MS,
            ssh_timeout_ms: DEFAULT_SSH_TIMEOUT_MS,
            history_size: DEFAULT_HISTORY_SIZE,
        }
    }
}

impl Config {
    /// The default settings, probing `targets` instead of the default ones.
    pub fn with_targets(targets: Vec<Target>) -> (r: Config)
        ensures
            r.targets == targets,
            r.ping_interval_ms == DEFAULT_PING_INTERVAL_MS,
            r.ssh_timeout_ms == DEFAULT_SSH_TIMEOUT_MS,
            r.history_size == DEFAULT_HISTORY_SIZE,
    {
        Config {
            targets,
            ping_interval_ms: DEFAULT_PING_INTERVAL_MS,
            ssh_timeout_ms: DEFAULT_SSH_TIMEOUT_MS,
            history_size: DEFAULT_HISTORY_SIZE,
        }
    }
}

/// A target as text: address, name, SSH port, SSH user.
pub type TargetText = (Seq<char>, Option<Seq<char>>, Option<u16>, Option<Seq<char>>);

pub open spec fn target_text(t: Target) -> TargetText {
    (t.ip@, opt_view(t.name), t.ssh_port, opt_view(t.ssh_user))
}

pub open spec fn targets_text(v: Seq<Target>) -> Seq<TargetText> {
    v.map_values(|t: Target| target_text(t))
}

/// What is wrong with a target given on the command line.
#[derive(Clone, Copy, Debug, PartialEq, Eq, Structural)]
pub enum ArgsErrorKind {
    /// An SSH target without `@`.
    InvalidSshFormat,
    /// A port that is not a number from 0 to 65535.
    InvalidPort,
}

/// A rejected command-line target, with the offending text.
pub struct ArgsError {
    pub kind: ArgsErrorKind,
    pub text: String,
}

pub open spec fn args_error_text(e: ArgsError) -> (ArgsErrorKind, Seq<char>) {
    (e.kind, e.text@)
}

pub open spec fn args_message(kind: ArgsErrorKind, text: Seq<char>) -> Seq<char> {
    match kind {
        ArgsErrorKind::InvalidSshFormat => "Invalid SSH format: "@ + text
            + ". Expected USER@ip[:port]"@,
        ArgsErrorKind::InvalidPort => "Invalid port number: "@ + text,
    }
}

impl ArgsError {
    /// The message shown to the user.
    pub fn message(&self) -> (r: String)
        ensures
            r@ == args_message(self.kind, self.text@),
    {
        match self.kind {
            ArgsErrorKind::InvalidSshFormat => {
                let mut m = "Invalid SSH format: ".to_owned();
                m.append(self.text.as_str());
                m.append(". Expected USER@ip[:port]");
                m
            },
            ArgsErrorKind::InvalidPort => {
                let mut m = "Invalid port number: ".to_owned();
                m.append(self.text.as_str());
                m
            },
        }
    }
}

/// The addresses of a comma-separated list: each piece trimmed, empty ones
/// skipped.
pub open spec fn ip_entries(ps: Seq<Seq<char>>) -> Seq<TargetText>
    decreases ps.len(),
{
    if ps.len() == 0 {
        Seq::empty()
    } else {
        let t = trim(ps[0]);
        let rest = ip_entries(ps.drop_first());
        if t.len() == 0 {
            rest
        } else {
            seq![(t, None, None, None)] + rest
        }
    }
}

/// One SSH target, `USER@ip[:port]`: the port is 22 when absent, and the
/// target is named by its user, `@`, and the whole text.
pub open spec fn ssh_entry(t: Seq<char>) -> Result<TargetText, (ArgsErrorKind, Seq<char>)> {
    match find_char(t, '@') {
        None => Err((ArgsErrorKind::InvalidSshFormat, t)),
        Some(p) => {
            let user = t.take(p);
            let rest = t.skip(p + 1);
            let name = user + "@"@ + t;
            match find_char(rest, ':') {
                None => Ok((rest, Some(name), Some(DEFAULT_SSH_PORT), Some(user))),
                Some(q) => {
                    let port_text = rest.skip(q + 1);
                    match parse_u16(port_text) {
                        None => Err((ArgsErrorKind::InvalidPort, port_text)),
                        Some(port) => Ok((rest.take(q), Some(name), Some(port), Some(user))),
                    }
                },
            }
        },
    }
}

/// The SSH targets of a comma-separated list: each piece trimmed, empty ones
/// skipped, the first invalid one rejecting the whole list.
pub open spec fn ssh_entries(ps: Seq<Seq<char>>) -> Result<Seq<TargetText>, (ArgsErrorKind, Seq<char>)>
    decreases ps.len(),
{
    if ps.len() == 0 {
        Ok(Seq::empty())
    } else {
        let t = trim(ps[0]);
        if t.len() == 0 {
            ssh_entries(ps.drop_first())
        } else {
            match ssh_entry(t) {
                Err(e) => Err(e),
                Ok(x) => match ssh_entries(ps.drop_first()) {
                    Ok(rest) => Ok(seq![x] + rest),
                    Err(e) => Err(e),
                },
            }
        }
    }
}

/// The targets named on the command line: the plain addresses first, then
/// the SSH targets.
pub open spec fn targets_from_args(ip: Option<Seq<char>>, ssh: Option<Seq<char>>) -> Result<
    Seq<TargetText>,
    (ArgsErrorKind, Seq<char>),
> {
    let ips = match ip {
        Some(s) => ip_entries(split_on(s, ',')),
        None => Seq::empty(),
    };
    match ssh {
        None => Ok(ips),
        Some(s) => match ssh_entries(split_on(s, ',')) {
            Ok(v) => Ok(ips + v),
            Err(e) => Err(e),
        },
    }
}

/// Prepends what was already read to what the rest of a list gives.
pub open spec fn prepend_ok(
    acc: Seq<TargetText>,
    r: Result<Seq<TargetText>, (ArgsErrorKind, Seq<char>)>,
) -> Result<Seq<TargetText>, (ArgsErrorKind, Seq<char>)> {
    match r {
        Ok(v) => Ok(acc + v),
        Err(e) => Err(e),
    }
}

proof fn lemma_targets_text_push(v: Seq<Target>, t: Target)
    ensures
        targets_text(v.push(t)) == targets_text(v).push(target_text(t)),
{
    assert(targets_text(v.push(t)) =~= targets_text(v).push(target_text(t)));
}

/// Appends the addresses of the comma-separated list `s` to `out`.
fn push_ip_targets(out: &mut Vec<Target>, s: &str)
    ensures
        targets_text(final(out)@) == targets_text(old(out)@) + ip_entries(split_on(s@, ',')),
{
    let cs = chars_of(s);
    let ranges = split_ranges(&cs, ',');
    let ghost ps = split_on(s@, ',');
    let ghost start = targets_text(out@);
    let mut k: usize = 0;
    assert(ps.skip(0) == ps);
    while k < ranges.len()
        invariant
            cs@ == s@,
            ps == split_on(s@, ','),
            ranges@.len() == ps.len(),
            forall|j: int| #![trigger ranges@[j]]
                0 <= j < ranges@.len() ==> ranges@[j].0 <= ranges@[j].1 <= cs@.len()
                    && cs@.subrange(ranges@[j].0 as int, ranges@[j].1 as int) == ps[j],
            k <= ranges@.len(),
            start + ip_entries(ps) == targets_text(out@) + ip_entries(ps.skip(k as int)),
        decreases ranges@.len() - k,
    {
        let (lo, hi) = ranges[k];
        let (a, b) = trim_range(&cs, lo, hi);
        assert(ps.skip(k as int).drop_first() == ps.skip(k as int + 1));
        assert(ps.skip(k as int)[0] == ps[k as int]);
        if a < b {
            let ip = s.substring_char(a, b).to_owned();
            let t = plain_target(ip, None);
            proof {
                lemma_targets_text_push(out@, t);
            }
            let ghost before = targets_text(out@);
            out.push(t);
            let ghost x = target_text(t);
            let ghost rest = ip_entries(ps.skip(k as int + 1));
            assert(x == (trim(ps[k as int]), None::<Seq<char>>, None::<u16>, None::<Seq<char>>));
            assert(ip_entries(ps.skip(k as int)) == seq![x] + rest);
            assert(before + (seq![x] + rest) =~= before.push(x) + rest);
        }
        k = k + 1;
    }
    assert(ps.skip(ranges@.len() as int) =~= Seq::<Seq<char>>::empty());
    assert(start + ip_entries(ps) =~= targets_text(out@));
}

/// The SSH target that `cs[a..b]` (the characters of `s`) writes.
fn ssh_target(s: &str, cs: &Vec<char>, a: usize, b: usize) -> (r: Result<Target, ArgsError>)
    requires
        cs@ == s@,
        a <= b <= cs@.len(),
    ensures
        match ssh_entry(cs@.subrange(a as int, b as int)) {
            Ok(x) => r is Ok && target_text(r->Ok_0) == x,
            Err(e) => r is Err && args_error_text(r->Err_0) == e,
        },
{
    let ghost t = cs@.subrange(a as int, b as int);
    let piece = s.substring_char(a, b);
    match find_in(cs, a, b, '@') {
        None => Err(ArgsError { kind: ArgsErrorKind::InvalidSshFormat, text: piece.to_owned() }),
        Some(p) => {
            assert(t.take(p - a) == cs@.subrange(a as int, p as int));
            assert(t.skip(p - a + 1) == cs@.subrange(p + 1, b as int));
            let user = s.substring_char(a, p).to_owned();
            let mut name = s.substring_char(a, p).to_owned();
            name.append("@");
            name.append(piece);
            match find_in(cs, p + 1, b, ':') {
                None => Ok(
                    Target {
                        ip: s.substring_char(p + 1, b).to_owned(),
                        name: Some(name),
                        ssh_port: Some(DEFAULT_SSH_PORT),
                        ssh_user: Some(user),
                    },
                ),
                Some(q) => {
                    let ghost rest = cs@.subrange(p + 1, b as int);
                    assert(rest.skip(q - p) == cs@.subrange(q + 1, b as int));
                    assert(rest.take(q - p - 1) == cs@.subrange(p + 1, q as int));
                    match parse_port(cs, q + 1, b) {
                        None => Err(
                            ArgsError {
                                kind: ArgsErrorKind::InvalidPort,
                                text: s.substring_char(q + 1, b).to_owned(),
                            },
                        ),
                        Some(port) => Ok(
                            Target {
                                ip: s.substring_char(p + 1, q).to_owned(),
                                name: Some(name),
                                ssh_port: Some(port),
                                ssh_user: Some(user),
                            },
                        ),
                    }
                },
            }
        },
    }
}

/// Appends the SSH targets of the comma-separated list `s` to `out`, or
/// rejects the list at its first invalid target.
fn push_ssh_targets(out: &mut Vec<Target>, s: &str) -> (r: Result<(), ArgsError>)
    ensures
        match ssh_entries(split_on(s@, ',')) {
            Ok(v) => r is Ok && targets_text(final(out)@) == targets_text(old(out)@) + v,
            Err(e) => r is Err && args_error_text(r->Err_0) == e,
        },
{
    let cs = chars_of(s);
    let ranges = split_ranges(&cs, ',');
    let ghost ps = split_on(s@, ',');
    let ghost start = targets_text(out@);
    let mut k: usize = 0;
    assert(ps.skip(0) == ps);
    while k < ranges.len()
        invariant
            cs@ == s@,
            ps == split_on(s@, ','),
            ranges@.len() == ps.len(),
            forall|j: int| #![trigger ranges@[j]]
                0 <= j < ranges@.len() ==> ranges@[j].0 <= ranges@[j].1 <= cs@.len()
                    && cs@.subrange(ranges@[j].0 as int, ranges@[j].1 as int) == ps[j],
            k <= ranges@.len(),
            targets_text(out@).len() >= start.len(),
            targets_text(out@).subrange(0, start.len() as int) == start,
            prepend_ok(start, ssh_entries(ps)) == prepend_ok(
                targets_text(out@),
                ssh_entries(ps.skip(k as int)),
            ),
        decreases ranges@.len() - k,
    {
        let (lo, hi) = ranges[k];
        let (a, b) = trim_range(&cs, lo, hi);
        assert(ps.skip(k as int).drop_first() == ps.skip(k as int + 1));
        assert(ps.skip(k as int)[0] == ps[k as int]);
        if a < b {
            match ssh_target(s, &cs, a, b) {
                Err(e) => {
                    return Err(e);
                },
                Ok(t) => {
                    proof {
                        lemma_targets_text_push(out@, t);
                    }
                    let ghost before = targets_text(out@);
                    out.push(t);
                    let ghost x = target_text(t);
                    assert(targets_text(out@) == before.push(x));
                    assert(targets_text(out@).subrange(0, start.len() as int) == before.subrange(
                        0,
                        start.len() as int,
                    ));
                    proof {
                        match ssh_entries(ps.skip(k as int + 1)) {
                            Ok(v) => {
                                assert(before + (seq![x] + v) =~= before.push(x) + v);
                            },
                            Err(e) => {},
                        }
                    }
                },
            }
        }
        k = k + 1;
    }
    assert(ps.skip(ranges@.len() as int) =~= Seq::<Seq<char>>::empty());
    assert(targets_text(out@) + Seq::<TargetText>::empty() == targets_text(out@));
    proof {
        match ssh_entries(ps) {
            Ok(v) => {
                assert(start + v == targets_text(out@));
            },
            Err(e) => {},
        }
    }
    Ok(())
}

/// The targets named on the command line: `ip_list` holds comma-separated
/// addresses, `ssh_list` comma-separated `USER@ip[:port]` targets. Pieces are
/// trimmed and empty ones skipped; the addresses come first. An SSH target
/// without `@`, or with a port that is not a 16-bit number, is rejected.
pub fn parse_targets_from_args(ip_list: Option<String>, ssh_list: Option<String>) -> (r: Result<
    Vec<Target>,
    ArgsError,
>)
    ensures
        match targets_from_args(opt_view(ip_list), opt_view(ssh_list)) {
            Ok(v) => r is Ok && targets_text(r->Ok_0@) == v,
            Err(e) => r is Err && args_error_text(r->Err_0) == e,
        },
{
    let mut targets: Vec<Target> = Vec::new();
    assert(targets_text(targets@) =~= Seq::<TargetText>::empty());
    if let Some(ips) = &ip_list {
        push_ip_targets(&mut targets, ips.as_str());
        assert(Seq::<TargetText>::empty() + ip_entries(split_on(ips@, ',')) == ip_entries(
            split_on(ips@, ','),
        ));
    }
    if let Some(ssh) = &ssh_list {
        push_ssh_targets(&mut targets, ssh.as_str())?;
    }
    Ok(targets)
}

} // verus!


