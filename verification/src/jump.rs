//! `ProxyJump` chain resolution.
//!
//! Turns the `ProxyJump` value of a [`Host`] (`bastion`, `ops@jump:2222`,
//! `first,second`, …) into the ordered list of hosts that must be connected
//! **before** the target, nearest to the local machine first.
//!
//! Each hop is looked up in the known host list — the merged `hosts.toml` +
//! `~/.ssh/config` entries — so a jump alias inherits that entry's `HostName`,
//! `User`, `Port` and `IdentityFile`, exactly like an `ssh -J` hop resolves
//! through `ssh_config`. A hop that matches no known entry is used literally as
//! a hostname.

use vstd::prelude::*;
use crate::client::{default_host, host_views, Host, HostView};
use crate::text::{
    chars_between, chars_of, eq_ignore_ascii_case, find_char, find_char_from, first_pos,
    is_char, last_pos, lemma_first_where, parse_u16, parse_u16_chars, push_chars,
    same_ignoring_ascii_case, trim, trimmed,
};
use crate::tunnel::{opt_chars, string_from};

verus! {

/// Upper bound on the hops in a resolved chain, and on the depth of the
/// expansion recursion. Longer chains are almost certainly a configuration
/// mistake.
pub const MAX_HOPS: usize = 10;

/// One hop parsed from a `ProxyJump` value: `[user@]host[:port]`.
#[derive(Debug, PartialEq)]
pub struct JumpSpec {
    pub user: Option<String>,
    pub host: String,
    pub port: Option<u16>,
}

pub struct JumpSpecView {
    pub user: Option<Seq<char>>,
    pub host: Seq<char>,
    pub port: Option<u16>,
}

impl View for JumpSpec {
    type V = JumpSpecView;

    open spec fn view(&self) -> JumpSpecView {
        JumpSpecView { user: opt_chars(self.user), host: self.host@, port: self.port }
    }
}

/// Why a `ProxyJump` value gives no chain.
#[derive(Debug, PartialEq)]
pub enum JumpError {
    /// A hop cannot be parsed; the message says which and why.
    Unusable(String),
    /// The chain reaches a host that is still being expanded, named here.
    Cycle(String),
    /// Bastions nest deeper than [`MAX_HOPS`].
    TooDeep,
    /// The chain holds more than [`MAX_HOPS`] hops.
    TooLong,
}

pub enum JumpErrorView {
    Unusable(Seq<char>),
    Cycle(Seq<char>),
    TooDeep,
    TooLong,
}

impl View for JumpError {
    type V = JumpErrorView;

    open spec fn view(&self) -> JumpErrorView {
        match self {
            JumpError::Unusable(m) => JumpErrorView::Unusable(m@),
            JumpError::Cycle(n) => JumpErrorView::Cycle(n@),
            JumpError::TooDeep => JumpErrorView::TooDeep,
            JumpError::TooLong => JumpErrorView::TooLong,
        }
    }
}

/// The message of a [`JumpError`].
pub open spec fn jump_error_message(e: JumpErrorView) -> Seq<char> {
    match e {
        JumpErrorView::Unusable(m) => m,
        JumpErrorView::Cycle(n) => "ProxyJump cycle detected at '"@ + n + "'"@,
        JumpErrorView::TooDeep => "ProxyJump chain nested deeper than 10 hops"@,
        JumpErrorView::TooLong => "ProxyJump chain longer than 10 hops"@,
    }
}

impl JumpError {
    /// The error as a sentence.
    pub fn message(&self) -> (m: String)
        ensures
            m@ == jump_error_message(self@),
    {
        match self {
            JumpError::Unusable(m) => m.clone(),
            JumpError::Cycle(n) => {
                let mut m = String::from_str("ProxyJump cycle detected at '");
                m.append(n.as_str());
                m.append("'");
                m
            },
            JumpError::TooDeep => String::from_str("ProxyJump chain nested deeper than 10 hops"),
            JumpError::TooLong => String::from_str("ProxyJump chain longer than 10 hops"),
        }
    }
}

// ---------------------------------------------------------------------------
// Parsing a value
// ---------------------------------------------------------------------------

/// A hop's port: a number from 1 to 65535 — zero can never name a listening
/// service — or the message saying it is not one.
pub open spec fn hop_port(value: Seq<char>) -> Result<u16, Seq<char>> {
    match parse_u16(value) {
        Some(p) if p != 0 => Ok(p),
        _ => Err("'"@ + value + "' is not a valid port"@),
    }
}

/// Parses a hop's port. Zero is rejected the way `ssh` rejects it.
pub fn parse_port(value: &[char]) -> (r: Result<u16, String>)
    ensures
        match (r, hop_port(value@)) {
            (Ok(p), Ok(q)) => p == q,
            (Err(m), Err(w)) => m@ == w,
            _ => false,
        },
{
    match parse_u16_chars(value) {
        Some(p) if p != 0 => Ok(p),
        _ => {
            let mut m = String::from_str("'");
            push_chars(&mut m, value);
            m.append("' is not a valid port");
            Err(m)
        },
    }
}

/// `host`, `host:port`, `[v6]` or `[v6]:port` split into its two parts. An
/// unbracketed colon separates the port only when it is the sole one: a bare
/// IPv6 literal has several and carries no port.
pub open spec fn host_port(rest: Seq<char>) -> Result<(Seq<char>, Option<u16>), Seq<char>> {
    let r = rest.drop_first();
    let e = first_pos(r, ']');
    if rest.len() > 0 && rest[0] == '[' && e >= 0 {
        let host = r.subrange(0, e);
        let trailer = r.subrange(e + 1, r.len() as int);
        if trailer.len() == 0 {
            Ok((host, None))
        } else if trailer[0] != ':' {
            Err("trailing '"@ + trailer + "' after ']'"@)
        } else {
            match hop_port(trailer.drop_first()) {
                Ok(p) => Ok((host, Some(p))),
                Err(m) => Err(m),
            }
        }
    } else {
        let i = first_pos(rest, ':');
        let port = rest.subrange(i + 1, rest.len() as int);
        if i >= 0 && !port.contains(':') {
            match hop_port(port) {
                Ok(p) => Ok((rest.subrange(0, i), Some(p))),
                Err(m) => Err(m),
            }
        } else {
            Ok((rest, None))
        }
    }
}

/// Splits `host`, `host:port`, `[v6]` or `[v6]:port` into its two parts.
pub fn split_host_port(rest: &[char]) -> (r: Result<(Vec<char>, Option<u16>), String>)
    ensures
        match (r, host_port(rest@)) {
            (Ok((h, p)), Ok((hh, pp))) => h@ == hh && p == pp,
            (Err(m), Err(w)) => m@ == w,
            _ => false,
        },
{
    let n = rest.len();
    if n > 0 && rest[0] == '[' {
        let r = chars_between(rest, 1, n);
        assert(r@ =~= rest@.drop_first());
        match find_char(r.as_slice(), ']') {
            Some(e) => {
                proof {
                    lemma_first_where(r@, is_char(']'));
                }
                let host = chars_between(r.as_slice(), 0, e);
                let trailer = chars_between(r.as_slice(), e + 1, r.len());
                if trailer.len() == 0 {
                    return Ok((host, None));
                }
                if trailer[0] != ':' {
                    let mut m = String::from_str("trailing '");
                    push_chars(&mut m, trailer.as_slice());
                    m.append("' after ']'");
                    return Err(m);
                }
                let port_text = chars_between(trailer.as_slice(), 1, trailer.len());
                assert(port_text@ =~= trailer@.drop_first());
                return match parse_port(port_text.as_slice()) {
                    Ok(p) => Ok((host, Some(p))),
                    Err(m) => Err(m),
                };
            },
            None => {},
        }
    }
    match find_char(rest, ':') {
        Some(i) => {
            proof {
                lemma_first_where(rest@, is_char(':'));
            }
            let port = chars_between(rest, i + 1, n);
            if !crate::text::has_char(port.as_slice(), ':') {
                return match parse_port(port.as_slice()) {
                    Ok(p) => Ok((chars_between(rest, 0, i), Some(p))),
                    Err(m) => Err(m),
                };
            }
            Ok((chars_between(rest, 0, n), None))
        },
        None => Ok((chars_between(rest, 0, n), None)),
    }
}

/// One `[user@]host[:port]` hop, trimmed: the user is what comes before the
/// last `@` when there is something there; or the message saying why the hop
/// is unusable.
pub open spec fn hop(text: Seq<char>) -> Result<JumpSpecView, Seq<char>> {
    let h = trim(text);
    if h.len() == 0 {
        Err("empty ProxyJump hop"@)
    } else {
        let at = last_pos(h, '@');
        let (user, rest) = if at > 0 {
            (Some(h.subrange(0, at)), h.subrange(at + 1, h.len() as int))
        } else {
            (None, h)
        };
        match host_port(rest) {
            Err(e) => Err("unusable ProxyJump hop '"@ + h + "': "@ + e),
            Ok((host, port)) => if host.len() == 0 {
                Err("ProxyJump hop '"@ + h + "' has no host"@)
            } else {
                Ok(JumpSpecView { user, host, port })
            },
        }
    }
}

/// Parses a single `[user@]host[:port]` hop. Bracketed IPv6 literals
/// (`[2001:db8::1]:2222`) are supported, matching `ssh -J`.
pub fn parse_hop(text: &[char]) -> (r: Result<JumpSpec, String>)
    ensures
        match (r, hop(text@)) {
            (Ok(s), Ok(w)) => s@ == w,
            (Err(m), Err(w)) => m@ == w,
            _ => false,
        },
{
    let h = trimmed(text);
    if h.len() == 0 {
        return Err(String::from_str("empty ProxyJump hop"));
    }
    let mut at = h.len();
    assert(h@.subrange(0, h@.len() as int) =~= h@);
    while at > 0 && h[at - 1] != '@'
        invariant
            at <= h@.len(),
            last_pos(h@, '@') == last_pos(h@.subrange(0, at as int), '@'),
        decreases at,
    {
        assert(h@.subrange(0, at as int).drop_last() =~= h@.subrange(0, at - 1));
        at = at - 1;
    }
    proof {
        if at > 0 {
            assert(h@.subrange(0, at as int).last() == '@');
        } else {
            assert(h@.subrange(0, 0) =~= Seq::<char>::empty());
        }
        assert(h@.subrange(0, h@.len() as int) =~= h@);
    }
    let ghost pos = last_pos(h@, '@');
    assert(pos == at - 1);
    let (user, rest) = if at > 1 {
        let u = chars_between(h.as_slice(), 0, at - 1);
        (Some(string_from(u.as_slice())), chars_between(h.as_slice(), at, h.len()))
    } else {
        (None, chars_between(h.as_slice(), 0, h.len()))
    };
    match split_host_port(rest.as_slice()) {
        Err(e) => {
            let mut m = String::from_str("unusable ProxyJump hop '");
            push_chars(&mut m, h.as_slice());
            m.append("': ");
            m.append(e.as_str());
            Err(m)
        },
        Ok((host, port)) => {
            if host.len() == 0 {
                let mut m = String::from_str("ProxyJump hop '");
                push_chars(&mut m, h.as_slice());
                m.append("' has no host");
                Err(m)
            } else {
                Ok(JumpSpec { user, host: string_from(host.as_slice()), port })
            }
        },
    }
}

/// The pieces of `s` between the occurrences of `c`, as `str::split(c)`.
pub open spec fn split_on(s: Seq<char>, c: char) -> Seq<Seq<char>>
    decreases s.len(),
{
    let i = first_pos(s, c);
    if i < 0 {
        seq![s]
    } else {
        proof {
            lemma_first_where(s, is_char(c));
        }
        seq![s.subrange(0, i)] + split_on(s.subrange(i + 1, s.len() as int), c)
    }
}

/// The hops `pieces` give, or the message of the first that is unusable.
pub open spec fn hops_of(pieces: Seq<Seq<char>>) -> Result<Seq<JumpSpecView>, Seq<char>>
    decreases pieces.len(),
{
    if pieces.len() == 0 {
        Ok(seq![])
    } else {
        match hop(pieces[0]) {
            Err(e) => Err(e),
            Ok(h) => match hops_of(pieces.drop_first()) {
                Ok(rest) => Ok(seq![h] + rest),
                Err(e) => Err(e),
            },
        }
    }
}

/// The comma-separated hops of a `ProxyJump` value, nearest first; an
/// unusable hop fails the whole value.
pub open spec fn jump_hops(value: Seq<char>) -> Result<Seq<JumpSpecView>, Seq<char>> {
    hops_of(split_on(value, ','))
}

pub open spec fn spec_views(s: Seq<JumpSpec>) -> Seq<JumpSpecView> {
    s.map_values(|h: JumpSpec| h@)
}

proof fn lemma_hops_of_split(pre: Seq<Seq<char>>, rest: Seq<Seq<char>>, acc: Seq<JumpSpecView>)
    requires
        hops_of(pre) == Ok::<Seq<JumpSpecView>, Seq<char>>(acc),
    ensures
        hops_of(pre + rest) == (match hops_of(rest) {
            Ok(r) => Ok(acc + r),
            Err(e) => Err::<Seq<JumpSpecView>, Seq<char>>(e),
        }),
    decreases pre.len(),
{
    if pre.len() == 0 {
        assert(pre + rest =~= rest);
        assert(acc =~= Seq::<JumpSpecView>::empty());
        match hops_of(rest) {
            Ok(r) => {
                assert(acc + r =~= r);
            },
            Err(_) => {},
        }
    } else {
        let h = hop(pre[0]).get_Ok_0();
        let tail = hops_of(pre.drop_first()).get_Ok_0();
        assert(acc == seq![h] + tail);
        assert((pre + rest).drop_first() =~= pre.drop_first() + rest);
        lemma_hops_of_split(pre.drop_first(), rest, tail);
        match hops_of(rest) {
            Ok(r) => {
                assert(seq![h] + (tail + r) =~= acc + r);
            },
            Err(_) => {},
        }
    }
}

/// Splits a `ProxyJump` value into its comma-separated hops, nearest first.
///
/// An unusable hop fails the whole value. Dropping it would shorten the route,
/// and dropping the only hop would connect straight to the target — past the
/// bastion the value exists to name.
pub fn parse_jump_spec(value: &str) -> (r: Result<Vec<JumpSpec>, String>)
    ensures
        match (r, jump_hops(value@)) {
            (Ok(s), Ok(w)) => spec_views(s@) == w,
            (Err(m), Err(w)) => m@ == w,
            _ => false,
        },
{
    let v = chars_of(value);
    parse_jump_chars(v.as_slice())
}

/// [`parse_jump_spec`] on the characters `value`.
fn parse_jump_chars(value: &[char]) -> (r: Result<Vec<JumpSpec>, String>)
    ensures
        match (r, jump_hops(value@)) {
            (Ok(s), Ok(w)) => spec_views(s@) == w,
            (Err(m), Err(w)) => m@ == w,
            _ => false,
        },
{
    let n = value.len();
    let mut out: Vec<JumpSpec> = Vec::new();
    let mut pos: usize = 0;
    let ghost mut done: Seq<Seq<char>> = seq![];
    assert(value@.subrange(0, n as int) =~= value@);
    assert(split_on(value@, ',') =~= done + split_on(value@.subrange(0, n as int), ','));
    assert(spec_views(out@) =~= Seq::<JumpSpecView>::empty());
    loop
        invariant
            pos <= n == value@.len(),
            split_on(value@, ',') == done + split_on(value@.subrange(pos as int, n as int), ','),
            hops_of(done) == Ok::<Seq<JumpSpecView>, Seq<char>>(spec_views(out@)),
        decreases n - pos,
    {
        let ghost rest = value@.subrange(pos as int, n as int);
        let (piece, next) = match find_char_from(value, pos, ',') {
            Some(j) => (chars_between(value, pos, j), Some(j)),
            None => (chars_between(value, pos, n), None),
        };
        let ghost sp = split_on(rest, ',');
        proof {
            match next {
                Some(j) => {
                    lemma_first_where(rest, is_char(','));
                    assert(piece@ =~= rest.subrange(0, j - pos));
                    assert(rest.subrange(j - pos + 1, rest.len() as int) =~= value@.subrange(j + 1, n as int));
                    assert(sp == seq![piece@] + split_on(value@.subrange(j + 1, n as int), ','));
                },
                None => {
                    assert(piece@ =~= rest);
                    assert(sp == seq![piece@]);
                },
            }
        }
        match parse_hop(piece.as_slice()) {
            Err(m) => {
                proof {
                    let all = split_on(value@, ',');
                    let tail = sp.drop_first();
                    assert(all =~= done + (seq![piece@] + tail));
                    assert(hops_of(seq![piece@] + tail) is Err) by {
                        assert((seq![piece@] + tail)[0] == piece@);
                    }
                    lemma_hops_of_split(done, seq![piece@] + tail, spec_views(out@));
                    assert(all =~= done + (seq![piece@] + tail));
                }
                return Err(m);
            },
            Ok(h) => {
                let ghost hv = h@;
                let ghost before = spec_views(out@);
                out.push(h);
                assert(spec_views(out@) =~= before.push(hv));
                proof {
                    assert(hops_of(seq![piece@]) == Ok::<Seq<JumpSpecView>, Seq<char>>(seq![hv])) by {
                        assert(hop(piece@) == Ok::<JumpSpecView, Seq<char>>(hv));
                        assert(seq![piece@][0] == piece@);
                        assert(seq![piece@].drop_first() =~= Seq::<Seq<char>>::empty());
                        assert(hops_of(Seq::<Seq<char>>::empty()) == Ok::<Seq<JumpSpecView>, Seq<char>>(Seq::<JumpSpecView>::empty()));
                        assert(seq![hv] + Seq::<JumpSpecView>::empty() =~= seq![hv]);
                    }
                    lemma_hops_of_split(done, seq![piece@], before);
                    assert(before + seq![hv] =~= before.push(hv));
                    done = done + seq![piece@];
                }
                match next {
                    Some(j) => {
                        pos = j + 1;
                        assert(split_on(value@, ',') =~= done + split_on(value@.subrange(pos as int, n as int), ','));
                    },
                    None => {
                        proof {
                            assert(split_on(value@, ',') =~= done);
                        }
                        return Ok(out);
                    },
                }
            },
        }
    }
}


// ---------------------------------------------------------------------------
// Resolving a chain
// ---------------------------------------------------------------------------

/// The effective `ProxyJump` value of `h`, trimmed, or `None` when it
/// connects directly. Blank values and the OpenSSH `none` opt-out both mean
/// "direct".
pub open spec fn jump_value(h: HostView) -> Option<Seq<char>> {
    match h.proxy_jump {
        None => None,
        Some(v) => {
            let t = trim(v);
            if t.len() == 0 || eq_ignore_ascii_case(t, "none"@) {
                None
            } else {
                Some(t)
            }
        },
    }
}

/// The effective `ProxyJump` value of `host`, or `None` when it connects
/// directly.
pub fn jump_value_of(host: &Host) -> (r: Option<Vec<char>>)
    ensures
        match (r, jump_value(host@)) {
            (Some(v), Some(w)) => v@ == w,
            (None, None) => true,
            _ => false,
        },
{
    match &host.proxy_jump {
        None => None,
        Some(v) => {
            let t = trimmed(chars_of(v.as_str()).as_slice());
            if t.len() == 0 || same_ignoring_ascii_case(t.as_slice(), "none") {
                None
            } else {
                Some(t)
            }
        },
    }
}

/// Index of the first host of `s` that satisfies `p`, or `-1`.
pub open spec fn first_host_where(s: Seq<HostView>, p: spec_fn(HostView) -> bool) -> int
    decreases s.len(),
{
    if s.len() == 0 {
        -1
    } else if p(s[0]) {
        0
    } else {
        let r = first_host_where(s.drop_first(), p);
        if r < 0 {
            -1
        } else {
            r + 1
        }
    }
}

/// What the first match is: a host that matches, with none before it; or, at
/// `-1`, no match at all.
pub proof fn lemma_first_host_where(s: Seq<HostView>, p: spec_fn(HostView) -> bool)
    ensures
        -1 <= first_host_where(s, p) < s.len(),
        first_host_where(s, p) >= 0 ==> p(s[first_host_where(s, p)]),
        forall|j: int|
            0 <= j < (if first_host_where(s, p) >= 0 {
                first_host_where(s, p)
            } else {
                s.len() as int
            }) ==> !p(#[trigger] s[j]),
    decreases s.len(),
{
    if s.len() > 0 && !p(s[0]) {
        let t = s.drop_first();
        lemma_first_host_where(t, p);
        assert forall|j: int|
            0 <= j < (if first_host_where(s, p) >= 0 {
                first_host_where(s, p)
            } else {
                s.len() as int
            }) implies !p(#[trigger] s[j]) by {
            if j > 0 {
                assert(s[j] == t[j - 1]);
            }
        }
    }
}

pub proof fn lemma_first_host_where_is(s: Seq<HostView>, p: spec_fn(HostView) -> bool, i: int)
    requires
        -1 <= i < s.len(),
        i >= 0 ==> p(s[i]),
        forall|j: int| 0 <= j < (if i >= 0 { i } else { s.len() as int }) ==> !p(#[trigger] s[j]),
    ensures
        first_host_where(s, p) == i,
    decreases s.len(),
{
    if s.len() > 0 && i != 0 {
        let t = s.drop_first();
        assert(!p(s[0]));
        assert forall|j: int| 0 <= j < (if i - 1 >= 0 { i - 1 } else { t.len() as int }) implies !p(#[trigger] t[j]) by {
            assert(t[j] == s[j + 1]);
        }
        if i > 0 {
            assert(t[i - 1] == s[i]);
        }
        lemma_first_host_where_is(t, p, if i > 0 { i - 1 } else { -1 });
    }
}

/// The test "is named `n`".
pub open spec fn named(n: Seq<char>) -> spec_fn(HostView) -> bool {
    |h: HostView| h.name == n
}

/// The test "was imported from `~/.ssh/config` under the alias `n`".
pub open spec fn originally(n: Seq<char>) -> spec_fn(HostView) -> bool {
    |h: HostView| h.original_ssh_host == Some(n)
}

/// The connectable host one hop names. A hop naming a known entry inherits all
/// of its connection settings — an entry carrying the alias as its name before
/// one that was imported under it and renamed; anything else becomes a bare
/// host with the local `user` and port 22. An explicit `user@` or `:port` in
/// the hop wins, and an entry without a `HostName` is reached under its name.
pub open spec fn hop_host(spec: JumpSpecView, known: Seq<HostView>, user: Seq<char>) -> HostView {
    let i = first_host_where(known, named(spec.host));
    let j = first_host_where(known, originally(spec.host));
    let base = if i >= 0 {
        known[i]
    } else if j >= 0 {
        known[j]
    } else {
        HostView { hostname: spec.host, ..default_host(spec.host, user) }
    };
    let with_user = match spec.user {
        Some(u) => HostView { user: u, ..base },
        None => base,
    };
    let with_port = match spec.port {
        Some(p) => HostView { port: p, ..with_user },
        None => with_user,
    };
    if with_port.hostname.len() == 0 {
        HostView { hostname: with_port.name, ..with_port }
    } else {
        with_port
    }
}

/// Index of the first of `known` satisfying the name test, found by scan.
pub fn find_host(known: &[Host], name: &String, by_original: bool) -> (r: Option<usize>)
    ensures
        match r {
            Some(i) => i < known@.len() && first_host_where(
                host_views(known@),
                if by_original { originally(name@) } else { named(name@) },
            ) == i,
            None => first_host_where(
                host_views(known@),
                if by_original { originally(name@) } else { named(name@) },
            ) == -1,
        },
{
    let ghost p = if by_original { originally(name@) } else { named(name@) };
    let ghost hs = host_views(known@);
    let mut i: usize = 0;
    while i < known.len()
        invariant
            i <= known@.len() == hs.len(),
            hs == host_views(known@),
            p == (if by_original { originally(name@) } else { named(name@) }),
            forall|j: int| 0 <= j < i ==> !p(#[trigger] hs[j]),
        decreases known.len() - i,
    {
        let hit = if by_original {
            match &known[i].original_ssh_host {
                Some(o) => o.eq(name),
                None => false,
            }
        } else {
            known[i].name.eq(name)
        };
        assert(hs[i as int] == known@[i as int]@);
        if hit {
            proof {
                lemma_first_host_where_is(hs, p, i as int);
            }
            return Some(i);
        }
        i = i + 1;
    }
    proof {
        lemma_first_host_where_is(hs, p, -1);
    }
    None
}

/// Turns one parsed hop into a connectable [`Host`] (see [`hop_host`]).
pub fn resolve_hop(spec: &JumpSpec, known: &[Host], user: &str) -> (h: Host)
    ensures
        h@ == hop_host(spec@, host_views(known@), user@),
{
    let mut host = match find_host(known, &spec.host, false) {
        Some(i) => known[i].copy(),
        None => match find_host(known, &spec.host, true) {
            Some(j) => known[j].copy(),
            None => {
                let mut h = Host::default_for(user.to_owned());
                h.name = spec.host.clone();
                h.hostname = spec.host.clone();
                h
            },
        },
    };
    match &spec.user {
        Some(u) => host.user = u.clone(),
        None => {},
    }
    match spec.port {
        Some(p) => host.port = p,
        None => {},
    }
    if host.hostname.as_str().is_empty() {
        host.hostname = host.name.clone();
    }
    host
}

/// Whether two hops are the same machine — the same alias, or the same
/// endpoint reached under a second name.
pub open spec fn same_hop(a: HostView, b: HostView) -> bool {
    a.name == b.name || (a.user == b.user && a.hostname == b.hostname && a.port == b.port)
}

/// Whether two hops are the same machine.
pub fn same_hop_as(a: &Host, b: &Host) -> (r: bool)
    ensures
        r == same_hop(a@, b@),
{
    a.name.eq(&b.name) || (a.user.eq(&b.user) && a.hostname.eq(&b.hostname) && a.port == b.port)
}

/// Whether `h` is the same machine as one of `active`.
pub open spec fn reenters(active: Seq<HostView>, h: HostView) -> bool {
    exists|k: int| 0 <= k < active.len() && same_hop(#[trigger] active[k], h)
}

/// The chain after appending the hops `hops[i..]` to `chain`, while the hosts
/// `active` are being expanded — or why there is none. Only the first hop of
/// a list brings bastions of its own: for `a,b`, ssh reaches `b` with the list
/// on its command line, which outranks `b`'s own `ProxyJump`.
pub open spec fn walk(
    chain: Seq<HostView>,
    active: Seq<HostView>,
    hops: Seq<JumpSpecView>,
    i: int,
    known: Seq<HostView>,
    user: Seq<char>,
) -> Result<Seq<HostView>, JumpErrorView>
    decreases 11 - active.len(), hops.len() - i,
{
    if i < 0 || i >= hops.len() {
        Ok(chain)
    } else {
        let host = hop_host(hops[i], known, user);
        if reenters(active, host) {
            Err(JumpErrorView::Cycle(host.name))
        } else {
            let nested = if i == 0 {
                jump_value(host)
            } else {
                None
            };
            let mid = match nested {
                None => Ok(chain),
                Some(v) => if active.len() > MAX_HOPS {
                    Err(JumpErrorView::TooDeep)
                } else {
                    match jump_hops(v) {
                        Err(e) => Err(JumpErrorView::Unusable(e)),
                        Ok(sub) => walk(chain, active.push(host), sub, 0, known, user),
                    }
                },
            };
            match mid {
                Err(e) => Err(e),
                Ok(c) => if c.len() >= MAX_HOPS {
                    Err(JumpErrorView::TooLong)
                } else {
                    walk(c.push(HostView { proxy_jump: None, ..host }), active, hops, i + 1, known, user)
                },
            }
        }
    }
}

/// The jump chain of `target` among the `known` hosts, bastions that match no
/// entry logging in as `user`.
pub open spec fn chain_of(target: HostView, known: Seq<HostView>, user: Seq<char>) -> Result<Seq<HostView>, JumpErrorView> {
    match jump_value(target) {
        None => Ok(seq![]),
        Some(v) => match jump_hops(v) {
            Err(e) => Err(JumpErrorView::Unusable(e)),
            Ok(hops) => walk(seq![], seq![target], hops, 0, known, user),
        },
    }
}

/// Appends the hops `hops` to `chain`, nearest hop first, while the hosts
/// `active` are being expanded.
#[verifier::loop_isolation(false)]
#[verifier::rlimit(40)]
#[verifier::spinoff_prover]
fn expand(chain: &mut Vec<Host>, active: &mut Vec<Host>, hops: &Vec<JumpSpec>, known: &[Host], user: &str) -> (r: Result<(), JumpError>)
    ensures
        final(active)@ == old(active)@,
        match (r, walk(host_views(old(chain)@), host_views(old(active)@), spec_views(hops@), 0, host_views(known@), user@)) {
            (Ok(()), Ok(c)) => host_views(final(chain)@) == c,
            (Err(e), Err(w)) => e@ == w,
            _ => false,
        },
    decreases 11 - old(active)@.len(),
{
    let ghost a0 = active@;
    let ghost hs = spec_views(hops@);
    let ghost ks = host_views(known@);
    let ghost target = walk(host_views(chain@), host_views(a0), hs, 0, ks, user@);
    let mut i: usize = 0;
    while i < hops.len()
        invariant
            i <= hops@.len() == hs.len(),
            hs == spec_views(hops@),
            ks == host_views(known@),
            active@ == a0,
            target == walk(host_views(chain@), host_views(a0), hs, i as int, ks, user@),
        decreases hops.len() - i,
    {
        let host = resolve_hop(&hops[i], known, user);
        assert(hs[i as int] == hops@[i as int]@);
        let ghost hv = host@;
        let mut k: usize = 0;
        while k < active.len()
            invariant
                k <= active@.len(),
                active@ == a0,
                forall|j: int| 0 <= j < k ==> !same_hop(#[trigger] host_views(a0)[j], hv),
            decreases active.len() - k,
        {
            assert(host_views(a0)[k as int] == a0[k as int]@);
            if same_hop_as(&active[k], &host) {
                return Err(JumpError::Cycle(host.name));
            }
            k = k + 1;
        }
        assert(!reenters(host_views(a0), hv));
        if i == 0 {
            match jump_value_of(&host) {
                Some(v) => {
                    if active.len() > MAX_HOPS {
                        return Err(JumpError::TooDeep);
                    }
                    let sub = match parse_jump_chars(v.as_slice()) {
                        Ok(s) => s,
                        Err(m) => return Err(JumpError::Unusable(m)),
                    };
                    active.push(host.copy());
                    assert(host_views(active@) =~= host_views(a0).push(hv));
                    let r = expand(chain, active, &sub, known, user);
                    active.pop();
                    assert(active@ =~= a0);
                    match r {
                        Ok(()) => {},
                        Err(e) => return Err(e),
                    }
                },
                None => {},
            }
        }
        if chain.len() >= MAX_HOPS {
            return Err(JumpError::TooLong);
        }
        let mut flat = host;
        flat.proxy_jump = None;
        let ghost before = host_views(chain@);
        chain.push(flat);
        assert(host_views(chain@) =~= before.push(HostView { proxy_jump: None, ..hv }));
        i = i + 1;
    }
    Ok(())
}

/// Resolves the full jump chain for `target` against the `known` host list;
/// a bastion that matches no known entry logs in as `user`, the local login.
///
/// The returned hosts are in connection order: the first entry is reached
/// directly from this machine, each subsequent one through its predecessor, and
/// `target` itself through the last. An empty vector means "connect directly" —
/// no `ProxyJump`, or the OpenSSH `ProxyJump none` opt-out. Every returned host
/// has its own `proxy_jump` cleared: the chain is already flattened.
///
/// Fails when a hop is unusable, when the chain references itself (a cycle),
/// or when it exceeds [`MAX_HOPS`] hops. A host that names a bastion never
/// resolves to an empty chain.
pub fn resolve_chain(target: &Host, known: &[Host], user: &str) -> (r: Result<Vec<Host>, JumpError>)
    ensures
        match (r, chain_of(target@, host_views(known@), user@)) {
            (Ok(c), Ok(w)) => host_views(c@) == w,
            (Err(e), Err(w)) => e@ == w,
            _ => false,
        },
{
    let value = match jump_value_of(target) {
        None => {
            let r: Vec<Host> = Vec::new();
            assert(host_views(r@) =~= Seq::<HostView>::empty());
            return Ok(r);
        },
        Some(v) => v,
    };
    let hops = match parse_jump_chars(value.as_slice()) {
        Ok(h) => h,
        Err(m) => return Err(JumpError::Unusable(m)),
    };
    let mut chain: Vec<Host> = Vec::new();
    let mut active: Vec<Host> = Vec::new();
    active.push(target.copy());
    assert(host_views(chain@) =~= Seq::<HostView>::empty());
    assert(host_views(active@) =~= seq![target@]);
    match expand(&mut chain, &mut active, &hops, known, user) {
        Ok(()) => Ok(chain),
        Err(e) => Err(e),
    }
}


// ---------------------------------------------------------------------------
// What every chain satisfies
// ---------------------------------------------------------------------------

/// What a walk keeps: it only appends, each appended hop is flattened, the
/// chain stays within [`MAX_HOPS`], and a hop left to walk appends something.
proof fn lemma_walk(
    chain: Seq<HostView>,
    active: Seq<HostView>,
    hops: Seq<JumpSpecView>,
    i: int,
    known: Seq<HostView>,
    user: Seq<char>,
)
    requires
        chain.len() <= MAX_HOPS,
    ensures
        walk(chain, active, hops, i, known, user) matches Ok(c) ==> {
            &&& chain.len() <= c.len() <= MAX_HOPS
            &&& c.subrange(0, chain.len() as int) == chain
            &&& forall|k: int| chain.len() <= k < c.len() ==> (#[trigger] c[k]).proxy_jump is None
            &&& (0 <= i < hops.len() ==> c.len() > chain.len())
        },
    decreases 11 - active.len(), hops.len() - i,
{
    if 0 <= i < hops.len() {
        let host = hop_host(hops[i], known, user);
        if !reenters(active, host) {
            let nested = if i == 0 {
                jump_value(host)
            } else {
                None
            };
            let mid = match nested {
                None => Ok(chain),
                Some(v) => if active.len() > MAX_HOPS {
                    Err(JumpErrorView::TooDeep)
                } else {
                    match jump_hops(v) {
                        Err(e) => Err(JumpErrorView::Unusable(e)),
                        Ok(sub) => {
                            lemma_walk(chain, active.push(host), sub, 0, known, user);
                            walk(chain, active.push(host), sub, 0, known, user)
                        },
                    }
                },
            };
            if let Ok(c) = mid {
                if c.len() < MAX_HOPS {
                    let flat = HostView { proxy_jump: None, ..host };
                    let next = c.push(flat);
                    lemma_walk(next, active, hops, i + 1, known, user);
                    if let Ok(d) = walk(next, active, hops, i + 1, known, user) {
                        assert(d.subrange(0, c.len() as int) =~= d.subrange(0, next.len() as int).subrange(0, c.len() as int));
                        assert(next.subrange(0, c.len() as int) =~= c);
                        assert(d.subrange(0, chain.len() as int) =~= c.subrange(0, chain.len() as int)) by {
                            assert(d.subrange(0, chain.len() as int) =~= d.subrange(0, c.len() as int).subrange(0, chain.len() as int));
                        }
                        assert forall|k: int| chain.len() <= k < d.len() implies (#[trigger] d[k]).proxy_jump is None by {
                            if k < c.len() {
                                assert(d[k] == d.subrange(0, c.len() as int)[k]);
                                assert(c[k] == d[k]);
                            } else if k == c.len() {
                                assert(d[k] == d.subrange(0, next.len() as int)[k]);
                            }
                        }
                    }
                }
            }
        }
    }
}

/// A resolved chain is flat: no hop in it carries a `ProxyJump` of its own,
/// so a caller connecting hop by hop never expands one again. It is never
/// longer than [`MAX_HOPS`].
pub proof fn lemma_chain_is_flat_and_bounded(target: HostView, known: Seq<HostView>, user: Seq<char>)
    ensures
        chain_of(target, known, user) matches Ok(c) ==> {
            &&& c.len() <= MAX_HOPS
            &&& forall|k: int| 0 <= k < c.len() ==> (#[trigger] c[k]).proxy_jump is None
        },
{
    if let Some(v) = jump_value(target) {
        if let Ok(hops) = jump_hops(v) {
            lemma_walk(seq![], seq![target], hops, 0, known, user);
        }
    }
}

proof fn lemma_split_on_nonempty(s: Seq<char>, c: char)
    ensures
        split_on(s, c).len() >= 1,
    decreases s.len(),
{
    let i = first_pos(s, c);
    if i >= 0 {
        lemma_first_where(s, is_char(c));
        lemma_split_on_nonempty(s.subrange(i + 1, s.len() as int), c);
    }
}

proof fn lemma_hops_of_len(pieces: Seq<Seq<char>>)
    ensures
        hops_of(pieces) matches Ok(h) ==> h.len() == pieces.len(),
    decreases pieces.len(),
{
    if pieces.len() > 0 {
        lemma_hops_of_len(pieces.drop_first());
    }
}

/// A host that names a bastion never resolves to an empty chain: failing is
/// the only alternative to connecting straight to the target, past the
/// bastion that is its only route. One with no `ProxyJump` (or `none`)
/// resolves to the empty chain.
pub proof fn lemma_bastion_never_dropped(target: HostView, known: Seq<HostView>, user: Seq<char>)
    ensures
        jump_value(target) is None ==> chain_of(target, known, user) == Ok::<Seq<HostView>, JumpErrorView>(seq![]),
        jump_value(target) is Some ==> (chain_of(target, known, user) matches Ok(c) ==> c.len() > 0),
{
    if let Some(v) = jump_value(target) {
        lemma_split_on_nonempty(v, ',');
        lemma_hops_of_len(split_on(v, ','));
        if let Ok(hops) = jump_hops(v) {
            lemma_walk(seq![], seq![target], hops, 0, known, user);
        }
    }
}

/// Two hops are the same machine only by name or by the whole endpoint: with
/// different names, a different port — or user, or address — makes them
/// different hops, so a bastion on the target's address but another port is
/// no cycle.
pub proof fn law_another_port_is_another_hop(a: HostView, b: HostView)
    ensures
        a.name != b.name && a.port != b.port ==> !same_hop(a, b),
        a.name != b.name && a.user != b.user ==> !same_hop(a, b),
        a.name != b.name && a.hostname != b.hostname ==> !same_hop(a, b),
        a.name == b.name ==> same_hop(a, b),
        same_hop(a, a),
{
}

/// A target behind one bastion that goes direct — a different name and port
/// from the target's, even on the same user and address — resolves to just
/// that bastion, its own `ProxyJump` cleared.
pub proof fn law_one_distinct_bastion_is_the_chain(
    target: HostView,
    hop: JumpSpecView,
    known: Seq<HostView>,
    user: Seq<char>,
)
    requires
        ({
            let b = hop_host(hop, known, user);
            &&& jump_value(b) is None
            &&& b.name != target.name
            &&& b.port != target.port
        }),
    ensures
        walk(seq![], seq![target], seq![hop], 0, known, user) == Ok::<Seq<HostView>, JumpErrorView>(
            seq![HostView { proxy_jump: None, ..hop_host(hop, known, user) }],
        ),
{
    let b = hop_host(hop, known, user);
    law_another_port_is_another_hop(target, b);
    assert(!reenters(seq![target], b)) by {
        if reenters(seq![target], b) {
            let k = choose|k: int| 0 <= k < seq![target].len() && same_hop(#[trigger] seq![target][k], b);
            assert(seq![target][k] == target);
        }
    }
    let c = seq![HostView { proxy_jump: None, ..b }];
    assert(seq![].push(HostView { proxy_jump: None, ..b }) =~= c);
    assert(walk(c, seq![target], seq![hop], 1, known, user) == Ok::<Seq<HostView>, JumpErrorView>(c));
}

} // verus!
