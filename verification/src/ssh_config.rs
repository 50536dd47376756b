//! Parser for `~/.ssh/config`.
//!
//! Supported directives: `Host`, `HostName`, `User`, `Port`,
//! `IdentityFile`, `ProxyJump`, `LocalForward`, `ForwardAgent`, `Include`.
//! Wildcard `Host` and `Match` blocks are skipped, except that a `ForwardAgent no`
//! there, or in the global section, keeps the agent from every host after it.
//!
//! The parser reads no file itself. [`ConfigParser`] takes the text a line at
//! a time and hands an `Include` back to its caller, which reads the files it
//! names, parses each with [`ConfigParser::for_include`] and returns the result
//! through [`ConfigParser::absorb`]. [`parse_ssh_config`] parses one text on
//! its own, so an `Include` in it adds no host.

use vstd::prelude::*;
use crate::client::{default_host, host_views, Host, HostSource, HostView};
use crate::text::{
    ascii_lowercase, ascii_lowercased, char_views, chars_between, chars_of, find_char,
    first_pos, first_where, is_whitespace, is_ws, lemma_first_where, lemma_first_where_is,
    lowercase, same_chars, split_lines, split_words, string_of, to_lowercase, trim, trimmed,
    lines_of, parse_u16, parse_u16_chars, push_chars, words,
};
use crate::tunnel::{opt_chars, parse_forward, ForwardView, LocalForward};

verus! {

/// The local account a configuration is read for: the login name that hosts
/// default to, and the home directory that `~` stands for (`None` when there
/// is none).
pub struct Account {
    pub user: String,
    pub home: Option<String>,
}

// ---------------------------------------------------------------------------
// Lines
// ---------------------------------------------------------------------------

/// The line without its comment: everything from the first `#` on is dropped.
pub open spec fn without_comment(s: Seq<char>) -> Seq<char> {
    let i = first_pos(s, '#');
    if i >= 0 {
        s.subrange(0, i)
    } else {
        s
    }
}

/// Removes everything from the first `#` onwards (inline comments).
pub fn strip_comment(v: &[char]) -> (r: Vec<char>)
    ensures
        r@ == without_comment(v@),
{
    match find_char(v, '#') {
        Some(i) => {
            proof {
                lemma_first_where(v@, crate::text::is_char('#'));
            }
            chars_between(v, 0, i)
        },
        None => chars_between(v, 0, v.len()),
    }
}

/// The test "separates a keyword from its value": white space or `=`.
pub open spec fn is_separator() -> spec_fn(char) -> bool {
    |c: char| is_ws(c) || c == '='
}

/// `s` without its leading `=` signs, as `str::trim_start_matches('=')`.
pub open spec fn skip_equals(s: Seq<char>) -> Seq<char>
    decreases s.len(),
{
    if s.len() > 0 && s[0] == '=' {
        skip_equals(s.drop_first())
    } else {
        s
    }
}

/// Whether splitting `line` stays on character boundaries: the separator
/// found first is a one-byte character. A keyword followed directly by a
/// wider space (such as U+00A0) makes the split fail mid-character.
pub open spec fn splits_cleanly(line: Seq<char>) -> bool {
    let i = first_where(line, is_separator());
    i < 0 || (line[i] as u32) < 0x80
}

/// `"Keyword Value"` or `"Keyword=Value"` as `(keyword, value)`: split at the
/// first white space or `=`, the value without leading `=` signs, both
/// trimmed. `None` when there is no separator or either part is empty.
pub open spec fn key_value(line: Seq<char>) -> Option<(Seq<char>, Seq<char>)> {
    let i = first_where(line, is_separator());
    if i < 0 {
        None
    } else {
        let keyword = trim(line.subrange(0, i));
        let value = trim(skip_equals(line.subrange(i + 1, line.len() as int)));
        if keyword.len() == 0 || value.len() == 0 {
            None
        } else {
            Some((keyword, value))
        }
    }
}

/// Splits `"Keyword Value"` or `"Keyword=Value"` into `("Keyword", "Value")`.
pub fn split_kv(line: &[char]) -> (r: Option<(Vec<char>, Vec<char>)>)
    requires
        splits_cleanly(line@),
    ensures
        match (r, key_value(line@)) {
            (Some((k, v)), Some((kk, vv))) => k@ == kk && v@ == vv,
            (None, None) => true,
            _ => false,
        },
{
    let n = line.len();
    let mut i: usize = 0;
    while i < n && !(is_whitespace(line[i]) || line[i] == '=')
        invariant
            i <= n == line@.len(),
            forall|j: int| 0 <= j < i ==> !(#[trigger] is_separator()(line@[j])),
        decreases n - i,
    {
        i = i + 1;
    }
    if i == n {
        proof {
            lemma_first_where_is(line@, is_separator(), -1);
        }
        return None;
    }
    proof {
        lemma_first_where_is(line@, is_separator(), i as int);
    }
    let keyword = trimmed(chars_between(line, 0, i).as_slice());
    let mut a = i + 1;
    assert(line@.subrange(i + 1, n as int) =~= line@.subrange(a as int, n as int));
    while a < n && line[a] == '='
        invariant
            i + 1 <= a <= n == line@.len(),
            skip_equals(line@.subrange(i + 1, n as int)) == skip_equals(
                line@.subrange(a as int, n as int),
            ),
        decreases n - a,
    {
        assert(line@.subrange(a as int, n as int).drop_first() =~= line@.subrange(a + 1, n as int));
        a = a + 1;
    }
    assert(skip_equals(line@.subrange(a as int, n as int)) == line@.subrange(a as int, n as int));
    let value = trimmed(chars_between(line, a, n).as_slice());
    if keyword.len() == 0 || value.len() == 0 {
        None
    } else {
        Some((keyword, value))
    }
}

/// Whether reading the raw line `raw` keeps to character boundaries: the
/// separator after its keyword, if any, is a one-byte character.
pub fn reads_cleanly(raw: &str) -> (b: bool)
    ensures
        b == line_reads_cleanly(raw@),
{
    let all = chars_of(raw);
    let nc = strip_comment(all.as_slice());
    let line = trimmed(nc.as_slice());
    let n = line.len();
    let mut i: usize = 0;
    while i < n && !(is_whitespace(line[i]) || line[i] == '=')
        invariant
            i <= n == line@.len(),
            forall|j: int| 0 <= j < i ==> !(#[trigger] is_separator()(line@[j])),
        decreases n - i,
    {
        i = i + 1;
    }
    if i == n {
        proof {
            lemma_first_where_is(line@, is_separator(), -1);
        }
        return true;
    }
    proof {
        lemma_first_where_is(line@, is_separator(), i as int);
    }
    (line[i] as u32) < 0x80
}

/// The directive on a raw line: its keyword in small letters (by
/// `str::to_lowercase`) and its value, once the comment is gone and the line
/// trimmed. `None` for a blank or malformed line.
pub open spec fn directive(raw: Seq<char>) -> Option<(Seq<char>, Seq<char>)> {
    match key_value(trim(without_comment(raw))) {
        Some((k, v)) => Some((lowercase(k), v)),
        None => None,
    }
}

/// Whether reading `raw` keeps to character boundaries (see [`splits_cleanly`]).
pub open spec fn line_reads_cleanly(raw: Seq<char>) -> bool {
    splits_cleanly(trim(without_comment(raw)))
}

// ---------------------------------------------------------------------------
// Values
// ---------------------------------------------------------------------------

/// `rest` appended to the directory `home` as a path: a separator in between
/// unless `home` is empty or already ends in one; an absolute `rest` stands
/// alone. This is how a Unix `Path::join` lays the two out.
pub open spec fn path_join(home: Seq<char>, rest: Seq<char>) -> Seq<char> {
    if rest.len() > 0 && rest[0] == '/' {
        rest
    } else if home.len() == 0 || home.last() == '/' {
        home + rest
    } else {
        home + seq!['/'] + rest
    }
}

/// `s` with a leading `~/` or a lone `~` standing for `home`; unchanged when
/// there is no home directory.
pub open spec fn expand_tilde(s: Seq<char>, home: Option<Seq<char>>) -> Seq<char> {
    if s.len() >= 2 && s[0] == '~' && s[1] == '/' && home is Some {
        path_join(home->0, s.subrange(2, s.len() as int))
    } else if s == seq!['~'] && home is Some {
        home->0
    } else {
        s
    }
}

fn join_path(home: &[char], rest: &[char]) -> (r: Vec<char>)
    ensures
        r@ == path_join(home@, rest@),
{
    if rest.len() > 0 && rest[0] == '/' {
        chars_between(rest, 0, rest.len())
    } else if home.len() == 0 || home[home.len() - 1] == '/' {
        crate::text::concat_chars(home, rest)
    } else {
        let mut h = chars_between(home, 0, home.len());
        h.push('/');
        assert(h@ =~= home@ + seq!['/']);
        crate::text::concat_chars(h.as_slice(), rest)
    }
}

/// Expands a leading `~/` (or a lone `~`) to the home directory `home`.
pub fn expand_tilde_with(s: &[char], home: &Option<String>) -> (r: Vec<char>)
    ensures
        r@ == expand_tilde(s@, opt_chars(*home)),
{
    match home {
        Some(h) => {
            let hv = chars_of(h.as_str());
            if s.len() >= 2 && s[0] == '~' && s[1] == '/' {
                let rest = chars_between(s, 2, s.len());
                return join_path(hv.as_slice(), rest.as_slice());
            }
            if s.len() == 1 && s[0] == '~' {
                assert(s@ =~= seq!['~']);
                return hv;
            }
            proof {
                if s@ == seq!['~'] {
                    assert(s@.len() == 1);
                }
            }
            chars_between(s, 0, s.len())
        },
        None => chars_between(s, 0, s.len()),
    }
}

/// What a `LocalForward` value gives: `[bind_address:]port host:hostport`,
/// the two arguments `ssh_config(5)` takes, joined into the `ssh -L`
/// notation; or the message saying why it is unusable.
pub open spec fn local_forward_value(value: Seq<char>) -> Result<ForwardView, Seq<char>> {
    let w = words(value);
    if w.len() == 2 {
        parse_forward(w[0] + seq![':'] + w[1])
    } else {
        Err("expected '[bind_address:]port host:hostport', got '"@ + value + "'"@)
    }
}

/// Parses a `LocalForward` value: `[bind_address:]port host:hostport`.
pub fn parse_local_forward(value: &[char]) -> (r: Result<LocalForward, String>)
    ensures
        match (r, local_forward_value(value@)) {
            (Ok(f), Ok(w)) => f@ == w,
            (Err(m), Err(w)) => m@ == w,
            _ => false,
        },
{
    let w = split_words(value);
    if w.len() == 2 {
        assert(w@[0]@ == words(value@)[0]);
        assert(w@[1]@ == words(value@)[1]);
        let mut joined = chars_between(w[0].as_slice(), 0, w[0].len());
        joined.push(':');
        let spec = crate::text::concat_chars(joined.as_slice(), w[1].as_slice());
        assert(spec@ =~= w@[0]@ + seq![':'] + w@[1]@);
        LocalForward::parse_chars(spec.as_slice())
    } else {
        let mut m = String::from_str("expected '[bind_address:]port host:hostport', got '");
        push_chars(&mut m, value);
        m.append("'");
        Err(m)
    }
}

/// The pathnames of an `Include` value, as read so far: the finished ones are
/// `pats`, the one being read is `cur`, `quoted` says a `"` is open.
pub open spec fn patterns_from(s: Seq<char>, pats: Seq<Seq<char>>, cur: Seq<char>, quoted: bool) -> Seq<Seq<char>>
    decreases s.len(),
{
    if s.len() == 0 {
        if cur.len() > 0 {
            pats.push(cur)
        } else {
            pats
        }
    } else {
        let c = s[0];
        let rest = s.drop_first();
        if c == '"' {
            patterns_from(rest, pats, cur, !quoted)
        } else if is_ws(c) && !quoted {
            if cur.len() > 0 {
                patterns_from(rest, pats.push(cur), seq![], quoted)
            } else {
                patterns_from(rest, pats, cur, quoted)
            }
        } else {
            patterns_from(rest, pats, cur.push(c), quoted)
        }
    }
}

/// The pathnames of an `Include` value: separated by white space, a `"`
/// opening or closing a stretch where white space belongs to the pathname.
pub open spec fn include_patterns(value: Seq<char>) -> Seq<Seq<char>> {
    patterns_from(value, seq![], seq![], false)
}

/// Splits an `Include` value into its pathnames.
///
/// `ssh_config(5)` allows several pathnames on one line, and a path containing
/// spaces may be double-quoted.
pub fn split_include_patterns(value: &[char]) -> (r: Vec<String>)
    ensures
        r@.map_values(|s: String| s@) == include_patterns(value@),
{
    let n = value.len();
    let mut pats: Vec<String> = Vec::new();
    let mut cur: Vec<char> = Vec::new();
    let mut quoted = false;
    let mut i: usize = 0;
    assert(value@.subrange(0, n as int) =~= value@);
    assert(pats@.map_values(|s: String| s@) =~= Seq::<Seq<char>>::empty());
    while i < n
        invariant
            i <= n == value@.len(),
            include_patterns(value@) == patterns_from(
                value@.subrange(i as int, n as int),
                pats@.map_values(|s: String| s@),
                cur@,
                quoted,
            ),
        decreases n - i,
    {
        let c = value[i];
        let ghost rest = value@.subrange(i as int, n as int);
        assert(rest.drop_first() =~= value@.subrange(i + 1, n as int));
        assert(rest[0] == c);
        if c == '"' {
            quoted = !quoted;
        } else if is_whitespace(c) && !quoted {
            if cur.len() > 0 {
                let ghost before = pats@.map_values(|s: String| s@);
                let s = string_of(cur.as_slice(), 0, cur.len());
                assert(cur@.subrange(0, cur@.len() as int) =~= cur@);
                pats.push(s);
                assert(pats@.map_values(|s: String| s@) =~= before.push(cur@));
                cur = Vec::new();
                assert(cur@ =~= Seq::<char>::empty());
            }
        } else {
            cur.push(c);
        }
        i = i + 1;
    }
    assert(value@.subrange(n as int, n as int) =~= Seq::<char>::empty());
    if cur.len() > 0 {
        let ghost before = pats@.map_values(|s: String| s@);
        let s = string_of(cur.as_slice(), 0, cur.len());
        assert(cur@.subrange(0, cur@.len() as int) =~= cur@);
        pats.push(s);
        assert(pats@.map_values(|s: String| s@) =~= before.push(cur@));
    }
    pats
}

// ---------------------------------------------------------------------------
// Include paths
// ---------------------------------------------------------------------------

/// What `glob::Pattern::escape` returns: `s` with each of `?`, `*`, `[` and `]`
/// wrapped in brackets, every other character kept.
pub open spec fn glob_escaped(s: Seq<char>) -> Seq<char>
    decreases s.len(),
{
    if s.len() == 0 {
        seq![]
    } else {
        let c = s.last();
        let e = if c == '?' || c == '*' || c == '[' || c == ']' {
            seq!['[', c, ']']
        } else {
            seq![c]
        };
        glob_escaped(s.drop_last()) + e
    }
}

/// `glob::Pattern::escape`: a pattern that matches `s` and nothing else,
/// brackets around each of the metacharacters `?`, `*`, `[` and `]`.
#[verifier::external_body]
fn escape_pattern(s: &str) -> (r: String)
    ensures
        r@ == glob_escaped(s@),
{
    glob::Pattern::escape(s)
}

/// `s` without its trailing `/` characters.
pub open spec fn trim_end_slashes(s: Seq<char>) -> Seq<char>
    decreases s.len(),
{
    if s.len() > 0 && s.last() == '/' {
        trim_end_slashes(s.drop_last())
    } else {
        s
    }
}

/// Where an `Include` pattern points: absolute and `~/` patterns stand alone,
/// a relative one is put under the escaped `base`. `None` when the pattern is
/// relative and there is no base to anchor it to. Absolute means starting at
/// the root, `/`, as a Unix path does.
pub open spec fn include_target(pattern: Seq<char>, base: Option<Seq<char>>, home: Option<Seq<char>>) -> Option<Seq<char>> {
    let expanded = expand_tilde(pattern, home);
    if expanded.len() > 0 && expanded[0] == '/' {
        Some(expanded)
    } else {
        match base {
            None => None,
            Some(b) => Some(trim_end_slashes(glob_escaped(b)) + seq!['/'] + expanded),
        }
    }
}

/// Anchors an `Include` pattern: absolute and `~/` patterns stand alone, a
/// relative one resolves against `base` — never the process working directory.
///
/// The base is a real path, not a pattern: it is escaped so a home directory
/// containing `[` or `*` cannot swallow the include.
pub fn resolve_include(pattern: &str, base: Option<&str>, home: &Option<String>) -> (r: Option<String>)
    ensures
        match (r, include_target(pattern@, match base { Some(b) => Some(b@), None => None }, opt_chars(*home))) {
            (Some(s), Some(t)) => s@ == t,
            (None, None) => true,
            _ => false,
        },
{
    let p = chars_of(pattern);
    let expanded = expand_tilde_with(p.as_slice(), home);
    if expanded.len() > 0 && expanded[0] == '/' {
        return Some(string_of(expanded.as_slice(), 0, expanded.len()));
    }
    match base {
        None => None,
        Some(b) => {
            let escaped = chars_of(escape_pattern(b).as_str());
            let mut end = escaped.len();
            assert(escaped@.subrange(0, end as int) =~= escaped@);
            while end > 0 && escaped[end - 1] == '/'
                invariant
                    end <= escaped@.len(),
                    trim_end_slashes(escaped@) == trim_end_slashes(escaped@.subrange(0, end as int)),
                decreases end,
            {
                assert(escaped@.subrange(0, end as int).drop_last() =~= escaped@.subrange(0, end - 1));
                end = end - 1;
            }
            let mut s = string_of(escaped.as_slice(), 0, end);
            s.push('/');
            push_chars(&mut s, expanded.as_slice());
            Some(s)
        },
    }
}


// ---------------------------------------------------------------------------
// The parser
// ---------------------------------------------------------------------------

/// Where a parse stands.
pub struct ParserView {
    /// Hosts finished, in the order of the configuration.
    pub hosts: Seq<HostView>,
    /// The host whose block is being read.
    pub current: Option<HostView>,
    /// Hosts an `Include` inside the current block pulled in; they follow it.
    pub deferred: Seq<HostView>,
    /// Inside a wildcard `Host` or a `Match` block, whose directives are skipped.
    pub in_wildcard: bool,
    /// The current block has had its `ForwardAgent` (the first value wins).
    pub agent_seen: bool,
    /// A `ForwardAgent no` outside any host's own block has been read.
    pub agent_barred: bool,
    /// How many `Include`s deep this text is.
    pub depth: nat,
    /// The login that hosts default to.
    pub user: Seq<char>,
    /// The home directory `~` stands for.
    pub home: Option<Seq<char>>,
}

/// Includes nest at most this deep; deeper text is ignored.
pub open spec fn max_include_depth() -> nat {
    3
}

/// A parse of a top-level text that has read nothing yet.
pub open spec fn start(user: Seq<char>, home: Option<Seq<char>>) -> ParserView {
    ParserView {
        hosts: seq![],
        current: None,
        deferred: seq![],
        in_wildcard: false,
        agent_seen: false,
        agent_barred: false,
        depth: 0,
        user,
        home,
    }
}

/// The parse of a file that `p` includes: one level deeper, sharing what `p`
/// knows of `ForwardAgent no`.
pub open spec fn included_start(p: ParserView) -> ParserView {
    ParserView {
        hosts: seq![],
        current: None,
        deferred: seq![],
        in_wildcard: false,
        agent_seen: false,
        agent_barred: p.agent_barred,
        depth: p.depth + 1,
        user: p.user,
        home: p.home,
    }
}

/// The hosts in reading order: the finished ones, the current one, then what
/// its `Include`s pulled in.
pub open spec fn flushed(p: ParserView) -> Seq<HostView> {
    p.hosts + (match p.current {
        Some(h) => seq![h],
        None => seq![],
    }) + p.deferred
}

/// A host a `Host` line starts: the alias and the defaults, from the config.
pub open spec fn config_host(name: Seq<char>, user: Seq<char>) -> HostView {
    HostView { source: HostSource::SshConfig, ..default_host(name, user) }
}

/// `p` with the current host, if any, replaced by `f` of it.
pub open spec fn edit_current(p: ParserView, h: HostView) -> ParserView {
    ParserView { current: Some(h), ..p }
}

/// What a `ForwardAgent` value does to `p`.
pub open spec fn forward_agent_step(p: ParserView, value: Seq<char>) -> ParserView {
    let a = ascii_lowercase(value);
    let yes = a == "yes"@ || a == "true"@;
    let no = a == "no"@ || a == "false"@;
    match p.current {
        Some(h) => if p.agent_seen {
            p
        } else {
            let h2 = if yes {
                HostView { forward_agent: !p.agent_barred, ..h }
            } else if no {
                HostView { forward_agent: false, ..h }
            } else {
                h
            };
            ParserView { agent_seen: true, current: Some(h2), ..p }
        },
        None => if no {
            ParserView { agent_barred: true, ..p }
        } else {
            p
        },
    }
}

/// What the directive `key value` (the key in small letters) does to `p`.
pub open spec fn directive_step(p: ParserView, key: Seq<char>, value: Seq<char>) -> ParserView {
    if key == "host"@ {
        let wild = value.contains('*') || value.contains('?');
        ParserView {
            hosts: flushed(p),
            current: if wild {
                None
            } else {
                Some(config_host(value, p.user))
            },
            deferred: seq![],
            in_wildcard: wild,
            agent_seen: false,
            ..p
        }
    } else if key == "match"@ {
        ParserView { hosts: flushed(p), current: None, deferred: seq![], in_wildcard: true, ..p }
    } else if key == "forwardagent"@ {
        forward_agent_step(p, value)
    } else if p.in_wildcard || p.current is None {
        p
    } else {
        let h = p.current->0;
        if key == "hostname"@ {
            edit_current(p, HostView { hostname: value, ..h })
        } else if key == "user"@ {
            edit_current(p, HostView { user: value, ..h })
        } else if key == "port"@ {
            match parse_u16(value) {
                Some(n) => edit_current(p, HostView { port: n, ..h }),
                None => p,
            }
        } else if key == "identityfile"@ {
            edit_current(p, HostView { identity_file: Some(expand_tilde(value, p.home)), ..h })
        } else if key == "proxyjump"@ {
            edit_current(p, HostView { proxy_jump: Some(value), ..h })
        } else if key == "localforward"@ {
            match local_forward_value(value) {
                Ok(f) => edit_current(p, HostView { local_forwards: h.local_forwards.push(f), ..h }),
                Err(_) => p,
            }
        } else {
            p
        }
    }
}

/// What reading the raw line `raw` does to `p`. Text nested deeper than
/// [`max_include_depth`] is ignored.
pub open spec fn step(p: ParserView, raw: Seq<char>) -> ParserView {
    if p.depth > max_include_depth() {
        p
    } else {
        match directive(raw) {
            Some((k, v)) => directive_step(p, k, v),
            None => p,
        }
    }
}

/// The pathnames the directive `key` `value` asks to include, if it is an
/// `Include`.
pub open spec fn directive_request(key: Seq<char>, value: Seq<char>) -> Option<Seq<Seq<char>>> {
    if key == "include"@ {
        Some(include_patterns(value))
    } else {
        None
    }
}

/// The pathnames the raw line `raw` asks to include, if it is an `Include`.
pub open spec fn include_request(p: ParserView, raw: Seq<char>) -> Option<Seq<Seq<char>>> {
    if p.depth > max_include_depth() {
        None
    } else {
        match directive(raw) {
            Some((k, v)) => if k == "include"@ {
                Some(include_patterns(v))
            } else {
                None
            },
            None => None,
        }
    }
}

/// `p` once the hosts an `Include` produced are in: after the current host
/// when the `Include` sat in its block, else after the finished hosts.
/// `barred` is what the included text left of `ForwardAgent no`.
pub open spec fn absorbed(p: ParserView, included: Seq<HostView>, barred: bool) -> ParserView {
    if p.current is Some {
        ParserView { deferred: p.deferred + included, agent_barred: barred, ..p }
    } else {
        ParserView { hosts: p.hosts + included, agent_barred: barred, ..p }
    }
}

/// A host without a `HostName` is reached under its alias.
pub open spec fn with_address(h: HostView) -> HostView {
    if h.hostname.len() == 0 {
        HostView { hostname: h.name, ..h }
    } else {
        h
    }
}

/// The hosts a finished parse gives.
pub open spec fn finished(p: ParserView) -> Seq<HostView> {
    if p.depth > max_include_depth() {
        seq![]
    } else {
        flushed(p).map_values(|h: HostView| with_address(h))
    }
}

/// `p` after reading `lines` in order.
pub open spec fn run(p: ParserView, lines: Seq<Seq<char>>) -> ParserView
    decreases lines.len(),
{
    if lines.len() == 0 {
        p
    } else {
        step(run(p, lines.drop_last()), lines.last())
    }
}

/// The hosts of the configuration text `text`, read for the login `user`
/// and the home directory `home`, with no file included.
pub open spec fn config_hosts(text: Seq<char>, user: Seq<char>, home: Option<Seq<char>>) -> Seq<HostView> {
    finished(run(start(user, home), lines_of(text)))
}

/// Every line of `text` reads cleanly (see [`splits_cleanly`]).
pub open spec fn text_reads_cleanly(text: Seq<char>) -> bool {
    forall|i: int| 0 <= i < lines_of(text).len() ==> line_reads_cleanly(#[trigger] lines_of(text)[i])
}

/// A configuration being parsed, one line at a time.
pub struct ConfigParser {
    hosts: Vec<Host>,
    current: Option<Host>,
    deferred: Vec<Host>,
    in_wildcard: bool,
    agent_seen: bool,
    agent_barred: bool,
    depth: usize,
    user: String,
    home: Option<String>,
}

impl View for ConfigParser {
    type V = ParserView;

    closed spec fn view(&self) -> ParserView {
        ParserView {
            hosts: host_views(self.hosts@),
            current: match self.current {
                Some(h) => Some(h@),
                None => None,
            },
            deferred: host_views(self.deferred@),
            in_wildcard: self.in_wildcard,
            agent_seen: self.agent_seen,
            agent_barred: self.agent_barred,
            depth: self.depth as nat,
            user: self.user@,
            home: opt_chars(self.home),
        }
    }
}

/// Moves the current host and then the deferred ones to the finished hosts.
fn flush(hosts: &mut Vec<Host>, current: &mut Option<Host>, deferred: &mut Vec<Host>)
    ensures
        host_views(final(hosts)@) == flushed(
            ParserView {
                hosts: host_views(old(hosts)@),
                current: match *old(current) {
                    Some(h) => Some(h@),
                    None => None,
                },
                deferred: host_views(old(deferred)@),
                in_wildcard: false,
                agent_seen: false,
                agent_barred: false,
                depth: 0,
                user: seq![],
                home: None,
            },
        ),
        *final(current) is None,
        final(deferred)@.len() == 0,
{
    let ghost h0 = host_views(hosts@);
    match current.take() {
        Some(h) => {
            let ghost hv = h@;
            hosts.push(h);
            assert(host_views(hosts@) =~= h0 + seq![hv]);
        },
        None => {
            assert(host_views(hosts@) =~= h0 + seq![]);
        },
    }
    let ghost h1 = host_views(hosts@);
    let ghost d = host_views(deferred@);
    hosts.append(deferred);
    assert(host_views(hosts@) =~= h1 + d);
}

impl ConfigParser {
    /// A parser for a top-level configuration, read for `account`.
    pub fn new(account: &Account) -> (p: ConfigParser)
        ensures
            p@ == start(account.user@, opt_chars(account.home)),
    {
        let p = ConfigParser {
            hosts: Vec::new(),
            current: None,
            deferred: Vec::new(),
            in_wildcard: false,
            agent_seen: false,
            agent_barred: false,
            depth: 0,
            user: account.user.clone(),
            home: crate::tunnel::copy_opt_string(&account.home),
        };
        assert(p@.hosts =~= Seq::<HostView>::empty());
        assert(p@.deferred =~= Seq::<HostView>::empty());
        p
    }

    /// A parser for a file that this configuration includes.
    pub fn for_include(&self) -> (p: ConfigParser)
        requires
            self@.depth < usize::MAX,
        ensures
            p@ == included_start(self@),
    {
        let p = ConfigParser {
            hosts: Vec::new(),
            current: None,
            deferred: Vec::new(),
            in_wildcard: false,
            agent_seen: false,
            agent_barred: self.agent_barred,
            depth: self.depth + 1,
            user: self.user.clone(),
            home: crate::tunnel::copy_opt_string(&self.home),
        };
        assert(p@.hosts =~= Seq::<HostView>::empty());
        assert(p@.deferred =~= Seq::<HostView>::empty());
        p
    }

    /// How many `Include`s deep this text is.
    pub fn depth(&self) -> (d: usize)
        ensures
            d == self@.depth,
    {
        self.depth
    }

    /// Reads one line. Returns the pathnames to include when the line is an
    /// `Include`: the caller reads each file they match, parses it with
    /// [`ConfigParser::for_include`] and hands the result to
    /// [`ConfigParser::absorb`] before the next line.
    pub fn feed_line(&mut self, raw: &str) -> (r: Option<Vec<String>>)
        requires
            line_reads_cleanly(raw@),
        ensures
            final(self)@ == step(old(self)@, raw@),
            match (r, include_request(old(self)@, raw@)) {
                (Some(v), Some(w)) => v@.map_values(|s: String| s@) == w,
                (None, None) => true,
                _ => false,
            },
    {
        if self.depth > 3 {
            return None;
        }
        let all = chars_of(raw);
        let nc = strip_comment(all.as_slice());
        let line = trimmed(nc.as_slice());
        let (k, value) = match split_kv(line.as_slice()) {
            None => return None,
            Some(kv) => kv,
        };
        let key_string = to_lowercase(string_of(k.as_slice(), 0, k.len()).as_str());
        assert(k@.subrange(0, k@.len() as int) =~= k@);
        let key = chars_of(key_string.as_str());
        assert(directive(raw@) == Some((key@, value@)));
        self.apply_directive(key.as_slice(), value.as_slice())
    }

    /// Applies one directive: `key`, already in small letters, with its
    /// `value`. Returns the pathnames to include when it is an `Include`,
    /// which leaves the parser as it was.
    pub fn apply_directive(&mut self, key: &[char], value: &[char]) -> (r: Option<Vec<String>>)
        ensures
            final(self)@ == directive_step(old(self)@, key@, value@),
            match (r, directive_request(key@, value@)) {
                (Some(v), Some(w)) => v@.map_values(|s: String| s@) == w,
                (None, None) => true,
                _ => false,
            },
    {
        let ghost p = self@;
        if same_chars(key, "include") {
            proof {
                reveal_strlit("include");
                reveal_strlit("host");
                reveal_strlit("match");
                reveal_strlit("forwardagent");
                reveal_strlit("hostname");
                reveal_strlit("user");
                reveal_strlit("port");
                reveal_strlit("identityfile");
                reveal_strlit("proxyjump");
                reveal_strlit("localforward");
                assert("include"@.len() == 7);
                assert("host"@.len() == 4);
                assert("match"@.len() == 5);
                assert(key@ != "host"@);
                assert(key@ != "match"@);
                assert(key@ != "forwardagent"@);
                assert(key@ != "hostname"@);
                assert(key@ != "user"@);
                assert(key@ != "port"@);
                assert(key@ != "identityfile"@);
                assert(key@ != "proxyjump"@);
                assert(key@ != "localforward"@);
            }
            return Some(split_include_patterns(value));
        }
        if same_chars(key, "host") {
            flush(&mut self.hosts, &mut self.current, &mut self.deferred);
            self.agent_seen = false;
            let wild = crate::text::has_char(value, '*') || crate::text::has_char(value, '?');
            self.in_wildcard = wild;
            if !wild {
                let mut h = Host::default_for(self.user.clone());
                h.name = string_of(value, 0, value.len());
                assert(value@.subrange(0, value@.len() as int) =~= value@);
                h.source = HostSource::SshConfig;
                self.current = Some(h);
            }
            proof {
                assert(self@.deferred =~= Seq::<HostView>::empty());
            }
            assert(self@ == directive_step(p, key@, value@));
            return None;
        }
        if same_chars(key, "match") {
            flush(&mut self.hosts, &mut self.current, &mut self.deferred);
            self.in_wildcard = true;
            proof {
                assert(self@.deferred =~= Seq::<HostView>::empty());
            }
            assert(self@ == directive_step(p, key@, value@));
            return None;
        }
        if same_chars(key, "forwardagent") {
            self.forward_agent(value);
            return None;
        }
        if self.in_wildcard || self.current.is_none() {
            return None;
        }
        let mut h = self.current.take().unwrap();
        if same_chars(key, "hostname") {
            h.hostname = string_of(value, 0, value.len());
            assert(value@.subrange(0, value@.len() as int) =~= value@);
        } else if same_chars(key, "user") {
            h.user = string_of(value, 0, value.len());
            assert(value@.subrange(0, value@.len() as int) =~= value@);
        } else if same_chars(key, "port") {
            match parse_u16_chars(value) {
                Some(n) => h.port = n,
                None => {},
            }
        } else if same_chars(key, "identityfile") {
            let e = expand_tilde_with(value, &self.home);
            h.identity_file = Some(string_of(e.as_slice(), 0, e.len()));
            assert(e@.subrange(0, e@.len() as int) =~= e@);
        } else if same_chars(key, "proxyjump") {
            h.proxy_jump = Some(string_of(value, 0, value.len()));
            assert(value@.subrange(0, value@.len() as int) =~= value@);
        } else if same_chars(key, "localforward") {
            match parse_local_forward(value) {
                Ok(f) => {
                    let ghost before = h@.local_forwards;
                    h.local_forwards.push(f);
                    assert(h@.local_forwards =~= before.push(f@));
                },
                Err(_) => {},
            }
        }
        self.current = Some(h);
        assert(self@ == directive_step(p, key@, value@));
        None
    }

    /// Applies a `ForwardAgent` value.
    fn forward_agent(&mut self, value: &[char])
        ensures
            final(self)@ == forward_agent_step(old(self)@, value@),
    {
        let a = ascii_lowercased(value);
        let yes = same_chars(a.as_slice(), "yes") || same_chars(a.as_slice(), "true");
        let no = same_chars(a.as_slice(), "no") || same_chars(a.as_slice(), "false");
        match self.current.take() {
            Some(mut h) => {
                if !self.agent_seen {
                    self.agent_seen = true;
                    if yes {
                        h.forward_agent = !self.agent_barred;
                    } else if no {
                        h.forward_agent = false;
                    }
                }
                self.current = Some(h);
            },
            None => {
                if no {
                    self.agent_barred = true;
                }
            },
        }
    }

    /// Takes in what a file named by an `Include` gave: its hosts go after
    /// the current host when the `Include` sat in its block, else after the
    /// finished hosts; its `ForwardAgent no` carries on.
    pub fn absorb(&mut self, included: ConfigParser)
        ensures
            final(self)@ == absorbed(old(self)@, finished(included@), included@.agent_barred),
    {
        let barred = included.agent_barred;
        let mut hosts = included.finish();
        if self.current.is_some() {
            let ghost d = host_views(self.deferred@);
            let ghost hv = host_views(hosts@);
            self.deferred.append(&mut hosts);
            assert(host_views(self.deferred@) =~= d + hv);
        } else {
            let ghost d = host_views(self.hosts@);
            let ghost hv = host_views(hosts@);
            self.hosts.append(&mut hosts);
            assert(host_views(self.hosts@) =~= d + hv);
        }
        self.agent_barred = barred;
    }

    /// The hosts read, in the order of the configuration; a host without a
    /// `HostName` is reached under its alias.
    pub fn finish(self) -> (r: Vec<Host>)
        ensures
            host_views(r@) == finished(self@),
    {
        let ghost p = self@;
        if self.depth > 3 {
            let r: Vec<Host> = Vec::new();
            assert(host_views(r@) =~= Seq::<HostView>::empty());
            return r;
        }
        let mut hosts = self.hosts;
        let mut current = self.current;
        let mut deferred = self.deferred;
        flush(&mut hosts, &mut current, &mut deferred);
        let ghost all = host_views(hosts@);
        assert(all == flushed(p));
        let mut i: usize = 0;
        while i < hosts.len()
            invariant
                i <= hosts@.len() == all.len(),
                forall|j: int| 0 <= j < i ==> (#[trigger] hosts@[j])@ == with_address(all[j]),
                forall|j: int| i <= j < hosts@.len() ==> (#[trigger] hosts@[j])@ == all[j],
            decreases hosts.len() - i,
        {
            if hosts[i].hostname.as_str().is_empty() {
                let mut h = hosts.remove(i);
                h.hostname = h.name.clone();
                hosts.insert(i, h);
            }
            i = i + 1;
        }
        assert(host_views(hosts@) =~= finished(p));
        hosts
    }
}

/// Parses the text of an SSH config file and returns all non-wildcard hosts,
/// for the local `account`. `Host *` entries are skipped. No file is read: an
/// `Include` adds no host here (see [`ConfigParser`]).
pub fn parse_ssh_config(content: &str, account: &Account) -> (r: Vec<Host>)
    requires
        text_reads_cleanly(content@),
    ensures
        host_views(r@) == config_hosts(content@, account.user@, opt_chars(account.home)),
{
    let all = chars_of(content);
    let lines = split_lines(all.as_slice());
    let mut parser = ConfigParser::new(account);
    let ghost ls = lines_of(content@);
    let ghost p0 = parser@;
    let mut i: usize = 0;
    while i < lines.len()
        invariant
            i <= lines@.len() == ls.len(),
            char_views(lines@) == ls,
            text_reads_cleanly(content@),
            ls == lines_of(content@),
            parser@ == run(p0, ls.subrange(0, i as int)),
            parser@.depth == 0,
        decreases lines.len() - i,
    {
        let line = string_of(lines[i].as_slice(), 0, lines[i].len());
        assert(lines@[i as int]@.subrange(0, lines@[i as int]@.len() as int) =~= lines@[i as int]@);
        assert(line@ == ls[i as int]);
        assert(line_reads_cleanly(ls[i as int]));
        let included = parser.feed_line(line.as_str());
        assert(ls.subrange(0, i + 1).drop_last() =~= ls.subrange(0, i as int));
        i = i + 1;
    }
    assert(ls.subrange(0, ls.len() as int) =~= ls);
    parser.finish()
}

} // verus!
