//! The terminal's own pieces of logic: the password line typed at an inline
//! prompt, and the locale environment forwarded to a remote shell.

use vstd::prelude::*;
use crate::keyed::{drop_key, entry_views, lookup, without};
use crate::text::{
    chars_of, eq_ignore_ascii_case, find_char, first_pos, from_utf8_lossy, last_pos,
    lemma_last_pos, same_ignoring_ascii_case, utf8_lossy,
};

verus! {

// ---------------------------------------------------------------------------
// The password line
// ---------------------------------------------------------------------------

/// Where the prompt is inside a terminal escape sequence (arrow keys,
/// function keys, paste markers), which is dropped.
#[derive(Debug, Clone, Copy, PartialEq, Eq, Structural)]
pub enum Escape {
    /// Not in an escape sequence.
    Outside,
    /// After `ESC`.
    Started,
    /// Inside a CSI or SS3 sequence, before its final byte.
    Sequence,
}

/// Whether `b` continues a UTF-8 character rather than starting one.
pub open spec fn is_continuation(b: u8) -> bool {
    0x80 <= b && b < 0xc0
}

/// The typed bytes after a backspace: the last character goes, however many
/// bytes it took.
pub open spec fn erase_char(bytes: Seq<u8>) -> Seq<u8>
    decreases bytes.len(),
{
    if bytes.len() == 0 {
        bytes
    } else if !is_continuation(bytes.last()) {
        bytes.drop_last()
    } else {
        erase_char(bytes.drop_last())
    }
}

/// A password line as keystrokes leave it: the bytes typed, where it is in an
/// escape sequence, and — once the line is done — the password typed, or none
/// for a cancel.
pub struct LineView {
    pub bytes: Seq<u8>,
    pub escape: Escape,
    pub done: Option<Option<Seq<u8>>>,
}

/// One keystroke byte `b` on a line at `bytes`, `escape`.
pub open spec fn key_step(bytes: Seq<u8>, escape: Escape, b: u8) -> LineView {
    match escape {
        Escape::Started => LineView {
            bytes,
            escape: if b == 0x5b || b == 0x4f {
                Escape::Sequence
            } else {
                Escape::Outside
            },
            done: None,
        },
        // Parameters and intermediates run 0x20..=0x3f; the final byte ends it.
        Escape::Sequence => LineView {
            bytes,
            escape: if 0x20 <= b && b <= 0x3f {
                Escape::Sequence
            } else {
                Escape::Outside
            },
            done: None,
        },
        Escape::Outside => if b == 0x1b {
            LineView { bytes, escape: Escape::Started, done: None }
        } else if b == 0x0d || b == 0x0a {
            LineView { bytes, escape, done: Some(Some(bytes)) }
        } else if b == 0x03 || (b == 0x04 && bytes.len() == 0) {
            LineView { bytes, escape, done: Some(None) }
        } else if b == 0x15 {
            LineView { bytes: Seq::empty(), escape, done: None }
        } else if b == 0x08 || b == 0x7f {
            LineView { bytes: erase_char(bytes), escape, done: None }
        } else if b < 0x20 {
            LineView { bytes, escape, done: None }
        } else {
            LineView { bytes: bytes.push(b), escape, done: None }
        },
    }
}

/// The line after the keystrokes `input`: they are taken in order until the
/// line is done, and anything after that is dropped.
pub open spec fn keys_step(bytes: Seq<u8>, escape: Escape, input: Seq<u8>) -> LineView
    decreases input.len(),
{
    if input.len() == 0 {
        LineView { bytes, escape, done: None }
    } else {
        let s = key_step(bytes, escape, input[0]);
        if s.done is Some {
            s
        } else {
            keys_step(s.bytes, s.escape, input.drop_first())
        }
    }
}

/// A password being typed at the inline prompt.
pub struct PasswordLine {
    bytes: Vec<u8>,
    escape: Escape,
}

impl View for PasswordLine {
    type V = (Seq<u8>, Escape);

    closed spec fn view(&self) -> (Seq<u8>, Escape) {
        (self.bytes@, self.escape)
    }
}

impl Default for PasswordLine {
    fn default() -> (l: Self)
        ensures
            l@.0 == Seq::<u8>::empty(),
            l@.1 == Escape::Outside,
    {
        let l = PasswordLine { bytes: Vec::new(), escape: Escape::Outside };
        assert(l@.0 =~= Seq::<u8>::empty());
        l
    }
}

impl PasswordLine {
    /// Removes the last character typed.
    fn erase(&mut self)
        ensures
            final(self).bytes@ == erase_char(old(self).bytes@),
            final(self).escape == old(self).escape,
    {
        while self.bytes.len() > 0
            invariant_except_break
                erase_char(self.bytes@) == erase_char(old(self).bytes@),
                self.escape == old(self).escape,
            ensures
                self.bytes@ == erase_char(old(self).bytes@),
                self.escape == old(self).escape,
            decreases self.bytes.len(),
        {
            let ghost before = self.bytes@;
            let last = self.bytes.pop().unwrap();
            proof {
                assert(before.drop_last() =~= self.bytes@);
                assert(before.last() == last);
            }
            if last < 0x80 || last >= 0xc0 {
                break;
            }
        }
    }

    /// Takes keystrokes. `Some` once the line is done: the password on Enter,
    /// `None` on Ctrl+C (or Ctrl+D on an empty line). Input after Enter is
    /// dropped, never sent on. Backspace takes a whole character, Ctrl+U the
    /// whole line; other control bytes and escape sequences are dropped.
    pub fn feed(&mut self, input: &[u8]) -> (r: Option<Option<String>>)
        ensures
            ({
                let s = keys_step(old(self)@.0, old(self)@.1, input@);
                &&& final(self)@.0 == s.bytes
                &&& final(self)@.1 == s.escape
                &&& match s.done {
                    None => r is None,
                    Some(None) => r == Some(None::<String>),
                    Some(Some(p)) => r matches Some(Some(t)) && t@ == utf8_lossy(p),
                }
            }),
    {
        let ghost whole = keys_step(self.bytes@, self.escape, input@);
        assert(input@.subrange(0, input@.len() as int) =~= input@);
        let mut i: usize = 0;
        while i < input.len()
            invariant
                i <= input@.len(),
                whole == keys_step(old(self).bytes@, old(self).escape, input@),
                whole == keys_step(self.bytes@, self.escape, input@.subrange(i as int, input@.len() as int)),
            decreases input.len() - i,
        {
            let ghost rest = input@.subrange(i as int, input@.len() as int);
            assert(rest[0] == input@[i as int]);
            assert(rest.drop_first() =~= input@.subrange(i + 1, input@.len() as int));
            let byte = input[i];
            let ghost st = key_step(self.bytes@, self.escape, byte);
            assert(rest.len() > 0);
            assert(keys_step(self.bytes@, self.escape, rest) == if st.done is Some {
                st
            } else {
                keys_step(st.bytes, st.escape, rest.drop_first())
            });
            i = i + 1;
            match self.escape {
                Escape::Started => {
                    self.escape = if byte == 0x5b || byte == 0x4f {
                        Escape::Sequence
                    } else {
                        Escape::Outside
                    };
                    continue;
                },
                Escape::Sequence => {
                    if !(0x20 <= byte && byte <= 0x3f) {
                        self.escape = Escape::Outside;
                    }
                    continue;
                },
                Escape::Outside => {},
            }
            if byte == 0x1b {
                self.escape = Escape::Started;
            } else if byte == 0x0d || byte == 0x0a {
                return Some(Some(from_utf8_lossy(self.bytes.as_slice())));
            } else if byte == 0x03 || (byte == 0x04 && self.bytes.len() == 0) {
                return Some(None);
            } else if byte == 0x15 {
                self.bytes.clear();
                assert(self.bytes@ =~= Seq::<u8>::empty());
            } else if byte == 0x08 || byte == 0x7f {
                self.erase();
            } else if byte < 0x20 {
            } else {
                self.bytes.push(byte);
            }
        }
        assert(input@.subrange(input@.len() as int, input@.len() as int) =~= Seq::<u8>::empty());
        None
    }
}

/// Nothing after the end of the line counts: once the keystrokes `input`
/// finish it — Enter, or a cancel — whatever follows them changes nothing.
pub proof fn law_nothing_after_the_end_counts(bytes: Seq<u8>, escape: Escape, input: Seq<u8>, more: Seq<u8>)
    requires
        keys_step(bytes, escape, input).done is Some,
    ensures
        keys_step(bytes, escape, input + more) == keys_step(bytes, escape, input),
    decreases input.len(),
{
    let s = key_step(bytes, escape, input[0]);
    assert((input + more)[0] == input[0]);
    if s.done is None {
        assert((input + more).drop_first() =~= input.drop_first() + more);
        law_nothing_after_the_end_counts(s.bytes, s.escape, input.drop_first(), more);
    }
}

/// A password line is the keystrokes typed before Enter, with control keys
/// and escape sequences left out: typed plain, `secret` and Enter give
/// `secret`.
pub proof fn law_plain_keys_are_the_password(bytes: Seq<u8>, input: Seq<u8>)
    requires
        forall|i: int| 0 <= i < input.len() ==> 0x20 <= #[trigger] input[i] && input[i] < 0x7f,
    ensures
        keys_step(bytes, Escape::Outside, input) == (LineView { bytes: bytes + input, escape: Escape::Outside, done: None }),
        keys_step(bytes, Escape::Outside, input.push(0x0d)).done == Some(Some(bytes + input)),
    decreases input.len(),
{
    if input.len() == 0 {
        assert(bytes + input =~= bytes);
        assert(input.push(0x0d)[0] == 0x0d);
    } else {
        let rest = input.drop_first();
        assert forall|i: int| 0 <= i < rest.len() implies 0x20 <= #[trigger] rest[i] && rest[i] < 0x7f by {
            assert(rest[i] == input[i + 1]);
        }
        law_plain_keys_are_the_password(bytes.push(input[0]), rest);
        assert(bytes.push(input[0]) + rest =~= bytes + input);
        assert(input.push(0x0d).drop_first() =~= rest.push(0x0d));
        assert(input.push(0x0d)[0] == input[0]);
    }
}

// ---------------------------------------------------------------------------
// Locale
// ---------------------------------------------------------------------------

/// The codeset of a locale value: after its last `.`, up to any `@modifier`.
pub open spec fn codeset(value: Seq<char>) -> Option<Seq<char>> {
    let d = last_pos(value, '.');
    if d < 0 {
        None
    } else {
        let cs = value.subrange(d + 1, value.len() as int);
        let a = first_pos(cs, '@');
        Some(if a < 0 { cs } else { cs.subrange(0, a) })
    }
}

/// Whether a locale value names the UTF-8 codeset (`en_US.UTF-8`,
/// `ru_RU.utf8`, `de_DE.UTF-8@euro`, …).
pub open spec fn utf8_locale(value: Seq<char>) -> bool {
    match codeset(value) {
        Some(c) => eq_ignore_ascii_case(c, "utf-8"@) || eq_ignore_ascii_case(c, "utf8"@),
        None => false,
    }
}

/// Whether a locale value names the UTF-8 codeset.
pub fn is_utf8_locale(value: &str) -> (b: bool)
    ensures
        b == utf8_locale(value@),
{
    let v = chars_of(value);
    let mut d: usize = v.len();
    assert(v@.subrange(0, v@.len() as int) =~= v@);
    while d > 0 && v[d - 1] != '.'
        invariant
            d <= v@.len(),
            last_pos(v@, '.') == last_pos(v@.subrange(0, d as int), '.'),
        decreases d,
    {
        assert(v@.subrange(0, d as int).drop_last() =~= v@.subrange(0, d - 1));
        d = d - 1;
    }
    proof {
        assert(v@.subrange(0, v@.len() as int) =~= v@);
        if d > 0 {
            assert(v@.subrange(0, d as int).last() == '.');
        } else {
            assert(v@.subrange(0, 0) =~= Seq::<char>::empty());
        }
        lemma_last_pos(v@, '.');
    }
    if d == 0 {
        return false;
    }
    let cs: Vec<char> = crate::text::chars_between(v.as_slice(), d, v.len());
    let code: Vec<char> = match find_char(cs.as_slice(), '@') {
        Some(a) => crate::text::chars_between(cs.as_slice(), 0, a),
        None => cs,
    };
    same_ignoring_ascii_case(code.as_slice(), "utf-8") || same_ignoring_ascii_case(
        code.as_slice(),
        "utf8",
    )
}

/// Whether a variable of that name carries locale: `LANG` or an `LC_*` one.
pub open spec fn is_locale_var(name: Seq<char>) -> bool {
    name == "LANG"@ || (name.len() >= 3 && name.subrange(0, 3) == "LC_"@)
}

/// The locale variables among `vars`, in order.
pub open spec fn locale_vars(vars: Seq<(Seq<char>, Seq<char>)>) -> Seq<(Seq<char>, Seq<char>)>
    decreases vars.len(),
{
    if vars.len() == 0 {
        vars
    } else if is_locale_var(vars.last().0) {
        locale_vars(vars.drop_last()).push(vars.last())
    } else {
        locale_vars(vars.drop_last())
    }
}

/// Whether the forwarded locale variables `fwd` leave the character type
/// short of UTF-8: `LC_ALL` overrides every category, so an explicit one is
/// respected verbatim; otherwise the type resolves from `LC_CTYPE`, then
/// `LANG`.
pub open spec fn needs_utf8(fwd: Seq<(Seq<char>, Seq<char>)>) -> bool {
    lookup(fwd, "LC_ALL"@) is None && !(match lookup(fwd, "LC_CTYPE"@) {
        Some(v) => utf8_locale(v),
        None => match lookup(fwd, "LANG"@) {
            Some(v) => utf8_locale(v),
            None => false,
        },
    })
}

/// The locale environment to forward to a remote shell from `vars`: every
/// `LANG`/`LC_*` variable, plus `LC_CTYPE=C.UTF-8` — replacing any
/// `LC_CTYPE` sent — only when the set does not already resolve the
/// character type to UTF-8.
pub open spec fn locale_env_of(vars: Seq<(Seq<char>, Seq<char>)>) -> Seq<(Seq<char>, Seq<char>)> {
    let fwd = locale_vars(vars);
    if needs_utf8(fwd) {
        without(fwd, "LC_CTYPE"@).push(("LC_CTYPE"@, "C.UTF-8"@))
    } else {
        fwd
    }
}

/// The forwarded character type is never left short of UTF-8 and never sent
/// twice: without `LC_ALL`, the result resolves it to UTF-8 through
/// `LC_CTYPE` or `LANG`, and holds at most one `LC_CTYPE`, the last entry when
/// it was added.
pub proof fn law_the_character_type_ends_up_utf8(vars: Seq<(Seq<char>, Seq<char>)>)
    ensures
        ({
            let fwd = locale_vars(vars);
            let out = locale_env_of(vars);
            needs_utf8(fwd) ==> (lookup(out, "LC_CTYPE"@) == Some("C.UTF-8"@) && forall|i: int|
                0 <= i < out.len() - 1 ==> (#[trigger] out[i]).0 != "LC_CTYPE"@)
        }),
{
    let fwd = locale_vars(vars);
    if needs_utf8(fwd) {
        let w = without(fwd, "LC_CTYPE"@);
        crate::keyed::lemma_lookup_push(w, ("LC_CTYPE"@, "C.UTF-8"@), "LC_CTYPE"@);
        crate::keyed::lemma_without_drops_key(fwd, "LC_CTYPE"@);
        let out = w.push(("LC_CTYPE"@, "C.UTF-8"@));
        assert forall|i: int| 0 <= i < out.len() - 1 implies (#[trigger] out[i]).0 != "LC_CTYPE"@ by {
            assert(out[i] == w[i]);
        }
    }
}

/// `LANG` and every variable whose name starts with `LC_` carry locale;
/// nothing else does.
pub proof fn law_lang_and_every_lc_variable_is_locale(name: Seq<char>)
    ensures
        name == "LANG"@ ==> is_locale_var(name),
        name.len() >= 3 && name.subrange(0, 3) == "LC_"@ ==> is_locale_var(name),
        name != "LANG"@ && !(name.len() >= 3 && name.subrange(0, 3) == "LC_"@) ==> !is_locale_var(name),
{
}

/// Only locale variables are forwarded, each one an entry of `vars`.
pub proof fn law_only_locale_variables_are_forwarded(vars: Seq<(Seq<char>, Seq<char>)>)
    ensures
        forall|k: int| 0 <= k < locale_vars(vars).len() ==> is_locale_var(#[trigger] locale_vars(vars)[k].0)
            && vars.contains(locale_vars(vars)[k]),
    decreases vars.len(),
{
    if vars.len() > 0 {
        let d = vars.drop_last();
        let l = locale_vars(d);
        law_only_locale_variables_are_forwarded(d);
        assert forall|k: int| 0 <= k < locale_vars(vars).len() implies is_locale_var(
            #[trigger] locale_vars(vars)[k].0,
        ) && vars.contains(locale_vars(vars)[k]) by {
            if k < l.len() {
                assert(locale_vars(vars)[k] == l[k]);
                assert(is_locale_var(locale_vars(d)[k].0));
                assert(d.contains(l[k]));
                let j = choose|j: int| 0 <= j < d.len() && d[j] == l[k];
                assert(vars[j] == d[j]);
            } else {
                assert(locale_vars(vars)[k] == vars.last());
                assert(vars[vars.len() - 1] == vars.last());
            }
        }
    }
}

/// Every `LANG` and `LC_*` entry of `vars` is forwarded.
pub proof fn law_every_locale_variable_is_forwarded(vars: Seq<(Seq<char>, Seq<char>)>, i: int)
    requires
        0 <= i < vars.len(),
    ensures
        is_locale_var(vars[i].0) ==> locale_vars(vars).contains(vars[i]),
    decreases vars.len(),
{
    let d = vars.drop_last();
    let l = locale_vars(d);
    if is_locale_var(vars[i].0) {
        if i == vars.len() - 1 {
            assert(locale_vars(vars)[locale_vars(vars).len() - 1] == vars[i]);
        } else {
            assert(d[i] == vars[i]);
            law_every_locale_variable_is_forwarded(d, i);
            let k = choose|k: int| 0 <= k < l.len() && l[k] == vars[i];
            if is_locale_var(vars.last().0) {
                assert(locale_vars(vars)[k] == l[k]);
            }
        }
    }
}

/// A forwarded variable other than `LC_CTYPE` is never dropped: every `LANG`
/// and `LC_*` entry of `vars` but `LC_CTYPE` is in the environment sent.
pub proof fn law_no_locale_variable_is_lost(vars: Seq<(Seq<char>, Seq<char>)>, i: int)
    requires
        0 <= i < vars.len(),
        is_locale_var(vars[i].0),
        vars[i].0 != "LC_CTYPE"@,
    ensures
        locale_env_of(vars).contains(vars[i]),
{
    law_every_locale_variable_is_forwarded(vars, i);
    let fwd = locale_vars(vars);
    if needs_utf8(fwd) {
        let k = choose|k: int| 0 <= k < fwd.len() && fwd[k] == vars[i];
        crate::keyed::lemma_without_keeps(fwd, "LC_CTYPE"@, k);
        let w = without(fwd, "LC_CTYPE"@);
        let j = choose|j: int| 0 <= j < w.len() && w[j] == vars[i];
        assert(w.push(("LC_CTYPE"@, "C.UTF-8"@))[j] == vars[i]);
    }
}

fn is_locale_name(name: &String) -> (b: bool)
    ensures
        b == is_locale_var(name@),
{
    let v = chars_of(name.as_str());
    if crate::text::same_chars(v.as_slice(), "LANG") {
        return true;
    }
    proof {
        reveal_strlit("LC_");
        reveal_strlit("LANG");
    }
    if v.len() >= 3 && v[0] == 'L' && v[1] == 'C' && v[2] == '_' {
        assert(v@.subrange(0, 3) =~= "LC_"@);
        true
    } else {
        proof {
            if v@.len() >= 3 && v@.subrange(0, 3) == "LC_"@ {
                assert(v@.subrange(0, 3)[0] == 'L');
                assert(v@.subrange(0, 3)[1] == 'C');
                assert(v@.subrange(0, 3)[2] == '_');
            }
        }
        false
    }
}

/// The locale environment to forward to a remote shell: every `LANG`/`LC_*`
/// variable from `vars`, plus an `LC_CTYPE=C.UTF-8` fallback only when the
/// forwarded set does not already resolve the character type to UTF-8. This
/// mirrors an ssh client's `SendEnv LANG LC_*` while guaranteeing a UTF-8
/// character type to a process with no locale environment, without clobbering
/// an already-UTF-8 `LANG` with a `C.UTF-8` the server may not have.
pub fn locale_env(vars: Vec<(String, String)>) -> (r: Vec<(String, String)>)
    ensures
        entry_views(r@) == locale_env_of(entry_views(vars@)),
{
    let ghost vs = entry_views(vars@);
    let mut out: Vec<(String, String)> = Vec::new();
    let mut i: usize = 0;
    while i < vars.len()
        invariant
            i <= vars@.len() == vs.len(),
            vs == entry_views(vars@),
            entry_views(out@) == locale_vars(vs.subrange(0, i as int)),
        decreases vars.len() - i,
    {
        proof {
            assert(vs.subrange(0, i + 1).drop_last() =~= vs.subrange(0, i as int));
            assert(vs[i as int] == (vars@[i as int].0@, vars@[i as int].1@));
        }
        if is_locale_name(&vars[i].0) {
            let e = (vars[i].0.clone(), vars[i].1.clone());
            let ghost before = out@;
            out.push(e);
            assert(entry_views(out@) =~= entry_views(before).push(vs[i as int]));
        }
        i = i + 1;
    }
    assert(vs.subrange(0, vs.len() as int) =~= vs);
    let ghost fwd = entry_views(out@);
    let lc_all = crate::keyed::value_of(&out, "LC_ALL");
    let force = match lc_all {
        Some(_) => false,
        None => {
            let resolved = match crate::keyed::value_of(&out, "LC_CTYPE") {
                Some(v) => Some(v),
                None => crate::keyed::value_of(&out, "LANG"),
            };
            match resolved {
                Some(v) => !is_utf8_locale(v.as_str()),
                None => true,
            }
        },
    };
    if force {
        let key = String::from_str("LC_CTYPE");
        let mut kept = drop_key(&out, &key);
        let ghost w = entry_views(kept@);
        kept.push((key, String::from_str("C.UTF-8")));
        assert(entry_views(kept@) =~= w.push(("LC_CTYPE"@, "C.UTF-8"@)));
        kept
    } else {
        out
    }
}

// ---------------------------------------------------------------------------
// The inline password prompt
// ---------------------------------------------------------------------------

/// What the tab sends its session while it connects.
#[derive(Debug, Clone, PartialEq, Eq)]
pub enum Ctrl {
    /// Keystrokes or pasted bytes.
    Input(Vec<u8>),
    /// The window was resized.
    Resize { cols: u16, rows: u16 },
    /// The tab was closed.
    Close,
}

/// The tab while its login runs: the latest window size, for the shell opened
/// once the login is done, and whether it was closed at the prompt.
#[derive(Debug, Clone, Copy, PartialEq, Eq)]
pub struct InlineTab {
    pub size: (u16, u16),
    pub closed: bool,
}

/// The text drawn before the password is read: why it is asked again, or the
/// key of a server first met on this connection — shown before the password
/// goes to it — then `login's password: `, as ssh(1) asks.
pub open spec fn prompt_text(retry: bool, new_host_key: Option<Seq<char>>, login: Seq<char>) -> Seq<char> {
    let head = if retry {
        "Permission denied, please try again.\r\n"@
    } else {
        match new_host_key {
            Some(k) => "New host key recorded: "@ + k + "\r\n"@,
            None => Seq::empty(),
        }
    };
    head + login + "'s password: "@
}

/// The text drawn before the password is read.
pub fn prompt_banner(retry: bool, new_host_key: Option<&str>, login: &str) -> (s: String)
    ensures
        s@ == prompt_text(
            retry,
            match new_host_key {
                Some(k) => Some(k@),
                None => None,
            },
            login@,
        ),
{
    let mut s = if retry {
        String::from_str("Permission denied, please try again.\r\n")
    } else {
        match new_host_key {
            Some(k) => {
                let mut t = String::from_str("New host key recorded: ");
                t.append(k);
                t.append("\r\n");
                t
            },
            None => String::new(),
        }
    };
    s.append(login);
    s.append("'s password: ");
    s
}

/// The error a terminal tab whose login failed reports, after its tab went:
/// none for a tab the user closed at the password prompt.
pub fn terminal_error(closed_at_prompt: bool, failure: &str) -> (m: Option<String>)
    ensures
        closed_at_prompt ==> m is None,
        !closed_at_prompt ==> (m matches Some(t) && t@ == "Terminal: "@ + failure@),
{
    if closed_at_prompt {
        None
    } else {
        let mut t = String::from_str("Terminal: ");
        t.append(failure);
        Some(t)
    }
}

impl InlineTab {
    /// Takes in what was sent before or after a prompt: typed-ahead keys are
    /// dropped, as ssh(1) drops them, and a resize and a close are kept.
    pub fn flush(&mut self, ctrl: &Ctrl)
        ensures
            match ctrl {
                Ctrl::Input(_) => *final(self) == *old(self),
                Ctrl::Resize { cols, rows } => final(self).size == (*cols, *rows) && final(self).closed
                    == old(self).closed,
                Ctrl::Close => final(self).size == old(self).size && final(self).closed,
            },
    {
        match ctrl {
            Ctrl::Input(_) => {},
            Ctrl::Resize { cols, rows } => self.size = (*cols, *rows),
            Ctrl::Close => self.closed = true,
        }
    }

    /// Takes in what was sent while the password is typed (`None` once the
    /// tab is gone): `Some` once the prompt is over — the password, or none
    /// for a cancel or a closed tab.
    pub fn typing(&mut self, ctrl: Option<&Ctrl>, line: &mut PasswordLine) -> (r: Option<Option<String>>)
        ensures
            match ctrl {
                Some(Ctrl::Input(bytes)) => {
                    let s = keys_step(old(line)@.0, old(line)@.1, bytes@);
                    &&& *final(self) == *old(self)
                    &&& final(line)@ == (s.bytes, s.escape)
                    &&& match s.done {
                        None => r is None,
                        Some(None) => r == Some(None::<String>),
                        Some(Some(p)) => r matches Some(Some(t)) && t@ == utf8_lossy(p),
                    }
                },
                Some(Ctrl::Resize { cols, rows }) => r is None && final(self).size == (*cols, *rows)
                    && final(self).closed == old(self).closed && final(line)@ == old(line)@,
                _ => r == Some(None::<String>) && final(self).closed && final(self).size == old(self).size
                    && final(line)@ == old(line)@,
            },
    {
        match ctrl {
            Some(Ctrl::Input(bytes)) => line.feed(bytes.as_slice()),
            Some(Ctrl::Resize { cols, rows }) => {
                self.size = (*cols, *rows);
                None
            },
            _ => {
                self.closed = true;
                Some(None)
            },
        }
    }
}

} // verus!
