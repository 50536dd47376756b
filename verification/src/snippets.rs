//! Filling a snippet's `{{name}}` placeholders before it runs.
//!
//! Only the names a snippet declares are filled, and only with a value given
//! for them. One pass, by design: an inserted value is never read again, so a
//! value that spells `{{other}}` cannot bring in a further substitution, and an
//! undeclared `{{token}}` is left exactly as it was.

use vstd::prelude::*;
use crate::keyed::Table;
use crate::text::{chars_between, chars_of, occurs_at, push_chars, string_of};

verus! {

/// `{{`, which opens a placeholder.
pub open spec fn open_mark() -> Seq<char> {
    seq!['{', '{']
}

/// `}}`, which closes one.
pub open spec fn close_mark() -> Seq<char> {
    seq!['}', '}']
}

/// The first place at or after `i` where `needle` occurs in `hay`, or `-1`.
pub open spec fn find_from(hay: Seq<char>, needle: Seq<char>, i: int) -> int
    decreases hay.len() + 1 - i,
{
    if i < 0 || i + needle.len() > hay.len() {
        -1
    } else if occurs_at(hay, needle, i) {
        i
    } else {
        find_from(hay, needle, i + 1)
    }
}

pub proof fn lemma_find_from(hay: Seq<char>, needle: Seq<char>, i: int)
    requires
        0 <= i,
    ensures
        find_from(hay, needle, i) == -1 || (i <= find_from(hay, needle, i) && find_from(hay, needle, i)
            + needle.len() <= hay.len() && occurs_at(hay, needle, find_from(hay, needle, i))),
        forall|j: int|
            i <= j < (if find_from(hay, needle, i) >= 0 {
                find_from(hay, needle, i)
            } else {
                hay.len() + 1int
            }) ==> !occurs_at(hay, needle, j),
    decreases hay.len() + 1 - i,
{
    if i + needle.len() <= hay.len() && !occurs_at(hay, needle, i) {
        lemma_find_from(hay, needle, i + 1);
    }
}

/// What a placeholder named `name` becomes: its value, if the snippet declares
/// the name and a value was given; else the placeholder itself.
pub open spec fn piece(
    name: Seq<char>,
    declared: Seq<Seq<char>>,
    values: Map<Seq<char>, Seq<char>>,
) -> Seq<char> {
    if declared.contains(name) && values.contains_key(name) {
        values[name]
    } else {
        open_mark() + name + close_mark()
    }
}

/// `command` from `pos` on, its placeholders filled in one pass from left to
/// right. An unterminated `{{` and all after it stay as they are.
pub open spec fn substituted(
    command: Seq<char>,
    pos: int,
    declared: Seq<Seq<char>>,
    values: Map<Seq<char>, Seq<char>>,
) -> Seq<char>
    decreases command.len() - pos,
{
    if pos < 0 || pos > command.len() {
        Seq::empty()
    } else {
        let open = find_from(command, open_mark(), pos);
        if open < 0 {
            command.subrange(pos, command.len() as int)
        } else {
            let close = find_from(command, close_mark(), open + 2);
            if close < 0 {
                command.subrange(pos, command.len() as int)
            } else {
                proof {
                    lemma_find_from(command, open_mark(), pos);
                    lemma_find_from(command, close_mark(), open + 2);
                }
                command.subrange(pos, open) + piece(command.subrange(open + 2, close), declared, values)
                    + substituted(command, close + 2, declared, values)
            }
        }
    }
}

/// The names in `d`.
pub open spec fn names_of(d: Seq<String>) -> Seq<Seq<char>> {
    d.map_values(|s: String| s@)
}

/// The first place at or after `from` where `c` stands twice in a row.
fn find_pair_from(v: &[char], from: usize, c: char) -> (r: Option<usize>)
    requires
        from <= v@.len(),
    ensures
        match r {
            Some(i) => find_from(v@, seq![c, c], from as int) == i,
            None => find_from(v@, seq![c, c], from as int) == -1,
        },
{
    let ghost m = seq![c, c];
    let n = v.len();
    let mut i: usize = from;
    while i < n && i + 1 < n
        invariant
            from <= i <= n,
            n == v@.len(),
            m == seq![c, c],
            find_from(v@, m, from as int) == find_from(v@, m, i as int),
        decreases n - i,
    {
        let hit = v[i] == c && v[i + 1] == c;
        proof {
            if hit {
                assert(v@.subrange(i as int, i + 2) =~= m);
            } else {
                assert(!occurs_at(v@, m, i as int)) by {
                    if v@.subrange(i as int, i + 2) == m {
                        assert(v@.subrange(i as int, i + 2)[0] == v@[i as int]);
                        assert(v@.subrange(i as int, i + 2)[1] == v@[i + 1]);
                    }
                }
            }
        }
        if hit {
            return Some(i);
        }
        i = i + 1;
    }
    None
}

/// Whether `name` is one of `declared`.
fn is_declared(declared: &[String], name: &String) -> (b: bool)
    ensures
        b == names_of(declared@).contains(name@),
{
    let ghost ns = names_of(declared@);
    let mut i: usize = 0;
    while i < declared.len()
        invariant
            i <= declared@.len() == ns.len(),
            ns == names_of(declared@),
            forall|j: int| 0 <= j < i ==> ns[j] != name@,
        decreases declared.len() - i,
    {
        if declared[i].eq(name) {
            assert(ns[i as int] == name@);
            return true;
        }
        i = i + 1;
    }
    false
}

/// Substitutes `{{name}}` placeholders in `command`, but only for names the
/// snippet declares and that a value was supplied for. With no declared names
/// the command is returned unchanged. A value is inserted verbatim — no shell
/// escaping — and never scanned again.
pub fn substitute_params(command: &str, declared: Option<&[String]>, values: &Table) -> (r: String)
    ensures
        r@ == match declared {
            None => command@,
            Some(d) => substituted(command@, 0, names_of(d@), values@),
        },
{
    let names = match declared {
        None => return String::from_str(command),
        Some(d) => d,
    };
    let ghost ns = names_of(names@);
    let v = chars_of(command);
    let n = v.len();
    let mut out = String::new();
    let mut pos: usize = 0;
    loop
        invariant
            pos <= n == v@.len(),
            v@ == command@,
            declared == Some(names),
            ns == names_of(names@),
            substituted(v@, 0, ns, values@) == out@ + substituted(v@, pos as int, ns, values@),
        decreases n - pos,
    {
        let open = find_pair_from(v.as_slice(), pos, '{');
        proof {
            assert(open_mark() == seq!['{', '{']);
            assert(close_mark() == seq!['}', '}']);
            lemma_find_from(v@, open_mark(), pos as int);
        }
        let found = match open {
            None => None,
            Some(o) => {
                proof {
                    lemma_find_from(v@, close_mark(), o + 2);
                }
                match find_pair_from(v.as_slice(), o + 2, '}') {
                    None => None,
                    Some(c) => Some((o, c)),
                }
            },
        };
        match found {
            None => {
                let rest = chars_between(v.as_slice(), pos, n);
                push_chars(&mut out, rest.as_slice());
                assert(substituted(v@, pos as int, ns, values@) == v@.subrange(pos as int, n as int));
                return out;
            },
            Some((o, c)) => {
                let before = chars_between(v.as_slice(), pos, o);
                push_chars(&mut out, before.as_slice());
                let name = string_of(v.as_slice(), o + 2, c);
                let value = if is_declared(names, &name) {
                    values.get(&name)
                } else {
                    None
                };
                match value {
                    Some(val) => out.append(val.as_str()),
                    None => {
                        out.append("{{");
                        out.append(name.as_str());
                        out.append("}}");
                        proof {
                            reveal_strlit("{{");
                            reveal_strlit("}}");
                            assert("{{"@ =~= open_mark());
                            assert("}}"@ =~= close_mark());
                        }
                    },
                }
                let ghost p = piece(v@.subrange(o + 2, c as int), ns, values@);
                assert(substituted(v@, pos as int, ns, values@) == v@.subrange(pos as int, o as int)
                    + p + substituted(v@, c + 2, ns, values@));
                pos = c + 2;
            },
        }
    }
}

/// With no value for any declared name, substitution changes nothing: every
/// placeholder, undeclared or unanswered, survives exactly as it was.
pub proof fn law_unfilled_placeholders_survive(
    command: Seq<char>,
    pos: int,
    declared: Seq<Seq<char>>,
    values: Map<Seq<char>, Seq<char>>,
)
    requires
        0 <= pos <= command.len(),
        forall|name: Seq<char>| declared.contains(name) ==> !values.contains_key(name),
    ensures
        substituted(command, pos, declared, values) == command.subrange(pos, command.len() as int),
    decreases command.len() - pos,
{
    let open = find_from(command, open_mark(), pos);
    if open >= 0 {
        lemma_find_from(command, open_mark(), pos);
        let close = find_from(command, close_mark(), open + 2);
        if close >= 0 {
            lemma_find_from(command, close_mark(), open + 2);
            law_unfilled_placeholders_survive(command, close + 2, declared, values);
            let name = command.subrange(open + 2, close);
            assert(command.subrange(open, open + 2) == open_mark());
            assert(command.subrange(close, close + 2) == close_mark());
            assert(command.subrange(open, close + 2) =~= open_mark() + name + close_mark());
            assert(command.subrange(pos, command.len() as int) =~= command.subrange(pos, open)
                + command.subrange(open, close + 2) + command.subrange(close + 2, command.len() as int));
        }
    }
}

/// A placeholder's value is inserted as it is and never expanded again: a
/// command that is just `{{name}}`, for a declared name with a value, becomes
/// exactly that value — even one that spells another placeholder.
pub proof fn law_a_value_is_never_re_expanded(
    name: Seq<char>,
    declared: Seq<Seq<char>>,
    values: Map<Seq<char>, Seq<char>>,
)
    requires
        declared.contains(name),
        values.contains_key(name),
        forall|k: int| 0 <= k < name.len() ==> name[k] != '}',
    ensures
        substituted(open_mark() + name + close_mark(), 0, declared, values) == values[name],
{
    let c = open_mark() + name + close_mark();
    let n = name.len() as int;
    assert(c.subrange(0, 2) =~= open_mark());
    assert(occurs_at(c, open_mark(), 0));
    assert(find_from(c, open_mark(), 0) == 0);
    assert(c.subrange(n + 2, n + 4) =~= close_mark());
    lemma_find_from(c, close_mark(), 2);
    assert forall|j: int| 2 <= j < n + 2 implies !occurs_at(c, close_mark(), j) by {
        assert(c[j] == name[j - 2]);
        if occurs_at(c, close_mark(), j) {
            assert(c.subrange(j, j + 2)[0] == c[j]);
        }
    }
    lemma_find_from_at(c, close_mark(), 2, n + 2);
    assert(c.subrange(2, n + 2) =~= name);
    assert(c.subrange(0, 0) =~= Seq::<char>::empty());
    lemma_find_from(c, open_mark(), n + 4);
    assert(c.subrange(n + 4, n + 4) =~= Seq::<char>::empty());
    assert(substituted(c, n + 4, declared, values) =~= Seq::<char>::empty());
    assert(values[name] =~= Seq::<char>::empty() + values[name] + Seq::<char>::empty());
}

/// `find_from` finds the first occurrence: one at `k` with none before it.
proof fn lemma_find_from_at(hay: Seq<char>, needle: Seq<char>, i: int, k: int)
    requires
        0 <= i <= k,
        occurs_at(hay, needle, k),
        forall|j: int| i <= j < k ==> !occurs_at(hay, needle, j),
    ensures
        find_from(hay, needle, i) == k,
    decreases k - i,
{
    if i < k {
        lemma_find_from_at(hay, needle, i + 1, k);
    }
}

} // verus!
