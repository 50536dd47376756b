use vstd::prelude::*;

verus! {

/// The Unicode `White_Space` characters, which `char::is_whitespace` accepts.
pub open spec fn is_ws(c: char) -> bool {
    ||| ('\u{9}' <= c && c <= '\u{d}')
    ||| c == ' '
    ||| c == '\u{85}'
    ||| c == '\u{a0}'
    ||| c == '\u{1680}'
    ||| ('\u{2000}' <= c && c <= '\u{200a}')
    ||| c == '\u{2028}'
    ||| c == '\u{2029}'
    ||| c == '\u{202f}'
    ||| c == '\u{205f}'
    ||| c == '\u{3000}'
}

/// Whether `c` is white space in the sense of `char::is_whitespace`.
pub fn is_whitespace(c: char) -> (b: bool)
    ensures
        b == is_ws(c),
{
    ('\u{9}' <= c && c <= '\u{d}') || c == ' ' || c == '\u{85}' || c == '\u{a0}'
        || c == '\u{1680}' || ('\u{2000}' <= c && c <= '\u{200a}') || c == '\u{2028}'
        || c == '\u{2029}' || c == '\u{202f}' || c == '\u{205f}' || c == '\u{3000}'
}


/// `String::push` appends one character.
pub assume_specification[ String::push ](s: &mut String, ch: char)
    ensures
        final(s)@ == old(s)@.push(ch),
;

/// The characters of `s`, in order.
pub fn chars_of(s: &str) -> (v: Vec<char>)
    ensures
        v@ == s@,
{
    let mut v: Vec<char> = Vec::new();
    for c in it: s.chars()
        invariant
            v@ == it.seq().take(it.index() as int),
            it.seq() == s@,
    {
        v.push(c);
    }
    v
}

/// A `String` holding the characters `v[from..to]`.
pub fn string_of(v: &[char], from: usize, to: usize) -> (s: String)
    requires
        from <= to <= v@.len(),
    ensures
        s@ == v@.subrange(from as int, to as int),
{
    let mut s = String::new();
    let mut i = from;
    while i < to
        invariant
            from <= i <= to <= v@.len(),
            s@ == v@.subrange(from as int, i as int),
        decreases to - i,
    {
        s.push(v[i]);
        i = i + 1;
        assert(s@ =~= v@.subrange(from as int, i as int));
    }
    s
}


/// The characters `v[from..to]`.
pub fn chars_between(v: &[char], from: usize, to: usize) -> (r: Vec<char>)
    requires
        from <= to <= v@.len(),
    ensures
        r@ == v@.subrange(from as int, to as int),
{
    let mut r: Vec<char> = Vec::new();
    let mut i = from;
    while i < to
        invariant
            from <= i <= to <= v@.len(),
            r@ == v@.subrange(from as int, i as int),
        decreases to - i,
    {
        r.push(v[i]);
        i = i + 1;
        assert(r@ =~= v@.subrange(from as int, i as int));
    }
    r
}

/// Index of the first element of `s` that satisfies `p`, or `-1`.
pub open spec fn first_where(s: Seq<char>, p: spec_fn(char) -> bool) -> int
    decreases s.len(),
{
    if s.len() == 0 {
        -1
    } else if p(s[0]) {
        0
    } else {
        let r = first_where(s.drop_first(), p);
        if r < 0 {
            -1
        } else {
            r + 1
        }
    }
}

/// Index of the first occurrence of `c` in `s`, or `-1`.
pub open spec fn first_pos(s: Seq<char>, c: char) -> int {
    first_where(s, is_char(c))
}

/// The test "is the character `c`".
pub open spec fn is_char(c: char) -> spec_fn(char) -> bool {
    |x: char| x == c
}

/// What `first_where` returns, stated without recursion.
pub proof fn lemma_first_where(s: Seq<char>, p: spec_fn(char) -> bool)
    ensures
        -1 <= first_where(s, p) < s.len(),
        first_where(s, p) == -1 ==> forall|i: int| 0 <= i < s.len() ==> !p(#[trigger] s[i]),
        first_where(s, p) >= 0 ==> p(s[first_where(s, p)]),
        forall|j: int| 0 <= j < first_where(s, p) ==> !p(#[trigger] s[j]),
    decreases s.len(),
{
    if s.len() > 0 && !p(s[0]) {
        lemma_first_where(s.drop_first(), p);
        let t = s.drop_first();
        assert forall|i: int| 0 < i < s.len() implies s[i] == t[i - 1] by {}
        if first_where(t, p) == -1 {
            assert forall|i: int| 0 <= i < s.len() implies !p(#[trigger] s[i]) by {
                if i > 0 {
                    assert(s[i] == t[i - 1]);
                }
            }
        }
        assert forall|j: int| 0 <= j < first_where(s, p) implies !p(#[trigger] s[j]) by {
            if j > 0 {
                assert(s[j] == t[j - 1]);
            }
        }
    }
}

/// `first_where` is pinned down by the position it finds.
pub proof fn lemma_first_where_is(s: Seq<char>, p: spec_fn(char) -> bool, i: int)
    requires
        -1 <= i < s.len(),
        i >= 0 ==> p(s[i]),
        forall|j: int| 0 <= j < (if i >= 0 { i } else { s.len() as int }) ==> !p(#[trigger] s[j]),
    ensures
        first_where(s, p) == i,
{
    lemma_first_where(s, p);
    let r = first_where(s, p);
    if r >= 0 && i >= 0 && r < i {
        assert(!p(s[r]));
    }
    if r >= 0 && i >= 0 && i < r {
        assert(!p(s[i]));
    }
    if r >= 0 && i < 0 {
        assert(!p(s[r]));
    }
}

/// The first position of `c` in `v`.
pub fn find_char(v: &[char], c: char) -> (r: Option<usize>)
    ensures
        match r {
            Some(i) => first_pos(v@, c) == i as int && i < v@.len(),
            None => first_pos(v@, c) == -1,
        },
{

    let mut i: usize = 0;
    while i < v.len()
        invariant
            i <= v@.len(),
            forall|j: int| 0 <= j < i ==> v@[j] != c,
        decreases v.len() - i,
    {
        if v[i] == c {
            proof {
                lemma_first_where_is(v@, is_char(c), i as int);
            }
            return Some(i);
        }
        i = i + 1;
    }
    proof {
        lemma_first_where_is(v@, is_char(c), -1);
    }
    None
}

/// `s` without its leading white space, as `str::trim_start`.
pub open spec fn trim_start(s: Seq<char>) -> Seq<char>
    decreases s.len(),
{
    if s.len() > 0 && is_ws(s[0]) {
        trim_start(s.drop_first())
    } else {
        s
    }
}

/// `s` without its trailing white space, as `str::trim_end`.
pub open spec fn trim_end(s: Seq<char>) -> Seq<char>
    decreases s.len(),
{
    if s.len() > 0 && is_ws(s.last()) {
        trim_end(s.drop_last())
    } else {
        s
    }
}

/// `s` without leading and trailing white space, as `str::trim`.
pub open spec fn trim(s: Seq<char>) -> Seq<char> {
    trim_end(trim_start(s))
}

/// `v` with the white space at both ends removed.
pub fn trimmed(v: &[char]) -> (r: Vec<char>)
    ensures
        r@ == trim(v@),
{
    let n = v.len();
    let mut a: usize = 0;
    assert(v@.subrange(0, n as int) =~= v@);
    while a < n && is_whitespace(v[a])
        invariant
            a <= n == v@.len(),
            trim_start(v@) == trim_start(v@.subrange(a as int, n as int)),
        decreases n - a,
    {
        assert(v@.subrange(a as int, n as int).drop_first() =~= v@.subrange(a + 1, n as int));
        a = a + 1;
    }
    assert(trim_start(v@) == v@.subrange(a as int, n as int));
    let mut b: usize = n;
    while b > a && is_whitespace(v[b - 1])
        invariant
            a <= b <= n == v@.len(),
            trim(v@) == trim_end(v@.subrange(a as int, b as int)),
        decreases b - a,
    {
        assert(v@.subrange(a as int, b as int).drop_last() =~= v@.subrange(a as int, b - 1));
        b = b - 1;
    }
    chars_between(v, a, b)
}

/// Whether `s` holds `c`.
pub fn has_char(v: &[char], c: char) -> (b: bool)
    ensures
        b == v@.contains(c),
{
    let mut i: usize = 0;
    while i < v.len()
        invariant
            i <= v@.len(),
            forall|j: int| 0 <= j < i ==> v@[j] != c,
        decreases v.len() - i,
    {
        if v[i] == c {
            assert(v@[i as int] == c);
            return true;
        }
        i = i + 1;
    }
    false
}

/// Whether the characters in `v` are exactly those of `lit`.
pub fn same_chars(v: &[char], lit: &str) -> (b: bool)
    ensures
        b == (v@ == lit@),
{
    let n = lit.unicode_len();
    if n != v.len() {
        return false;
    }
    let mut i: usize = 0;
    while i < n
        invariant
            n == v@.len() == lit@.len(),
            i <= n,
            forall|j: int| 0 <= j < i ==> v@[j] == lit@[j],
        decreases n - i,
    {
        if v[i] != lit.get_char(i) {
            return false;
        }
        i = i + 1;
    }
    assert(v@ =~= lit@);
    true
}


// ---------------------------------------------------------------------------
// Decimal numbers
// ---------------------------------------------------------------------------

pub open spec fn is_digit(c: char) -> bool {
    '0' <= c && c <= '9'
}

pub open spec fn all_digits(d: Seq<char>) -> bool {
    forall|i: int| 0 <= i < d.len() ==> is_digit(#[trigger] d[i])
}

/// The number that the decimal digits `d` spell.
pub open spec fn digits_value(d: Seq<char>) -> int
    decreases d.len(),
{
    if d.len() == 0 {
        0
    } else {
        digits_value(d.drop_last()) * 10 + (d.last() as int - '0' as int)
    }
}

/// What `str::parse::<u16>` gives: an optional `+`, then at least one decimal
/// digit, spelling a number no greater than `u16::MAX`.
pub open spec fn parse_u16(s: Seq<char>) -> Option<u16> {
    let d = if s.len() > 0 && s[0] == '+' {
        s.drop_first()
    } else {
        s
    };
    if d.len() > 0 && all_digits(d) && digits_value(d) <= 65535 {
        Some(digits_value(d) as u16)
    } else {
        None
    }
}

pub proof fn lemma_digits_value_nonneg(d: Seq<char>)
    requires
        all_digits(d),
    ensures
        digits_value(d) >= 0,
    decreases d.len(),
{
    if d.len() > 0 {
        assert(is_digit(d[d.len() - 1]));
        lemma_digits_value_nonneg(d.drop_last());
    }
}

/// A prefix of a run of digits spells no greater a number.
pub proof fn lemma_digits_value_prefix(d: Seq<char>, k: int)
    requires
        all_digits(d),
        0 <= k <= d.len(),
    ensures
        digits_value(d.take(k)) <= digits_value(d),
    decreases d.len(),
{
    if k < d.len() {
        assert(d.take(k) =~= d.drop_last().take(k));
        lemma_digits_value_prefix(d.drop_last(), k);
        lemma_digits_value_nonneg(d.drop_last());
        assert(is_digit(d[d.len() - 1]));
    } else {
        assert(d.take(k) =~= d);
    }
}

/// Parses a port-sized number the way `str::parse::<u16>` does.
pub fn parse_u16_chars(v: &[char]) -> (r: Option<u16>)
    ensures
        r == parse_u16(v@),
{
    let n = v.len();
    let start: usize = if n > 0 && v[0] == '+' { 1 } else { 0 };
    let ghost d = if n > 0 && v@[0] == '+' { v@.drop_first() } else { v@ };
    assert(d =~= v@.subrange(start as int, n as int));
    if start == n {
        return None;
    }
    let mut acc: u32 = 0;
    let mut i = start;
    assert(v@.subrange(start as int, start as int) =~= Seq::<char>::empty());
    while i < n
        invariant
            start <= i <= n == v@.len(),
            start < n,
            d == v@.subrange(start as int, n as int),
            d == (if n > 0 && v@[0] == '+' { v@.drop_first() } else { v@ }),
            all_digits(v@.subrange(start as int, i as int)),
            acc as int == digits_value(v@.subrange(start as int, i as int)),
            acc <= 65535,
        decreases n - i,
    {
        let c = v[i];
        if !('0' <= c && c <= '9') {
            assert(d[i - start] == c);
            assert(!is_digit(d[i - start]));
            assert(!all_digits(d));
            return None;
        }
        let ghost before = v@.subrange(start as int, i as int);
        let ghost after = v@.subrange(start as int, i + 1);
        assert(after.drop_last() =~= before);
        assert(after.last() == c);
        acc = acc * 10 + (c as u32 - '0' as u32);
        i = i + 1;
        assert(all_digits(after)) by {
            assert forall|j: int| 0 <= j < after.len() implies is_digit(#[trigger] after[j]) by {
                if j < before.len() {
                    assert(after[j] == before[j]);
                }
            }
        }
        assert(digits_value(after) == acc as int);
        if acc > 65535 {
            proof {
                if all_digits(d) {
                    assert(d.take(after.len() as int) =~= after);
                    lemma_digits_value_prefix(d, after.len() as int);
                }
            }
            return None;
        }
    }
    Some(acc as u16)
}

pub open spec fn digit_char(n: nat) -> char {
    (n + 48) as char
}

/// The decimal notation of `n`, without leading zeros.
pub open spec fn decimal(n: nat) -> Seq<char>
    decreases n,
{
    if n < 10 {
        seq![digit_char(n)]
    } else {
        decimal(n / 10).push(digit_char(n % 10))
    }
}

/// Appends the decimal notation of `n`.
pub fn push_decimal(s: &mut String, n: u64)
    ensures
        final(s)@ == old(s)@ + decimal(n as nat),
    decreases n,
{
    if n >= 10 {
        push_decimal(s, n / 10);
    }
    let d = (n % 10) as u8;
    let c = (d + 48) as char;
    assert(c == digit_char((n % 10) as nat));
    s.push(c);
    assert(s@ =~= old(s)@ + decimal(n as nat));
}

/// The decimal notation of `n` spells `n` back.
pub proof fn lemma_decimal_digits(n: nat)
    ensures
        decimal(n).len() > 0,
        all_digits(decimal(n)),
        digits_value(decimal(n)) == n,
        decimal(n)[0] != '+',
    decreases n,
{
    if n >= 10 {
        lemma_decimal_digits(n / 10);
        let d = decimal(n);
        assert(d.drop_last() =~= decimal(n / 10));
        assert forall|i: int| 0 <= i < d.len() implies is_digit(#[trigger] d[i]) by {
            if i < d.len() - 1 {
                assert(d[i] == decimal(n / 10)[i]);
            }
        }
        assert(n == (n / 10) * 10 + n % 10);
        assert(digit_char(n % 10) as int == n % 10 + 48);
        assert(d.last() == digit_char(n % 10));
        assert('0' as int == 48);
        assert(digits_value(d) == digits_value(d.drop_last()) * 10 + (d.last() as int - '0' as int));
        assert(digits_value(d) == (n / 10) * 10 + n % 10);
    } else {
        assert(digit_char(n) as int == n + 48);
        assert(decimal(n).drop_last() =~= Seq::<char>::empty());
        assert(digits_value(decimal(n)) == digits_value(decimal(n).drop_last()) * 10 + (decimal(n).last() as int - '0' as int));
    }
}

/// Parsing the decimal notation of a port gives the port back.
pub proof fn lemma_parse_decimal(p: u16)
    ensures
        parse_u16(decimal(p as nat)) == Some(p),
{
    lemma_decimal_digits(p as nat);
}

// ---------------------------------------------------------------------------
// Lines and words
// ---------------------------------------------------------------------------

/// `l` without one trailing carriage return.
pub open spec fn strip_cr(l: Seq<char>) -> Seq<char> {
    if l.len() > 0 && l.last() == '\r' {
        l.drop_last()
    } else {
        l
    }
}

/// The lines of `s`, as `str::lines` yields them: split after each `\n`, with
/// the `\n` and a `\r` before it removed, and no empty line after a final `\n`.
pub open spec fn lines_of(s: Seq<char>) -> Seq<Seq<char>>
    decreases s.len(),
{
    if s.len() == 0 {
        seq![]
    } else {
        let i = first_pos(s, '\n');
        if i < 0 {
            seq![s]
        } else {
            proof {
                lemma_first_where(s, is_char('\n'));
            }
            seq![strip_cr(s.subrange(0, i))] + lines_of(s.subrange(i + 1, s.len() as int))
        }
    }
}

/// The first position of `c` in `v[from..]`, counted from the start of `v`.
pub fn find_char_from(v: &[char], from: usize, c: char) -> (r: Option<usize>)
    requires
        from <= v@.len(),
    ensures
        match r {
            Some(i) => from <= i < v@.len() && first_pos(v@.subrange(from as int, v@.len() as int), c)
                == i - from,
            None => first_pos(v@.subrange(from as int, v@.len() as int), c) == -1,
        },
{
    let ghost rest = v@.subrange(from as int, v@.len() as int);
    let mut i: usize = from;
    while i < v.len()
        invariant
            from <= i <= v@.len(),
            rest == v@.subrange(from as int, v@.len() as int),
            forall|j: int| from <= j < i ==> v@[j] != c,
        decreases v.len() - i,
    {
        if v[i] == c {
            proof {
                assert forall|j: int| 0 <= j < i - from implies rest[j] != c by {
                    assert(rest[j] == v@[from + j]);
                }
                lemma_first_where_is(rest, is_char(c), i - from);
            }
            return Some(i);
        }
        i = i + 1;
    }
    proof {
        assert forall|j: int| 0 <= j < rest.len() implies rest[j] != c by {
            assert(rest[j] == v@[from + j]);
        }
        lemma_first_where_is(rest, is_char(c), -1);
    }
    None
}

/// The character sequences that the vectors `r` hold.
pub open spec fn char_views(r: Seq<Vec<char>>) -> Seq<Seq<char>> {
    r.map_values(|x: Vec<char>| x@)
}

/// The lines of `v`, as `str::lines` splits them.
pub fn split_lines(v: &[char]) -> (r: Vec<Vec<char>>)
    ensures
        char_views(r@) == lines_of(v@),
{
    let n = v.len();
    let mut r: Vec<Vec<char>> = Vec::new();
    let mut pos: usize = 0;
    assert(v@.subrange(0, n as int) =~= v@);
    while pos < n
        invariant
            pos <= n == v@.len(),
            lines_of(v@) == char_views(r@) + lines_of(v@.subrange(pos as int, n as int)),
        decreases n - pos,
    {
        let ghost rest = v@.subrange(pos as int, n as int);
        match find_char_from(v, pos, '\n') {
            Some(j) => {
                let mut line = chars_between(v, pos, j);
                if line.len() > 0 && line[line.len() - 1] == '\r' {
                    line.pop();
                }
                assert(line@ =~= strip_cr(rest.subrange(0, j - pos)));
                assert(rest.subrange(j - pos + 1, rest.len() as int) =~= v@.subrange(j + 1, n as int));
                let ghost before = char_views(r@);
                r.push(line);
                assert(char_views(r@) =~= before.push(line@));
                pos = j + 1;
                assert(lines_of(v@) =~= char_views(r@) + lines_of(v@.subrange(pos as int, n as int)));
            },
            None => {
                let line = chars_between(v, pos, n);
                let ghost before = char_views(r@);
                r.push(line);
                assert(char_views(r@) =~= before.push(rest));
                pos = n;
                assert(v@.subrange(n as int, n as int) =~= Seq::<char>::empty());
                assert(lines_of(v@) =~= char_views(r@) + lines_of(v@.subrange(pos as int, n as int)));
            },
        }
    }
    assert(char_views(r@) + lines_of(v@.subrange(n as int, n as int)) =~= char_views(r@));
    r
}


/// The test "is white space".
pub open spec fn is_ws_fn() -> spec_fn(char) -> bool {
    |c: char| is_ws(c)
}

/// `trim_start` drops a prefix, and what it keeps starts with no white space.
pub proof fn lemma_trim_start(s: Seq<char>)
    ensures
        trim_start(s).len() <= s.len(),
        trim_start(s) =~= s.subrange(s.len() - trim_start(s).len(), s.len() as int),
        trim_start(s).len() > 0 ==> !is_ws(trim_start(s)[0]),
    decreases s.len(),
{
    if s.len() > 0 && is_ws(s[0]) {
        lemma_trim_start(s.drop_first());
    }
}

/// The white-space separated words of `s`, as `str::split_whitespace` yields them.
pub open spec fn words(s: Seq<char>) -> Seq<Seq<char>>
    decreases s.len(),
{
    let t = trim_start(s);
    if t.len() == 0 {
        seq![]
    } else {
        let i = first_where(t, is_ws_fn());
        if i < 0 {
            seq![t]
        } else {
            proof {
                lemma_trim_start(s);
                lemma_first_where(t, is_ws_fn());
            }
            seq![t.subrange(0, i)] + words(t.subrange(i, t.len() as int))
        }
    }
}

/// The words of `v`, as `str::split_whitespace` splits them.
pub fn split_words(v: &[char]) -> (r: Vec<Vec<char>>)
    ensures
        char_views(r@) == words(v@),
{
    let n = v.len();
    let mut r: Vec<Vec<char>> = Vec::new();
    let mut pos: usize = 0;
    assert(v@.subrange(0, n as int) =~= v@);
    loop
        invariant
            pos <= n == v@.len(),
            words(v@) == char_views(r@) + words(v@.subrange(pos as int, n as int)),
        decreases n - pos,
    {
        let ghost rest = v@.subrange(pos as int, n as int);
        let mut a = pos;
        while a < n && is_whitespace(v[a])
            invariant
                pos <= a <= n == v@.len(),
                rest == v@.subrange(pos as int, n as int),
                trim_start(rest) == trim_start(v@.subrange(a as int, n as int)),
            decreases n - a,
        {
            assert(v@.subrange(a as int, n as int).drop_first() =~= v@.subrange(a + 1, n as int));
            a = a + 1;
        }
        let ghost t = v@.subrange(a as int, n as int);
        assert(trim_start(rest) == t);
        if a == n {
            assert(t.len() == 0);
            assert(words(rest) =~= Seq::<Seq<char>>::empty());
            assert(char_views(r@) + words(rest) =~= char_views(r@));
            return r;
        }
        let mut b = a;
        while b < n && !is_whitespace(v[b])
            invariant
                a <= b <= n == v@.len(),
                t == v@.subrange(a as int, n as int),
                forall|j: int| 0 <= j < b - a ==> !is_ws(#[trigger] t[j]),
            decreases n - b,
        {
            b = b + 1;
        }
        let word = chars_between(v, a, b);
        let ghost before = char_views(r@);
        r.push(word);
        assert(char_views(r@) =~= before.push(word@));
        proof {
            if b < n {
                lemma_first_where_is(t, is_ws_fn(), b - a);
                assert(t.subrange(b - a, t.len() as int) =~= v@.subrange(b as int, n as int));
                assert(word@ =~= t.subrange(0, b - a));
            } else {
                lemma_first_where_is(t, is_ws_fn(), -1);
                assert(word@ =~= t);
                assert(v@.subrange(b as int, n as int) =~= Seq::<char>::empty());
                assert(words(v@.subrange(b as int, n as int)) =~= Seq::<Seq<char>>::empty());
            }
        }
        pos = b;
        assert(words(v@) =~= char_views(r@) + words(v@.subrange(pos as int, n as int)));
        if pos == n {
            assert(v@.subrange(n as int, n as int) =~= Seq::<char>::empty());
            assert(char_views(r@) + words(v@.subrange(pos as int, n as int)) =~= char_views(r@));
            return r;
        }
    }
}

/// `c` with an ASCII capital turned into its small letter.
pub open spec fn ascii_lower(c: char) -> char {
    if 'A' <= c && c <= 'Z' {
        ((c as u8) + 32) as char
    } else {
        c
    }
}

/// `s` with every ASCII capital in small letters, as `str::to_ascii_lowercase`.
pub open spec fn ascii_lowercase(s: Seq<char>) -> Seq<char> {
    s.map_values(|c: char| ascii_lower(c))
}

/// `v` with every ASCII capital in small letters.
pub fn ascii_lowercased(v: &[char]) -> (r: Vec<char>)
    ensures
        r@ == ascii_lowercase(v@),
{
    let mut r: Vec<char> = Vec::new();
    let mut i: usize = 0;
    while i < v.len()
        invariant
            i <= v@.len(),
            r@ == ascii_lowercase(v@.subrange(0, i as int)),
        decreases v.len() - i,
    {
        let c = v[i];
        let l = if 'A' <= c && c <= 'Z' {
            ((c as u8) + 32) as char
        } else {
            c
        };
        r.push(l);
        i = i + 1;
        assert(r@ =~= ascii_lowercase(v@.subrange(0, i as int)));
    }
    assert(v@.subrange(0, v@.len() as int) =~= v@);
    r
}

/// Whether `a` and `b` are equal once ASCII capitals are lowered, as
/// `str::eq_ignore_ascii_case`.
pub open spec fn eq_ignore_ascii_case(a: Seq<char>, b: Seq<char>) -> bool {
    ascii_lowercase(a) == ascii_lowercase(b)
}

/// Whether `v` equals `lit`, ignoring ASCII case.
pub fn same_ignoring_ascii_case(v: &[char], lit: &str) -> (b: bool)
    ensures
        b == eq_ignore_ascii_case(v@, lit@),
{
    let l = chars_of(lit);
    let x = ascii_lowercased(v);
    let y = ascii_lowercased(l.as_slice());
    if x.len() != y.len() {
        return false;
    }
    let mut i: usize = 0;
    while i < x.len()
        invariant
            x@.len() == y@.len(),
            x@ == ascii_lowercase(v@),
            y@ == ascii_lowercase(lit@),
            i <= x@.len(),
            forall|j: int| 0 <= j < i ==> x@[j] == y@[j],
        decreases x.len() - i,
    {
        if x[i] != y[i] {
            assert(x@[i as int] != y@[i as int]);
            return false;
        }
        i = i + 1;
    }
    assert(x@ =~= y@);
    true
}

/// What `str::to_lowercase` returns for `s`: Unicode's full lowercase mapping.
pub uninterp spec fn lowercase(s: Seq<char>) -> Seq<char>;

/// `str::to_lowercase`: `s` in small letters, by the Unicode case mapping. The
/// mapping's tables are not restated here; the result is named `lowercase(s)`.
#[verifier::external_body]
pub(crate) fn to_lowercase(s: &str) -> (r: String)
    ensures
        r@ == lowercase(s@),
{
    s.to_lowercase()
}

/// `a` followed by `b`.
pub fn concat_chars(a: &[char], b: &[char]) -> (r: Vec<char>)
    ensures
        r@ == a@ + b@,
{
    let mut r = chars_between(a, 0, a.len());
    let mut i: usize = 0;
    while i < b.len()
        invariant
            i <= b@.len(),
            r@ == a@ + b@.subrange(0, i as int),
        decreases b.len() - i,
    {
        r.push(b[i]);
        i = i + 1;
        assert(r@ =~= a@ + b@.subrange(0, i as int));
    }
    assert(b@.subrange(0, b@.len() as int) =~= b@);
    r
}

/// Appends the characters of `v` to `s`.
pub fn push_chars(s: &mut String, v: &[char])
    ensures
        final(s)@ == old(s)@ + v@,
{
    let mut i: usize = 0;
    while i < v.len()
        invariant
            i <= v@.len(),
            s@ == old(s)@ + v@.subrange(0, i as int),
        decreases v.len() - i,
    {
        s.push(v[i]);
        i = i + 1;
        assert(s@ =~= old(s)@ + v@.subrange(0, i as int));
    }
    assert(v@.subrange(0, v@.len() as int) =~= v@);
}

/// Index of the last occurrence of `c` in `s`, or `-1`.
pub open spec fn last_pos(s: Seq<char>, c: char) -> int
    decreases s.len(),
{
    if s.len() == 0 {
        -1
    } else if s.last() == c {
        s.len() - 1
    } else {
        last_pos(s.drop_last(), c)
    }
}

pub proof fn lemma_last_pos(s: Seq<char>, c: char)
    ensures
        -1 <= last_pos(s, c) < s.len(),
        last_pos(s, c) >= 0 ==> s[last_pos(s, c)] == c,
    decreases s.len(),
{
    if s.len() > 0 && s.last() != c {
        lemma_last_pos(s.drop_last(), c);
    }
}

/// Whether `needle` occurs in `hay` at `i`.
pub open spec fn occurs_at(hay: Seq<char>, needle: Seq<char>, i: int) -> bool {
    0 <= i && i + needle.len() <= hay.len() && hay.subrange(i, i + needle.len()) == needle
}

/// Whether `needle` occurs anywhere in `hay`.
pub open spec fn contains_seq(hay: Seq<char>, needle: Seq<char>) -> bool {
    exists|i: int| occurs_at(hay, needle, i)
}

/// Whether `lit` occurs in `v` at `i`.
fn occurs_at_exec(v: &[char], lit: &str, i: usize) -> (b: bool)
    requires
        i <= v@.len(),
    ensures
        b == occurs_at(v@, lit@, i as int),
{
    let n = lit.unicode_len();
    let len = v.len();
    if n > len - i {
        return false;
    }
    let mut k: usize = 0;
    while k < n
        invariant
            n == lit@.len(),
            len == v@.len(),
            i + n <= len,
            k <= n,
            forall|j: int| 0 <= j < k ==> v@[i + j] == lit@[j],
        decreases n - k,
    {
        if v[i + k] != lit.get_char(k) {
            assert(v@.subrange(i as int, i + n)[k as int] != lit@[k as int]);
            return false;
        }
        k = k + 1;
    }
    assert(v@.subrange(i as int, i + n) =~= lit@);
    true
}

/// Whether `lit` occurs anywhere in `v`.
pub fn contains_text(v: &[char], lit: &str) -> (b: bool)
    ensures
        b == contains_seq(v@, lit@),
{
    let len = v.len();
    let mut i: usize = 0;
    while i < len
        invariant
            len == v@.len(),
            i <= len,
            forall|j: int| 0 <= j < i ==> !occurs_at(v@, lit@, j),
        decreases len - i,
    {
        if occurs_at_exec(v, lit, i) {
            return true;
        }
        i = i + 1;
    }
    occurs_at_exec(v, lit, len)
}

/// What `String::from_utf8_lossy` makes of `bytes`: the text they encode in
/// UTF-8, with each invalid sequence replaced by U+FFFD.
pub uninterp spec fn utf8_lossy(bytes: Seq<u8>) -> Seq<char>;

/// `String::from_utf8_lossy`: the text `bytes` encode in UTF-8, each invalid
/// sequence replaced by U+FFFD. The decoding is not restated here; its result
/// is named `utf8_lossy(bytes)`.
#[verifier::external_body]
pub(crate) fn from_utf8_lossy(bytes: &[u8]) -> (s: String)
    ensures
        s@ == utf8_lossy(bytes@),
{
    String::from_utf8_lossy(bytes).into_owned()
}

/// The first `n` items of `v`.
pub fn slice_prefix<T>(v: &[T], n: usize) -> (r: &[T])
    requires
        n <= v@.len(),
    ensures
        r@ == v@.subrange(0, n as int),
{
    let (a, _) = v.split_at(n);
    a
}

} // verus!
