use vstd::prelude::*;

verus! {

broadcast use vstd::string::group_string_axioms;

/// Appends `c` to `s` (`String::push`).
#[verifier::external_body]
fn push_char(s: &mut String, c: char)
    ensures
        final(s)@ == old(s)@.push(c),
{
    s.push(c);
}

/// The characters of `s`, in order.
pub fn chars_of(s: &str) -> (v: Vec<char>)
    ensures
        v@ == s@,
{
    let mut v: Vec<char> = Vec::new();
    for c in it: s.chars()
        invariant
            it.seq() == s@,
            v@ == it.seq().take(it.index() as int),
    {
        v.push(c);
    }
    assert(v@ =~= s@);
    v
}

/// The string made of `cs[from..to]`.
pub fn string_of_range(cs: &Vec<char>, from: usize, to: usize) -> (s: String)
    requires
        from <= to <= cs.len(),
    ensures
        s@ == cs@.subrange(from as int, to as int),
{
    let mut s = String::new();
    let mut i = from;
    while i < to
        invariant
            from <= i <= to <= cs.len(),
            s@ == cs@.subrange(from as int, i as int),
        decreases to - i,
    {
        push_char(&mut s, cs[i]);
        i = i + 1;
        assert(s@ =~= cs@.subrange(from as int, i as int));
    }
    s
}

/// Whether `a` and `b` hold the same characters.
pub fn str_eq(a: &str, b: &str) -> (r: bool)
    ensures
        r == (a@ == b@),
{
    let x = chars_of(a);
    let y = chars_of(b);
    if x.len() != y.len() {
        return false;
    }
    let mut i: usize = 0;
    while i < x.len()
        invariant
            x@ == a@,
            y@ == b@,
            x.len() == y.len(),
            i <= x.len(),
            forall|j: int| 0 <= j < i ==> x@[j] == y@[j],
        decreases x.len() - i,
    {
        if x[i] != y[i] {
            return false;
        }
        i = i + 1;
    }
    assert(x@ =~= y@);
    true
}

/// The White_Space characters of Unicode, those for which
/// `char::is_whitespace` holds.
pub open spec fn is_white_space(c: char) -> bool {
    ||| '\u{9}' <= c <= '\u{d}'
    ||| c == ' '
    ||| c == '\u{85}'
    ||| c == '\u{a0}'
    ||| c == '\u{1680}'
    ||| '\u{2000}' <= c <= '\u{200a}'
    ||| c == '\u{2028}'
    ||| c == '\u{2029}'
    ||| c == '\u{202f}'
    ||| c == '\u{205f}'
    ||| c == '\u{3000}'
}

pub fn is_whitespace(c: char) -> (r: bool)
    ensures
        r == is_white_space(c),
{
    ('\u{9}' <= c && c <= '\u{d}') || c == ' ' || c == '\u{85}' || c == '\u{a0}' || c == '\u{1680}'
        || ('\u{2000}' <= c && c <= '\u{200a}') || c == '\u{2028}' || c == '\u{2029}' || c
        == '\u{202f}' || c == '\u{205f}' || c == '\u{3000}'
}

/// `s` without its leading white space.
pub open spec fn trim_start(s: Seq<char>) -> Seq<char>
    decreases s.len(),
{
    if s.len() > 0 && is_white_space(s[0]) {
        trim_start(s.drop_first())
    } else {
        s
    }
}

/// `s` without its trailing white space.
pub open spec fn trim_end(s: Seq<char>) -> Seq<char>
    decreases s.len(),
{
    if s.len() > 0 && is_white_space(s.last()) {
        trim_end(s.drop_last())
    } else {
        s
    }
}

/// `s` without leading and trailing white space (`str::trim`).
pub open spec fn trim(s: Seq<char>) -> Seq<char> {
    trim_end(trim_start(s))
}

proof fn lemma_trim_start_skip(s: Seq<char>, i: int)
    requires
        0 <= i <= s.len(),
        forall|j: int| 0 <= j < i ==> is_white_space(#[trigger] s[j]),
    ensures
        trim_start(s) == trim_start(s.skip(i)),
    decreases i,
{
    if i > 0 {
        assert(s.drop_first().skip(i - 1) =~= s.skip(i));
        lemma_trim_start_skip(s.drop_first(), i - 1);
    } else {
        assert(s.skip(0) =~= s);
    }
}

proof fn lemma_trim_end_take(s: Seq<char>, k: int)
    requires
        0 <= k <= s.len(),
        forall|j: int| k <= j < s.len() ==> is_white_space(#[trigger] s[j]),
    ensures
        trim_end(s) == trim_end(s.take(k)),
    decreases s.len() - k,
{
    if k < s.len() {
        assert(s.drop_last().take(k) =~= s.take(k));
        lemma_trim_end_take(s.drop_last(), k);
    } else {
        assert(s.take(k) =~= s);
    }
}

proof fn lemma_trim_start_shape(s: Seq<char>) -> (a: int)
    ensures
        0 <= a <= s.len(),
        trim_start(s) == s.skip(a),
        forall|j: int| 0 <= j < a ==> is_white_space(#[trigger] s[j]),
        a < s.len() ==> !is_white_space(s[a]),
    decreases s.len(),
{
    if s.len() > 0 && is_white_space(s[0]) {
        let a0 = lemma_trim_start_shape(s.drop_first());
        assert(s.drop_first().skip(a0) =~= s.skip(a0 + 1));
        assert forall|j: int| 0 <= j < a0 + 1 implies is_white_space(#[trigger] s[j]) by {
            if j > 0 {
                assert(s[j] == s.drop_first()[j - 1]);
            }
        }
        a0 + 1
    } else {
        assert(s.skip(0) =~= s);
        0
    }
}

proof fn lemma_trim_end_shape(s: Seq<char>) -> (b: int)
    ensures
        0 <= b <= s.len(),
        trim_end(s) == s.take(b),
        forall|j: int| b <= j < s.len() ==> is_white_space(#[trigger] s[j]),
        b > 0 ==> !is_white_space(s[b - 1]),
    decreases s.len(),
{
    if s.len() > 0 && is_white_space(s.last()) {
        let b0 = lemma_trim_end_shape(s.drop_last());
        assert(s.drop_last().take(b0) =~= s.take(b0));
        assert forall|j: int| b0 <= j < s.len() implies is_white_space(#[trigger] s[j]) by {
            if j < s.len() - 1 {
                assert(s[j] == s.drop_last()[j]);
            }
        }
        b0
    } else {
        assert(s.take(s.len() as int) =~= s);
        s.len() as int
    }
}

/// Trimming keeps the part of `s` from its first to its last character that
/// is not white space: what is taken off either end is all white space, and
/// what is left neither starts nor ends with white space.
pub proof fn law_trim_keeps_middle(s: Seq<char>)
    ensures
        exists|a: int, b: int|
            0 <= a <= b <= s.len() && trim(s) == s.subrange(a, b) && (forall|j: int|
                0 <= j < a ==> is_white_space(#[trigger] s[j])) && (forall|j: int|
                b <= j < s.len() ==> is_white_space(#[trigger] s[j])),
        trim(s).len() > 0 ==> !is_white_space(trim(s)[0]) && !is_white_space(trim(s).last()),
{
    let a = lemma_trim_start_shape(s);
    let u = s.skip(a);
    let b = lemma_trim_end_shape(u);
    assert(u.take(b) =~= s.subrange(a, a + b));
    assert forall|j: int| a + b <= j < s.len() implies is_white_space(#[trigger] s[j]) by {
        assert(s[j] == u[j - a]);
    }
    if trim(s).len() > 0 {
        assert(trim(s)[0] == s[a]);
        assert(trim(s).last() == u[b - 1]);
    }
}

/// Whether `s` is all white space.
pub open spec fn all_white_space(s: Seq<char>) -> bool {
    forall|i: int| 0 <= i < s.len() ==> is_white_space(#[trigger] s[i])
}

proof fn lemma_trim_start_prefix(pre: Seq<char>, x: Seq<char>)
    requires
        all_white_space(pre),
    ensures
        trim_start(pre + x) == trim_start(x),
    decreases pre.len(),
{
    if pre.len() > 0 {
        assert((pre + x)[0] == pre[0]);
        assert((pre + x).drop_first() =~= pre.drop_first() + x);
        lemma_trim_start_prefix(pre.drop_first(), x);
    } else {
        assert(pre + x =~= x);
    }
}

proof fn lemma_trim_end_suffix(x: Seq<char>, post: Seq<char>)
    requires
        all_white_space(post),
    ensures
        trim_end(x + post) == trim_end(x),
    decreases post.len(),
{
    if post.len() > 0 {
        assert((x + post).last() == post.last());
        assert((x + post).drop_last() =~= x + post.drop_last());
        lemma_trim_end_suffix(x, post.drop_last());
    } else {
        assert(x + post =~= x);
    }
}

proof fn lemma_trim_start_append(s: Seq<char>, post: Seq<char>)
    requires
        all_white_space(post),
    ensures
        trim_start(s + post) == (if trim_start(s).len() > 0 {
            trim_start(s) + post
        } else {
            Seq::<char>::empty()
        }),
    decreases s.len(),
{
    if s.len() == 0 {
        assert(s + post =~= post);
        lemma_trim_start_prefix(post, Seq::<char>::empty());
        assert(post + Seq::<char>::empty() =~= post);
    } else if is_white_space(s[0]) {
        assert((s + post)[0] == s[0]);
        assert((s + post).drop_first() =~= s.drop_first() + post);
        lemma_trim_start_append(s.drop_first(), post);
    } else {
        assert((s + post)[0] == s[0]);
    }
}

/// White space around a text does not change what it trims to.
pub proof fn law_trim_ignores_surrounding_space(pre: Seq<char>, s: Seq<char>, post: Seq<char>)
    requires
        all_white_space(pre),
        all_white_space(post),
    ensures
        trim(pre + s + post) == trim(s),
{
    assert(pre + s + post =~= pre + (s + post));
    lemma_trim_start_prefix(pre, s + post);
    lemma_trim_start_append(s, post);
    if trim_start(s).len() > 0 {
        lemma_trim_end_suffix(trim_start(s), post);
    } else {
        assert(trim_end(Seq::<char>::empty()) == Seq::<char>::empty());
        assert(trim_start(s) =~= Seq::<char>::empty());
    }
}

/// `s` without leading and trailing white space.
pub fn trimmed(s: &str) -> (r: String)
    ensures
        r@ == trim(s@),
{
    let cs = chars_of(s);
    let mut i: usize = 0;
    while i < cs.len() && is_whitespace(cs[i])
        invariant
            cs@ == s@,
            i <= cs.len(),
            forall|j: int| 0 <= j < i ==> is_white_space(#[trigger] cs@[j]),
        decreases cs.len() - i,
    {
        i = i + 1;
    }
    proof {
        lemma_trim_start_skip(cs@, i as int);
    }
    let ghost rest = cs@.skip(i as int);
    assert(trim_start(rest) == rest);
    let mut k: usize = cs.len();
    while k > i && is_whitespace(cs[k - 1])
        invariant
            cs@ == s@,
            i <= k <= cs.len(),
            forall|j: int| k <= j < cs.len() ==> is_white_space(#[trigger] cs@[j]),
        decreases k,
    {
        k = k - 1;
    }
    proof {
        let n = cs.len() - i;
        assert forall|j: int| k - i <= j < n implies is_white_space(#[trigger] rest[j]) by {
            assert(rest[j] == cs@[j + i]);
        }
        lemma_trim_end_take(rest, k - i);
        assert(rest.take(k - i) =~= cs@.subrange(i as int, k as int));
        let t = rest.take(k - i);
        if t.len() > 0 {
            assert(t.last() == cs@[k - 1]);
        }
    }
    string_of_range(&cs, i, k)
}

/// `s` without any of the copies of `c` that end it (`str::trim_end_matches`).
pub open spec fn trim_end_char(s: Seq<char>, c: char) -> Seq<char>
    decreases s.len(),
{
    if s.len() > 0 && s.last() == c {
        trim_end_char(s.drop_last(), c)
    } else {
        s
    }
}

proof fn lemma_trim_end_char_take(s: Seq<char>, c: char, k: int)
    requires
        0 <= k <= s.len(),
        forall|j: int| k <= j < s.len() ==> #[trigger] s[j] == c,
    ensures
        trim_end_char(s, c) == trim_end_char(s.take(k), c),
    decreases s.len() - k,
{
    if k < s.len() {
        assert(s.drop_last().take(k) =~= s.take(k));
        lemma_trim_end_char_take(s.drop_last(), c, k);
    } else {
        assert(s.take(k) =~= s);
    }
}

/// Taking the copies of `c` off the end of `s` leaves the start of `s` up to
/// its last character other than `c`: what is taken off is all `c`, and what
/// is left does not end in `c`.
pub proof fn law_trim_end_char(s: Seq<char>, c: char)
    ensures
        trim_end_char(s, c).len() <= s.len(),
        trim_end_char(s, c) == s.take(trim_end_char(s, c).len() as int),
        forall|j: int| trim_end_char(s, c).len() <= j < s.len() ==> #[trigger] s[j] == c,
        trim_end_char(s, c).len() > 0 ==> trim_end_char(s, c).last() != c,
    decreases s.len(),
{
    if s.len() > 0 && s.last() == c {
        let init = s.drop_last();
        law_trim_end_char(init, c);
        let r = trim_end_char(init, c);
        assert(s.take(r.len() as int) =~= init.take(r.len() as int));
        assert forall|j: int| r.len() <= j < s.len() implies #[trigger] s[j] == c by {
            if j < init.len() {
                assert(init[j] == s[j]);
            }
        }
    } else {
        assert(s.take(s.len() as int) =~= s);
    }
}

/// `s` without the copies of `c` at its end.
pub fn trimmed_end_char(s: &str, c: char) -> (r: String)
    ensures
        r@ == trim_end_char(s@, c),
{
    let cs = chars_of(s);
    let mut k: usize = cs.len();
    while k > 0 && cs[k - 1] == c
        invariant
            cs@ == s@,
            k <= cs.len(),
            forall|j: int| k <= j < cs.len() ==> #[trigger] cs@[j] == c,
        decreases k,
    {
        k = k - 1;
    }
    proof {
        lemma_trim_end_char_take(cs@, c, k as int);
        assert(cs@.subrange(0, k as int) =~= cs@.take(k as int));
    }
    string_of_range(&cs, 0, k)
}

/// The pieces of `s` between the copies of `sep` (`str::split` by a
/// character): one more piece than there are separators.
pub open spec fn split(s: Seq<char>, sep: char) -> Seq<Seq<char>>
    decreases s.len(),
{
    if s.len() == 0 {
        seq![Seq::<char>::empty()]
    } else {
        let rest = split(s.drop_last(), sep);
        if s.last() == sep {
            rest.push(Seq::<char>::empty())
        } else {
            rest.update(rest.len() - 1, rest.last().push(s.last()))
        }
    }
}

proof fn lemma_split_len(s: Seq<char>, sep: char)
    ensures
        split(s, sep).len() >= 1,
    decreases s.len(),
{
    if s.len() > 0 {
        lemma_split_len(s.drop_last(), sep);
    }
}

/// The pieces `ps` put back together, with `sep` between each two.
pub open spec fn joined(ps: Seq<Seq<char>>, sep: char) -> Seq<char>
    decreases ps.len(),
{
    if ps.len() == 0 {
        Seq::empty()
    } else if ps.len() == 1 {
        ps[0]
    } else {
        joined(ps.drop_last(), sep) + seq![sep] + ps.last()
    }
}

/// Splitting `s` at `sep` gives at least one piece, no piece holds `sep`,
/// and the pieces put back together with `sep` between them are `s` again.
pub proof fn law_split_rejoins(s: Seq<char>, sep: char)
    ensures
        split(s, sep).len() >= 1,
        forall|i: int, j: int|
            0 <= i < split(s, sep).len() && 0 <= j < split(s, sep)[i].len() ==> #[trigger] split(
                s,
                sep,
            )[i][j] != sep,
        joined(split(s, sep), sep) == s,
    decreases s.len(),
{
    if s.len() == 0 {
        assert(joined(split(s, sep), sep) =~= s);
    } else {
        let init = s.drop_last();
        law_split_rejoins(init, sep);
        let rest = split(init, sep);
        let r = split(s, sep);
        if s.last() == sep {
            assert(r.drop_last() =~= rest);
            assert(joined(r, sep) =~= s);
        } else {
            assert forall|i: int, j: int|
                0 <= i < r.len() && 0 <= j < r[i].len() implies #[trigger] r[i][j] != sep by {
                if i < rest.len() - 1 {
                    assert(r[i] == rest[i]);
                } else if j < rest.last().len() {
                    assert(r[i][j] == rest[i][j]);
                }
            }
            if rest.len() == 1 {
                assert(joined(r, sep) =~= s);
            } else {
                assert(r.drop_last() =~= rest.drop_last());
                assert(r.last() == rest.last().push(s.last()));
                assert(joined(rest, sep) == joined(rest.drop_last(), sep) + seq![sep] + rest.last());
                assert(joined(r, sep) == joined(rest.drop_last(), sep) + seq![sep] + r.last());
                assert(joined(r, sep) =~= joined(rest, sep).push(s.last()));
                assert(init.push(s.last()) =~= s);
            }
        }
    }
}

/// The pieces of `s` between the copies of `sep`.
pub fn split_by(s: &str, sep: char) -> (pieces: Vec<String>)
    ensures
        pieces@.map_values(|p: String| p@) == split(s@, sep),
{
    let cs = chars_of(s);
    let mut pieces: Vec<String> = Vec::new();
    let mut start: usize = 0;
    let mut i: usize = 0;
    assert(cs@.take(0) =~= Seq::<char>::empty());
    while i < cs.len()
        invariant
            cs@ == s@,
            start <= i <= cs.len(),
            pieces@.map_values(|p: String| p@).push(cs@.subrange(start as int, i as int))
                == split(cs@.take(i as int), sep),
        decreases cs.len() - i,
    {
        let ghost prev = pieces@.map_values(|p: String| p@);
        proof {
            lemma_split_len(cs@.take(i as int), sep);
            assert(cs@.take(i + 1).drop_last() =~= cs@.take(i as int));
        }
        if cs[i] == sep {
            let piece = string_of_range(&cs, start, i);
            pieces.push(piece);
            i = i + 1;
            start = i;
            assert(cs@.subrange(start as int, i as int) =~= Seq::<char>::empty());
            assert(pieces@.map_values(|p: String| p@).push(cs@.subrange(start as int, i as int))
                =~= split(cs@.take(i as int), sep));
        } else {
            i = i + 1;
            assert(cs@.subrange(start as int, i as int) =~= cs@.subrange(start as int, (i - 1) as int).push(cs@[i - 1]));
            assert(pieces@.map_values(|p: String| p@).push(cs@.subrange(start as int, i as int))
                =~= split(cs@.take(i as int), sep));
        }
    }
    let last = string_of_range(&cs, start, cs.len());
    pieces.push(last);
    assert(cs@.take(cs.len() as int) =~= cs@);
    assert(pieces@.map_values(|p: String| p@) =~= split(s@, sep));
    pieces
}

/// The digit character for `d < 10`.
pub open spec fn digit_char(d: nat) -> char {
    (d + '0' as nat) as char
}

/// Whether `c` is one of `0` to `9`.
pub open spec fn is_digit(c: char) -> bool {
    '0' <= c <= '9'
}

/// The value of a string of decimal digits.
pub open spec fn decimal_value(s: Seq<char>) -> nat
    decreases s.len(),
{
    if s.len() == 0 {
        0
    } else {
        decimal_value(s.drop_last()) * 10 + (s.last() as nat - '0' as nat) as nat
    }
}

/// The decimal digits of `n`, without leading zeros (`0` is `"0"`).
pub open spec fn decimal_digits(n: nat) -> Seq<char>
    decreases n,
{
    if n < 10 {
        seq![digit_char(n)]
    } else {
        decimal_digits(n / 10).push(digit_char(n % 10))
    }
}

/// `s` without a leading `+`.
pub open spec fn strip_plus(s: Seq<char>) -> Seq<char> {
    if s.len() > 0 && s[0] == '+' {
        s.drop_first()
    } else {
        s
    }
}

/// Whether every character of `s` is a decimal digit.
pub open spec fn all_digits(s: Seq<char>) -> bool {
    forall|i: int| 0 <= i < s.len() ==> is_digit(#[trigger] s[i])
}

/// What `str::parse::<usize>` gives for `s`: an optional `+` and then one or
/// more decimal digits whose value fits in a `usize`.
pub open spec fn parse_usize_spec(s: Seq<char>) -> Option<usize> {
    let digits = strip_plus(s);
    if digits.len() > 0 && all_digits(digits) && decimal_value(digits) <= usize::MAX {
        Some(decimal_value(digits) as usize)
    } else {
        None
    }
}

proof fn lemma_decimal_value_monotone(s: Seq<char>, k: int)
    requires
        0 <= k <= s.len(),
        forall|i: int| 0 <= i < s.len() ==> is_digit(#[trigger] s[i]),
    ensures
        decimal_value(s.take(k)) <= decimal_value(s),
    decreases s.len() - k,
{
    if k < s.len() {
        assert(s.drop_last().take(k) =~= s.take(k));
        lemma_decimal_value_monotone(s.drop_last(), k);
    } else {
        assert(s.take(k) =~= s);
    }
}

/// Parses a decimal `usize` as `str::parse::<usize>` does.
pub fn parse_usize(s: &str) -> (r: Option<usize>)
    ensures
        r == parse_usize_spec(s@),
{
    let cs = chars_of(s);
    let mut i: usize = 0;
    if cs.len() > 0 && cs[0] == '+' {
        i = 1;
    }
    let ghost digits = strip_plus(s@);
    assert(digits =~= cs@.skip(i as int));
    if i >= cs.len() {
        return None;
    }
    let start = i;
    let mut value: usize = 0;
    while i < cs.len()
        invariant
            cs@ == s@,
            digits == cs@.skip(start as int),
            digits == strip_plus(s@),
            start <= i <= cs.len(),
            forall|j: int| start <= j < i ==> is_digit(#[trigger] cs@[j]),
            value == decimal_value(cs@.subrange(start as int, i as int)),
        decreases cs.len() - i,
    {
        let c = cs[i];
        if !('0' <= c && c <= '9') {
            assert(digits[i - start] == cs@[i as int]);
            assert(!is_digit(digits[i - start]));
            return None;
        }
        let d = (c as u32 - '0' as u32) as usize;
        assert(cs@.subrange(start as int, i + 1).drop_last() =~= cs@.subrange(start as int, i as int));
        if value > (usize::MAX - d) / 10 {
            proof {
                assert(decimal_value(cs@.subrange(start as int, i + 1)) == value * 10 + d);
                assert(value * 10 + d > usize::MAX) by (nonlinear_arith)
                    requires
                        value > (usize::MAX - d) / 10,
                        d <= 9,
                ;
                if all_digits(digits) {
                    lemma_decimal_value_monotone(digits, i + 1 - start);
                    assert(digits.take(i + 1 - start) =~= cs@.subrange(start as int, i + 1));
                }
            }
            return None;
        }
        value = value * 10 + d;
        i = i + 1;
    }
    assert(cs@.subrange(start as int, cs.len() as int) =~= digits);
    Some(value)
}

proof fn lemma_decimal_digits(n: nat)
    ensures
        decimal_digits(n).len() > 0,
        all_digits(decimal_digits(n)),
        decimal_value(decimal_digits(n)) == n,
    decreases n,
{
    let c = digit_char(n % 10);
    assert(c as nat - '0' as nat == n % 10);
    if n >= 10 {
        lemma_decimal_digits(n / 10);
        let d = decimal_digits(n / 10);
        assert(decimal_digits(n).drop_last() =~= d);
        assert(decimal_digits(n).last() == c);
        assert(decimal_value(decimal_digits(n)) == decimal_value(d) * 10 + n % 10);
        assert((n / 10) * 10 + n % 10 == n);
    } else {
        assert(decimal_digits(n).drop_last() =~= Seq::<char>::empty());
        assert(decimal_value(Seq::<char>::empty()) == 0);
        assert(decimal_digits(n).last() == c);
    }
}

/// The decimal digits of `n` (`n.to_string()`).
pub fn decimal_string(n: usize) -> (s: String)
    ensures
        s@ == decimal_digits(n as nat),
    decreases n,
{
    if n < 10 {
        let mut s = String::new();
        push_char(&mut s, ((n as u8) + 48u8) as char);
        assert(s@ =~= decimal_digits(n as nat));
        s
    } else {
        let mut s = decimal_string(n / 10);
        push_char(&mut s, (((n % 10) as u8) + 48u8) as char);
        s
    }
}

/// `s` with zeros put before it until it is `width` long.
pub open spec fn pad_zeros(s: Seq<char>, width: nat) -> Seq<char> {
    if s.len() < width {
        Seq::new((width - s.len()) as nat, |i: int| '0') + s
    } else {
        s
    }
}

/// The decimal digits of `n`, with zeros before them up to `width`
/// characters (`format!("{:0width$}", n)`).
pub fn zero_padded(n: usize, width: usize) -> (s: String)
    ensures
        s@ == pad_zeros(decimal_digits(n as nat), width as nat),
{
    let digits = decimal_string(n);
    let cs = chars_of(digits.as_str());
    let mut s = String::new();
    let mut k: usize = cs.len();
    while k < width
        invariant
            cs@ == decimal_digits(n as nat),
            cs.len() <= k <= width || (k == cs.len() && width < k),
            s@ == Seq::new((k - cs.len()) as nat, |i: int| '0'),
        decreases width - k,
    {
        push_char(&mut s, '0');
        k = k + 1;
        assert(s@ =~= Seq::new((k - cs.len()) as nat, |i: int| '0'));
    }
    s.append(digits.as_str());
    assert(s@ =~= pad_zeros(decimal_digits(n as nat), width as nat));
    s
}

proof fn lemma_zeros_value(z: Seq<char>, d: Seq<char>)
    requires
        forall|i: int| 0 <= i < z.len() ==> #[trigger] z[i] == '0',
    ensures
        decimal_value(z + d) == decimal_value(d),
    decreases d.len(), z.len(),
{
    if d.len() > 0 {
        assert((z + d).drop_last() =~= z + d.drop_last());
        assert((z + d).last() == d.last());
        lemma_zeros_value(z, d.drop_last());
    } else if z.len() > 0 {
        assert(z + d =~= z);
        assert(z.drop_last() + d =~= z.drop_last());
        lemma_zeros_value(z.drop_last(), d);
        assert(decimal_value(z) == decimal_value(z.drop_last()) * 10);
    } else {
        assert(z + d =~= d);
    }
}

/// Reading back a number padded with zeros gives the number.
pub proof fn law_zero_padded_round_trip(n: usize, width: nat)
    ensures
        parse_usize_spec(pad_zeros(decimal_digits(n as nat), width)) == Some(n),
{
    lemma_decimal_digits(n as nat);
    let d = decimal_digits(n as nat);
    let p = pad_zeros(d, width);
    if d.len() < width {
        let z = Seq::new((width - d.len()) as nat, |i: int| '0');
        lemma_zeros_value(z, d);
        assert(p == z + d);
        assert(all_digits(p)) by {
            assert forall|i: int| 0 <= i < p.len() implies is_digit(#[trigger] p[i]) by {
                if i >= z.len() {
                    assert(p[i] == d[i - z.len()]);
                }
            }
        }
        assert(is_digit(p[0]));
    } else {
        assert(is_digit(d[0]));
    }
    assert(strip_plus(p) == p);
}

/// Reading back the decimal digits of a number gives the number.
pub proof fn law_decimal_round_trip(n: usize)
    ensures
        parse_usize_spec(decimal_digits(n as nat)) == Some(n),
{
    lemma_decimal_digits(n as nat);
    let d = decimal_digits(n as nat);
    assert(is_digit(d[0]));
    assert(strip_plus(d) == d);
}

/// `c` with `A` to `Z` turned into `a` to `z`.
pub open spec fn ascii_lower(c: char) -> char {
    if 'A' <= c <= 'Z' {
        ((c as nat) + 32) as char
    } else {
        c
    }
}

/// Whether `a` and `b` are equal but for the case of ASCII letters
/// (`str::eq_ignore_ascii_case`; compared byte by byte, UTF-8 encodings are
/// equal in this sense exactly when their characters are).
pub open spec fn eq_ignore_ascii_case(a: Seq<char>, b: Seq<char>) -> bool {
    &&& a.len() == b.len()
    &&& forall|i: int| 0 <= i < a.len() ==> ascii_lower(#[trigger] a[i]) == ascii_lower(b[i])
}

fn lower_ascii_char(c: char) -> (r: char)
    ensures
        r == ascii_lower(c),
{
    if 'A' <= c && c <= 'Z' {
        (((c as u32) + 32) as u8) as char
    } else {
        c
    }
}

/// Whether `a` and `b` are equal but for the case of ASCII letters.
pub fn equal_ignoring_ascii_case(a: &str, b: &str) -> (r: bool)
    ensures
        r == eq_ignore_ascii_case(a@, b@),
{
    let x = chars_of(a);
    let y = chars_of(b);
    if x.len() != y.len() {
        return false;
    }
    let mut i: usize = 0;
    while i < x.len()
        invariant
            x@ == a@,
            y@ == b@,
            x.len() == y.len(),
            i <= x.len(),
            forall|j: int| 0 <= j < i ==> ascii_lower(#[trigger] x@[j]) == ascii_lower(y@[j]),
        decreases x.len() - i,
    {
        if lower_ascii_char(x[i]) != lower_ascii_char(y[i]) {
            return false;
        }
        i = i + 1;
    }
    true
}

/// How many bytes UTF-8 takes for `c`.
pub open spec fn utf8_len(c: char) -> nat {
    if (c as nat) < 0x80 {
        1
    } else if (c as nat) < 0x800 {
        2
    } else if (c as nat) < 0x10000 {
        3
    } else {
        4
    }
}

/// What is left of `s` after its first `n` bytes of UTF-8 (`&s[n..]`);
/// `None` where `n` is past the end or inside a character.
pub open spec fn skip_bytes(s: Seq<char>, n: nat) -> Option<Seq<char>>
    decreases s.len(),
{
    if n == 0 {
        Some(s)
    } else if s.len() == 0 || utf8_len(s[0]) > n {
        None
    } else {
        skip_bytes(s.drop_first(), (n - utf8_len(s[0])) as nat)
    }
}

fn char_utf8_len(c: char) -> (r: usize)
    ensures
        r == utf8_len(c),
{
    let v = c as u32;
    if v < 0x80 {
        1
    } else if v < 0x800 {
        2
    } else if v < 0x10000 {
        3
    } else {
        4
    }
}

/// What is left of `s` after its first `n` bytes of UTF-8.
pub fn after_bytes(s: &str, n: usize) -> (r: Option<String>)
    ensures
        r matches Some(t) ==> skip_bytes(s@, n as nat) == Some(t@),
        r is None ==> skip_bytes(s@, n as nat) is None,
{
    let cs = chars_of(s);
    let mut i: usize = 0;
    let mut left: usize = n;
    assert(cs@.skip(0) =~= cs@);
    while left > 0
        invariant
            cs@ == s@,
            i <= cs.len(),
            skip_bytes(s@, n as nat) == skip_bytes(cs@.skip(i as int), left as nat),
        decreases left,
    {
        let ghost rest = cs@.skip(i as int);
        if i >= cs.len() {
            return None;
        }
        let w = char_utf8_len(cs[i]);
        if w > left {
            return None;
        }
        assert(rest.drop_first() =~= cs@.skip(i + 1));
        left = left - w;
        i = i + 1;
    }
    assert(cs@.subrange(i as int, cs.len() as int) =~= cs@.skip(i as int));
    Some(string_of_range(&cs, i, cs.len()))
}

} // verus!
