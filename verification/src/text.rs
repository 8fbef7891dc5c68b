use vstd::prelude::*;

verus! {

// ── Character classes ────────────────────────────────────────────────────────

/// An ASCII decimal digit.
pub open spec fn is_digit(c: char) -> bool {
    '0' <= c && c <= '9'
}

/// A decimal digit other than `0`–`9`: the rest of Unicode general
/// category `Nd` (Unicode 16.0), the class that `\d` of a regular
/// expression matches.
#[verifier::opaque]
pub open spec fn is_wide_decimal_digit(c: char) -> bool {
    ||| ('\u{660}' <= c && c <= '\u{669}')
    ||| ('\u{6F0}' <= c && c <= '\u{6F9}')
    ||| ('\u{7C0}' <= c && c <= '\u{7C9}')
    ||| ('\u{966}' <= c && c <= '\u{96F}')
    ||| ('\u{9E6}' <= c && c <= '\u{9EF}')
    ||| ('\u{A66}' <= c && c <= '\u{A6F}')
    ||| ('\u{AE6}' <= c && c <= '\u{AEF}')
    ||| ('\u{B66}' <= c && c <= '\u{B6F}')
    ||| ('\u{BE6}' <= c && c <= '\u{BEF}')
    ||| ('\u{C66}' <= c && c <= '\u{C6F}')
    ||| ('\u{CE6}' <= c && c <= '\u{CEF}')
    ||| ('\u{D66}' <= c && c <= '\u{D6F}')
    ||| ('\u{DE6}' <= c && c <= '\u{DEF}')
    ||| ('\u{E50}' <= c && c <= '\u{E59}')
    ||| ('\u{ED0}' <= c && c <= '\u{ED9}')
    ||| ('\u{F20}' <= c && c <= '\u{F29}')
    ||| ('\u{1040}' <= c && c <= '\u{1049}')
    ||| ('\u{1090}' <= c && c <= '\u{1099}')
    ||| ('\u{17E0}' <= c && c <= '\u{17E9}')
    ||| ('\u{1810}' <= c && c <= '\u{1819}')
    ||| ('\u{1946}' <= c && c <= '\u{194F}')
    ||| ('\u{19D0}' <= c && c <= '\u{19D9}')
    ||| ('\u{1A80}' <= c && c <= '\u{1A89}')
    ||| ('\u{1A90}' <= c && c <= '\u{1A99}')
    ||| ('\u{1B50}' <= c && c <= '\u{1B59}')
    ||| ('\u{1BB0}' <= c && c <= '\u{1BB9}')
    ||| ('\u{1C40}' <= c && c <= '\u{1C49}')
    ||| ('\u{1C50}' <= c && c <= '\u{1C59}')
    ||| ('\u{A620}' <= c && c <= '\u{A629}')
    ||| ('\u{A8D0}' <= c && c <= '\u{A8D9}')
    ||| ('\u{A900}' <= c && c <= '\u{A909}')
    ||| ('\u{A9D0}' <= c && c <= '\u{A9D9}')
    ||| ('\u{A9F0}' <= c && c <= '\u{A9F9}')
    ||| ('\u{AA50}' <= c && c <= '\u{AA59}')
    ||| ('\u{ABF0}' <= c && c <= '\u{ABF9}')
    ||| ('\u{FF10}' <= c && c <= '\u{FF19}')
    ||| ('\u{104A0}' <= c && c <= '\u{104A9}')
    ||| ('\u{10D30}' <= c && c <= '\u{10D39}')
    ||| ('\u{10D40}' <= c && c <= '\u{10D49}')
    ||| ('\u{11066}' <= c && c <= '\u{1106F}')
    ||| ('\u{110F0}' <= c && c <= '\u{110F9}')
    ||| ('\u{11136}' <= c && c <= '\u{1113F}')
    ||| ('\u{111D0}' <= c && c <= '\u{111D9}')
    ||| ('\u{112F0}' <= c && c <= '\u{112F9}')
    ||| ('\u{11450}' <= c && c <= '\u{11459}')
    ||| ('\u{114D0}' <= c && c <= '\u{114D9}')
    ||| ('\u{11650}' <= c && c <= '\u{11659}')
    ||| ('\u{116C0}' <= c && c <= '\u{116C9}')
    ||| ('\u{116D0}' <= c && c <= '\u{116E3}')
    ||| ('\u{11730}' <= c && c <= '\u{11739}')
    ||| ('\u{118E0}' <= c && c <= '\u{118E9}')
    ||| ('\u{11950}' <= c && c <= '\u{11959}')
    ||| ('\u{11BF0}' <= c && c <= '\u{11BF9}')
    ||| ('\u{11C50}' <= c && c <= '\u{11C59}')
    ||| ('\u{11D50}' <= c && c <= '\u{11D59}')
    ||| ('\u{11DA0}' <= c && c <= '\u{11DA9}')
    ||| ('\u{11F50}' <= c && c <= '\u{11F59}')
    ||| ('\u{16130}' <= c && c <= '\u{16139}')
    ||| ('\u{16A60}' <= c && c <= '\u{16A69}')
    ||| ('\u{16AC0}' <= c && c <= '\u{16AC9}')
    ||| ('\u{16B50}' <= c && c <= '\u{16B59}')
    ||| ('\u{16D70}' <= c && c <= '\u{16D79}')
    ||| ('\u{1CCF0}' <= c && c <= '\u{1CCF9}')
    ||| ('\u{1D7CE}' <= c && c <= '\u{1D7FF}')
    ||| ('\u{1E140}' <= c && c <= '\u{1E149}')
    ||| ('\u{1E2F0}' <= c && c <= '\u{1E2F9}')
    ||| ('\u{1E4F0}' <= c && c <= '\u{1E4F9}')
    ||| ('\u{1E5F1}' <= c && c <= '\u{1E5FA}')
    ||| ('\u{1E950}' <= c && c <= '\u{1E959}')
    ||| ('\u{1FBF0}' <= c && c <= '\u{1FBF9}')
}

/// A decimal digit of any script (Unicode `Nd`), as `\d` matches.
pub open spec fn is_decimal_digit(c: char) -> bool {
    is_digit(c) || ('\u{660}' <= c && is_wide_decimal_digit(c))
}

/// The numeric value of an ASCII digit.
pub open spec fn digit_value(c: char) -> int {
    (c as int) - ('0' as int)
}

/// Unicode `White_Space`, the class that `char::is_whitespace`, `str::trim` and
/// `str::split_whitespace` use.
pub open spec fn is_whitespace(c: char) -> bool {
    ||| c == '\t'
    ||| c == '\n'
    ||| c == '\u{0B}'
    ||| c == '\u{0C}'
    ||| c == '\r'
    ||| c == ' '
    ||| c == '\u{85}'
    ||| c == '\u{A0}'
    ||| c == '\u{1680}'
    ||| ('\u{2000}' <= c && c <= '\u{200A}')
    ||| c == '\u{2028}'
    ||| c == '\u{2029}'
    ||| c == '\u{202F}'
    ||| c == '\u{205F}'
    ||| c == '\u{3000}'
}

pub fn char_is_digit(c: char) -> (b: bool)
    ensures
        b == is_digit(c),
{
    '0' <= c && c <= '9'
}

pub fn char_is_decimal_digit(c: char) -> (b: bool)
    ensures
        b == is_decimal_digit(c),
{
    proof {
        reveal(is_wide_decimal_digit);
    }
    if '\u{660}' > c {
        return '0' <= c && c <= '9';
    }
    ('\u{660}' <= c && c <= '\u{669}')
        || ('\u{6F0}' <= c && c <= '\u{6F9}')
        || ('\u{7C0}' <= c && c <= '\u{7C9}')
        || ('\u{966}' <= c && c <= '\u{96F}')
        || ('\u{9E6}' <= c && c <= '\u{9EF}')
        || ('\u{A66}' <= c && c <= '\u{A6F}')
        || ('\u{AE6}' <= c && c <= '\u{AEF}')
        || ('\u{B66}' <= c && c <= '\u{B6F}')
        || ('\u{BE6}' <= c && c <= '\u{BEF}')
        || ('\u{C66}' <= c && c <= '\u{C6F}')
        || ('\u{CE6}' <= c && c <= '\u{CEF}')
        || ('\u{D66}' <= c && c <= '\u{D6F}')
        || ('\u{DE6}' <= c && c <= '\u{DEF}')
        || ('\u{E50}' <= c && c <= '\u{E59}')
        || ('\u{ED0}' <= c && c <= '\u{ED9}')
        || ('\u{F20}' <= c && c <= '\u{F29}')
        || ('\u{1040}' <= c && c <= '\u{1049}')
        || ('\u{1090}' <= c && c <= '\u{1099}')
        || ('\u{17E0}' <= c && c <= '\u{17E9}')
        || ('\u{1810}' <= c && c <= '\u{1819}')
        || ('\u{1946}' <= c && c <= '\u{194F}')
        || ('\u{19D0}' <= c && c <= '\u{19D9}')
        || ('\u{1A80}' <= c && c <= '\u{1A89}')
        || ('\u{1A90}' <= c && c <= '\u{1A99}')
        || ('\u{1B50}' <= c && c <= '\u{1B59}')
        || ('\u{1BB0}' <= c && c <= '\u{1BB9}')
        || ('\u{1C40}' <= c && c <= '\u{1C49}')
        || ('\u{1C50}' <= c && c <= '\u{1C59}')
        || ('\u{A620}' <= c && c <= '\u{A629}')
        || ('\u{A8D0}' <= c && c <= '\u{A8D9}')
        || ('\u{A900}' <= c && c <= '\u{A909}')
        || ('\u{A9D0}' <= c && c <= '\u{A9D9}')
        || ('\u{A9F0}' <= c && c <= '\u{A9F9}')
        || ('\u{AA50}' <= c && c <= '\u{AA59}')
        || ('\u{ABF0}' <= c && c <= '\u{ABF9}')
        || ('\u{FF10}' <= c && c <= '\u{FF19}')
        || ('\u{104A0}' <= c && c <= '\u{104A9}')
        || ('\u{10D30}' <= c && c <= '\u{10D39}')
        || ('\u{10D40}' <= c && c <= '\u{10D49}')
        || ('\u{11066}' <= c && c <= '\u{1106F}')
        || ('\u{110F0}' <= c && c <= '\u{110F9}')
        || ('\u{11136}' <= c && c <= '\u{1113F}')
        || ('\u{111D0}' <= c && c <= '\u{111D9}')
        || ('\u{112F0}' <= c && c <= '\u{112F9}')
        || ('\u{11450}' <= c && c <= '\u{11459}')
        || ('\u{114D0}' <= c && c <= '\u{114D9}')
        || ('\u{11650}' <= c && c <= '\u{11659}')
        || ('\u{116C0}' <= c && c <= '\u{116C9}')
        || ('\u{116D0}' <= c && c <= '\u{116E3}')
        || ('\u{11730}' <= c && c <= '\u{11739}')
        || ('\u{118E0}' <= c && c <= '\u{118E9}')
        || ('\u{11950}' <= c && c <= '\u{11959}')
        || ('\u{11BF0}' <= c && c <= '\u{11BF9}')
        || ('\u{11C50}' <= c && c <= '\u{11C59}')
        || ('\u{11D50}' <= c && c <= '\u{11D59}')
        || ('\u{11DA0}' <= c && c <= '\u{11DA9}')
        || ('\u{11F50}' <= c && c <= '\u{11F59}')
        || ('\u{16130}' <= c && c <= '\u{16139}')
        || ('\u{16A60}' <= c && c <= '\u{16A69}')
        || ('\u{16AC0}' <= c && c <= '\u{16AC9}')
        || ('\u{16B50}' <= c && c <= '\u{16B59}')
        || ('\u{16D70}' <= c && c <= '\u{16D79}')
        || ('\u{1CCF0}' <= c && c <= '\u{1CCF9}')
        || ('\u{1D7CE}' <= c && c <= '\u{1D7FF}')
        || ('\u{1E140}' <= c && c <= '\u{1E149}')
        || ('\u{1E2F0}' <= c && c <= '\u{1E2F9}')
        || ('\u{1E4F0}' <= c && c <= '\u{1E4F9}')
        || ('\u{1E5F1}' <= c && c <= '\u{1E5FA}')
        || ('\u{1E950}' <= c && c <= '\u{1E959}')
        || ('\u{1FBF0}' <= c && c <= '\u{1FBF9}')
}

pub fn char_is_whitespace(c: char) -> (b: bool)
    ensures
        b == is_whitespace(c),
{
    c == '\t' || c == '\n' || c == '\u{0B}' || c == '\u{0C}' || c == '\r' || c == ' '
        || c == '\u{85}' || c == '\u{A0}' || c == '\u{1680}' || ('\u{2000}' <= c && c
        <= '\u{200A}') || c == '\u{2028}' || c == '\u{2029}' || c == '\u{202F}' || c
        == '\u{205F}' || c == '\u{3000}'
}

// ── Strings and character vectors ────────────────────────────────────────────

/// Appends one character to a string (`String::push`).
#[verifier::external_body]
pub(crate) fn push_char(s: &mut String, c: char)
    ensures
        final(s)@ == old(s)@.push(c),
{
    s.push(c);
}


/// Removes the last character of a string (`String::pop`).
#[verifier::external_body]
pub(crate) fn pop_char(s: &mut String) -> (r: Option<char>)
    ensures
        old(s)@.len() == 0 ==> r is None && final(s)@ == old(s)@,
        old(s)@.len() > 0 ==> r == Some(old(s)@.last()) && final(s)@ == old(s)@.drop_last(),
{
    s.pop()
}

/// The characters of `s`, in order.
pub fn chars_of(s: &str) -> (v: Vec<char>)
    ensures
        v@ == s@,
{
    let mut v: Vec<char> = Vec::new();
    for c in it: s.chars()
        invariant
            v@ == it.seq().take(it.index() as int),
    {
        v.push(c);
    }
    v
}

/// The string made of `v[lo..hi]`.
pub fn string_of_range(v: &Vec<char>, lo: usize, hi: usize) -> (s: String)
    requires
        lo <= hi <= v.len(),
    ensures
        s@ == v@.subrange(lo as int, hi as int),
{
    let mut s = String::new();
    let mut i = lo;
    while i < hi
        invariant
            lo <= i <= hi <= v.len(),
            s@ == v@.subrange(lo as int, i as int),
        decreases hi - i,
    {
        push_char(&mut s, v[i]);
        assert(v@.subrange(lo as int, i + 1) =~= v@.subrange(lo as int, i as int).push(v@[i as int]));
        i = i + 1;
    }
    s
}


/// The character of a decimal digit value.
pub open spec fn digit_char(d: int) -> char {
    (48 + d) as char
}

/// The decimal notation of `n`, as `format!("{}", n)` writes it.
pub open spec fn decimal(n: nat) -> Seq<char>
    decreases n,
{
    if n < 10 {
        seq![digit_char(n as int)]
    } else {
        decimal(n / 10).push(digit_char((n % 10) as int))
    }
}

/// Appends the decimal notation of `n` to `s`.
pub fn push_decimal(s: &mut String, n: u32)
    ensures
        final(s)@ == old(s)@ + decimal(n as nat),
    decreases n,
{
    if n >= 10 {
        push_decimal(s, n / 10);
    }
    let d: u8 = (n % 10) as u8;
    let c: char = (48u8 + d) as char;
    push_char(s, c);
    assert(decimal(n as nat) == (if n < 10 { seq![digit_char(n as int)] } else { decimal((n / 10) as nat).push(digit_char((n % 10) as int)) }));
    if n < 10 {
        assert(old(s)@.push(c) =~= old(s)@ + decimal(n as nat));
    } else {
        assert(old(s)@ + decimal((n / 10) as nat) + seq![c] =~= old(s)@ + decimal(n as nat));
    }
}


/// The views of several strings.
pub open spec fn strings_view(v: Seq<String>) -> Seq<Seq<char>> {
    v.map_values(|s: String| s@)
}

/// An owned copy of `s`.
pub fn owned(s: &str) -> (r: String)
    ensures
        r@ == s@,
{
    String::from_str(s)
}

/// `v[lo..hi]` as a vector of its own.
pub fn copy_range(v: &Vec<char>, lo: usize, hi: usize) -> (r: Vec<char>)
    requires
        lo <= hi <= v.len(),
    ensures
        r@ == v@.subrange(lo as int, hi as int),
{
    let mut r: Vec<char> = Vec::new();
    let mut i = lo;
    while i < hi
        invariant
            lo <= i <= hi <= v.len(),
            r@ == v@.subrange(lo as int, i as int),
        decreases hi - i,
    {
        r.push(v[i]);
        assert(v@.subrange(lo as int, i + 1) =~= v@.subrange(lo as int, i as int).push(v@[i as int]));
        i = i + 1;
    }
    r
}

/// Appends `s` to `out`.
pub fn push_str(out: &mut String, s: &str)
    ensures
        final(out)@ == old(out)@ + s@,
{
    out.append(s);
}

// ── Trimming ─────────────────────────────────────────────────────────────────

/// `s` without its leading whitespace.
pub open spec fn trim_start(s: Seq<char>) -> Seq<char>
    decreases s.len(),
{
    if s.len() > 0 && is_whitespace(s[0]) {
        trim_start(s.drop_first())
    } else {
        s
    }
}

/// `s` without its trailing whitespace.
pub open spec fn trim_end(s: Seq<char>) -> Seq<char>
    decreases s.len(),
{
    if s.len() > 0 && is_whitespace(s.last()) {
        trim_end(s.drop_last())
    } else {
        s
    }
}

/// Leading whitespace in front of text that does not start with whitespace
/// is what `trim_start` removes.
pub proof fn lemma_trim_start_of(w: Seq<char>, x: Seq<char>)
    requires
        forall|i: int| 0 <= i < w.len() ==> is_whitespace(#[trigger] w[i]),
        x.len() > 0 ==> !is_whitespace(x[0]),
    ensures
        trim_start(w + x) == x,
    decreases w.len(),
{
    if w.len() > 0 {
        assert((w + x).drop_first() =~= w.drop_first() + x);
        lemma_trim_start_of(w.drop_first(), x);
    } else {
        assert(w + x =~= x);
    }
}

/// Trailing whitespace behind text that does not end with whitespace is
/// what `trim_end` removes.
pub proof fn lemma_trim_end_of(x: Seq<char>, w: Seq<char>)
    requires
        forall|i: int| 0 <= i < w.len() ==> is_whitespace(#[trigger] w[i]),
        x.len() > 0 ==> !is_whitespace(x.last()),
    ensures
        trim_end(x + w) == x,
    decreases w.len(),
{
    if w.len() > 0 {
        assert((x + w).drop_last() =~= x + w.drop_last());
        lemma_trim_end_of(x, w.drop_last());
    } else {
        assert(x + w =~= x);
    }
}

/// `s` without leading and trailing whitespace, as `str::trim` gives it.
pub open spec fn trim(s: Seq<char>) -> Seq<char> {
    trim_end(trim_start(s))
}

/// The bounds of `trim(v[lo..hi])` inside `v`.
pub fn trim_range(v: &Vec<char>, lo: usize, hi: usize) -> (r: (usize, usize))
    requires
        lo <= hi <= v.len(),
    ensures
        lo <= r.0 <= r.1 <= hi,
        v@.subrange(r.0 as int, r.1 as int) == trim(v@.subrange(lo as int, hi as int)),
{
    let mut a = lo;
    while a < hi && char_is_whitespace(v[a])
        invariant
            lo <= a <= hi <= v.len(),
            trim_start(v@.subrange(lo as int, hi as int)) == trim_start(
                v@.subrange(a as int, hi as int),
            ),
        decreases hi - a,
    {
        assert(v@.subrange(a as int, hi as int).drop_first() =~= v@.subrange(a + 1, hi as int));
        a = a + 1;
    }
    let mut b = hi;
    while b > a && char_is_whitespace(v[b - 1])
        invariant
            lo <= a <= b <= hi <= v.len(),
            trim_end(v@.subrange(a as int, hi as int)) == trim_end(v@.subrange(a as int, b as int)),
        decreases b - a,
    {
        assert(v@.subrange(a as int, b as int).drop_last() =~= v@.subrange(a as int, b - 1));
        b = b - 1;
    }
    (a, b)
}

// ── Splitting ────────────────────────────────────────────────────────────────

/// The pieces of `s` between occurrences of `sep`, as `str::split(sep)` yields
/// them: `n` separators give `n + 1` pieces, some possibly empty.
pub open spec fn split_on(s: Seq<char>, sep: char) -> Seq<Seq<char>>
    decreases s.len(),
{
    if s.len() == 0 {
        seq![Seq::<char>::empty()]
    } else if s.last() == sep {
        split_on(s.drop_last(), sep).push(Seq::<char>::empty())
    } else {
        let p = split_on(s.drop_last(), sep);
        p.update(p.len() - 1, p.last().push(s.last()))
    }
}

pub proof fn lemma_split_on_nonempty(s: Seq<char>, sep: char)
    ensures
        split_on(s, sep).len() >= 1,
    decreases s.len(),
{
    if s.len() > 0 {
        lemma_split_on_nonempty(s.drop_last(), sep);
    }
}


/// A piece without the separator splits into itself.
pub proof fn lemma_split_on_plain(t: Seq<char>, sep: char)
    requires
        forall|i: int| 0 <= i < t.len() ==> #[trigger] t[i] != sep,
    ensures
        split_on(t, sep) == seq![t],
    decreases t.len(),
{
    if t.len() > 0 {
        lemma_split_on_plain(t.drop_last(), sep);
        assert(t.drop_last().push(t.last()) =~= t);
    } else {
        assert(t =~= Seq::<char>::empty());
    }
}

/// Appending a separator and a piece without it appends that piece.
pub proof fn lemma_split_on_append(s: Seq<char>, sep: char, t: Seq<char>)
    requires
        forall|i: int| 0 <= i < t.len() ==> #[trigger] t[i] != sep,
    ensures
        split_on(s.push(sep) + t, sep) == split_on(s, sep).push(t),
    decreases t.len(),
{
    if t.len() == 0 {
        assert(s.push(sep) + t =~= s.push(sep));
        assert(s.push(sep).drop_last() =~= s);
        assert(t =~= Seq::<char>::empty());
    } else {
        let u = s.push(sep) + t;
        lemma_split_on_append(s, sep, t.drop_last());
        assert(u.drop_last() =~= s.push(sep) + t.drop_last());
        assert(u.last() == t.last());
        assert(t.drop_last().push(t.last()) =~= t);
        let p = split_on(s, sep).push(t.drop_last());
        assert(p.update(p.len() - 1, p.last().push(u.last())) =~= split_on(s, sep).push(t));
    }
}

/// The pieces of several ranges of `v`.
pub open spec fn ranges_view(v: Seq<char>, r: Seq<(usize, usize)>) -> Seq<Seq<char>> {
    r.map_values(|p: (usize, usize)| v.subrange(p.0 as int, p.1 as int))
}

pub open spec fn ranges_within(r: Seq<(usize, usize)>, lo: int, hi: int) -> bool {
    forall|k: int| 0 <= k < r.len() ==> lo <= #[trigger] r[k].0 <= r[k].1 <= hi
}

/// The bounds, inside `v`, of the pieces of `v[lo..hi]` split on `sep`.
pub fn split_ranges(v: &Vec<char>, lo: usize, hi: usize, sep: char) -> (r: Vec<(usize, usize)>)
    requires
        lo <= hi <= v.len(),
    ensures
        ranges_within(r@, lo as int, hi as int),
        ranges_view(v@, r@) == split_on(v@.subrange(lo as int, hi as int), sep),
{
    let mut r: Vec<(usize, usize)> = Vec::new();
    let mut start = lo;
    let mut i = lo;
    assert(ranges_view(v@, r@) =~= Seq::<Seq<char>>::empty());
    assert(v@.subrange(lo as int, lo as int) =~= Seq::<char>::empty());
    while i < hi
        invariant
            lo <= start <= i <= hi <= v.len(),
            ranges_within(r@, lo as int, hi as int),
            split_on(v@.subrange(lo as int, i as int), sep) == ranges_view(v@, r@).push(
                v@.subrange(start as int, i as int),
            ),
        decreases hi - i,
    {
        let ghost old_r = r@;
        let ghost prev = split_on(v@.subrange(lo as int, i as int), sep);
        assert(v@.subrange(lo as int, i + 1).drop_last() =~= v@.subrange(lo as int, i as int));
        if v[i] == sep {
            r.push((start, i));
            assert(ranges_view(v@, r@) =~= ranges_view(v@, old_r).push(
                v@.subrange(start as int, i as int),
            ));
            start = i + 1;
            assert(v@.subrange(lo as int, i + 1).last() == sep);
            assert(v@.subrange(start as int, i + 1) =~= Seq::<char>::empty());
            assert(split_on(v@.subrange(lo as int, i + 1), sep) =~= ranges_view(v@, r@).push(
                v@.subrange(start as int, i + 1),
            ));
        } else {
            assert(v@.subrange(start as int, i + 1) =~= v@.subrange(start as int, i as int).push(
                v@[i as int],
            ));
            assert(split_on(v@.subrange(lo as int, i + 1), sep) =~= ranges_view(v@, r@).push(
                v@.subrange(start as int, i + 1),
            ));
        }
        i = i + 1;
    }
    let ghost old_r = r@;
    r.push((start, hi));
    assert(ranges_view(v@, r@) =~= ranges_view(v@, old_r).push(
        v@.subrange(start as int, hi as int),
    ));
    r
}


// ── Searching ────────────────────────────────────────────────────────────────

/// The classes of characters that the scanners of this crate stop at.
pub enum CharClass {
    /// One given character.
    Is(char),
    /// Any character but a given one.
    IsNot(char),
    /// A double quote or a slash.
    QuoteOrSlash,
    /// Anything but a decimal digit (`is_decimal_digit`).
    NonDigit,
    /// An ASCII letter.
    AsciiAlpha,
}

pub open spec fn in_class(k: CharClass, c: char) -> bool {
    match k {
        CharClass::Is(x) => c == x,
        CharClass::IsNot(x) => c != x,
        CharClass::QuoteOrSlash => c == '"' || c == '/',
        CharClass::NonDigit => !is_decimal_digit(c),
        CharClass::AsciiAlpha => ('a' <= c && c <= 'z') || ('A' <= c && c <= 'Z'),
    }
}

/// The first index at or after `from` whose character is in class `k`, or
/// `s.len()` when there is none.
pub open spec fn first_where(s: Seq<char>, from: int, k: CharClass) -> int
    decreases s.len() - from,
{
    if from >= s.len() {
        s.len() as int
    } else if in_class(k, s[from]) {
        from
    } else {
        first_where(s, from + 1, k)
    }
}

/// `first_where` is the first index in the class, counted from `from`.
pub proof fn lemma_first_where(s: Seq<char>, from: int, k: CharClass, r: int)
    requires
        0 <= from <= r <= s.len(),
        forall|j: int| from <= j < r ==> !in_class(k, #[trigger] s[j]),
        r < s.len() ==> in_class(k, s[r]),
    ensures
        first_where(s, from, k) == r,
    decreases r - from,
{
    if from < r {
        lemma_first_where(s, from + 1, k, r);
    }
}


/// The characters that `first_where` passes over are not in the class, and
/// the one it stops at is.
pub proof fn lemma_first_where_skipped(s: Seq<char>, from: int, k: CharClass)
    requires
        0 <= from <= s.len(),
    ensures
        from <= first_where(s, from, k) <= s.len(),
        forall|j: int| from <= j < first_where(s, from, k) ==> !in_class(k, #[trigger] s[j]),
        first_where(s, from, k) < s.len() ==> in_class(k, s[first_where(s, from, k)]),
    decreases s.len() - from,
{
    if from < s.len() && !in_class(k, s[from]) {
        lemma_first_where_skipped(s, from + 1, k);
    }
}

pub fn char_in_class(k: &CharClass, c: char) -> (b: bool)
    ensures
        b == in_class(*k, c),
{
    match k {
        CharClass::Is(x) => c == *x,
        CharClass::IsNot(x) => c != *x,
        CharClass::QuoteOrSlash => c == '"' || c == '/',
        CharClass::NonDigit => !char_is_decimal_digit(c),
        CharClass::AsciiAlpha => ('a' <= c && c <= 'z') || ('A' <= c && c <= 'Z'),
    }
}

/// The first index in `from..hi` whose character is in class `k`, or `hi`.
pub fn find_class(v: &Vec<char>, from: usize, hi: usize, k: CharClass) -> (r: usize)
    requires
        from <= hi <= v.len(),
    ensures
        from <= r <= hi,
        forall|j: int| from <= j < r ==> !in_class(k, #[trigger] v@[j]),
        r < hi ==> in_class(k, v@[r as int]),
{
    let mut i = from;
    while i < hi && !char_in_class(&k, v[i])
        invariant
            from <= i <= hi <= v.len(),
            forall|j: int| from <= j < i ==> !in_class(k, #[trigger] v@[j]),
        decreases hi - i,
    {
        i = i + 1;
    }
    i
}


/// `find_class` counted inside `v[lo..hi]`.
pub fn find_class_in(v: &Vec<char>, lo: usize, from: usize, hi: usize, k: CharClass) -> (r: usize)
    requires
        lo <= from <= hi <= v.len(),
    ensures
        from <= r <= hi,
        r - lo == first_where(v@.subrange(lo as int, hi as int), from - lo, k),
{
    let r = find_class(v, from, hi, k);
    proof {
        let t = v@.subrange(lo as int, hi as int);
        assert forall|j: int| from - lo <= j < r - lo implies !in_class(k, #[trigger] t[j]) by {
            assert(t[j] == v@[lo + j]);
        }
        if r < hi {
            assert(t[r - lo] == v@[r as int]);
        }
        lemma_first_where(t, from - lo, k, r - lo);
    }
    r
}


/// `first_where(v, from, k)`.
pub fn find_first(v: &Vec<char>, from: usize, k: CharClass) -> (r: usize)
    requires
        from <= v.len(),
    ensures
        from <= r <= v.len(),
        r == first_where(v@, from as int, k),
{
    let r = find_class(v, from, v.len(), k);
    proof {
        lemma_first_where(v@, from as int, k, r as int);
    }
    r
}

/// Whether `s` fits `t`, where a `9` in `t` stands for any decimal digit
/// and every other character for itself.
pub open spec fn fits_template(s: Seq<char>, t: Seq<char>) -> bool {
    &&& s.len() == t.len()
    &&& forall|i: int|
        0 <= i < s.len() ==> if t[i] == '9' {
            is_decimal_digit(#[trigger] s[i])
        } else {
            s[i] == t[i]
        }
}

/// Whether `v[i..]` starts with `t`.
pub fn literal_at(v: &Vec<char>, i: usize, t: &[char]) -> (b: bool)
    ensures
        b == (i + t@.len() <= v@.len() && v@.subrange(i as int, i + t@.len()) == t@),
{
    if i > v.len() || t.len() > v.len() - i {
        return false;
    }
    let mut j: usize = 0;
    while j < t.len()
        invariant
            i + t@.len() <= v@.len(),
            i + t.len() <= v.len(),
            j <= t@.len(),
            forall|k: int| 0 <= k < j ==> v@[i + k] == t@[k],
        decreases t.len() - j,
    {
        if v[i + j] != t[j] {
            assert(v@.subrange(i as int, i + t@.len())[j as int] != t@[j as int]);
            return false;
        }
        j = j + 1;
    }
    assert(v@.subrange(i as int, i + t@.len()) =~= t@);
    true
}

/// Whether `v[i..]` starts with a run that fits template `t`.
pub fn template_at(v: &Vec<char>, i: usize, t: &[char]) -> (b: bool)
    ensures
        b == (i + t@.len() <= v@.len() && fits_template(v@.subrange(i as int, i + t@.len()), t@)),
{
    if i > v.len() || t.len() > v.len() - i {
        return false;
    }
    let ghost s = v@.subrange(i as int, i + t@.len());
    let mut j: usize = 0;
    while j < t.len()
        invariant
            i + t@.len() <= v@.len(),
            i + t.len() <= v.len(),
            s == v@.subrange(i as int, i + t@.len()),
            j <= t@.len(),
            forall|k: int|
                0 <= k < j ==> if t@[k] == '9' {
                    is_decimal_digit(#[trigger] s[k])
                } else {
                    s[k] == t@[k]
                },
        decreases t.len() - j,
    {
        let c = v[i + j];
        assert(s[j as int] == c);
        if t[j] == '9' {
            if !char_is_decimal_digit(c) {
                return false;
            }
        } else if c != t[j] {
            return false;
        }
        j = j + 1;
    }
    true
}


// ── Words and substrings ─────────────────────────────────────────────────────

/// The maximal runs of non-whitespace characters of `s`, as
/// `str::split_whitespace` yields them.
pub open spec fn words(s: Seq<char>) -> Seq<Seq<char>>
    decreases s.len(),
{
    if s.len() == 0 {
        Seq::empty()
    } else if is_whitespace(s.last()) {
        words(s.drop_last())
    } else if s.len() >= 2 && !is_whitespace(s[s.len() - 2]) {
        let w = words(s.drop_last());
        w.update(w.len() - 1, w.last().push(s.last()))
    } else {
        words(s.drop_last()).push(seq![s.last()])
    }
}

/// The bounds, inside `v`, of the words of `v[lo..hi]`.
pub fn word_ranges(v: &Vec<char>, lo: usize, hi: usize) -> (r: Vec<(usize, usize)>)
    requires
        lo <= hi <= v.len(),
    ensures
        ranges_within(r@, lo as int, hi as int),
        ranges_view(v@, r@) == words(v@.subrange(lo as int, hi as int)),
{
    let mut r: Vec<(usize, usize)> = Vec::new();
    let mut in_word = false;
    let mut start = lo;
    let mut i = lo;
    assert(ranges_view(v@, r@) =~= Seq::<Seq<char>>::empty());
    assert(v@.subrange(lo as int, lo as int) =~= Seq::<char>::empty());
    while i < hi
        invariant
            lo <= start <= i <= hi <= v.len(),
            ranges_within(r@, lo as int, hi as int),
            in_word == (i > lo && !is_whitespace(v@[i - 1])),
            !in_word ==> words(v@.subrange(lo as int, i as int)) == ranges_view(v@, r@),
            in_word ==> start < i && words(v@.subrange(lo as int, i as int)) == ranges_view(
                v@,
                r@,
            ).push(v@.subrange(start as int, i as int)),
        decreases hi - i,
    {
        let c = v[i];
        let ghost s = v@.subrange(lo as int, i + 1);
        assert(s.drop_last() =~= v@.subrange(lo as int, i as int));
        assert(s.last() == c);
        if i > lo {
            assert(s[s.len() - 2] == v@[i - 1]);
        }
        if char_is_whitespace(c) {
            if in_word {
                let ghost old_r = r@;
                r.push((start, i));
                assert(ranges_view(v@, r@) =~= ranges_view(v@, old_r).push(
                    v@.subrange(start as int, i as int),
                ));
            }
            in_word = false;
        } else {
            if in_word {
                assert(v@.subrange(start as int, i + 1) =~= v@.subrange(start as int, i as int).push(c));
                assert(words(s) =~= ranges_view(v@, r@).push(v@.subrange(start as int, i + 1)));
            } else {
                start = i;
                assert(v@.subrange(start as int, i + 1) =~= seq![c]);
            }
            in_word = true;
        }
        i = i + 1;
    }
    if in_word {
        let ghost old_r = r@;
        r.push((start, hi));
        assert(ranges_view(v@, r@) =~= ranges_view(v@, old_r).push(
            v@.subrange(start as int, hi as int),
        ));
    }
    r
}

/// `needle` occurs in `s`.
pub open spec fn contains_seq(s: Seq<char>, needle: Seq<char>) -> bool {
    exists|i: int| 0 <= i && i + needle.len() <= s.len() && #[trigger] s.subrange(i, i + needle.len()) == needle
}

/// Whether `t` occurs in `v[lo..hi]`.
pub fn range_contains(v: &Vec<char>, lo: usize, hi: usize, t: &[char]) -> (b: bool)
    requires
        lo <= hi <= v.len(),
    ensures
        b == contains_seq(v@.subrange(lo as int, hi as int), t@),
{
    let ghost s = v@.subrange(lo as int, hi as int);
    if t.len() > hi - lo {
        return false;
    }
    let mut i = lo;
    while i <= hi - t.len()
        invariant
            lo <= i <= hi <= v.len(),
            t.len() <= hi,
            t@.len() <= hi - lo,
            s == v@.subrange(lo as int, hi as int),
            forall|j: int| 0 <= j < i - lo ==> #[trigger] s.subrange(j, j + t@.len()) != t@,
        decreases hi - i,
    {
        let found = literal_at(v, i, t);
        if t.len() == 0 {
            assert(v@.subrange(i as int, i as int) =~= t@);
        }
        assert(v@.subrange(i as int, i + t@.len()) =~= s.subrange(i - lo, i - lo + t@.len()));
        if found {
            return true;
        }
        i = i + 1;
    }
    assert forall|j: int| 0 <= j && j + t@.len() <= s.len() implies #[trigger] s.subrange(j, j + t@.len()) != t@ by {}
    false
}

// ── Unsigned integers ────────────────────────────────────────────────────────

/// Every character of `s` is a decimal digit of some script.
pub open spec fn all_decimal_digits(s: Seq<char>) -> bool {
    forall|i: int| 0 <= i < s.len() ==> is_decimal_digit(#[trigger] s[i])
}

/// Every character of `s` is an ASCII digit.
pub open spec fn all_digits(s: Seq<char>) -> bool {
    forall|i: int| 0 <= i < s.len() ==> is_digit(#[trigger] s[i])
}

/// The value of a run of decimal digits.
pub open spec fn digits_value(s: Seq<char>) -> int
    decreases s.len(),
{
    if s.len() == 0 {
        0
    } else {
        digits_value(s.drop_last()) * 10 + digit_value(s.last())
    }
}

/// What `s.parse::<u32>()` gives: an optional `+`, then at least one ASCII digit,
/// with a value that fits in `u32`.
pub open spec fn parse_u32(s: Seq<char>) -> Option<u32> {
    let d = if s.len() > 0 && s[0] == '+' {
        s.drop_first()
    } else {
        s
    };
    if d.len() > 0 && all_digits(d) && digits_value(d) <= u32::MAX {
        Some(digits_value(d) as u32)
    } else {
        None
    }
}

pub proof fn lemma_digits_value_nonneg(s: Seq<char>)
    requires
        all_digits(s),
    ensures
        digits_value(s) >= 0,
    decreases s.len(),
{
    if s.len() > 0 {
        lemma_digits_value_nonneg(s.drop_last());
    }
}


/// The decimal notation is a nonempty run of digits whose value is `n`.
pub proof fn lemma_decimal(n: nat)
    ensures
        decimal(n).len() > 0,
        all_digits(decimal(n)),
        digits_value(decimal(n)) == n,
    decreases n,
{
    let d = (n % 10) as int;
    assert(is_digit(digit_char(d)) && digit_value(digit_char(d)) == d);
    if n < 10 {
        let s = decimal(n);
        assert(s.drop_last() =~= Seq::<char>::empty());
        assert(digits_value(s) == digits_value(s.drop_last()) * 10 + digit_value(s.last()));
    }
    if n >= 10 {
        lemma_decimal(n / 10);
        let s = decimal(n);
        assert(s.drop_last() =~= decimal(n / 10));
        assert(s.last() == digit_char(d));
        assert(n == (n / 10) * 10 + n % 10) by (nonlinear_arith);
        assert(digits_value(s) == digits_value(decimal(n / 10)) * 10 + d);
        assert forall|i: int| 0 <= i < s.len() implies is_digit(#[trigger] s[i]) by {
            if i < s.len() - 1 {
                assert(s[i] == decimal(n / 10)[i]);
            }
        }
    }
}

/// `parse_u32` reads back the decimal notation of a `u32`.
pub proof fn lemma_parse_decimal(n: u32)
    ensures
        parse_u32(decimal(n as nat)) == Some(n),
{
    lemma_decimal(n as nat);
    assert(is_digit(decimal(n as nat)[0]));
}

/// `parse_u32` of `v[lo..hi]`.
pub fn parse_u32_range(v: &Vec<char>, lo: usize, hi: usize) -> (r: Option<u32>)
    requires
        lo <= hi <= v.len(),
    ensures
        r == parse_u32(v@.subrange(lo as int, hi as int)),
{
    let ghost s = v@.subrange(lo as int, hi as int);
    let mut start = lo;
    if lo < hi {
        assert(s[0] == v@[lo as int]);
    }
    if lo < hi && v[lo] == '+' {
        start = lo + 1;
        assert(s.drop_first() =~= v@.subrange(start as int, hi as int));
    } else {
        assert(s =~= v@.subrange(start as int, hi as int));
    }
    let ghost d = v@.subrange(start as int, hi as int);
    assert(d == (if s.len() > 0 && s[0] == '+' { s.drop_first() } else { s }));
    if start == hi {
        assert(d.len() == 0);
        return None;
    }
    let mut acc: u64 = 0;
    let mut over = false;
    let mut i = start;
    while i < hi
        invariant
            lo <= start <= i <= hi <= v.len(),
            d == v@.subrange(start as int, hi as int),
            s == v@.subrange(lo as int, hi as int),
            d == (if s.len() > 0 && s[0] == '+' { s.drop_first() } else { s }),
            all_digits(v@.subrange(start as int, i as int)),
            !over ==> acc == digits_value(v@.subrange(start as int, i as int)),
            over ==> digits_value(v@.subrange(start as int, i as int)) > u32::MAX,
            acc <= u32::MAX,
        decreases hi - i,
    {
        let c = v[i];
        if !char_is_digit(c) {
            assert(d[i - start] == c);
            return None;
        }
        let ghost pre = v@.subrange(start as int, i as int);
        let ghost next = v@.subrange(start as int, i + 1);
        assert(next.drop_last() =~= pre);
        assert(next.last() == c);
        assert(all_digits(next));
        proof {
            lemma_digits_value_nonneg(pre);
        }
        if !over {
            let dv = (c as u64) - ('0' as u64);
            let nv = acc * 10 + dv;
            if nv > 0xffff_ffffu64 {
                over = true;
            } else {
                acc = nv;
            }
        }
        i = i + 1;
    }
    assert(v@.subrange(start as int, i as int) =~= d);
    if over {
        None
    } else {
        Some(acc as u32)
    }
}

} // verus!
