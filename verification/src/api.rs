use vstd::prelude::*;

use crate::text::{
    all_decimal_digits, all_digits, char_is_decimal_digit, chars_of, is_decimal_digit, is_digit, decimal, find_class_in, find_first, first_where, fits_template, literal_at, parse_u32,
    parse_u32_range, push_char, push_decimal, ranges_view, split_on, split_ranges, string_of_range,
    template_at, trim, trim_range, CharClass,
};
use crate::text::{in_class, lemma_decimal, lemma_first_where, lemma_first_where_skipped, lemma_parse_decimal};

verus! {

/// The root of the Checkmk download server.
pub const CMK_DOWNLOAD_URL: &'static str = "https://download.checkmk.com/checkmk";

// ── Data types ───────────────────────────────────────────────────────────────

/// A single version entry from the root directory listing.
#[derive(Debug, Clone)]
pub struct Version {
    /// The base version, such as "2.5.0".
    pub base: String,
    pub kind: VersionKind,
    /// The server's modification time, such as "2026-04-03 13:50".
    pub timestamp: String,
}

#[derive(Debug, Clone)]
pub enum VersionKind {
    /// A daily build; `date` as the server writes it, "2026.04.03".
    Daily { date: String },
    StablePatch { patch: u32 },
    Beta { num: u32 },
}

pub enum VersionKindView {
    Daily { date: Seq<char> },
    StablePatch { patch: u32 },
    Beta { num: u32 },
}

pub struct VersionView {
    pub base: Seq<char>,
    pub kind: VersionKindView,
    pub timestamp: Seq<char>,
}

impl View for VersionKind {
    type V = VersionKindView;

    open spec fn view(&self) -> VersionKindView {
        match self {
            VersionKind::Daily { date } => VersionKindView::Daily { date: date@ },
            VersionKind::StablePatch { patch } => VersionKindView::StablePatch { patch: *patch },
            VersionKind::Beta { num } => VersionKindView::Beta { num: *num },
        }
    }
}

impl View for Version {
    type V = VersionView;

    open spec fn view(&self) -> VersionView {
        VersionView { base: self.base@, kind: self.kind@, timestamp: self.timestamp@ }
    }
}

/// The editions that `cmk-dev-install -e` accepts.
#[derive(Debug, Clone, Copy, PartialEq, Eq, Structural)]
pub enum Edition {
    // editions from 2.5 on
    Community,
    Pro,
    Ultimate,
    Ultimatemt,
    // editions up to 2.4
    Cee,
    Cre,
    Cce,
    Cme,
    // the cloud edition from 2.5 on (another package name than cce)
    Cloud,
}

// ── What a version is called ─────────────────────────────────────────────────

/// The directory name of a version on the server.
pub open spec fn dir_name_of(v: VersionView) -> Seq<char> {
    match v.kind {
        VersionKindView::Daily { date } => v.base.push('-') + date,
        VersionKindView::StablePatch { patch } => v.base.push('p') + decimal(patch as nat),
        VersionKindView::Beta { num } => v.base.push('b') + decimal(num as nat),
    }
}

/// `s` with every `.` replaced by `-`.
pub open spec fn dots_to_hyphens(s: Seq<char>) -> Seq<char> {
    s.map_values(|c: char| if c == '.' { '-' } else { c })
}

/// The version argument of `cmk-dev-install`: the directory name, with the
/// date of a daily build written with hyphens.
pub open spec fn install_arg_of(v: VersionView) -> Seq<char> {
    match v.kind {
        VersionKindView::Daily { date } => v.base.push('-') + dots_to_hyphens(date),
        _ => dir_name_of(v),
    }
}

pub open spec fn kind_label_of(k: VersionKindView) -> Seq<char> {
    match k {
        VersionKindView::Daily { .. } => "daily"@,
        VersionKindView::StablePatch { .. } => "stable"@,
        VersionKindView::Beta { .. } => "beta"@,
    }
}

/// The short detail shown in the version table: the date, `p<n>` or `b<n>`.
pub open spec fn detail_of(k: VersionKindView) -> Seq<char> {
    match k {
        VersionKindView::Daily { date } => date,
        VersionKindView::StablePatch { patch } => seq!['p'] + decimal(patch as nat),
        VersionKindView::Beta { num } => seq!['b'] + decimal(num as nat),
    }
}

/// The minor number of a base version: the second `.`-separated field read
/// as a `u32`, or 0 when there is none or it does not parse.
pub open spec fn minor_of(base: Seq<char>) -> u32 {
    let fields = split_on(base, '.');
    if fields.len() >= 2 {
        match parse_u32(fields[1]) {
            Some(n) => n,
            None => 0,
        }
    } else {
        0
    }
}

/// The editions offered for a base version: the new line-up from minor
/// version 5 on, the old one before.
pub open spec fn editions_for(base: Seq<char>) -> Seq<Edition> {
    if minor_of(base) >= 5 {
        seq![Edition::Community, Edition::Pro, Edition::Ultimate, Edition::Ultimatemt, Edition::Cloud]
    } else {
        seq![Edition::Cee, Edition::Cre, Edition::Cloud, Edition::Cme]
    }
}

/// Appends `s` to `out`.
fn push_all(out: &mut String, s: &String)
    ensures
        final(out)@ == old(out)@ + s@,
{
    out.append(s.as_str());
}

impl Version {
    /// The version directory name on the server.
    pub fn dir_name(&self) -> (r: String)
        ensures
            r@ == dir_name_of(self@),
    {
        let mut r = self.base.clone();
        match &self.kind {
            VersionKind::Daily { date } => {
                push_char(&mut r, '-');
                push_all(&mut r, date);
            },
            VersionKind::StablePatch { patch } => {
                push_char(&mut r, 'p');
                push_decimal(&mut r, *patch);
            },
            VersionKind::Beta { num } => {
                push_char(&mut r, 'b');
                push_decimal(&mut r, *num);
            },
        }
        r
    }

    /// The version argument of `cmk-dev-install`; a daily build's date is
    /// written with hyphens in place of dots.
    pub fn install_arg(&self) -> (r: String)
        ensures
            r@ == install_arg_of(self@),
    {
        match &self.kind {
            VersionKind::Daily { date } => {
                let mut r = self.base.clone();
                push_char(&mut r, '-');
                let d = chars_of(date.as_str());
                let mut i: usize = 0;
                let ghost start = r@;
                while i < d.len()
                    invariant
                        i <= d.len(),
                        d@ == date@,
                        start == self.base@.push('-'),
                        r@ == start + dots_to_hyphens(d@.take(i as int)),
                    decreases d.len() - i,
                {
                    let c = d[i];
                    if c == '.' {
                        push_char(&mut r, '-');
                    } else {
                        push_char(&mut r, c);
                    }
                    assert(dots_to_hyphens(d@.take(i + 1)) =~= dots_to_hyphens(d@.take(i as int)).push(
                        if c == '.' { '-' } else { c },
                    ));
                    i = i + 1;
                }
                assert(d@.take(i as int) =~= d@);
                r
            },
            _ => self.dir_name(),
        }
    }

    pub fn kind_label(&self) -> (r: &str)
        ensures
            r@ == kind_label_of(self@.kind),
    {
        match &self.kind {
            VersionKind::Daily { .. } => "daily",
            VersionKind::StablePatch { .. } => "stable",
            VersionKind::Beta { .. } => "beta",
        }
    }

    /// The short detail for the version table: the date, `p<n>` or `b<n>`.
    pub fn detail(&self) -> (r: String)
        ensures
            r@ == detail_of(self@.kind),
    {
        match &self.kind {
            VersionKind::Daily { date } => date.clone(),
            VersionKind::StablePatch { patch } => {
                let mut r = String::new();
                push_char(&mut r, 'p');
                push_decimal(&mut r, *patch);
                r
            },
            VersionKind::Beta { num } => {
                let mut r = String::new();
                push_char(&mut r, 'b');
                push_decimal(&mut r, *num);
                r
            },
        }
    }

    /// The editions that make sense for this version's base branch.
    pub fn available_editions(&self) -> (r: Vec<Edition>)
        ensures
            r@ == editions_for(self@.base),
    {
        let v = chars_of(self.base.as_str());
        let fields = split_ranges(&v, 0, v.len(), '.');
        proof {
            assert(v@.subrange(0, v@.len() as int) =~= self.base@);
        }
        let mut minor: u32 = 0;
        if fields.len() >= 2 {
            let (lo, hi) = fields[1];
            proof {
                assert(ranges_view(v@, fields@)[1] == v@.subrange(lo as int, hi as int));
            }
            match parse_u32_range(&v, lo, hi) {
                Some(n) => {
                    minor = n;
                },
                None => {},
            }
        }
        if minor >= 5 {
            vec![Edition::Community, Edition::Pro, Edition::Ultimate, Edition::Ultimatemt, Edition::Cloud]
        } else {
            vec![Edition::Cee, Edition::Cre, Edition::Cloud, Edition::Cme]
        }
    }
}


// ── Version directory names ──────────────────────────────────────────────────

/// Where the `\d+\.\d+\.\d+` at the start of `g` ends, or -1 when `g` does
/// not start that way.
pub open spec fn semver_prefix_end(g: Seq<char>) -> int {
    let p = first_where(g, 0, CharClass::NonDigit);
    if 0 < p < g.len() && g[p] == '.' {
        let q = first_where(g, p + 1, CharClass::NonDigit);
        if p + 1 < q < g.len() && g[q] == '.' {
            let r = first_where(g, q + 1, CharClass::NonDigit);
            if q + 1 < r {
                r
            } else {
                -1
            }
        } else {
            -1
        }
    } else {
        -1
    }
}

/// `g` starts with three dot-separated runs of digits.
pub open spec fn starts_with_semver(g: Seq<char>) -> bool {
    semver_prefix_end(g) >= 0
}

/// `g` is three dot-separated runs of digits and nothing else.
pub open spec fn is_semver(g: Seq<char>) -> bool {
    semver_prefix_end(g) == g.len()
}

/// `YYYY.MM.DD`, the date of a daily build's directory.
pub open spec fn date_template() -> Seq<char> {
    seq!['9', '9', '9', '9', '.', '9', '9', '.', '9', '9']
}

/// `YYYY-MM-DD HH:MM`, the modification time in the listing.
pub open spec fn timestamp_template() -> Seq<char> {
    seq!['9', '9', '9', '9', '-', '9', '9', '-', '9', '9', ' ', '9', '9', ':', '9', '9']
}

/// `s` is `<base>-<YYYY.MM.DD>`.
pub open spec fn is_daily_name(s: Seq<char>) -> bool {
    &&& s.len() >= 11
    &&& s[s.len() - 11] == '-'
    &&& is_semver(s.take(s.len() - 11))
    &&& fits_template(s.skip(s.len() - 10), date_template())
}

/// `s` is `<base><marker><digits>`.
pub open spec fn is_marked_name(s: Seq<char>, marker: char) -> bool {
    let k = first_where(s, 0, CharClass::Is(marker));
    &&& k + 1 < s.len()
    &&& is_semver(s.take(k))
    &&& all_decimal_digits(s.skip(k + 1))
}

/// The number after the marker of a marked name.
pub open spec fn marked_number(s: Seq<char>, marker: char) -> Option<u32> {
    parse_u32(s.skip(first_where(s, 0, CharClass::Is(marker)) + 1))
}

/// The version that a directory name denotes, with the given timestamp: a
/// daily build, a stable patch (`p`) or a beta (`b`), tried in that order. A
/// bare base version, anything else, and a number beyond `u32` give `None`.
pub open spec fn version_of_name(s: Seq<char>, ts: Seq<char>) -> Option<VersionView> {
    if is_daily_name(s) {
        Some(
            VersionView {
                base: s.take(s.len() - 11),
                kind: VersionKindView::Daily { date: s.skip(s.len() - 10) },
                timestamp: ts,
            },
        )
    } else if is_marked_name(s, 'p') {
        match marked_number(s, 'p') {
            Some(n) => Some(
                VersionView {
                    base: s.take(first_where(s, 0, CharClass::Is('p'))),
                    kind: VersionKindView::StablePatch { patch: n },
                    timestamp: ts,
                },
            ),
            None => None,
        }
    } else if is_marked_name(s, 'b') {
        match marked_number(s, 'b') {
            Some(n) => Some(
                VersionView {
                    base: s.take(first_where(s, 0, CharClass::Is('b'))),
                    kind: VersionKindView::Beta { num: n },
                    timestamp: ts,
                },
            ),
            None => None,
        }
    } else {
        None
    }
}

pub open spec fn opt_version_view(o: Option<Version>) -> Option<VersionView> {
    match o {
        Some(v) => Some(v@),
        None => None,
    }
}

/// `semver_prefix_end` of `v[lo..hi]`, counted in `v`.
fn semver_end(v: &Vec<char>, lo: usize, hi: usize) -> (r: Option<usize>)
    requires
        lo <= hi <= v.len(),
    ensures
        match r {
            Some(e) => lo <= e <= hi && e - lo == semver_prefix_end(v@.subrange(lo as int, hi as int)),
            None => semver_prefix_end(v@.subrange(lo as int, hi as int)) < 0,
        },
{
    let ghost g = v@.subrange(lo as int, hi as int);
    let p = find_class_in(v, lo, lo, hi, CharClass::NonDigit);
    if !(lo < p && p < hi && v[p] == '.') {
        return None;
    }
    assert(g[p - lo] == v@[p as int]);
    let q = find_class_in(v, lo, p + 1, hi, CharClass::NonDigit);
    if !(p + 1 < q && q < hi && v[q] == '.') {
        return None;
    }
    assert(g[q - lo] == v@[q as int]);
    let r = find_class_in(v, lo, q + 1, hi, CharClass::NonDigit);
    if !(q + 1 < r) {
        return None;
    }
    Some(r)
}

/// `version_of_name` of `v[lo..hi]`.
fn version_of_range(v: &Vec<char>, lo: usize, hi: usize, timestamp: String) -> (r: Option<Version>)
    requires
        lo <= hi <= v.len(),
    ensures
        opt_version_view(r) == version_of_name(v@.subrange(lo as int, hi as int), timestamp@),
{
    let ghost s = v@.subrange(lo as int, hi as int);
    let date_t: [char; 10] = ['9', '9', '9', '9', '.', '9', '9', '.', '9', '9'];
    assert(date_t@ =~= date_template());
    // a daily build: <base>-<YYYY.MM.DD>
    if hi - lo >= 11 && v[hi - 11] == '-' {
        let dash = hi - 11;
        assert(s[s.len() - 11] == v@[dash as int]);
        let base_end = semver_end(v, lo, dash);
        let date_ok = template_at(v, hi - 10, &date_t);
        assert(s.take(s.len() - 11) =~= v@.subrange(lo as int, dash as int));
        assert(s.skip(s.len() - 10) =~= v@.subrange(hi - 10, hi as int));
        if base_end == Some(dash) && date_ok {
            let base = string_of_range(v, lo, dash);
            let date = string_of_range(v, hi - 10, hi);
            return Some(Version { base, kind: VersionKind::Daily { date }, timestamp });
        }
    } else {
        if hi - lo >= 11 {
            assert(s[s.len() - 11] == v@[hi - 11]);
        }
    }
    assert(!is_daily_name(s));
    // a stable patch or a beta: <base>p<n> or <base>b<n>
    let ghost mut marker_seen: bool = false;
    let mut m: usize = 0;
    while m < 2
        invariant
            m <= 2,
            lo <= hi <= v.len(),
            s == v@.subrange(lo as int, hi as int),
            !is_daily_name(s),
            m >= 1 ==> !is_marked_name(s, 'p'),
            m >= 2 ==> !is_marked_name(s, 'b'),
        decreases 2 - m,
    {
        let marker = if m == 0 {
            'p'
        } else {
            'b'
        };
        let k = find_class_in(v, lo, lo, hi, CharClass::Is(marker));
        if k < hi && hi - k > 1 {
            let base_end = semver_end(v, lo, k);
            assert(s.take(k - lo) =~= v@.subrange(lo as int, k as int));
            assert(s.skip(k - lo + 1) =~= v@.subrange(k + 1, hi as int));
            if base_end == Some(k) {
                let n = parse_u32_range(v, k + 1, hi);
                // all digits after the marker?
                let mut j = k + 1;
                let mut digits = true;
                while j < hi
                    invariant
                        k + 1 <= j <= hi <= v.len(),
                        digits == all_decimal_digits(v@.subrange(k + 1, j as int)),
                    decreases hi - j,
                {
                    let c = v[j];
                    let d = char_is_decimal_digit(c);
                    proof {
                        let x = v@.subrange(k + 1, j as int);
                        let y = v@.subrange(k + 1, j + 1);
                        assert(y =~= x.push(c));
                        if all_decimal_digits(y) {
                            assert(is_decimal_digit(y[x.len() as int]));
                            assert forall|i: int| 0 <= i < x.len() implies is_decimal_digit(#[trigger] x[i]) by {
                                assert(y[i] == x[i]);
                            }
                        }
                        if all_decimal_digits(x) && is_decimal_digit(c) {
                            assert forall|i: int| 0 <= i < y.len() implies is_decimal_digit(#[trigger] y[i]) by {
                                if i < x.len() {
                                    assert(y[i] == x[i]);
                                }
                            }
                        }
                    }
                    digits = digits && d;
                    j = j + 1;
                }
                if digits {
                    match n {
                        Some(num) => {
                            let base = string_of_range(v, lo, k);
                            let kind = if m == 0 {
                                VersionKind::StablePatch { patch: num }
                            } else {
                                VersionKind::Beta { num }
                            };
                            return Some(Version { base, kind, timestamp });
                        },
                        None => {
                            return None;
                        },
                    }
                }
            }
        }
        m = m + 1;
    }
    None
}

/// Reads a version directory name; `None` for a bare base version, any other
/// name, or a number that does not fit in `u32`.
pub fn parse_version_from_str(s: &str, timestamp: String) -> (r: Option<Version>)
    ensures
        opt_version_view(r) == version_of_name(s@, timestamp@),
{
    let v = chars_of(s);
    assert(v@.subrange(0, v@.len() as int) =~= s@);
    version_of_range(&v, 0, v.len(), timestamp)
}


// ── The directory listing ────────────────────────────────────────────────────

/// `lit` stands in `s` at `i`.
pub open spec fn lit_at(s: Seq<char>, i: int, lit: Seq<char>) -> bool {
    0 <= i && i + lit.len() <= s.len() && s.subrange(i, i + lit.len()) == lit
}

pub open spec fn href_open() -> Seq<char> {
    seq!['h', 'r', 'e', 'f', '=', '"']
}

pub open spec fn link_close() -> Seq<char> {
    seq!['/', '"', '>']
}

pub open spec fn cell_break() -> Seq<char> {
    seq!['<', '/', 'a', '>', '<', '/', 't', 'd', '>', '<', 't', 'd']
}

/// A row of the listing found at some position: where it ends, the version
/// directory name and the modification time.
pub struct RowMatch {
    pub end: int,
    pub name: Seq<char>,
    pub timestamp: Seq<char>,
}

/// The row of the listing that starts at `i`, if one does. A row is
/// `href="NAME/">…</a></td><td…>` followed by optional spaces and the time
/// `YYYY-MM-DD HH:MM`, where NAME starts with `D.D.D` (runs of digits) and
/// holds no `"` or `/`; the `…` hold no `<` and no `>` respectively.
pub open spec fn row_at(s: Seq<char>, i: int) -> Option<RowMatch> {
    if !lit_at(s, i, href_open()) {
        None
    } else {
        let a = i + 6;
        let name_end = first_where(s, a, CharClass::QuoteOrSlash);
        let name = s.subrange(a, name_end);
        if !(starts_with_semver(name) && lit_at(s, name_end, link_close())) {
            None
        } else {
            let lt = first_where(s, name_end + 3, CharClass::Is('<'));
            if !lit_at(s, lt, cell_break()) {
                None
            } else {
                let gt = first_where(s, lt + 12, CharClass::Is('>'));
                if gt >= s.len() {
                    None
                } else {
                    let t = first_where(s, gt + 1, CharClass::IsNot(' '));
                    if t + 16 <= s.len() && fits_template(s.subrange(t, t + 16), timestamp_template()) {
                        Some(RowMatch { end: t + 16, name, timestamp: s.subrange(t, t + 16) })
                    } else {
                        None
                    }
                }
            }
        }
    }
}

/// The rows of the listing from position `i` on, leftmost first and without
/// overlap: a search resumes where the last row found ended.
pub open spec fn rows_from(s: Seq<char>, i: int) -> Seq<(Seq<char>, Seq<char>)>
    decreases s.len() - i,
{
    if i < 0 || i >= s.len() {
        Seq::empty()
    } else {
        match row_at(s, i) {
            Some(m) => if i < m.end <= s.len() {
                seq![(m.name, m.timestamp)] + rows_from(s, m.end)
            } else {
                Seq::empty()
            },
            None => rows_from(s, i + 1),
        }
    }
}

/// The versions that the rows denote, in order; rows that name no version
/// are skipped.
pub open spec fn versions_of_rows(rows: Seq<(Seq<char>, Seq<char>)>) -> Seq<VersionView>
    decreases rows.len(),
{
    if rows.len() == 0 {
        Seq::empty()
    } else {
        let before = versions_of_rows(rows.drop_last());
        match version_of_name(rows.last().0, rows.last().1) {
            Some(v) => before.push(v),
            None => before,
        }
    }
}

/// The versions of a whole listing page.
pub open spec fn listing_versions(html: Seq<char>) -> Seq<VersionView> {
    versions_of_rows(rows_from(html, 0))
}

pub open spec fn versions_view(vs: Seq<Version>) -> Seq<VersionView> {
    vs.map_values(|v: Version| v@)
}

/// The row at `i`: the bounds of its name and of its time, the time ending
/// the row.
fn match_row(v: &Vec<char>, i: usize) -> (r: Option<(usize, usize, usize, usize)>)
    requires
        i <= v.len(),
    ensures
        match r {
            None => row_at(v@, i as int) is None,
            Some((a, b, c, e)) => {
                &&& i < a <= b <= c <= e <= v.len()
                &&& row_at(v@, i as int) == Some(
                    RowMatch {
                        end: e as int,
                        name: v@.subrange(a as int, b as int),
                        timestamp: v@.subrange(c as int, e as int),
                    },
                )
            },
        },
{
    let href: [char; 6] = ['h', 'r', 'e', 'f', '=', '"'];
    let close: [char; 3] = ['/', '"', '>'];
    let cell: [char; 12] = ['<', '/', 'a', '>', '<', '/', 't', 'd', '>', '<', 't', 'd'];
    let stamp: [char; 16] = [
        '9',
        '9',
        '9',
        '9',
        '-',
        '9',
        '9',
        '-',
        '9',
        '9',
        ' ',
        '9',
        '9',
        ':',
        '9',
        '9',
    ];
    assert(href@ =~= href_open());
    assert(close@ =~= link_close());
    assert(cell@ =~= cell_break());
    assert(stamp@ =~= timestamp_template());
    if !literal_at(v, i, &href) {
        return None;
    }
    let a = i + 6;
    let name_end = find_first(v, a, CharClass::QuoteOrSlash);
    let se = semver_end(v, a, name_end);
    if se.is_none() || !literal_at(v, name_end, &close) {
        return None;
    }
    let lt = find_first(v, name_end + 3, CharClass::Is('<'));
    if !literal_at(v, lt, &cell) {
        return None;
    }
    let gt = find_first(v, lt + 12, CharClass::Is('>'));
    if gt >= v.len() {
        return None;
    }
    let t = find_first(v, gt + 1, CharClass::IsNot(' '));
    if !template_at(v, t, &stamp) {
        return None;
    }
    Some((a, name_end, t, t + 16))
}

/// The versions listed in the server's directory page, in page order.
pub fn parse_versions_from_html(html: &str) -> (r: Vec<Version>)
    ensures
        versions_view(r@) == listing_versions(html@),
{
    let v = chars_of(html);
    let mut out: Vec<Version> = Vec::new();
    let ghost mut done: Seq<(Seq<char>, Seq<char>)> = Seq::empty();
    let mut i: usize = 0;
    assert(versions_view(out@) =~= versions_of_rows(done));
    while i < v.len()
        invariant
            i <= v.len(),
            v@ == html@,
            rows_from(v@, 0) == done + rows_from(v@, i as int),
            versions_view(out@) == versions_of_rows(done),
        decreases v.len() - i,
    {
        match match_row(&v, i) {
            Some((a, b, c, e)) => {
                let stamp = string_of_range(&v, c, e);
                let found = version_of_range(&v, a, b, stamp);
                let ghost row = (v@.subrange(a as int, b as int), v@.subrange(c as int, e as int));
                assert(rows_from(v@, i as int) == seq![row] + rows_from(v@, e as int));
                let ghost old_out = out@;
                let ghost old_done = done;
                proof {
                    done = done.push(row);
                    assert(old_done + rows_from(v@, i as int) =~= done + rows_from(v@, e as int));
                    assert(done.drop_last() =~= old_done);
                }
                match found {
                    Some(ver) => {
                        out.push(ver);
                        assert(versions_view(out@) =~= versions_view(old_out).push(ver@));
                    },
                    None => {},
                }
                i = e;
            },
            None => {
                i = i + 1;
            },
        }
    }
    assert(done + rows_from(v@, i as int) =~= done);
    out
}


// ── Version groups ───────────────────────────────────────────────────────────

/// Versions sharing the same base version, newest first: one tab of the
/// version browser.
#[derive(Debug, Clone)]
pub struct VersionGroup {
    pub base: String,
    pub versions: Vec<Version>,
}

pub struct VersionGroupView {
    pub base: Seq<char>,
    pub versions: Seq<VersionView>,
}

impl View for VersionGroup {
    type V = VersionGroupView;

    open spec fn view(&self) -> VersionGroupView {
        VersionGroupView { base: self.base@, versions: versions_view(self.versions@) }
    }
}

pub open spec fn groups_view(gs: Seq<VersionGroup>) -> Seq<VersionGroupView> {
    gs.map_values(|g: VersionGroup| g@)
}

/// The numbers of the fields that parse as `u32`, in order.
pub open spec fn parsed_fields(fields: Seq<Seq<char>>) -> Seq<u32>
    decreases fields.len(),
{
    if fields.len() == 0 {
        Seq::empty()
    } else {
        let before = parsed_fields(fields.drop_last());
        match parse_u32(fields.last()) {
            Some(n) => before.push(n),
            None => before,
        }
    }
}

pub open spec fn nth_or_zero(s: Seq<u32>, i: int) -> u32 {
    if 0 <= i < s.len() {
        s[i]
    } else {
        0
    }
}

/// The sort key of a base version: the first three `.`-separated fields that
/// parse as `u32`, 0 for each one missing.
pub open spec fn semver_key(s: Seq<char>) -> (u32, u32, u32) {
    let n = parsed_fields(split_on(s, '.'));
    (nth_or_zero(n, 0), nth_or_zero(n, 1), nth_or_zero(n, 2))
}

/// `a` comes before `b` in the lexicographic order of the triples.
pub open spec fn key_less(a: (u32, u32, u32), b: (u32, u32, u32)) -> bool {
    a.0 < b.0 || (a.0 == b.0 && (a.1 < b.1 || (a.1 == b.1 && a.2 < b.2)))
}

/// `(major, minor, patch)` of a base version, for ordering: "2.10.0" sorts
/// after "2.9.0".
pub fn parse_semver(s: &str) -> (r: (u32, u32, u32))
    ensures
        r == semver_key(s@),
{
    let v = chars_of(s);
    let fields = split_ranges(&v, 0, v.len(), '.');
    assert(v@.subrange(0, v@.len() as int) =~= s@);
    let ghost pieces = ranges_view(v@, fields@);
    let mut nums: Vec<u32> = Vec::new();
    let mut k: usize = 0;
    assert(pieces.take(0) =~= Seq::<Seq<char>>::empty());
    while k < fields.len()
        invariant
            k <= fields.len(),
            pieces == ranges_view(v@, fields@),
            pieces == split_on(s@, '.'),
            crate::text::ranges_within(fields@, 0, v@.len() as int),
            nums@ == parsed_fields(pieces.take(k as int)),
        decreases fields.len() - k,
    {
        let (lo, hi) = fields[k];
        assert(pieces[k as int] == v@.subrange(lo as int, hi as int));
        assert(pieces.take(k + 1).drop_last() =~= pieces.take(k as int));
        match parse_u32_range(&v, lo, hi) {
            Some(n) => {
                nums.push(n);
            },
            None => {},
        }
        k = k + 1;
    }
    assert(pieces.take(k as int) =~= pieces);
    let a = if nums.len() > 0 {
        nums[0]
    } else {
        0
    };
    let b = if nums.len() > 1 {
        nums[1]
    } else {
        0
    };
    let c = if nums.len() > 2 {
        nums[2]
    } else {
        0
    };
    (a, b, c)
}

/// The first index of a group with base `b`, or -1.
pub open spec fn base_index(gs: Seq<VersionGroupView>, b: Seq<char>) -> int
    decreases gs.len(),
{
    if gs.len() == 0 {
        -1
    } else {
        let k = base_index(gs.drop_last(), b);
        if k >= 0 {
            k
        } else if gs.last().base == b {
            gs.len() - 1
        } else {
            -1
        }
    }
}

/// The versions gathered by base version: groups in the order in which their
/// base first occurs, each group's versions in input order.
pub open spec fn grouped(vs: Seq<VersionView>) -> Seq<VersionGroupView>
    decreases vs.len(),
{
    if vs.len() == 0 {
        Seq::empty()
    } else {
        let g = grouped(vs.drop_last());
        let x = vs.last();
        let k = base_index(g, x.base);
        if k >= 0 {
            g.update(k, VersionGroupView { base: g[k].base, versions: g[k].versions.push(x) })
        } else {
            g.push(VersionGroupView { base: x.base, versions: seq![x] })
        }
    }
}

pub open spec fn group_key(g: VersionGroupView) -> (u32, u32, u32) {
    semver_key(g.base)
}

/// `output` is `input` reordered by `p` (`output[i] == input[p[i]]`), newest
/// base first, and groups with equal keys keep their input order.
pub open spec fn sorts_newest_first(
    input: Seq<VersionGroupView>,
    output: Seq<VersionGroupView>,
    p: Seq<int>,
) -> bool {
    &&& p.len() == input.len()
    &&& output.len() == input.len()
    &&& forall|i: int| 0 <= i < p.len() ==> 0 <= #[trigger] p[i] < input.len()
    &&& forall|i: int| 0 <= i < p.len() ==> #[trigger] output[i] == input[p[i]]
    &&& forall|i: int, j: int| 0 <= i < j < p.len() ==> p[i] != p[j]
    &&& forall|i: int, j: int|
        0 <= i < j < output.len() ==> !key_less(
            group_key(#[trigger] output[i]),
            group_key(#[trigger] output[j]),
        )
    &&& forall|i: int, j: int|
        0 <= i < j < output.len() && group_key(#[trigger] output[i]) == group_key(
            #[trigger] output[j],
        ) ==> p[i] < p[j]
}

/// Whether the base of `g` is `b`.
fn same_base(g: &VersionGroup, b: &String) -> (r: bool)
    ensures
        r == (g@.base == b@),
{
    g.base == *b
}

/// The first index of a group with base `b`, if any.
fn find_group(groups: &Vec<VersionGroup>, b: &String) -> (r: Option<usize>)
    ensures
        match r {
            Some(k) => k < groups@.len() && k as int == base_index(groups_view(groups@), b@),
            None => base_index(groups_view(groups@), b@) == -1,
        },
{
    let ghost gv = groups_view(groups@);
    let mut k: usize = 0;
    while k < groups.len()
        invariant
            k <= groups@.len(),
            gv == groups_view(groups@),
            base_index(gv.take(k as int), b@) == -1,
        decreases groups.len() - k,
    {
        assert(gv.take(k + 1).drop_last() =~= gv.take(k as int));
        if same_base(&groups[k], b) {
            proof {
                lemma_base_index_prefix(gv, b@, k as int);
            }
            return Some(k);
        }
        k = k + 1;
    }
    assert(gv.take(k as int) =~= gv);
    None
}

/// A base found in a prefix is found at the same index in the whole.
proof fn lemma_base_index_prefix(gs: Seq<VersionGroupView>, b: Seq<char>, k: int)
    requires
        0 <= k < gs.len(),
        base_index(gs.take(k), b) == -1,
        gs[k].base == b,
    ensures
        base_index(gs, b) == k,
    decreases gs.len(),
{
    if gs.len() == k + 1 {
        assert(gs.drop_last() =~= gs.take(k));
    } else {
        assert(gs.drop_last().take(k) =~= gs.take(k));
        lemma_base_index_prefix(gs.drop_last(), b, k);
    }
}

proof fn lemma_base_index_range(gs: Seq<VersionGroupView>, b: Seq<char>)
    ensures
        -1 <= base_index(gs, b) < gs.len(),
        base_index(gs, b) >= 0 ==> gs[base_index(gs, b)].base == b,
    decreases gs.len(),
{
    if gs.len() > 0 {
        lemma_base_index_range(gs.drop_last(), b);
    }
}



/// Input index `i` goes before input index `j` in a newest-first stable
/// sort: its key is greater, or the keys tie and it comes first.
pub open spec fn sorts_before(input: Seq<VersionGroupView>, i: int, j: int) -> bool {
    key_less(group_key(input[j]), group_key(input[i])) || (group_key(input[i]) == group_key(input[j])
        && i < j)
}

/// A reordering that sorts newest first takes every input index.
proof fn lemma_sorting_onto(input: Seq<VersionGroupView>, output: Seq<VersionGroupView>, p: Seq<int>, x: int)
    requires
        sorts_newest_first(input, output, p),
        0 <= x < input.len(),
    ensures
        exists|i: int| 0 <= i < p.len() && #[trigger] p[i] == x,
{
    assert(p.no_duplicates()) by {
        assert forall|i: int, j: int| 0 <= i < p.len() && 0 <= j < p.len() && i != j implies p[i] != p[j] by {
            if i < j {
            } else {
            }
        }
    }
    p.unique_seq_to_set();
    let range = vstd::set_lib::set_int_range(0, input.len() as int);
    vstd::set_lib::lemma_int_range(0, input.len() as int);
    assert(p.to_set().subset_of(range)) by {
        assert forall|y: int| p.to_set().contains(y) implies range.contains(y) by {
            let i = choose|i: int| 0 <= i < p.len() && p[i] == y;
        }
    }
    vstd::set_lib::lemma_len_subset(p.to_set(), range);
    vstd::set_lib::lemma_subset_equality(p.to_set(), range);
    assert(range.contains(x));
    assert(p.to_set().contains(x));
}

/// Consecutive places of a sorting reordering follow `sorts_before`.
proof fn lemma_sorting_before(input: Seq<VersionGroupView>, output: Seq<VersionGroupView>, p: Seq<int>, a: int, b: int)
    requires
        sorts_newest_first(input, output, p),
        0 <= a < b < p.len(),
    ensures
        sorts_before(input, p[a], p[b]),
{
    assert(output[a] == input[p[a]] && output[b] == input[p[b]]);
    assert(!key_less(group_key(output[a]), group_key(output[b])));
}

/// Two sorting reorderings of the same groups agree on their first `k` places.
proof fn lemma_prefix_agree(
    input: Seq<VersionGroupView>,
    o1: Seq<VersionGroupView>,
    p1: Seq<int>,
    o2: Seq<VersionGroupView>,
    p2: Seq<int>,
    k: int,
)
    requires
        sorts_newest_first(input, o1, p1),
        sorts_newest_first(input, o2, p2),
        0 <= k <= input.len(),
    ensures
        forall|c: int| 0 <= c < k ==> #[trigger] p1[c] == p2[c],
    decreases k,
{
    if k > 0 {
        let m = k - 1;
        lemma_prefix_agree(input, o1, p1, o2, p2, m);
        let x = p1[m];
        let y = p2[m];
        if x != y {
            if sorts_before(input, x, y) {
                lemma_sorting_onto(input, o2, p2, x);
                let c = choose|i: int| 0 <= i < p2.len() && #[trigger] p2[i] == x;
                if c < m {
                    assert(p1[c] == x);
                } else {
                    lemma_sorting_before(input, o2, p2, m, c);
                }
            } else {
                lemma_sorting_onto(input, o1, p1, y);
                let d = choose|i: int| 0 <= i < p1.len() && #[trigger] p1[i] == y;
                if d < m {
                    assert(p2[d] == y);
                } else {
                    lemma_sorting_before(input, o1, p1, m, d);
                }
            }
        }
    }
}

/// A newest-first stable sort is unique: two reorderings that both sort the
/// same groups give the same result, so `group_by_base`'s contract
/// determines its output.
pub proof fn lemma_sort_unique(
    input: Seq<VersionGroupView>,
    o1: Seq<VersionGroupView>,
    p1: Seq<int>,
    o2: Seq<VersionGroupView>,
    p2: Seq<int>,
)
    requires
        sorts_newest_first(input, o1, p1),
        sorts_newest_first(input, o2, p2),
    ensures
        o1 == o2,
{
    lemma_prefix_agree(input, o1, p1, o2, p2, input.len() as int);
    assert forall|i: int| 0 <= i < o1.len() implies o1[i] == o2[i] by {
        assert(p1[i] == p2[i]);
        assert(o1[i] == input[p1[i]]);
        assert(o2[i] == input[p2[i]]);
    }
    assert(o1 =~= o2);
}

/// Newest base first, by `(major, minor, patch)` compared from the major
/// number on: in a sorting reordering, a group that comes earlier has a
/// larger major number, or the same major and a larger minor, or the same
/// major and minor and a patch no smaller than a later group's.
pub proof fn lemma_newest_base_first(
    input: Seq<VersionGroupView>,
    output: Seq<VersionGroupView>,
    p: Seq<int>,
)
    requires
        sorts_newest_first(input, output, p),
    ensures
        forall|i: int, j: int|
            0 <= i < j < output.len() ==> {
                let a = group_key(#[trigger] output[i]);
                let b = group_key(#[trigger] output[j]);
                ||| a.0 > b.0
                ||| a.0 == b.0 && a.1 > b.1
                ||| a.0 == b.0 && a.1 == b.1 && a.2 >= b.2
            },
{
    assert forall|i: int, j: int| 0 <= i < j < output.len() implies {
        let a = group_key(#[trigger] output[i]);
        let b = group_key(#[trigger] output[j]);
        ||| a.0 > b.0
        ||| a.0 == b.0 && a.1 > b.1
        ||| a.0 == b.0 && a.1 == b.1 && a.2 >= b.2
    } by {
        assert(!key_less(group_key(output[i]), group_key(output[j])));
    }
}

/// `key_less` on the executable triples.
fn triple_less(a: (u32, u32, u32), b: (u32, u32, u32)) -> (r: bool)
    ensures
        r == key_less(a, b),
{
    a.0 < b.0 || (a.0 == b.0 && (a.1 < b.1 || (a.1 == b.1 && a.2 < b.2)))
}

/// Inserting the next input group before the first output group with a
/// smaller key keeps the output a stable newest-first sort.
proof fn lemma_insert_sorted(
    input: Seq<VersionGroupView>,
    j: int,
    out: Seq<VersionGroupView>,
    p: Seq<int>,
    pos: int,
)
    requires
        0 <= j < input.len(),
        sorts_newest_first(input.take(j), out, p),
        0 <= pos <= out.len(),
        forall|q: int| 0 <= q < pos ==> !key_less(group_key(#[trigger] out[q]), group_key(input[j])),
        pos < out.len() ==> key_less(group_key(out[pos]), group_key(input[j])),
    ensures
        sorts_newest_first(input.take(j + 1), out.insert(pos, input[j]), p.insert(pos, j)),
{
    let x = input[j];
    let o2 = out.insert(pos, x);
    let p2 = p.insert(pos, j);
    let in2 = input.take(j + 1);
    assert forall|i: int| 0 <= i < p2.len() implies 0 <= #[trigger] p2[i] < in2.len()
        && o2[i] == in2[p2[i]] by {
        if i < pos {
            assert(p2[i] == p[i]);
            assert(o2[i] == out[i]);
        } else if i == pos {
        } else {
            assert(p2[i] == p[i - 1]);
            assert(o2[i] == out[i - 1]);
        }
    }
    assert forall|a: int, b: int| 0 <= a < b < p2.len() implies p2[a] != p2[b] by {
        if a != pos && b != pos {
            let aa = if a < pos { a } else { a - 1 };
            let bb = if b < pos { b } else { b - 1 };
            assert(p2[a] == p[aa]);
            assert(p2[b] == p[bb]);
        } else if a == pos {
            assert(p2[b] == p[b - 1]);
        } else {
            assert(p2[a] == p[a]);
        }
    }
    // no key is below a later key
    assert forall|a: int, b: int| 0 <= a < b < o2.len() implies !key_less(
        group_key(#[trigger] o2[a]),
        group_key(#[trigger] o2[b]),
    ) && (group_key(o2[a]) == group_key(o2[b]) ==> p2[a] < p2[b]) by {
        if a != pos && b != pos {
            let aa = if a < pos { a } else { a - 1 };
            let bb = if b < pos { b } else { b - 1 };
            assert(o2[a] == out[aa]);
            assert(o2[b] == out[bb]);
            assert(p2[a] == p[aa]);
            assert(p2[b] == p[bb]);
        } else if a == pos {
            assert(o2[b] == out[b - 1]);
            assert(p2[b] == p[b - 1]);
            // out[pos] is below x, and out[b - 1] is not above out[pos]
            assert(key_less(group_key(out[pos]), group_key(x)));
            if b - 1 > pos {
                assert(!key_less(group_key(out[pos]), group_key(out[b - 1])));
            }
        } else {
            assert(o2[a] == out[a]);
            assert(p2[a] == p[a]);
            assert(o2[b] == x);
        }
    }
}

/// Groups `versions` by base version, newest base first (by `semver_key`,
/// so "2.10.0" sorts after "2.9.0"); within a group the versions keep their
/// input order, and groups whose keys tie keep the order of first occurrence.
pub fn group_by_base(versions: Vec<Version>) -> (r: Vec<VersionGroup>)
    ensures
        exists|p: Seq<int>|
            #[trigger] sorts_newest_first(grouped(versions_view(versions@)), groups_view(r@), p),
        groups_sound(groups_view(r@)),
        versions@.len() > 0 ==> groups_nonempty(groups_view(r@)),
{
    let ghost input = versions_view(versions@);
    let mut groups: Vec<VersionGroup> = Vec::new();
    let ghost mut n: int = 0;
    for v in it: versions.into_iter()
        invariant
            it.seq() == versions@,
            input == versions_view(versions@),
            groups_view(groups@) == grouped(input.take(it.index() as int)),
    {
        let ghost i = it.index() as int;
        let ghost g0 = groups_view(groups@);
        assert(input.take(i + 1).drop_last() =~= input.take(i));
        assert(input.take(i + 1).last() == v@);
        proof {
            lemma_base_index_range(g0, v@.base);
        }
        match find_group(&groups, &v.base) {
            Some(k) => {
                let mut g = groups.remove(k);
                g.versions.push(v);
                groups.insert(k, g);
                assert(groups_view(groups@) =~= g0.update(
                    k as int,
                    VersionGroupView { base: g0[k as int].base, versions: g0[k as int].versions.push(v@) },
                )) by {
                    assert(versions_view(g.versions@) =~= g0[k as int].versions.push(v@));
                }
            },
            None => {
                let b = v.base.clone();
                let ghost vv = v@;
                let vs = vec![v];
                assert(versions_view(vs@) =~= seq![vv]);
                groups.push(VersionGroup { base: b, versions: vs });
                assert(groups_view(groups@) =~= g0.push(
                    VersionGroupView { base: vv.base, versions: seq![vv] },
                ));
            },
        }
    }
    assert(input.take(input.len() as int) =~= input);
    let ghost gin = groups_view(groups@);
    let mut sorted: Vec<VersionGroup> = Vec::new();
    let mut keys: Vec<(u32, u32, u32)> = Vec::new();
    let ghost mut p: Seq<int> = Seq::empty();
    assert(gin.take(0) =~= Seq::<VersionGroupView>::empty());
    assert(groups_view(sorted@) =~= Seq::<VersionGroupView>::empty());
    for g in it2: groups.into_iter()
        invariant
            it2.seq() == groups@,
            gin == groups_view(groups@),
            keys@.len() == sorted@.len(),
            forall|q: int| 0 <= q < keys@.len() ==> #[trigger] keys@[q] == group_key(sorted@[q]@),
            sorts_newest_first(gin.take(it2.index() as int), groups_view(sorted@), p),
    {
        let ghost j = it2.index() as int;
        let ghost out = groups_view(sorted@);
        assert(gin[j] == g@);
        let key = parse_semver(g.base.as_str());
        let mut pos: usize = 0;
        while pos < keys.len() && !triple_less(keys[pos], key)
            invariant
                pos <= keys@.len(),
                keys@.len() == sorted@.len(),
                out == groups_view(sorted@),
                forall|q: int| 0 <= q < keys@.len() ==> #[trigger] keys@[q] == group_key(sorted@[q]@),
                key == group_key(gin[j]),
                forall|q: int| 0 <= q < pos ==> !key_less(group_key(#[trigger] out[q]), key),
            decreases keys.len() - pos,
        {
            assert(out[pos as int] == sorted@[pos as int]@);
            pos = pos + 1;
        }
        if pos < keys.len() {
            assert(out[pos as int] == sorted@[pos as int]@);
        }
        proof {
            lemma_insert_sorted(gin, j, out, p, pos as int);
            p = p.insert(pos as int, j);
        }
        let ghost gv = g@;
        let ghost old_keys = keys@;
        let ghost old_sorted = sorted@;
        sorted.insert(pos, g);
        keys.insert(pos, key);
        assert(groups_view(sorted@) =~= out.insert(pos as int, gv));
        assert forall|q: int| 0 <= q < keys@.len() implies #[trigger] keys@[q] == group_key(sorted@[q]@) by {
            if q < pos {
                assert(keys@[q] == old_keys[q] && sorted@[q] == old_sorted[q]);
            } else if q == pos {
            } else {
                assert(keys@[q] == old_keys[q - 1] && sorted@[q] == old_sorted[q - 1]);
            }
        }
    }
    assert(gin.take(gin.len() as int) =~= gin);
    proof {
        lemma_grouped_sound(input);
        lemma_sorted_sound(gin, groups_view(sorted@), p);
    }
    sorted
}



/// The install argument is the directory name with the date of a daily
/// build written with hyphens: as long as the directory name, starting with
/// the base version, equal to it for stable patches and betas, and with no
/// dot after the base for daily builds.
pub proof fn lemma_install_arg(v: VersionView)
    ensures
        install_arg_of(v).len() == dir_name_of(v).len(),
        install_arg_of(v).take(v.base.len() as int) == v.base,
        !(v.kind is Daily) ==> install_arg_of(v) == dir_name_of(v),
        v.kind is Daily ==> forall|i: int|
            v.base.len() <= i < install_arg_of(v).len() ==> #[trigger] install_arg_of(v)[i] != '.',
{
    let a = install_arg_of(v);
    assert(a.take(v.base.len() as int) =~= v.base);
    match v.kind {
        VersionKindView::Daily { date } => {
            assert forall|i: int| v.base.len() <= i < a.len() implies #[trigger] a[i] != '.' by {
                if i > v.base.len() {
                    assert(a[i] == dots_to_hyphens(date)[i - v.base.len() - 1]);
                }
            }
        },
        _ => {},
    }
}

/// Groups that a version list was gathered into: each holds at least one
/// version, all of its own base, and no two share a base.
pub open spec fn groups_sound(gs: Seq<VersionGroupView>) -> bool {
    &&& forall|k: int| 0 <= k < gs.len() ==> #[trigger] gs[k].versions.len() > 0
    &&& forall|k: int, j: int|
        0 <= k < gs.len() && 0 <= j < gs[k].versions.len() ==> #[trigger] gs[k].versions[j].base
            == gs[k].base
    &&& forall|a: int, b: int| 0 <= a < b < gs.len() ==> #[trigger] gs[a].base != #[trigger] gs[b].base
}

/// There is a tab, and every tab holds versions.
pub open spec fn groups_nonempty(gs: Seq<VersionGroupView>) -> bool {
    gs.len() > 0 && forall|g: int| 0 <= g < gs.len() ==> #[trigger] gs[g].versions.len() > 0
}

proof fn lemma_base_index_absent(gs: Seq<VersionGroupView>, b: Seq<char>)
    requires
        base_index(gs, b) == -1,
    ensures
        forall|k: int| 0 <= k < gs.len() ==> #[trigger] gs[k].base != b,
    decreases gs.len(),
{
    if gs.len() > 0 {
        lemma_base_index_absent(gs.drop_last(), b);
        assert forall|k: int| 0 <= k < gs.len() implies #[trigger] gs[k].base != b by {
            if k < gs.len() - 1 {
                assert(gs[k] == gs.drop_last()[k]);
            }
        }
    }
}

/// Grouping gives sound groups, and some group whenever there are versions.
pub proof fn lemma_grouped_sound(vs: Seq<VersionView>)
    ensures
        groups_sound(grouped(vs)),
        vs.len() > 0 ==> grouped(vs).len() > 0,
    decreases vs.len(),
{
    if vs.len() > 0 {
        let g = grouped(vs.drop_last());
        let x = vs.last();
        lemma_grouped_sound(vs.drop_last());
        lemma_base_index_range(g, x.base);
        let k = base_index(g, x.base);
        let r = grouped(vs);
        if k >= 0 {
            assert forall|a: int, j: int|
                0 <= a < r.len() && 0 <= j < r[a].versions.len() implies #[trigger] r[a].versions[j].base
                == r[a].base by {
                if a == k && j == g[k].versions.len() {
                } else if a == k {
                    assert(r[a].versions[j] == g[a].versions[j]);
                }
            }
        } else {
            lemma_base_index_absent(g, x.base);
            assert forall|a: int, j: int|
                0 <= a < r.len() && 0 <= j < r[a].versions.len() implies #[trigger] r[a].versions[j].base
                == r[a].base by {
                if a < g.len() {
                    assert(r[a] == g[a]);
                }
            }
            assert forall|a: int, b: int| 0 <= a < b < r.len() implies #[trigger] r[a].base
                != #[trigger] r[b].base by {
                if b == g.len() {
                    assert(r[a] == g[a]);
                } else {
                    assert(r[a] == g[a] && r[b] == g[b]);
                }
            }
        }
    }
}

/// Reordering keeps groups sound.
pub proof fn lemma_sorted_sound(input: Seq<VersionGroupView>, output: Seq<VersionGroupView>, p: Seq<int>)
    requires
        groups_sound(input),
        sorts_newest_first(input, output, p),
    ensures
        groups_sound(output),
        output.len() == input.len(),
{
    assert forall|k: int| 0 <= k < output.len() implies #[trigger] output[k].versions.len() > 0 by {
        assert(output[k] == input[p[k]]);
    }
    assert forall|k: int, j: int|
        0 <= k < output.len() && 0 <= j < output[k].versions.len() implies #[trigger] output[k].versions[j].base
        == output[k].base by {
        assert(output[k] == input[p[k]]);
    }
    assert forall|a: int, b: int| 0 <= a < b < output.len() implies #[trigger] output[a].base
        != #[trigger] output[b].base by {
        assert(output[a] == input[p[a]] && output[b] == input[p[b]]);
        if p[a] < p[b] {
        } else {
        }
    }
}


/// The notation of a version triple, such as "2.10.0".
pub open spec fn semver_text(a: u32, b: u32, c: u32) -> Seq<char> {
    decimal(a as nat).push('.') + decimal(b as nat) + seq!['.'] + decimal(c as nat)
}

/// Digits hold no dot.
proof fn lemma_decimal_no_dot(n: nat)
    ensures
        forall|i: int| 0 <= i < decimal(n).len() ==> #[trigger] decimal(n)[i] != '.',
{
    lemma_decimal(n);
    assert forall|i: int| 0 <= i < decimal(n).len() implies #[trigger] decimal(n)[i] != '.' by {
        assert(crate::text::is_digit(decimal(n)[i]));
    }
}

/// The sort key of a version triple's notation is the triple, so versions
/// sort by number ("2.10.0" after "2.9.0"), not by text.
#[verifier::spinoff_prover]
#[verifier::rlimit(40)]
pub proof fn lemma_semver_key_of_text(a: u32, b: u32, c: u32)
    ensures
        semver_key(semver_text(a, b, c)) == (a, b, c),
{
    let da = decimal(a as nat);
    let db = decimal(b as nat);
    let dc = decimal(c as nat);
    lemma_decimal_no_dot(a as nat);
    lemma_decimal_no_dot(b as nat);
    lemma_decimal_no_dot(c as nat);
    crate::text::lemma_split_on_plain(da, '.');
    crate::text::lemma_split_on_append(da, '.', db);
    let ab = da.push('.') + db;
    crate::text::lemma_split_on_append(ab, '.', dc);
    assert(semver_text(a, b, c) =~= ab.push('.') + dc);
    let fields = split_on(semver_text(a, b, c), '.');
    assert(fields =~= seq![da, db, dc]);
    lemma_parse_decimal(a);
    lemma_parse_decimal(b);
    lemma_parse_decimal(c);
    let f1 = seq![da];
    let f2 = seq![da, db];
    assert(f1.drop_last() =~= Seq::<Seq<char>>::empty());
    assert(f2.drop_last() =~= f1);
    assert(fields.drop_last() =~= f2);
    assert(f1.last() == da && f2.last() == db && fields.last() == dc);
    assert(parsed_fields(Seq::<Seq<char>>::empty()) =~= Seq::<u32>::empty());
    assert(parse_u32(da) == Some(a));
    assert(parsed_fields(f1) == parsed_fields(f1.drop_last()).push(a));
    assert(parsed_fields(f1) =~= seq![a]);
    assert(parsed_fields(f2) == parsed_fields(f2.drop_last()).push(b));
    assert(parsed_fields(f2) =~= seq![a, b]);
    assert(parsed_fields(fields) == parsed_fields(fields.drop_last()).push(c));
    assert(parsed_fields(fields) =~= seq![a, b, c]);
}

/// The editions offered for a version `a.b.c` follow its minor number
/// `b`: from 5 on the new line-up, before 5 the old one; the major and
/// patch numbers do not matter.
#[verifier::spinoff_prover]
#[verifier::rlimit(40)]
pub proof fn lemma_editions_by_minor(a: u32, b: u32, c: u32)
    ensures
        b >= 5 ==> editions_for(semver_text(a, b, c)) == seq![
            Edition::Community,
            Edition::Pro,
            Edition::Ultimate,
            Edition::Ultimatemt,
            Edition::Cloud,
        ],
        b < 5 ==> editions_for(semver_text(a, b, c)) == seq![Edition::Cee, Edition::Cre, Edition::Cloud, Edition::Cme],
{
    let da = decimal(a as nat);
    let db = decimal(b as nat);
    let dc = decimal(c as nat);
    lemma_decimal_no_dot(a as nat);
    lemma_decimal_no_dot(b as nat);
    lemma_decimal_no_dot(c as nat);
    crate::text::lemma_split_on_plain(da, '.');
    crate::text::lemma_split_on_append(da, '.', db);
    let ab = da.push('.') + db;
    crate::text::lemma_split_on_append(ab, '.', dc);
    assert(semver_text(a, b, c) =~= ab.push('.') + dc);
    let fields = split_on(semver_text(a, b, c), '.');
    assert(fields =~= seq![da, db, dc]);
    lemma_parse_decimal(b);
    assert(fields[1] == db);
    assert(minor_of(semver_text(a, b, c)) == b);
}

// ── Credentials and the fetched listing ──────────────────────────────────────

/// The `username:password` pair of a credentials file: the trimmed contents
/// split at the first `:`; `None` when there is no `:`.
pub open spec fn credentials_of(contents: Seq<char>) -> Option<(Seq<char>, Seq<char>)> {
    let t = trim(contents);
    let k = first_where(t, 0, CharClass::Is(':'));
    if k < t.len() {
        Some((t.take(k), t.skip(k + 1)))
    } else {
        None
    }
}

/// A credentials file holding `user:password`, with any whitespace around
/// it, reads back as that user and password, when the user holds no `:`
/// and the pair neither starts nor ends with whitespace.
pub proof fn lemma_credentials_round_trip(lead: Seq<char>, user: Seq<char>, pass: Seq<char>, trail: Seq<char>)
    requires
        forall|i: int| 0 <= i < lead.len() ==> crate::text::is_whitespace(#[trigger] lead[i]),
        forall|i: int| 0 <= i < trail.len() ==> crate::text::is_whitespace(#[trigger] trail[i]),
        forall|i: int| 0 <= i < user.len() ==> #[trigger] user[i] != ':',
        user.len() > 0 ==> !crate::text::is_whitespace(user[0]),
        pass.len() > 0 ==> !crate::text::is_whitespace(pass.last()),
    ensures
        credentials_of(lead + (user.push(':') + pass) + trail) == Some((user, pass)),
{
    let x = user.push(':') + pass;
    assert(x[0] == (if user.len() > 0 { user[0] } else { ':' }));
    assert(x.last() == (if pass.len() > 0 { pass.last() } else { ':' }));
    assert(lead + x + trail =~= lead + (x + trail));
    crate::text::lemma_trim_start_of(lead, x + trail);
    crate::text::lemma_trim_end_of(x, trail);
    assert forall|j: int| 0 <= j < user.len() implies !in_class(CharClass::Is(':'), #[trigger] x[j]) by {
        assert(x[j] == user[j]);
    }
    lemma_first_where(x, 0, CharClass::Is(':'), user.len() as int);
    assert(x.take(user.len() as int) =~= user);
    assert(x.skip(user.len() + 1int) =~= pass);
}

/// Reads `username:password` from the contents of the credentials file.
pub fn parse_credentials(contents: &str) -> (r: Option<(String, String)>)
    ensures
        match r {
            Some((u, p)) => credentials_of(contents@) == Some((u@, p@)),
            None => credentials_of(contents@) is None,
        },
{
    let v = chars_of(contents);
    let (a, b) = trim_range(&v, 0, v.len());
    assert(v@.subrange(0, v@.len() as int) =~= contents@);
    let ghost t = v@.subrange(a as int, b as int);
    let k = find_class_in(&v, a, a, b, CharClass::Is(':'));
    if k < b {
        let user = string_of_range(&v, a, k);
        let pass = string_of_range(&v, k + 1, b);
        assert(t.take(k - a) =~= user@);
        assert(t.skip(k - a + 1) =~= pass@);
        Some((user, pass))
    } else {
        None
    }
}

/// The listing's versions newest first (the server lists oldest first),
/// grouped by base; `None` when the page names no version.
pub fn groups_from_listing(html: &str) -> (r: Option<Vec<VersionGroup>>)
    ensures
        r is None <==> listing_versions(html@).len() == 0,
        r matches Some(gs) ==> groups_nonempty(groups_view(gs@)) && groups_sound(groups_view(gs@)),
        r is Some ==> exists|p: Seq<int>|
            #[trigger] sorts_newest_first(
                grouped(listing_versions(html@).reverse()),
                groups_view(r->0@),
                p,
            ),
{
    let mut versions = parse_versions_from_html(html);
    if versions.len() == 0 {
        return None;
    }
    let ghost all = versions_view(versions@);
    let mut newest_first: Vec<Version> = Vec::new();
    while versions.len() > 0
        invariant
            all == listing_versions(html@),
            all.take(versions@.len() as int) == versions_view(versions@),
            versions@.len() <= all.len(),
            versions_view(newest_first@) == all.skip(versions@.len() as int).reverse(),
        decreases versions.len(),
    {
        let ghost before = versions@;
        let ghost nf = newest_first@;
        let v = versions.pop().unwrap();
        newest_first.push(v);
        proof {
            let n = before.len() as int;
            assert(all[n - 1] == versions_view(before)[n - 1]);
            assert(all.take(n - 1) =~= versions_view(versions@));
            assert(all.skip(n - 1).reverse() =~= all.skip(n).reverse().push(all[n - 1]));
            assert(versions_view(newest_first@) =~= versions_view(nf).push(v@));
        }
    }
    assert(all.skip(0) =~= all);
    assert(versions_view(newest_first@) == listing_versions(html@).reverse());
    let ghost arranged = versions_view(newest_first@);
    assert(arranged.len() > 0);
    let gs = group_by_base(newest_first);
    proof {
        let p = choose|p: Seq<int>| sorts_newest_first(grouped(arranged), groups_view(gs@), p);
        assert(sorts_newest_first(grouped(listing_versions(html@).reverse()), groups_view(gs@), p));
        assert(exists|p: Seq<int>| #[trigger] sorts_newest_first(grouped(listing_versions(html@).reverse()), groups_view(gs@), p));
    }
    let r = Some(gs);
    assert(r->0 == gs);
    r
}


// ── Reading back a directory name ────────────────────────────────────────────

/// A version that a directory name can denote: its base is three runs of
/// digits separated by dots, and a daily build's date is `YYYY.MM.DD`.
pub open spec fn is_listable(v: VersionView) -> bool {
    &&& is_semver(v.base)
    &&& v.kind matches VersionKindView::Daily { date } ==> fits_template(date, date_template())
}

/// A base version holds only digits and dots.
pub proof fn lemma_semver_chars(g: Seq<char>)
    requires
        is_semver(g),
    ensures
        forall|i: int| 0 <= i < g.len() ==> is_decimal_digit(#[trigger] g[i]) || g[i] == '.',
{
    let p = first_where(g, 0, CharClass::NonDigit);
    lemma_first_where_skipped(g, 0, CharClass::NonDigit);
    let q = first_where(g, p + 1, CharClass::NonDigit);
    lemma_first_where_skipped(g, p + 1, CharClass::NonDigit);
    lemma_first_where_skipped(g, q + 1, CharClass::NonDigit);
}

/// A directory name with a marker reads back the base and the number.
proof fn lemma_marked_round_trip(base: Seq<char>, marker: char, n: u32)
    requires
        is_semver(base),
        !is_decimal_digit(marker),
        marker != '.',
    ensures
        ({
            let s = base.push(marker) + decimal(n as nat);
            &&& first_where(s, 0, CharClass::Is(marker)) == base.len()
            &&& is_marked_name(s, marker)
            &&& marked_number(s, marker) == Some(n)
            &&& s.take(base.len() as int) == base
        }),
{
    let s = base.push(marker) + decimal(n as nat);
    lemma_semver_chars(base);
    lemma_decimal(n as nat);
    lemma_parse_decimal(n);
    assert forall|j: int| 0 <= j < base.len() implies !in_class(CharClass::Is(marker), #[trigger] s[j]) by {
        assert(s[j] == base[j]);
    }
    lemma_first_where(s, 0, CharClass::Is(marker), base.len() as int);
    assert(s.take(base.len() as int) =~= base);
    assert(s.skip(base.len() as int + 1) =~= decimal(n as nat));
}

/// The characters of a base version followed by a marker and digits are
/// never a `-`.
proof fn lemma_no_hyphen(base: Seq<char>, marker: char, n: u32)
    requires
        is_semver(base),
        marker != '-',
    ensures
        forall|i: int| 0 <= i < (base.push(marker) + decimal(n as nat)).len()
            ==> #[trigger] (base.push(marker) + decimal(n as nat))[i] != '-',
{
    lemma_semver_chars(base);
    lemma_decimal(n as nat);
    let s = base.push(marker) + decimal(n as nat);
    assert forall|i: int| 0 <= i < s.len() implies #[trigger] s[i] != '-' by {
        if i < base.len() {
            assert(s[i] == base[i]);
        } else if i > base.len() {
            assert(s[i] == decimal(n as nat)[i - base.len() - 1]);
        }
    }
}

/// Reading back the directory name of a listable version gives the version:
/// `version_of_name` undoes `dir_name_of`.
pub proof fn lemma_dir_name_round_trip(v: VersionView)
    requires
        is_listable(v),
    ensures
        version_of_name(dir_name_of(v), v.timestamp) == Some(v),
{
    let s = dir_name_of(v);
    match v.kind {
        VersionKindView::Daily { date } => {
            assert(s.len() == v.base.len() + 11);
            assert(s[s.len() - 11] == '-');
            assert(s.take(s.len() - 11) =~= v.base);
            assert(s.skip(s.len() - 10) =~= date);
        },
        VersionKindView::StablePatch { patch } => {
            lemma_marked_round_trip(v.base, 'p', patch);
            lemma_no_hyphen(v.base, 'p', patch);
            if s.len() >= 11 {
                assert(s[s.len() - 11] != '-');
            }
        },
        VersionKindView::Beta { num } => {
            lemma_marked_round_trip(v.base, 'b', num);
            lemma_no_hyphen(v.base, 'b', num);
            lemma_semver_chars(v.base);
            lemma_decimal(num as nat);
            if s.len() >= 11 {
                assert(s[s.len() - 11] != '-');
            }
            // no `p` in the name
            assert forall|j: int| 0 <= j < s.len() implies !in_class(CharClass::Is('p'), #[trigger] s[j]) by {
                if j < v.base.len() {
                    assert(s[j] == v.base[j]);
                } else if j > v.base.len() {
                    assert(s[j] == decimal(num as nat)[j - v.base.len() - 1]);
                }
            }
            lemma_first_where(s, 0, CharClass::Is('p'), s.len() as int);
        },
    }
}

// ── Editions ─────────────────────────────────────────────────────────────────

/// The code that `cmk-dev-install -e` takes.
pub open spec fn edition_code(e: Edition) -> Seq<char> {
    match e {
        Edition::Community => "community"@,
        Edition::Pro => "pro"@,
        Edition::Ultimate => "ultimate"@,
        Edition::Ultimatemt => "ultimatemt"@,
        Edition::Cee => "cee"@,
        Edition::Cre => "cre"@,
        Edition::Cce => "cce"@,
        Edition::Cme => "cme"@,
        Edition::Cloud => "cloud"@,
    }
}

/// The name shown in the edition picker.
pub open spec fn edition_title(e: Edition) -> Seq<char> {
    match e {
        Edition::Community => "Community (free)"@,
        Edition::Pro => "Pro"@,
        Edition::Ultimate => "Ultimate"@,
        Edition::Ultimatemt => "Ultimate Multitenant"@,
        Edition::Cee => "Enterprise (cee)"@,
        Edition::Cre => "Community Raw (cre)"@,
        Edition::Cce => "Cloud (cce)"@,
        Edition::Cme => "Managed Services (cme)"@,
        Edition::Cloud => "Cloud"@,
    }
}

impl Edition {
    pub fn as_str(&self) -> (r: &str)
        ensures
            r@ == edition_code(*self),
    {
        match self {
            Edition::Community => "community",
            Edition::Pro => "pro",
            Edition::Ultimate => "ultimate",
            Edition::Ultimatemt => "ultimatemt",
            Edition::Cee => "cee",
            Edition::Cre => "cre",
            Edition::Cce => "cce",
            Edition::Cme => "cme",
            Edition::Cloud => "cloud",
        }
    }

    pub fn display_name(&self) -> (r: &str)
        ensures
            r@ == edition_title(*self),
    {
        match self {
            Edition::Community => "Community (free)",
            Edition::Pro => "Pro",
            Edition::Ultimate => "Ultimate",
            Edition::Ultimatemt => "Ultimate Multitenant",
            Edition::Cee => "Enterprise (cee)",
            Edition::Cre => "Community Raw (cre)",
            Edition::Cce => "Cloud (cce)",
            Edition::Cme => "Managed Services (cme)",
            Edition::Cloud => "Cloud",
        }
    }
}

} // verus!
