//! Release metadata and semantic version comparison for the self-updater.
use vstd::prelude::*;

use crate::text::{
    chars_of, is_white_space, lowercase_range, lowercase_seq, unicode_white_space,
};
use vstd::string::StrSliceExecFns;
use vstd::string::StringExecFns;

verus! {

/// One downloadable file of a release.
#[derive(Debug, Clone)]
pub struct ReleaseAsset {
    pub name: String,
    pub browser_download_url: String,
    pub size: u64,
}

/// The fields of a GitHub release that the updater reads.
#[derive(Debug, Clone)]
pub struct GithubRelease {
    pub tag_name: String,
    pub html_url: String,
    pub body: Option<String>,
    pub assets: Vec<ReleaseAsset>,
}

/// What a check for updates found.
#[derive(Debug, Clone, PartialEq)]
pub struct UpdateInfo {
    pub current_version: String,
    pub latest_version: String,
    pub has_update: bool,
    pub release_url: String,
    pub download_url: Option<String>,
    pub changelog: String,
}

// ---------------------------------------------------------------------------
// Specification of version strings
// ---------------------------------------------------------------------------

/// `s` without the characters at its start for which `p` holds.
pub open spec fn skip_leading(s: Seq<char>, p: spec_fn(char) -> bool) -> Seq<char>
    decreases s.len(),
{
    if s.len() > 0 && p(s[0]) {
        skip_leading(s.drop_first(), p)
    } else {
        s
    }
}

/// `s` without the characters at its end for which `p` holds.
pub open spec fn skip_trailing(s: Seq<char>, p: spec_fn(char) -> bool) -> Seq<char>
    decreases s.len(),
{
    if s.len() > 0 && p(s.last()) {
        skip_trailing(s.drop_last(), p)
    } else {
        s
    }
}

pub open spec fn white_space_pred() -> spec_fn(char) -> bool {
    |c: char| unicode_white_space(c)
}

pub open spec fn v_pred() -> spec_fn(char) -> bool {
    |c: char| c == 'v' || c == 'V'
}

/// `str::trim`: white space removed from both ends.
pub open spec fn trimmed(s: Seq<char>) -> Seq<char> {
    skip_trailing(skip_leading(s, white_space_pred()), white_space_pred())
}

/// `trim_start_matches` with `v` and `V`.
pub open spec fn strip_v(s: Seq<char>) -> Seq<char> {
    skip_leading(s, v_pred())
}

/// `str::split('.')`: the pieces between dots, empty ones included; always at least one.
pub open spec fn split_dots(s: Seq<char>) -> Seq<Seq<char>>
    decreases s.len(),
{
    if s.len() == 0 {
        seq![Seq::<char>::empty()]
    } else {
        let prev = split_dots(s.drop_last());
        if s.last() == '.' {
            prev.push(Seq::<char>::empty())
        } else {
            prev.update(prev.len() - 1, prev.last().push(s.last()))
        }
    }
}

pub open spec fn is_ascii_digit(c: char) -> bool {
    '0' <= c <= '9'
}

pub open spec fn all_ascii_digits(s: Seq<char>) -> bool {
    forall|i: int| 0 <= i < s.len() ==> is_ascii_digit(#[trigger] s[i])
}

/// The decimal value of a string of digits.
pub open spec fn decimal_value(s: Seq<char>) -> int
    decreases s.len(),
{
    if s.len() == 0 {
        0
    } else {
        decimal_value(s.drop_last()) * 10 + (s.last() as int - '0' as int)
    }
}

/// `s` without one leading `+`.
pub open spec fn unsigned_digits(s: Seq<char>) -> Seq<char> {
    if s.len() > 0 && s[0] == '+' {
        s.drop_first()
    } else {
        s
    }
}

/// `str::parse::<u32>`: an optional `+`, then one or more ASCII digits whose value fits.
pub open spec fn parse_u32(s: Seq<char>) -> Option<u32> {
    let d = unsigned_digits(s);
    if d.len() > 0 && all_ascii_digits(d) && decimal_value(d) <= u32::MAX {
        Some(decimal_value(d) as u32)
    } else {
        None
    }
}

/// The pieces that parse, as numbers, in order (`filter_map` of `parse_u32`).
pub open spec fn parsed_parts(pieces: Seq<Seq<char>>) -> Seq<u32>
    decreases pieces.len(),
{
    if pieces.len() == 0 {
        Seq::empty()
    } else {
        let prev = parsed_parts(pieces.drop_last());
        match parse_u32(pieces.last()) {
            Some(v) => prev.push(v),
            None => prev,
        }
    }
}

/// The numeric components of a version string such as `" v1.2.3 "`.
pub open spec fn version_parts(s: Seq<char>) -> Seq<u32> {
    parsed_parts(split_dots(strip_v(trimmed(s))))
}

/// `l` is newer than `c`: at the first component where they differ, `l` is larger;
/// if one is a prefix of the other, the longer one is newer.
pub open spec fn parts_newer(l: Seq<u32>, c: Seq<u32>) -> bool
    decreases l.len(),
{
    if l.len() == 0 || c.len() == 0 {
        l.len() > c.len()
    } else if l[0] > c[0] {
        true
    } else if l[0] < c[0] {
        false
    } else {
        parts_newer(l.drop_first(), c.drop_first())
    }
}

/// The meaning of `is_newer_version(latest, current)`.
pub open spec fn version_newer(latest: Seq<char>, current: Seq<char>) -> bool {
    parts_newer(version_parts(latest), version_parts(current))
}

// ---------------------------------------------------------------------------
// Lemmas
// ---------------------------------------------------------------------------

proof fn lemma_skip_leading(s: Seq<char>, p: spec_fn(char) -> bool, i: int)
    requires
        0 <= i <= s.len(),
        forall|j: int| 0 <= j < i ==> p(#[trigger] s[j]),
        i == s.len() || !p(s[i]),
    ensures
        skip_leading(s, p) == s.skip(i),
    decreases i,
{
    if i == 0 {
        assert(s.skip(0) =~= s);
    } else {
        assert forall|j: int| 0 <= j < i - 1 implies p(#[trigger] s.drop_first()[j]) by {
            assert(s.drop_first()[j] == s[j + 1]);
        }
        lemma_skip_leading(s.drop_first(), p, i - 1);
        assert(s.drop_first().skip(i - 1) =~= s.skip(i));
    }
}

proof fn lemma_skip_trailing(s: Seq<char>, p: spec_fn(char) -> bool, k: int)
    requires
        0 <= k <= s.len(),
        forall|j: int| k <= j < s.len() ==> p(#[trigger] s[j]),
        k == 0 || !p(s[k - 1]),
    ensures
        skip_trailing(s, p) == s.take(k),
    decreases s.len() - k,
{
    if k == s.len() {
        assert(s.take(k) =~= s);
    } else {
        assert forall|j: int| k <= j < s.len() - 1 implies p(#[trigger] s.drop_last()[j]) by {
            assert(s.drop_last()[j] == s[j]);
        }
        lemma_skip_trailing(s.drop_last(), p, k);
        assert(s.drop_last().take(k) =~= s.take(k));
    }
}

proof fn lemma_decimal_value_nonneg(s: Seq<char>)
    requires
        all_ascii_digits(s),
    ensures
        decimal_value(s) >= 0,
    decreases s.len(),
{
    if s.len() > 0 {
        assert(is_ascii_digit(s[s.len() - 1]));
        lemma_decimal_value_nonneg(s.drop_last());
    }
}

/// No version is newer than itself.
pub proof fn lemma_parts_newer_irreflexive(a: Seq<u32>)
    ensures
        !parts_newer(a, a),
    decreases a.len(),
{
    if a.len() > 0 {
        lemma_parts_newer_irreflexive(a.drop_first());
    }
}

/// If `a` is newer than `b`, then `b` is not newer than `a`.
pub proof fn lemma_parts_newer_asymmetric(a: Seq<u32>, b: Seq<u32>)
    requires
        parts_newer(a, b),
    ensures
        !parts_newer(b, a),
    decreases a.len(),
{
    if a.len() > 0 && b.len() > 0 && a[0] == b[0] {
        lemma_parts_newer_asymmetric(a.drop_first(), b.drop_first());
    }
}

/// Newer-than is transitive.
pub proof fn lemma_parts_newer_transitive(a: Seq<u32>, b: Seq<u32>, c: Seq<u32>)
    requires
        parts_newer(a, b),
        parts_newer(b, c),
    ensures
        parts_newer(a, c),
    decreases a.len(),
{
    if a.len() > 0 && b.len() > 0 && c.len() > 0 && a[0] == b[0] && b[0] == c[0] {
        lemma_parts_newer_transitive(a.drop_first(), b.drop_first(), c.drop_first());
    }
}

/// Of two different component lists, exactly one is newer.
pub proof fn lemma_parts_newer_total(a: Seq<u32>, b: Seq<u32>)
    requires
        a != b,
    ensures
        parts_newer(a, b) || parts_newer(b, a),
    decreases a.len(),
{
    if a.len() > 0 && b.len() > 0 && a[0] == b[0] {
        if a.drop_first() == b.drop_first() {
            assert(a =~= seq![a[0]] + a.drop_first());
            assert(b =~= seq![b[0]] + b.drop_first());
        }
        lemma_parts_newer_total(a.drop_first(), b.drop_first());
    } else if a.len() == 0 && b.len() == 0 {
        assert(a =~= b);
    }
}

/// `is_newer_version` is a strict order on version strings: no string is newer than
/// itself, newer-than never holds both ways, and it is transitive.
pub proof fn lemma_version_newer_strict_order(a: Seq<char>, b: Seq<char>, c: Seq<char>)
    ensures
        !version_newer(a, a),
        version_newer(a, b) ==> !version_newer(b, a),
        version_newer(a, b) && version_newer(b, c) ==> version_newer(a, c),
{
    lemma_parts_newer_irreflexive(version_parts(a));
    if version_newer(a, b) {
        lemma_parts_newer_asymmetric(version_parts(a), version_parts(b));
        if version_newer(b, c) {
            lemma_parts_newer_transitive(version_parts(a), version_parts(b), version_parts(c));
        }
    }
}

/// Two version strings whose numeric components differ are ordered one way or the other.
pub proof fn lemma_version_newer_total(a: Seq<char>, b: Seq<char>)
    requires
        version_parts(a) != version_parts(b),
    ensures
        version_newer(a, b) || version_newer(b, a),
{
    lemma_parts_newer_total(version_parts(a), version_parts(b));
}

// ---------------------------------------------------------------------------
// Executable code
// ---------------------------------------------------------------------------

/// `str::parse::<u32>` on a piece of a version string.
fn parse_piece(s: &Vec<char>) -> (r: Option<u32>)
    ensures
        r == parse_u32(s@),
{
    let n = s.len();
    let mut i: usize = 0;
    if n > 0 && s[0] == '+' {
        i = 1;
    }
    let ghost d = unsigned_digits(s@);
    assert(d =~= s@.skip(i as int));
    if i == n {
        return None;
    }
    let start = i;
    let cap: u64 = 0x1_0000_0000;
    let mut acc: u64 = 0;
    while i < n
        invariant
            start <= i <= n == s.len(),
            start < n,
            cap == 0x1_0000_0000,
            d == unsigned_digits(s@),
            d =~= s@.skip(start as int),
            all_ascii_digits(s@.subrange(start as int, i as int)),
            acc <= cap,
            acc == (if decimal_value(s@.subrange(start as int, i as int)) < cap {
                decimal_value(s@.subrange(start as int, i as int))
            } else {
                cap as int
            }),
        decreases n - i,
    {
        let c = s[i];
        if !('0' <= c && c <= '9') {
            assert(d[i - start] == c);
            assert(!is_ascii_digit(d[i - start]));
            return None;
        }
        let ghost prefix = s@.subrange(start as int, i as int);
        let ghost next = s@.subrange(start as int, i + 1);
        assert(next.drop_last() =~= prefix);
        assert(next.last() == c);
        proof {
            lemma_decimal_value_nonneg(prefix);
        }
        assert('0' as u32 <= c as u32 <= '9' as u32);
        let digit: u64 = (c as u32 - '0' as u32) as u64;
        assert(digit <= 9);
        assert(acc * 10 + digit <= 10 * cap + 9);
        let v = acc * 10 + digit;
        acc = if v < cap { v } else { cap };
        i = i + 1;
        assert forall|j: int| 0 <= j < next.len() implies is_ascii_digit(#[trigger] next[j]) by {
            if j < prefix.len() {
                assert(next[j] == prefix[j]);
            }
        }
    }
    assert(s@.subrange(start as int, n as int) =~= d);
    if acc < cap {
        Some(acc as u32)
    } else {
        None
    }
}

/// The numeric components of a version string.
fn version_parts_of(s: &str) -> (r: Vec<u32>)
    ensures
        r@ == version_parts(s@),
{
    let cs = chars_of(s);
    let n = cs.len();
    // leading white space
    let mut start: usize = 0;
    while start < n && is_white_space(cs[start])
        invariant
            start <= n == cs.len(),
            forall|j: int| 0 <= j < start ==> unicode_white_space(#[trigger] cs@[j]),
        decreases n - start,
    {
        start = start + 1;
    }
    proof {
        lemma_skip_leading(cs@, white_space_pred(), start as int);
    }
    let ghost lead = cs@.skip(start as int);
    // trailing white space
    let mut end: usize = n;
    while end > start && is_white_space(cs[end - 1])
        invariant
            start <= end <= n == cs.len(),
            forall|j: int| end <= j < n ==> unicode_white_space(#[trigger] cs@[j]),
        decreases end - start,
    {
        end = end - 1;
    }
    proof {
        assert forall|j: int| end - start <= j < lead.len() implies
            (white_space_pred())(#[trigger] lead[j]) by {
            assert(lead[j] == cs@[j + start]);
        }
        if end > start {
            assert(lead[end - start - 1] == cs@[end - 1]);
        }
        lemma_skip_trailing(lead, white_space_pred(), end - start);
        assert(lead.take(end - start) =~= cs@.subrange(start as int, end as int));
    }
    let ghost t = cs@.subrange(start as int, end as int);
    assert(trimmed(s@) == t);
    // leading v / V
    let mut vstart: usize = start;
    while vstart < end && (cs[vstart] == 'v' || cs[vstart] == 'V')
        invariant
            start <= vstart <= end <= n == cs.len(),
            forall|j: int| start <= j < vstart ==> (v_pred())(#[trigger] cs@[j]),
        decreases end - vstart,
    {
        vstart = vstart + 1;
    }
    proof {
        assert forall|j: int| 0 <= j < vstart - start implies (v_pred())(#[trigger] t[j]) by {
            assert(t[j] == cs@[j + start]);
        }
        if vstart < end {
            assert(t[vstart - start] == cs@[vstart as int]);
        }
        lemma_skip_leading(t, v_pred(), vstart - start);
        assert(t.skip(vstart - start) =~= cs@.subrange(vstart as int, end as int));
    }
    let ghost u = cs@.subrange(vstart as int, end as int);
    assert(strip_v(trimmed(s@)) == u);
    // split at dots and parse each piece
    let mut out: Vec<u32> = Vec::new();
    let mut piece: Vec<char> = Vec::new();
    let ghost mut done: Seq<Seq<char>> = Seq::empty();
    let mut i = vstart;
    assert(u.subrange(0, 0) =~= Seq::<char>::empty());
    while i < end
        invariant
            vstart <= i <= end <= n == cs.len(),
            u == cs@.subrange(vstart as int, end as int),
            split_dots(u.subrange(0, i - vstart)) == done.push(piece@),
            out@ == parsed_parts(done),
        decreases end - i,
    {
        let c = cs[i];
        let ghost before = u.subrange(0, i - vstart);
        let ghost after = u.subrange(0, i + 1 - vstart);
        assert(after.drop_last() =~= before);
        assert(after.last() == c);
        if c == '.' {
            let parsed = parse_piece(&piece);
            proof {
                assert(done.push(piece@).drop_last() =~= done);
                assert(done.push(piece@).last() == piece@);
                done = done.push(piece@);
            }
            match parsed {
                Some(v) => out.push(v),
                None => {},
            }
            piece = Vec::new();
        } else {
            piece.push(c);
            assert(done.push(piece@) =~= split_dots(before).update(
                split_dots(before).len() - 1,
                split_dots(before).last().push(c),
            ));
        }
        i = i + 1;
    }
    assert(u.subrange(0, end - vstart) =~= u);
    let parsed = parse_piece(&piece);
    assert(done.push(piece@).drop_last() =~= done);
    match parsed {
        Some(v) => out.push(v),
        None => {},
    }
    out
}

/// Semantic version comparison: whether `latest` is newer than `current`.
///
/// Both strings are trimmed and lose any leading `v`/`V`; their dot-separated pieces
/// that parse as `u32` are compared in order, the first difference deciding; when one
/// list is a prefix of the other, the longer one is newer.
pub fn is_newer_version(latest: &str, current: &str) -> (r: bool)
    ensures
        r == version_newer(latest@, current@),
{
    let l_parts = version_parts_of(latest);
    let c_parts = version_parts_of(current);
    let mut i: usize = 0;
    assert(l_parts@.skip(0) =~= l_parts@);
    assert(c_parts@.skip(0) =~= c_parts@);
    while i < l_parts.len() && i < c_parts.len()
        invariant
            i <= l_parts.len(),
            i <= c_parts.len(),
            l_parts@ == version_parts(latest@),
            c_parts@ == version_parts(current@),
            parts_newer(l_parts@, c_parts@) == parts_newer(
                l_parts@.skip(i as int),
                c_parts@.skip(i as int),
            ),
        decreases l_parts.len() - i,
    {
        let l = l_parts[i];
        let c = c_parts[i];
        assert(l_parts@.skip(i as int)[0] == l);
        assert(c_parts@.skip(i as int)[0] == c);
        assert(l_parts@.skip(i as int).len() > 0);
        assert(c_parts@.skip(i as int).len() > 0);
        if l > c {
            return true;
        }
        if l < c {
            return false;
        }
        assert(l_parts@.skip(i as int).drop_first() =~= l_parts@.skip(i + 1));
        assert(c_parts@.skip(i as int).drop_first() =~= c_parts@.skip(i + 1));
        i = i + 1;
    }
    l_parts.len() > c_parts.len()
}

/// An asset name whose lowercase form ends in `.exe`.
pub open spec fn is_exe_name(name: Seq<char>) -> bool {
    let l = lowercase_seq(name);
    l.len() >= 4 && l.subrange(l.len() - 4, l.len() as int) == seq!['.', 'e', 'x', 'e']
}

/// The position of the first asset with an `.exe` name, if any.
pub open spec fn first_exe_asset(assets: Seq<ReleaseAsset>) -> Option<int>
    decreases assets.len(),
{
    if assets.len() == 0 {
        None
    } else if is_exe_name(assets[0].name@) {
        Some(0)
    } else {
        match first_exe_asset(assets.drop_first()) {
            Some(i) => Some(i + 1),
            None => None,
        }
    }
}

proof fn lemma_first_exe_asset(assets: Seq<ReleaseAsset>)
    ensures
        match first_exe_asset(assets) {
            Some(i) => 0 <= i < assets.len() && is_exe_name(assets[i].name@) && forall|j: int|
                0 <= j < i ==> !is_exe_name(#[trigger] assets[j].name@),
            None => forall|j: int| 0 <= j < assets.len() ==> !is_exe_name(#[trigger] assets[j].name@),
        },
    decreases assets.len(),
{
    if assets.len() > 0 {
        let rest = assets.drop_first();
        lemma_first_exe_asset(rest);
        if !is_exe_name(assets[0].name@) {
            match first_exe_asset(rest) {
                Some(i) => {
                    assert(assets[i + 1] == rest[i]);
                    assert forall|j: int| 0 <= j < i + 1 implies !is_exe_name(
                        #[trigger] assets[j].name@,
                    ) by {
                        if j > 0 {
                            assert(assets[j] == rest[j - 1]);
                            assert(!is_exe_name(rest[j - 1].name@));
                        }
                    }
                },
                None => {
                    assert forall|j: int| 0 <= j < assets.len() implies !is_exe_name(
                        #[trigger] assets[j].name@,
                    ) by {
                        if j > 0 {
                            assert(assets[j] == rest[j - 1]);
                            assert(!is_exe_name(rest[j - 1].name@));
                        }
                    }
                },
            }
        }
    }
}

/// Whether a file name ends in `.exe`, in any letter case.
fn has_exe_suffix(name: &String) -> (r: bool)
    ensures
        r == is_exe_name(name@),
{
    let cs = chars_of(name.as_str());
    let lower = lowercase_range(&cs, 0, cs.len());
    assert(cs@.subrange(0, cs.len() as int) =~= cs@);
    let n = lower.len();
    if n < 4 {
        return false;
    }
    let r = lower[n - 4] == '.' && lower[n - 3] == 'e' && lower[n - 2] == 'x' && lower[n - 1] == 'e';
    proof {
        let tail = lower@.subrange(n - 4, n as int);
        if r {
            assert(tail =~= seq!['.', 'e', 'x', 'e']);
        } else {
            if tail == seq!['.', 'e', 'x', 'e'] {
                assert(tail[0] == lower@[n - 4]);
                assert(tail[1] == lower@[n - 3]);
                assert(tail[2] == lower@[n - 2]);
                assert(tail[3] == lower@[n - 1]);
            }
        }
    }
    r
}

/// The position of the first asset whose name ends in `.exe`.
fn first_exe_index(assets: &Vec<ReleaseAsset>) -> (r: Option<usize>)
    ensures
        match first_exe_asset(assets@) {
            Some(i) => r == Some(i as usize),
            None => r is None,
        },
        r matches Some(i) ==> i < assets.len(),
{
    proof {
        lemma_first_exe_asset(assets@);
    }
    let mut i: usize = 0;
    assert(assets@.skip(0) =~= assets@);
    while i < assets.len()
        invariant
            i <= assets.len(),
            first_exe_asset(assets@) == (match first_exe_asset(assets@.skip(i as int)) {
                Some(j) => Some(j + i),
                None => None,
            }),
        decreases assets.len() - i,
    {
        let ghost rest = assets@.skip(i as int);
        assert(rest[0] == assets@[i as int]);
        if has_exe_suffix(&assets[i].name) {
            return Some(i);
        }
        assert(rest.drop_first() =~= assets@.skip(i + 1));
        i = i + 1;
    }
    None
}

/// The number of `v`/`V` characters that start `cs`.
fn leading_v_count(cs: &Vec<char>) -> (r: usize)
    ensures
        r <= cs.len(),
        strip_v(cs@) == cs@.skip(r as int),
{
    let mut i: usize = 0;
    while i < cs.len() && (cs[i] == 'v' || cs[i] == 'V')
        invariant
            i <= cs.len(),
            forall|j: int| 0 <= j < i ==> (v_pred())(#[trigger] cs@[j]),
        decreases cs.len() - i,
    {
        i = i + 1;
    }
    proof {
        lemma_skip_leading(cs@, v_pred(), i as int);
    }
    i
}

/// What `check_update_sync` reports for a release fetched from GitHub.
///
/// The latest version is the tag without leading `v`/`V`; there is an update when it is
/// newer than `current_version`; the download is the first asset whose name ends in
/// `.exe` in any letter case; a release without notes has an empty changelog.
pub fn update_info_from_release(release: GithubRelease, current_version: String) -> (r:
    UpdateInfo)
    ensures
        r.current_version@ == current_version@,
        r.latest_version@ == strip_v(release.tag_name@),
        r.has_update == version_newer(strip_v(release.tag_name@), current_version@),
        r.release_url@ == release.html_url@,
        r.changelog@ == (match release.body {
            Some(b) => b@,
            None => Seq::<char>::empty(),
        }),
        match first_exe_asset(release.assets@) {
            Some(i) => r.download_url matches Some(u) && u@
                == release.assets@[i].browser_download_url@,
            None => r.download_url is None,
        },
{
    let GithubRelease { tag_name, html_url, body, assets } = release;
    let tag = chars_of(tag_name.as_str());
    let k = leading_v_count(&tag);
    let latest_str = tag_name.as_str().substring_char(k, tag.len());
    let latest_version = String::from_str(latest_str);
    assert(latest_version@ =~= tag@.subrange(k as int, tag@.len() as int));
    let has_update = is_newer_version(latest_version.as_str(), current_version.as_str());
    proof {
        lemma_first_exe_asset(assets@);
    }
    let download_url = match first_exe_index(&assets) {
        Some(i) => {
            let u = assets[i].browser_download_url.clone();
            assert(u@ == assets@[i as int].browser_download_url@);
            Some(u)
        },
        None => None,
    };
    assert(match first_exe_asset(assets@) {
        Some(i) => download_url matches Some(u) && u@ == assets@[i].browser_download_url@,
        None => download_url is None,
    });
    let changelog = match body {
        Some(b) => b,
        None => String::new(),
    };
    UpdateInfo {
        current_version,
        latest_version,
        has_update,
        release_url: html_url,
        download_url,
        changelog,
    }
}

} // verus!
