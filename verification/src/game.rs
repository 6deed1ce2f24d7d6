//! Matching the game process by name, and the single-instance rule.
use vstd::prelude::*;

use crate::text::{chars_of, lowercase_range, lowercase_seq};

verus! {

/// The value of `GetLastError` when the named mutex existed already.
pub const ERROR_ALREADY_EXISTS: u32 = 183;

/// How many characters of the configured process name are compared.
pub const MATCH_PREFIX_CHARS: usize = 12;

/// The first `n` elements of `s` (all of it when it is shorter).
pub open spec fn prefix_upto<A>(s: Seq<A>, n: nat) -> Seq<A> {
    if s.len() > n {
        s.take(n as int)
    } else {
        s
    }
}

/// What is looked for: the first twelve characters of the configured name, lowercased.
pub open spec fn game_needle(game_exe: Seq<char>) -> Seq<char> {
    lowercase_seq(prefix_upto(game_exe, MATCH_PREFIX_CHARS as nat))
}

/// A process name matches the configured one when, with as many of its characters as the
/// needle has, lowercased, it equals the non-empty needle. Case does not matter, nor what
/// follows the twelfth character (version or platform suffixes).
pub open spec fn exe_matches(exe: Seq<char>, game_exe: Seq<char>) -> bool {
    let needle = game_needle(game_exe);
    needle.len() > 0 && lowercase_seq(prefix_upto(exe, needle.len())) == needle
}

/// A visible top-level window and the file name of its process.
#[derive(Debug, Clone)]
pub struct TopWindow {
    pub hwnd: isize,
    pub exe_name: String,
}

/// The window that `find_game_window` picks among `windows`, in enumeration order.
pub open spec fn game_window_of(windows: Seq<TopWindow>, game_exe: Seq<char>) -> Option<isize>
    decreases windows.len(),
{
    if windows.len() == 0 || game_needle(game_exe).len() == 0 {
        None
    } else if exe_matches(windows[0].exe_name@, game_exe) {
        if windows[0].hwnd != 0 {
            Some(windows[0].hwnd)
        } else {
            None
        }
    } else {
        game_window_of(windows.drop_first(), game_exe)
    }
}

/// `find_game_window` and `is_game_in_foreground` follow one rule: the window found
/// belongs to a process whose name matches the game.
pub proof fn lemma_found_window_matches(windows: Seq<TopWindow>, game_exe: Seq<char>)
    ensures
        game_window_of(windows, game_exe) matches Some(h) ==> exists|i: int|
            0 <= i < windows.len() && (#[trigger] windows[i]).hwnd == h && exe_matches(
                windows[i].exe_name@,
                game_exe,
            ),
    decreases windows.len(),
{
    if windows.len() > 0 && game_needle(game_exe).len() > 0 && !exe_matches(
        windows[0].exe_name@,
        game_exe,
    ) {
        let rest = windows.drop_first();
        lemma_found_window_matches(rest, game_exe);
        if let Some(h) = game_window_of(windows, game_exe) {
            let i = choose|i: int|
                0 <= i < rest.len() && (#[trigger] rest[i]).hwnd == h && exe_matches(
                    rest[i].exe_name@,
                    game_exe,
                );
            assert(windows[i + 1] == rest[i]);
        }
    } else if windows.len() > 0 && game_needle(game_exe).len() > 0 {
        if let Some(h) = game_window_of(windows, game_exe) {
            assert(windows[0].hwnd == h);
        }
    }
}

/// Whether the lowercased first characters of `exe` equal `needle`.
fn prefix_equals(exe: &str, needle: &Vec<char>) -> (r: bool)
    ensures
        r == (lowercase_seq(prefix_upto(exe@, needle@.len())) == needle@),
{
    let cs = chars_of(exe);
    let n = if cs.len() > needle.len() {
        needle.len()
    } else {
        cs.len()
    };
    let hay = lowercase_range(&cs, 0, n);
    assert(cs@.subrange(0, n as int) =~= prefix_upto(exe@, needle@.len()));
    if hay.len() != needle.len() {
        return false;
    }
    let mut i: usize = 0;
    while i < hay.len()
        invariant
            i <= hay.len() == needle.len(),
            hay@ == lowercase_seq(prefix_upto(exe@, needle@.len())),
            forall|j: int| 0 <= j < i ==> hay@[j] == needle@[j],
        decreases hay.len() - i,
    {
        if hay[i] != needle[i] {
            assert(hay@[i as int] != needle@[i as int]);
            return false;
        }
        i = i + 1;
    }
    assert(hay@ =~= needle@);
    true
}

/// The needle for `game_exe`.
fn needle_of(game_exe: &str) -> (r: Vec<char>)
    ensures
        r@ == game_needle(game_exe@),
{
    let cs = chars_of(game_exe);
    let n = if cs.len() > MATCH_PREFIX_CHARS {
        MATCH_PREFIX_CHARS
    } else {
        cs.len()
    };
    assert(cs@.subrange(0, n as int) =~= prefix_upto(game_exe@, MATCH_PREFIX_CHARS as nat));
    lowercase_range(&cs, 0, n)
}

/// Whether the foreground process, given by its file name, is the game.
pub fn is_game_in_foreground(foreground_exe: &Option<String>, game_exe: &str) -> (r: bool)
    ensures
        r == match foreground_exe {
            Some(e) => exe_matches(e@, game_exe@),
            None => false,
        },
{
    match foreground_exe {
        None => false,
        Some(exe) => {
            let needle = needle_of(game_exe);
            if needle.len() == 0 {
                return false;
            }
            prefix_equals(exe.as_str(), &needle)
        },
    }
}

/// The first window, in enumeration order, whose process matches the game; `None` when
/// the configured name is empty, when none matches, or when the match has a null handle.
pub fn find_game_window(windows: &Vec<TopWindow>, game_exe: &str) -> (r: Option<isize>)
    ensures
        r == game_window_of(windows@, game_exe@),
{
    let needle = needle_of(game_exe);
    if needle.len() == 0 {
        return None;
    }
    let mut i: usize = 0;
    assert(windows@.skip(0) =~= windows@);
    while i < windows.len()
        invariant
            i <= windows.len(),
            needle@ == game_needle(game_exe@),
            needle@.len() > 0,
            game_window_of(windows@, game_exe@) == game_window_of(
                windows@.skip(i as int),
                game_exe@,
            ),
        decreases windows.len() - i,
    {
        let ghost rest = windows@.skip(i as int);
        assert(rest[0] == windows@[i as int]);
        if prefix_equals(windows[i].exe_name.as_str(), &needle) {
            if windows[i].hwnd != 0 {
                return Some(windows[i].hwnd);
            } else {
                return None;
            }
        }
        assert(rest.drop_first() =~= windows@.skip(i + 1));
        i = i + 1;
    }
    None
}

/// Whether this process holds the single-instance mutex: it was created (the handle is
/// not null) and did not exist before.
pub fn acquire_single_instance(mutex_created: bool, last_error: u32) -> (r: bool)
    ensures
        r == (mutex_created && last_error != ERROR_ALREADY_EXISTS),
{
    if !mutex_created {
        return false;
    }
    last_error != ERROR_ALREADY_EXISTS
}

/// The UTF-16 code units of a character.
pub open spec fn utf16_units(c: char) -> Seq<u16> {
    let v = c as u32;
    if v < 0x10000 {
        seq![v as u16]
    } else {
        let u = v - 0x10000;
        seq![(0xD800 + u / 0x400) as u16, (0xDC00 + u % 0x400) as u16]
    }
}

/// `str::encode_utf16`.
pub open spec fn utf16_of(s: Seq<char>) -> Seq<u16>
    decreases s.len(),
{
    if s.len() == 0 {
        Seq::empty()
    } else {
        utf16_of(s.drop_last()) + utf16_units(s.last())
    }
}

/// `s` in UTF-16, followed by a terminating zero, for the wide-string Windows calls.
pub fn to_wide(s: &str) -> (r: Vec<u16>)
    ensures
        r@ == utf16_of(s@).push(0u16),
{
    let cs = chars_of(s);
    let mut r: Vec<u16> = Vec::new();
    let mut i: usize = 0;
    assert(cs@.take(0) =~= Seq::<char>::empty());
    while i < cs.len()
        invariant
            i <= cs.len(),
            cs@ == s@,
            r@ == utf16_of(cs@.take(i as int)),
        decreases cs.len() - i,
    {
        let c = cs[i];
        let v: u32 = c as u32;
        proof {
            vstd::utf8::char_is_scalar(c);
        }
        if v < 0x10000 {
            r.push(v as u16);
        } else {
            let u = v - 0x10000;
            r.push((0xD800 + u / 0x400) as u16);
            r.push((0xDC00 + u % 0x400) as u16);
        }
        assert(cs@.take(i + 1).drop_last() =~= cs@.take(i as int));
        assert(r@ =~= utf16_of(cs@.take(i as int)) + utf16_units(c));
        i = i + 1;
    }
    assert(cs@.take(cs.len() as int) =~= cs@);
    r.push(0);
    r
}

} // verus!
