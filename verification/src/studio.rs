//! Names, colors and file naming of the acoustic labelling studio.
use vstd::prelude::*;

use vstd::string::StringExecFns;
use vstd::utf8::{decode_utf8, encode_utf8, is_char_boundary};

verus! {

/// Fishing mode.
#[derive(Debug, Clone, Copy, PartialEq, Eq, Structural)]
pub enum FishingMode {
    /// Float fishing.
    Float,
    /// Lure fishing.
    Lure,
}

impl FishingMode {
    /// The label shown in the interface.
    pub fn label(&self) -> (r: &'static str)
        ensures
            r@ == (match *self {
                FishingMode::Float => "台钓模式"@,
                FishingMode::Lure => "路亚模式"@,
            }),
    {
        match self {
            FishingMode::Float => "台钓模式",
            FishingMode::Lure => "路亚模式",
        }
    }
}

/// Kinds of labelled events.
#[derive(Debug, Clone, PartialEq, Eq)]
pub enum EventType {
    Cast,
    Bite,
    Hit,
    Retrieve,
    Fight,
    Catch,
    Miss,
    Snag,
    Rebait,
    CastFailed,
    Noise,
    Custom(String),
}

/// A color as 8-bit red, green and blue.
#[derive(Debug, Clone, Copy, PartialEq, Eq, Structural)]
pub struct Rgb {
    pub r: u8,
    pub g: u8,
    pub b: u8,
}

/// The color `0xRRGGBB`.
pub open spec fn rgb_of(hex: int) -> Rgb {
    Rgb { r: (hex / 0x10000) as u8, g: ((hex / 0x100) % 0x100) as u8, b: (hex % 0x100) as u8 }
}

impl EventType {
    /// The name shown for the event in the given mode.
    pub fn display_name(&self, mode: FishingMode) -> (r: &'static str)
        ensures
            r@ == (match (*self, mode) {
                (EventType::Cast, FishingMode::Float) => "抛竿入水"@,
                (EventType::Cast, FishingMode::Lure) => "抛竿落水"@,
                (EventType::Bite, _) => "咬钩切水"@,
                (EventType::Hit, _) => "咬饵顿口"@,
                (EventType::Retrieve, _) => "收线搜寻"@,
                (EventType::Fight, _) => "摆杆搏鱼"@,
                (EventType::Catch, FishingMode::Float) => "刺鱼钓获"@,
                (EventType::Catch, FishingMode::Lure) => "起鱼钓获"@,
                (EventType::Miss, _) => "脱钩空竿"@,
                (EventType::Snag, _) => "挂底卡障"@,
                (EventType::Rebait, _) => "换饵/上饵"@,
                (EventType::CastFailed, _) => "抛竿失败"@,
                (EventType::Noise, _) => "干扰杂音"@,
                (EventType::Custom(_), _) => "自定义标记"@,
            }),
    {
        match (self, mode) {
            (EventType::Cast, FishingMode::Float) => "抛竿入水",
            (EventType::Cast, FishingMode::Lure) => "抛竿落水",
            (EventType::Bite, _) => "咬钩切水",
            (EventType::Hit, _) => "咬饵顿口",
            (EventType::Retrieve, _) => "收线搜寻",
            (EventType::Fight, _) => "摆杆搏鱼",
            (EventType::Catch, FishingMode::Float) => "刺鱼钓获",
            (EventType::Catch, FishingMode::Lure) => "起鱼钓获",
            (EventType::Miss, _) => "脱钩空竿",
            (EventType::Snag, _) => "挂底卡障",
            (EventType::Rebait, _) => "换饵/上饵",
            (EventType::CastFailed, _) => "抛竿失败",
            (EventType::Noise, _) => "干扰杂音",
            (EventType::Custom(_), _) => "自定义标记",
        }
    }

    /// The timeline color of the event.
    pub fn color(&self) -> (c: Rgb)
        ensures
            c == rgb_of(
                match *self {
                    EventType::Cast => 0x38bdf8,
                    EventType::Bite | EventType::Hit => 0x4ade80,
                    EventType::Retrieve => 0x818cf8,
                    EventType::Fight => 0xa855f7,
                    EventType::Catch => 0x34d399,
                    EventType::Miss | EventType::Snag => 0xf87171,
                    EventType::Rebait => 0xfb923c,
                    EventType::CastFailed => 0xf43f5e,
                    EventType::Noise => 0xfbbf24,
                    EventType::Custom(_) => 0x94a3b8,
                },
            ),
    {
        match self {
            EventType::Cast => Rgb { r: 0x38, g: 0xbd, b: 0xf8 },
            EventType::Bite | EventType::Hit => Rgb { r: 0x4a, g: 0xde, b: 0x80 },
            EventType::Retrieve => Rgb { r: 0x81, g: 0x8c, b: 0xf8 },
            EventType::Fight => Rgb { r: 0xa8, g: 0x55, b: 0xf7 },
            EventType::Catch => Rgb { r: 0x34, g: 0xd3, b: 0x99 },
            EventType::Miss | EventType::Snag => Rgb { r: 0xf8, g: 0x71, b: 0x71 },
            EventType::Rebait => Rgb { r: 0xfb, g: 0x92, b: 0x3c },
            EventType::CastFailed => Rgb { r: 0xf4, g: 0x3f, b: 0x5e },
            EventType::Noise => Rgb { r: 0xfb, g: 0xbf, b: 0x24 },
            EventType::Custom(_) => Rgb { r: 0x94, g: 0xa3, b: 0xb8 },
        }
    }
}

/// The UTF-8 bytes of `session_`.
pub open spec fn session_prefix() -> Seq<u8> {
    seq![0x73u8, 0x65, 0x73, 0x73, 0x69, 0x6f, 0x6e, 0x5f]
}

/// A recording file named `session_YYYYMMDD_HHMMSS...`: it starts with `session_` and has
/// at least 23 bytes.
pub open spec fn is_session_file_name(b: Seq<u8>) -> bool {
    b.len() >= 23 && b.take(8) == session_prefix()
}

/// The byte positions at which the date and time fields of a session file name are cut.
pub open spec fn session_cuts_ok(b: Seq<u8>) -> bool {
    &&& is_char_boundary(b, 8)
    &&& is_char_boundary(b, 12)
    &&& is_char_boundary(b, 14)
    &&& is_char_boundary(b, 16)
    &&& is_char_boundary(b, 17)
    &&& is_char_boundary(b, 19)
    &&& is_char_boundary(b, 21)
}

/// The text of bytes `from..to` of `b`.
pub open spec fn piece(b: Seq<u8>, from: int, to: int) -> Seq<char> {
    decode_utf8(b.subrange(from, to))
}

/// What the recording list shows for a file: `YYYY-MM-DD HH:MM` taken from the name of a
/// session file, the name itself otherwise.
pub open spec fn timestamp_display(name: Seq<char>) -> Seq<char> {
    let b = encode_utf8(name);
    if is_session_file_name(b) {
        piece(b, 8, 12) + seq!['-'] + piece(b, 12, 14) + seq!['-'] + piece(b, 14, 16) + seq![' ']
            + piece(b, 17, 19) + seq![':'] + piece(b, 19, 21)
    } else {
        name
    }
}

/// The bytes `from..to` of `s` as text.
fn cut(s: &str, from: usize, to: usize) -> (r: String)
    requires
        from <= to <= encode_utf8(s@).len(),
        is_char_boundary(encode_utf8(s@), from as int),
        is_char_boundary(encode_utf8(s@), to as int),
    ensures
        r@ == piece(encode_utf8(s@), from as int, to as int),
{
    let ghost b = encode_utf8(s@);
    let (head, _) = s.split_at(to);
    proof {
        vstd::utf8::encode_utf8_valid_utf8(s@);
        vstd::utf8::encode_utf8_valid_utf8(head@);
        let hb = encode_utf8(head@);
        assert(hb =~= b.subrange(0, to as int));
        if from < to {
            assert(hb[from as int] == b[from as int]);
            vstd::utf8::is_char_boundary_iff_not_is_continuation_byte(hb, from as int);
            vstd::utf8::is_char_boundary_iff_not_is_continuation_byte(b, from as int);
        } else {
            vstd::utf8::is_char_boundary_start_end_of_seq(hb);
        }
    }
    let (_, mid) = head.split_at(from);
    proof {
        assert(encode_utf8(mid@) =~= b.subrange(from as int, to as int));
        vstd::utf8::encode_utf8_decode_utf8(mid@);
    }
    String::from_str(mid)
}

/// The time stamp shown for a recording file (see `timestamp_display`).
pub fn session_timestamp_display(file_name: &str) -> (r: String)
    requires
        is_session_file_name(encode_utf8(file_name@)) ==> session_cuts_ok(encode_utf8(file_name@)),
    ensures
        r@ == timestamp_display(file_name@),
{
    let b = file_name.as_bytes();
    let is_session = b.len() >= 23 && b[0] == 0x73 && b[1] == 0x65 && b[2] == 0x73 && b[3] == 0x73
        && b[4] == 0x69 && b[5] == 0x6f && b[6] == 0x6e && b[7] == 0x5f;
    proof {
        if is_session {
            assert(b@.take(8) =~= session_prefix());
        } else if b@.len() >= 23 && b@.take(8) == session_prefix() {
            assert(b@.take(8)[0] == b@[0]);
            assert(b@.take(8)[1] == b@[1]);
            assert(b@.take(8)[2] == b@[2]);
            assert(b@.take(8)[3] == b@[3]);
            assert(b@.take(8)[4] == b@[4]);
            assert(b@.take(8)[5] == b@[5]);
            assert(b@.take(8)[6] == b@[6]);
            assert(b@.take(8)[7] == b@[7]);
        }
    }
    if !is_session {
        return String::from_str(file_name);
    }
    let mut r = cut(file_name, 8, 12);
    r.append("-");
    let m = cut(file_name, 12, 14);
    r.append(m.as_str());
    r.append("-");
    let d = cut(file_name, 14, 16);
    r.append(d.as_str());
    r.append(" ");
    let hh = cut(file_name, 17, 19);
    r.append(hh.as_str());
    r.append(":");
    let mm = cut(file_name, 19, 21);
    r.append(mm.as_str());
    proof {
        reveal_strlit("-");
        reveal_strlit(" ");
        reveal_strlit(":");
        assert(r@ =~= timestamp_display(file_name@));
    }
    r
}

/// The largest id, or 0 when there is none.
pub open spec fn max_id(ids: Seq<u64>) -> u64
    decreases ids.len(),
{
    if ids.len() == 0 {
        0
    } else if ids.last() > max_id(ids.drop_last()) {
        ids.last()
    } else {
        max_id(ids.drop_last())
    }
}

proof fn lemma_max_id_is_bound(ids: Seq<u64>)
    ensures
        forall|i: int| 0 <= i < ids.len() ==> ids[i] <= max_id(ids),
        ids.len() == 0 || exists|i: int| 0 <= i < ids.len() && ids[i] == max_id(ids),
    decreases ids.len(),
{
    if ids.len() > 0 {
        lemma_max_id_is_bound(ids.drop_last());
        assert forall|i: int| 0 <= i < ids.len() implies ids[i] <= max_id(ids) by {
            if i < ids.len() - 1 {
                assert(ids[i] == ids.drop_last()[i]);
            }
        }
        if max_id(ids) != ids.last() {
            let j = choose|j: int| 0 <= j < ids.len() - 1 && ids.drop_last()[j] == max_id(ids.drop_last());
            assert(ids[j] == ids.drop_last()[j]);
        }
    }
}

/// The id that the next marker or slice of a loaded session gets: one more than the
/// largest id in use, 1 when none is.
pub fn next_free_id(ids: &Vec<u64>) -> (r: u64)
    requires
        forall|i: int| 0 <= i < ids.len() ==> ids@[i] < u64::MAX,
    ensures
        r == max_id(ids@) + 1,
        forall|i: int| 0 <= i < ids.len() ==> ids@[i] < r,
{
    proof {
        lemma_max_id_is_bound(ids@);
    }
    let mut m: u64 = 0;
    let mut i: usize = 0;
    assert(ids@.take(0) =~= Seq::<u64>::empty());
    while i < ids.len()
        invariant
            i <= ids.len(),
            m == max_id(ids@.take(i as int)),
        decreases ids.len() - i,
    {
        assert(ids@.take(i + 1).drop_last() =~= ids@.take(i as int));
        if ids[i] > m {
            m = ids[i];
        }
        i = i + 1;
    }
    assert(ids@.take(ids.len() as int) =~= ids@);
    if ids.len() > 0 {
        let ghost j = choose|j: int| 0 <= j < ids.len() && ids@[j] == max_id(ids@);
        assert(m < u64::MAX);
    }
    m + 1
}

} // verus!
