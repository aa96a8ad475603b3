//! Route colors.
use vstd::prelude::*;
use vstd::string::StringSliceAdditionalSpecFns;

verus! {

/// The value of an ASCII hexadecimal digit (either case).
pub open spec fn hex_val(b: u8) -> Option<int> {
    if 0x30 <= b <= 0x39 {
        Some(b - 0x30)
    } else if 0x61 <= b <= 0x66 {
        Some(b - 0x61 + 10)
    } else if 0x41 <= b <= 0x46 {
        Some(b - 0x41 + 10)
    } else {
        None
    }
}

/// A two-byte color channel as `u8::from_str_radix(_, 16)` reads it (an
/// optional `+` before a single digit is accepted), or 128 when it does not
/// read.
pub open spec fn channel(x: u8, y: u8) -> u8 {
    if x == 0x2b {
        match hex_val(y) {
            Some(v) => v as u8,
            None => 128,
        }
    } else {
        match (hex_val(x), hex_val(y)) {
            (Some(a), Some(b)) => (a * 16 + b) as u8,
            _ => 128,
        }
    }
}

/// The number of leading `#` bytes.
pub open spec fn leading_hashes(b: Seq<u8>) -> int
    decreases b.len(),
{
    if b.len() > 0 && b[0] == 0x23 {
        1 + leading_hashes(b.drop_first())
    } else {
        0
    }
}

/// A UTF-8 continuation byte: never the start of a character.
pub open spec fn is_cont(b: u8) -> bool {
    0x80 <= b < 0xc0
}

/// The bytes of `s` after its leading `#`s.
pub open spec fn color_digits(b: Seq<u8>) -> Seq<u8> {
    b.subrange(leading_hashes(b), b.len() as int)
}

/// The RGB value of a color string: its leading `#`s dropped, the first six
/// bytes read as three hexadecimal channels (128 for a channel that does not
/// read); grey when fewer than six bytes remain.
pub open spec fn color_spec(b: Seq<u8>) -> [u8; 3] {
    let t = color_digits(b);
    if t.len() >= 6 {
        [channel(t[0], t[1]), channel(t[2], t[3]), channel(t[4], t[5])]
    } else {
        [128u8, 128u8, 128u8]
    }
}

/// The channel boundaries fall between characters (elsewhere slicing the
/// string would panic).
pub open spec fn channels_sliceable(b: Seq<u8>) -> bool {
    let t = color_digits(b);
    t.len() >= 6 ==> !is_cont(t[2]) && !is_cont(t[4]) && (t.len() > 6 ==> !is_cont(t[6]))
}

fn hex_val_exec(b: u8) -> (r: Option<u8>)
    ensures
        match r {
            Some(v) => hex_val(b) == Some(v as int),
            None => hex_val(b) is None,
        },
{
    if 0x30 <= b && b <= 0x39 {
        Some(b - 0x30)
    } else if 0x61 <= b && b <= 0x66 {
        Some(b - 0x61 + 10)
    } else if 0x41 <= b && b <= 0x46 {
        Some(b - 0x41 + 10)
    } else {
        None
    }
}

fn channel_exec(x: u8, y: u8) -> (r: u8)
    ensures
        r == channel(x, y),
{
    if x == 0x2b {
        match hex_val_exec(y) {
            Some(v) => v,
            None => 128,
        }
    } else {
        match (hex_val_exec(x), hex_val_exec(y)) {
            (Some(a), Some(b)) => a * 16 + b,
            _ => 128,
        }
    }
}

/// Parses a `#RRGGBB` route color; grey for one too short.
pub fn parse_color(hex: &str) -> (r: [u8; 3])
    requires
        channels_sliceable(hex.spec_bytes()),
    ensures
        r == color_spec(hex.spec_bytes()),
{
    let b = hex.as_bytes();
    let ghost bs = b@;
    let mut k: usize = 0;
    assert(bs.subrange(0, bs.len() as int) =~= bs);
    while k < b.len() && b[k] == 0x23
        invariant
            k <= bs.len(),
            bs == b@,
            leading_hashes(bs) == k + leading_hashes(bs.subrange(k as int, bs.len() as int)),
        decreases b.len() - k,
    {
        let ghost rest = bs.subrange(k as int, bs.len() as int);
        assert(rest[0] == bs[k as int]);
        assert(rest.drop_first() =~= bs.subrange(k + 1, bs.len() as int));
        k = k + 1;
    }
    proof {
        let rest = bs.subrange(k as int, bs.len() as int);
        if k < bs.len() {
            assert(rest[0] == bs[k as int]);
        }
    }
    if b.len() - k >= 6 {
        [
            channel_exec(b[k], b[k + 1]),
            channel_exec(b[k + 2], b[k + 3]),
            channel_exec(b[k + 4], b[k + 5]),
        ]
    } else {
        [128, 128, 128]
    }
}

} // verus!
