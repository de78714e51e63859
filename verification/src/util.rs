//! Small value conversions around the player: clock-style time formatting
//! for the interface, volume scaling from and to the hardware control
//! surface, and the watch URL for a video id.

use vstd::prelude::*;

use crate::text::dec_digits;

verus! {

/// A number as at least two decimal digits, zero-padded.
pub open spec fn two_digits(n: nat) -> Seq<char> {
    if n < 10 {
        seq!['0'] + dec_digits(n)
    } else {
        dec_digits(n)
    }
}

/// A duration in seconds as `[HH:MM:SS]`: hours and minutes appear, each
/// with its colon, only when nonzero.
pub open spec fn spec_format_time(d: int) -> Seq<char> {
    let hours = d / 3600;
    let minutes = (d % 3600) / 60;
    let secs = d % 60;
    seq!['['] + (if hours > 0 {
        two_digits(hours as nat) + seq![':']
    } else {
        Seq::empty()
    }) + (if minutes > 0 {
        two_digits(minutes as nat) + seq![':']
    } else {
        Seq::empty()
    }) + two_digits(secs as nat) + seq![']']
}

fn push_two_digits(out: &mut String, n: u32)
    ensures
        final(out)@ == old(out)@ + two_digits(n as nat),
{
    if n < 10 {
        out.push('0');
    }
    let ds = crate::text::fmt_u64(n as u64);
    let mut k: usize = 0;
    let ghost mid = out@;
    while k < ds.len()
        invariant
            k <= ds@.len(),
            out@ == mid + ds@.subrange(0, k as int),
        decreases ds@.len() - k,
    {
        out.push(ds[k]);
        proof {
            assert(out@ =~= mid + ds@.subrange(0, k + 1));
        }
        k = k + 1;
    }
    proof {
        assert(ds@.subrange(0, ds@.len() as int) =~= ds@);
        if n < 10 {
            assert(final(out)@ =~= old(out)@ + two_digits(n as nat));
        } else {
            assert(final(out)@ =~= old(out)@ + two_digits(n as nat));
        }
    }
}

/// A duration in seconds as `[HH:MM:SS]`, hours and minutes only when
/// nonzero.
pub fn format_time(d: u32) -> (r: String)
    ensures
        r@ == spec_format_time(d as int),
{
    let hours: u32 = d / 3600;
    let minutes: u32 = (d % 3600) / 60;
    let secs: u32 = d % 60;
    let mut out = String::new();
    out.push('[');
    if hours > 0 {
        push_two_digits(&mut out, hours);
        out.push(':');
    }
    if minutes > 0 {
        push_two_digits(&mut out, minutes);
        out.push(':');
    }
    push_two_digits(&mut out, secs);
    out.push(']');
    proof {
        assert(out@ =~= spec_format_time(d as int));
    }
    out
}

/// A player volume scaled onto the 7-bit controller range.
pub open spec fn spec_vol_to_midi(val: int) -> int {
    ((val * 127) / 130) % 256
}

/// Scales a player volume (0 to 130) onto the controller's 7-bit range,
/// truncating as the original byte cast would beyond it.
pub fn vol_to_midi(val: u32) -> (r: u8)
    ensures
        r == spec_vol_to_midi(val as int),
        val <= 130 ==> r == (val * 127) / 130,
{
    let wide: u64 = (val as u64) * 127 / 130;
    let r = (wide % 256) as u8;
    proof {
        assert(wide == (val as int) * 127 / 130);
    }
    r
}

/// A 7-bit controller value scaled up to the player volume range, capped
/// at the player's maximum of 130.
pub open spec fn spec_midi_to_vol(val: int) -> int {
    let m = (val * 130) / 127;
    if m > 130 {
        130
    } else {
        m
    }
}

/// Scales a controller value onto the player's 0-to-130 volume range.
pub fn midi_to_vol(val: u8) -> (r: u32)
    ensures
        r == spec_midi_to_vol(val as int),
        r <= 130,
{
    let m: u32 = (val as u32) * 130 / 127;
    if m > 130 {
        130
    } else {
        m
    }
}

/// The watch URL for a video id.
pub fn video_url(id: &str) -> (r: String)
    ensures
        r@ == "https://www.youtube.com/watch?v="@ + id@,
{
    let mut r = "https://www.youtube.com/watch?v=".to_owned();
    r.append(id);
    r
}

} // verus!
