//! Plain-text rendering of numbers and byte sizes, and input-name
//! validation messages.

use vstd::prelude::*;
use vstd::string::*;

verus! {

/// The decimal digit character for `d`.
pub open spec fn digit_char(d: int) -> char {
    if d == 0 {
        '0'
    } else if d == 1 {
        '1'
    } else if d == 2 {
        '2'
    } else if d == 3 {
        '3'
    } else if d == 4 {
        '4'
    } else if d == 5 {
        '5'
    } else if d == 6 {
        '6'
    } else if d == 7 {
        '7'
    } else if d == 8 {
        '8'
    } else {
        '9'
    }
}

/// The decimal digits of a non-negative integer, most significant first,
/// with no leading zero except for zero itself.
pub open spec fn dec_digits(n: int) -> Seq<char>
    decreases n,
{
    if n < 10 {
        seq![digit_char(n)]
    } else {
        dec_digits(n / 10).push(digit_char(n % 10))
    }
}

/// The one-character string slice for a decimal digit.
fn digit_str(d: u64) -> (s: &'static str)
    requires
        d < 10,
    ensures
        s@ == seq![digit_char(d as int)],
{
    let s = if d == 0 {
        proof { reveal_strlit("0"); }
        "0"
    } else if d == 1 {
        proof { reveal_strlit("1"); }
        "1"
    } else if d == 2 {
        proof { reveal_strlit("2"); }
        "2"
    } else if d == 3 {
        proof { reveal_strlit("3"); }
        "3"
    } else if d == 4 {
        proof { reveal_strlit("4"); }
        "4"
    } else if d == 5 {
        proof { reveal_strlit("5"); }
        "5"
    } else if d == 6 {
        proof { reveal_strlit("6"); }
        "6"
    } else if d == 7 {
        proof { reveal_strlit("7"); }
        "7"
    } else if d == 8 {
        proof { reveal_strlit("8"); }
        "8"
    } else {
        proof { reveal_strlit("9"); }
        "9"
    };
    proof {
        assert(s@ =~= seq![digit_char(d as int)]);
    }
    s
}

/// Renders a number in decimal.
pub fn dec_string(n: u64) -> (s: String)
    ensures
        s@ == dec_digits(n as int),
    decreases n,
{
    if n < 10 {
        digit_str(n).to_owned()
    } else {
        let mut s = dec_string(n / 10);
        s.append(digit_str(n % 10));
        proof {
            assert(s@ =~= dec_digits(n as int));
        }
        s
    }
}

/// The unit suffix for a byte count scaled down `k` times by 1024.
pub open spec fn byte_unit(k: int) -> Seq<char> {
    if k == 0 {
        "B"@
    } else if k == 1 {
        "KB"@
    } else if k == 2 {
        "MB"@
    } else {
        "GB"@
    }
}

/// How many times a byte count is scaled down by 1024 before rendering:
/// the largest power of 1024 that fits, capped at the gigabyte unit.
pub open spec fn byte_scale(bytes: int) -> int {
    if bytes >= 0x40000000 {
        3
    } else if bytes >= 0x100000 {
        2
    } else if bytes >= 1024 {
        1
    } else {
        0
    }
}

/// 1024 to the power `k`, for the scales in use.
pub open spec fn scale_divisor(k: int) -> int {
    if k == 0 {
        1
    } else if k == 1 {
        1024
    } else if k == 2 {
        0x100000
    } else {
        0x40000000
    }
}

/// A byte count rendered with one decimal place and a unit: the whole
/// part in the chosen unit, a truncated tenths digit, a space, and the
/// unit suffix.
pub open spec fn format_bytes_spec(bytes: int) -> Seq<char> {
    let k = byte_scale(bytes);
    let div = scale_divisor(k);
    dec_digits(bytes / div) + "."@ + seq![digit_char((bytes % div) * 10 / div)] + " "@
        + byte_unit(k)
}

/// Renders a byte count as a human-readable size with one decimal place.
pub fn format_bytes(bytes: u64) -> (s: String)
    ensures
        s@ == format_bytes_spec(bytes as int),
{
    let (div, unit): (u64, &'static str) = if bytes >= 0x40000000 {
        proof { reveal_strlit("GB"); }
        (0x40000000, "GB")
    } else if bytes >= 0x100000 {
        proof { reveal_strlit("MB"); }
        (0x100000, "MB")
    } else if bytes >= 1024 {
        proof { reveal_strlit("KB"); }
        (1024, "KB")
    } else {
        proof { reveal_strlit("B"); }
        (1, "B")
    };
    proof {
        assert(unit@ == byte_unit(byte_scale(bytes as int)));
        assert(div as int == scale_divisor(byte_scale(bytes as int)));
    }
    let whole = bytes / div;
    let rem = bytes % div;
    // rem < div <= 2^30, so rem * 10 stays far below u64::MAX
    let tenth = rem * 10 / div;
    let mut s = dec_string(whole);
    proof { reveal_strlit("."); }
    s.append(".");
    s.append(digit_str(tenth));
    proof { reveal_strlit(" "); }
    s.append(" ");
    s.append(unit);
    proof {
        assert(s@ =~= format_bytes_spec(bytes as int));
    }
    s
}

/// The rejection message for a missing audio file.
pub open spec fn audio_missing_message(audio_path: Seq<char>) -> Seq<char> {
    "Audio file '"@ + audio_path + "' not found"@
}

/// The rejection message for a missing model file.
pub open spec fn model_missing_message(model_path: Seq<char>) -> Seq<char> {
    "Model file '"@ + model_path + "' not found"@
}

/// Checks the reported presence of the audio and model files named on the
/// command line; the audio file is checked first. The caller performs the
/// actual file-system probe and passes the outcome in.
pub fn validate_files(
    audio_path: &str,
    model_path: &str,
    audio_exists: bool,
    model_exists: bool,
) -> (r: Result<(), String>)
    ensures
        r is Ok <==> audio_exists && model_exists,
        !audio_exists ==> (r matches Err(e) && e@ == audio_missing_message(audio_path@)),
        audio_exists && !model_exists ==> (r matches Err(e) && e@ == model_missing_message(
            model_path@,
        )),
{
    if !audio_exists {
        let mut m = {
            proof { reveal_strlit("Audio file '"); }
            "Audio file '".to_owned()
        };
        m.append(audio_path);
        proof { reveal_strlit("' not found"); }
        m.append("' not found");
        proof {
            assert(m@ =~= audio_missing_message(audio_path@));
        }
        Err(m)
    } else if !model_exists {
        let mut m = {
            proof { reveal_strlit("Model file '"); }
            "Model file '".to_owned()
        };
        m.append(model_path);
        proof { reveal_strlit("' not found"); }
        m.append("' not found");
        proof {
            assert(m@ =~= model_missing_message(model_path@));
        }
        Err(m)
    } else {
        Ok(())
    }
}

} // verus!
