//! Storage-facing data model shared with the persistence collaborator.
//!
//! The device status mirrors the enumerated column of the device store and
//! is read back from its text form case-insensitively.

use vstd::prelude::*;

verus! {

/// Reachability status of a device.
#[derive(Debug, Clone, PartialEq, Eq)]
pub enum DeviceStatus {
    Up,
    Down,
    Unknown,
}

/// ASCII lower-casing of one character; everything outside `'A'..='Z'` is
/// kept as it is.
pub open spec fn lower_char(c: char) -> char {
    if c == 'A' {
        'a'
    } else if c == 'B' {
        'b'
    } else if c == 'C' {
        'c'
    } else if c == 'D' {
        'd'
    } else if c == 'E' {
        'e'
    } else if c == 'F' {
        'f'
    } else if c == 'G' {
        'g'
    } else if c == 'H' {
        'h'
    } else if c == 'I' {
        'i'
    } else if c == 'J' {
        'j'
    } else if c == 'K' {
        'k'
    } else if c == 'L' {
        'l'
    } else if c == 'M' {
        'm'
    } else if c == 'N' {
        'n'
    } else if c == 'O' {
        'o'
    } else if c == 'P' {
        'p'
    } else if c == 'Q' {
        'q'
    } else if c == 'R' {
        'r'
    } else if c == 'S' {
        's'
    } else if c == 'T' {
        't'
    } else if c == 'U' {
        'u'
    } else if c == 'V' {
        'v'
    } else if c == 'W' {
        'w'
    } else if c == 'X' {
        'x'
    } else if c == 'Y' {
        'y'
    } else if c == 'Z' {
        'z'
    } else {
        c
    }
}

/// ASCII lower-casing of a character sequence.
pub open spec fn lower_seq(s: Seq<char>) -> Seq<char> {
    s.map_values(|c: char| lower_char(c))
}

fn to_lower_char(c: char) -> (r: char)
    ensures
        r == lower_char(c),
{
    if c == 'A' {
        'a'
    } else if c == 'B' {
        'b'
    } else if c == 'C' {
        'c'
    } else if c == 'D' {
        'd'
    } else if c == 'E' {
        'e'
    } else if c == 'F' {
        'f'
    } else if c == 'G' {
        'g'
    } else if c == 'H' {
        'h'
    } else if c == 'I' {
        'i'
    } else if c == 'J' {
        'j'
    } else if c == 'K' {
        'k'
    } else if c == 'L' {
        'l'
    } else if c == 'M' {
        'm'
    } else if c == 'N' {
        'n'
    } else if c == 'O' {
        'o'
    } else if c == 'P' {
        'p'
    } else if c == 'Q' {
        'q'
    } else if c == 'R' {
        'r'
    } else if c == 'S' {
        's'
    } else if c == 'T' {
        't'
    } else if c == 'U' {
        'u'
    } else if c == 'V' {
        'v'
    } else if c == 'W' {
        'w'
    } else if c == 'X' {
        'x'
    } else if c == 'Y' {
        'y'
    } else if c == 'Z' {
        'z'
    } else {
        c
    }
}

/// Does `s`, lower-cased, read exactly `t`?
fn eq_lowered(s: &str, t: &str) -> (b: bool)
    ensures
        b == (lower_seq(s@) == t@),
{
    let n = s.unicode_len();
    let m = t.unicode_len();
    if n != m {
        proof {
            assert(lower_seq(s@).len() == s@.len());
        }
        return false;
    }
    let mut i: usize = 0;
    while i < n
        invariant
            n == s@.len(),
            n == t@.len(),
            i <= n,
            forall|k: int| 0 <= k < i ==> lower_char(s@[k]) == t@[k],
        decreases n - i,
    {
        let c = to_lower_char(s.get_char(i));
        if c != t.get_char(i) {
            proof {
                assert(lower_seq(s@)[i as int] == lower_char(s@[i as int]));
            }
            return false;
        }
        i = i + 1;
    }
    proof {
        assert(lower_seq(s@) =~= t@);
    }
    true
}

impl DeviceStatus {
    /// Reads a status back from its text form, ignoring ASCII case.
    /// Anything but `up`, `down` or `unknown` is rejected, naming the
    /// offending text.
    pub fn try_from(value: String) -> (r: Result<DeviceStatus, String>)
        ensures
            match r {
                Ok(st) => match st {
                    DeviceStatus::Up => lower_seq(value@) == "up"@,
                    DeviceStatus::Down => lower_seq(value@) == "down"@,
                    DeviceStatus::Unknown => lower_seq(value@) == "unknown"@,
                },
                Err(m) => {
                    &&& lower_seq(value@) != "up"@
                    &&& lower_seq(value@) != "down"@
                    &&& lower_seq(value@) != "unknown"@
                    &&& m@ == "Invalid device status string: "@ + value@
                },
            },
    {
        if eq_lowered(value.as_str(), "up") {
            Ok(DeviceStatus::Up)
        } else if eq_lowered(value.as_str(), "down") {
            Ok(DeviceStatus::Down)
        } else if eq_lowered(value.as_str(), "unknown") {
            Ok(DeviceStatus::Unknown)
        } else {
            Err(String::from_str("Invalid device status string: ").concat(value.as_str()))
        }
    }
}

} // verus!
