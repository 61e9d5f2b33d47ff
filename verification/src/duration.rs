//! Durations as written in configuration, in milliseconds.
use vstd::prelude::*;
use vstd::string::*;

use crate::text::{chars_of, join2, parse_decimal, piece, quoted, same, trim};

verus! {

/// The first index at or after `i` that holds no decimal digit, or the length.
pub open spec fn digits_end(s: Seq<char>, i: int) -> int
    decreases s.len() - i,
{
    if i >= s.len() {
        s.len() as int
    } else if crate::text::is_digit(s[i]) {
        digits_end(s, i + 1)
    } else {
        i
    }
}

/// The milliseconds that a text stands for: bare seconds, or a number with
/// `ms`, `s` or `m` behind it. A number of minutes must fit in 64 bits as
/// seconds.
pub open spec fn duration(s: Seq<char>) -> Result<nat, Seq<char>> {
    let t = crate::text::trimmed(s);
    let i = digits_end(t, 0);
    let unit = if i < t.len() {
        t.skip(i)
    } else {
        "s"@
    };
    match crate::text::decimal(t.take(i), u64::MAX as nat) {
        None => Err("invalid duration: "@ + crate::text::quoted_text(t)),
        Some(n) => if unit == "ms"@ {
            Ok(n)
        } else if unit == "s"@ {
            Ok(n * 1000)
        } else if unit == "m"@ {
            if n * 60 <= u64::MAX {
                Ok(n * 60_000)
            } else {
                Err("invalid duration: "@ + crate::text::quoted_text(t))
            }
        } else {
            Err("invalid duration unit: "@ + crate::text::quoted_text(t))
        },
    }
}

/// Reads a duration; the error is its text.
pub fn parse_millis(s: &str) -> (r: Result<u128, String>)
    ensures
        match r {
            Ok(n) => duration(s@) == Ok::<nat, Seq<char>>(n as nat),
            Err(e) => duration(s@) == Err::<nat, Seq<char>>(e@),
        },
{
    let t = trim(s);
    let c = chars_of(t.as_str());
    let mut i: usize = 0;
    while i < c.len() && '0' <= c[i] && c[i] <= '9'
        invariant
            i <= c@.len(),
            digits_end(c@, 0) == digits_end(c@, i as int),
        decreases c@.len() - i,
    {
        i += 1;
    }
    let digits = piece(&c, 0, i);
    let unit = if i < c.len() {
        piece(&c, i, c.len())
    } else {
        "s".to_owned()
    };
    proof {
        assert(digits@ == t@.take(i as int));
        if i < c@.len() {
            assert(unit@ == t@.skip(i as int));
        }
    }
    match parse_decimal(digits.as_str(), u64::MAX) {
        None => Err(join2("invalid duration: ", quoted(t.as_str()).as_str())),
        Some(n) => if same(unit.as_str(), "ms") {
            Ok(n as u128)
        } else if same(unit.as_str(), "s") {
            Ok(n as u128 * 1000)
        } else if same(unit.as_str(), "m") {
            if n as u128 * 60 <= u64::MAX as u128 {
                Ok(n as u128 * 60_000)
            } else {
                Err(join2("invalid duration: ", quoted(t.as_str()).as_str()))
            }
        } else {
            Err(join2("invalid duration unit: ", quoted(t.as_str()).as_str()))
        },
    }
}

} // verus!
