//! Data point keys: the `(major, minor)` pair that an attribute name carries.

use vstd::prelude::*;
use crate::text::{
    all_digits, chars_of, decimal, digits_value, parse_unsigned, parse_unsigned_text,
    push_char, push_decimal,
};

verus! {

/// The pattern that marks a key inside an attribute name: `_<major>_<minor>_`.
pub const KEY_PATTERN: &'static str = "_([0-9]+)_([0-9]+)_";

/// One dated rating slot of a player.
#[derive(Clone, Copy, Debug, PartialEq, Eq, Structural)]
pub struct DataPointKey {
    pub major: u64,
    pub minor: u64,
}

/// Index just past the run of ASCII digits in `s` that starts at `i`.
pub open spec fn digit_run_end(s: Seq<char>, i: int) -> int
    decreases s.len() - i,
{
    if 0 <= i < s.len() && crate::text::is_ascii_digit(s[i]) {
        digit_run_end(s, i + 1)
    } else {
        i
    }
}

/// `s` holds `_`, digits, `_`, digits, `_` from index `i` on, each run of
/// digits taken whole.
pub open spec fn key_match_at(s: Seq<char>, i: int) -> bool {
    let a = digit_run_end(s, i + 1);
    let b = digit_run_end(s, a + 1);
    &&& 0 <= i < s.len()
    &&& s[i] == '_'
    &&& i + 1 < a < s.len()
    &&& s[a] == '_'
    &&& a + 1 < b < s.len()
    &&& s[b] == '_'
}

/// The leftmost index at or after `i` where a key starts.
pub open spec fn first_key_match(s: Seq<char>, i: int) -> Option<int>
    decreases s.len() - i,
{
    if i < 0 || i >= s.len() {
        None
    } else if key_match_at(s, i) {
        Some(i)
    } else {
        first_key_match(s, i + 1)
    }
}

/// The two runs of digits of the leftmost key in `s`.
pub open spec fn key_captures(s: Seq<char>) -> Option<(Seq<char>, Seq<char>)> {
    match first_key_match(s, 0) {
        Some(i) => {
            let a = digit_run_end(s, i + 1);
            let b = digit_run_end(s, a + 1);
            Some((s.subrange(i + 1, a), s.subrange(a + 1, b)))
        },
        None => None,
    }
}

/// The key that an attribute name carries: the leftmost `_<major>_<minor>_`,
/// both numbers fitting in 64 bits.
pub open spec fn key_of_label(s: Seq<char>) -> Option<DataPointKey> {
    match key_captures(s) {
        Some((a, b)) => {
            if digits_value(a) <= u64::MAX && digits_value(b) <= u64::MAX {
                Some(DataPointKey { major: digits_value(a) as u64, minor: digits_value(b) as u64 })
            } else {
                None
            }
        },
        None => None,
    }
}

/// The attribute name under which the rating of a key is stored.
pub open spec fn mmr_name(k: DataPointKey) -> Seq<char> {
    "MissionBagPlayer_"@ + decimal(k.major as nat) + seq!['_'] + decimal(k.minor as nat)
        + "_mmr"@
}

/// Relies on regex::Regex::new and Regex::captures: the two groups of the
/// leftmost match of the key pattern (leftmost-first, each `[0-9]+` greedy).
#[verifier::external_body]
fn capture_key_digits(pattern: &str, label: &str) -> (r: Option<(String, String)>)
    requires
        pattern@ == KEY_PATTERN@,
    ensures
        r matches Some((a, b)) ==> key_captures(label@) == Some((a@, b@)),
        r is None ==> key_captures(label@) is None,
{
    let re = regex::Regex::new(pattern).unwrap();
    re.captures(label).map(|c| (c[1].to_string(), c[2].to_string()))
}

proof fn lemma_run_is_digits(s: Seq<char>, i: int)
    requires
        0 <= i <= s.len(),
    ensures
        i <= digit_run_end(s, i) <= s.len(),
        all_digits(s.subrange(i, digit_run_end(s, i))),
    decreases s.len() - i,
{
    if i < s.len() && crate::text::is_ascii_digit(s[i]) {
        lemma_run_is_digits(s, i + 1);
        let e = digit_run_end(s, i);
        assert forall|j: int| 0 <= j < e - i implies crate::text::is_ascii_digit(
            #[trigger] s.subrange(i, e)[j],
        ) by {
            if j > 0 {
                assert(s.subrange(i, e)[j] == s.subrange(i + 1, e)[j - 1]);
            }
        }
    }
}

impl DataPointKey {
    /// Reads the key out of an attribute name; `None` where the name holds no
    /// `_<major>_<minor>_` or a number does not fit in 64 bits.
    pub fn parse(label: &str) -> (r: Option<DataPointKey>)
        ensures
            r == key_of_label(label@),
    {
        proof {
            reveal_strlit("_([0-9]+)_([0-9]+)_");
        }
        match capture_key_digits(KEY_PATTERN, label) {
            Some((a, b)) => {
                proof {
                    let i = first_key_match(label@, 0)->0;
                    lemma_first_key_match_is_match(label@, 0);
                    lemma_run_is_digits(label@, i + 1);
                    let ea = digit_run_end(label@, i + 1);
                    lemma_run_is_digits(label@, ea + 1);
                }
                let major = parse_unsigned_text(a.as_str(), u64::MAX);
                let minor = parse_unsigned_text(b.as_str(), u64::MAX);
                proof {
                    lemma_plain_digits(a@);
                    lemma_plain_digits(b@);
                }
                match (major, minor) {
                    (Some(x), Some(y)) => Some(DataPointKey { major: x, minor: y }),
                    _ => None,
                }
            },
            None => None,
        }
    }
}

proof fn lemma_first_key_match_is_match(s: Seq<char>, i: int)
    ensures
        first_key_match(s, i) matches Some(j) ==> key_match_at(s, j) && j >= i,
    decreases s.len() - i,
{
    if 0 <= i < s.len() && !key_match_at(s, i) {
        lemma_first_key_match_is_match(s, i + 1);
    }
}

proof fn lemma_plain_digits(s: Seq<char>)
    requires
        s.len() > 0,
        all_digits(s),
    ensures
        parse_unsigned(s, u64::MAX as nat) == (if digits_value(s) <= u64::MAX {
            Some(digits_value(s))
        } else {
            None::<nat>
        }),
{
    assert(crate::text::is_ascii_digit(s[0]));
    assert(crate::text::unsigned_body(s) == s);
}

/// The attribute name under which the rating of `key` is stored:
/// `MissionBagPlayer_<major>_<minor>_mmr`.
pub fn generate_mmr_name(key: &DataPointKey) -> (r: String)
    ensures
        r@ == mmr_name(*key),
{
    proof {
        reveal_strlit("MissionBagPlayer_");
        reveal_strlit("_mmr");
    }
    let mut s = "MissionBagPlayer_".to_owned();
    push_decimal(&mut s, key.major);
    push_char(&mut s, '_');
    push_decimal(&mut s, key.minor);
    push_char(&mut s, '_');
    push_char(&mut s, 'm');
    push_char(&mut s, 'm');
    push_char(&mut s, 'r');
    proof {
        assert(s@ =~= mmr_name(*key));
    }
    s
}

} // verus!
