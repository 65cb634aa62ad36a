//! RINEX revision description.

use vstd::prelude::*;
use vstd::std_specs::ops::SubSpec;

verus! {

/// Errors raised while reading a revision string.
#[derive(Copy, Clone, Debug, PartialEq, Eq, Structural)]
pub enum ParsingError {
    /// The revision string is not shaped as expected.
    VersionFormat,
    /// A numeric field of the revision string is not a valid number.
    VersionParsing,
}

/// True when the character is a decimal digit.
pub open spec fn is_dec_digit(c: char) -> bool {
    '0' <= c && c <= '9'
}

/// The numeric value of a decimal digit character.
pub open spec fn digit_value(c: char) -> int {
    c as int - '0' as int
}

/// True when every character of the sequence is a decimal digit.
pub open spec fn all_dec_digits(s: Seq<char>) -> bool {
    forall|i: int| 0 <= i < s.len() ==> is_dec_digit(#[trigger] s[i])
}

/// The value of a sequence of decimal digit characters, most significant
/// first.
pub open spec fn dec_value(s: Seq<char>) -> int
    decreases s.len(),
{
    if s.len() == 0 {
        0
    } else {
        dec_value(s.drop_last()) * 10 + digit_value(s.last())
    }
}

/// The digit part of an unsigned number field: a single leading `+` sign is
/// accepted and skipped, as the standard library's unsigned parsers do.
pub open spec fn number_digits(s: Seq<char>) -> Seq<char> {
    if s.len() > 0 && s[0] == '+' {
        s.skip(1)
    } else {
        s
    }
}

/// True when the character sequence is a number a `u8` holds: an optional
/// leading `+`, then at least one decimal digit, with a value of at most 255.
pub open spec fn is_valid_u8_str(s: Seq<char>) -> bool {
    &&& number_digits(s).len() > 0
    &&& all_dec_digits(number_digits(s))
    &&& dec_value(number_digits(s)) <= 255
}

/// What parsing the character sequence as a `u8` yields.
pub open spec fn parse_u8_spec(s: Seq<char>) -> Option<u8> {
    if is_valid_u8_str(s) {
        Some(dec_value(number_digits(s)) as u8)
    } else {
        None
    }
}

/// The first position at or after `from` holding a `.`, or the length of the
/// sequence when there is none.
pub open spec fn dot_position(s: Seq<char>, from: int) -> int
    decreases s.len() - from,
{
    if from < 0 || from >= s.len() {
        s.len() as int
    } else if s[from] == '.' {
        from
    } else {
        dot_position(s, from + 1)
    }
}

/// Version is used to describe RINEX standards revisions.
#[derive(Copy, Clone, Debug, PartialEq, Eq, Structural, PartialOrd, Ord, Hash)]
pub struct Version {
    /// Version major number
    pub major: u8,
    /// Version minor number
    pub minor: u8,
}

/// What reading a revision string yields: the field before the first `.` is
/// the major number and the field between the first and second `.` is the
/// minor number; without a `.` the whole string is the major number and the
/// minor number is zero. A field that is not a number a `u8` holds is
/// rejected.
pub open spec fn parse_spec(s: Seq<char>) -> Result<Version, ParsingError> {
    let p = dot_position(s, 0);
    if p == s.len() {
        match parse_u8_spec(s) {
            Some(major) => Ok(Version { major, minor: 0u8 }),
            None => Err(ParsingError::VersionParsing),
        }
    } else {
        let q = dot_position(s, p + 1);
        match (parse_u8_spec(s.subrange(0, p)), parse_u8_spec(s.subrange(p + 1, q))) {
            (Some(major), Some(minor)) => Ok(Version { major, minor }),
            _ => Err(ParsingError::VersionParsing),
        }
    }
}

proof fn lemma_dec_value_nonneg(s: Seq<char>)
    requires
        all_dec_digits(s),
    ensures
        dec_value(s) >= 0,
    decreases s.len(),
{
    if s.len() > 0 {
        assert forall|i: int| 0 <= i < s.drop_last().len() implies is_dec_digit(
            #[trigger] s.drop_last()[i],
        ) by {
            assert(s.drop_last()[i] == s[i]);
        }
        lemma_dec_value_nonneg(s.drop_last());
    }
}

/// A prefix of a digit string never has a larger value than the whole.
proof fn lemma_dec_value_prefix(s: Seq<char>, k: int)
    requires
        0 <= k <= s.len(),
        all_dec_digits(s),
    ensures
        dec_value(s.take(k)) <= dec_value(s),
    decreases s.len(),
{
    if k == s.len() {
        assert(s.take(k) =~= s);
    } else {
        let head = s.drop_last();
        assert forall|i: int| 0 <= i < head.len() implies is_dec_digit(#[trigger] head[i]) by {
            assert(head[i] == s[i]);
        }
        assert(head.take(k) =~= s.take(k));
        lemma_dec_value_prefix(head, k);
        lemma_dec_value_nonneg(head);
    }
}

/// Finds the first `.` at or after `from`, or the length when there is none.
fn find_dot(cs: &Vec<char>, from: usize) -> (r: usize)
    requires
        from <= cs@.len(),
    ensures
        r as int == dot_position(cs@, from as int),
        from <= r <= cs@.len(),
{
    let n = cs.len();
    let mut i = from;
    while i < n
        invariant
            from <= i <= n,
            n == cs@.len(),
            dot_position(cs@, from as int) == dot_position(cs@, i as int),
        decreases n - i,
    {
        if cs[i] == '.' {
            return i;
        }
        i += 1;
    }
    i
}

/// Reads the characters of `cs` between `from` and `to` as an unsigned
/// number a `u8` holds, exactly as the standard library's `u8` parser reads
/// a string: an optional leading `+`, then decimal digits.
fn parse_u8_seg(cs: &Vec<char>, from: usize, to: usize) -> (r: Option<u8>)
    requires
        from <= to <= cs@.len(),
    ensures
        r == parse_u8_spec(cs@.subrange(from as int, to as int)),
{
    let ghost whole = cs@.subrange(from as int, to as int);
    let ghost seg = number_digits(whole);
    let mut i: usize = from;
    if i < to && cs[i] == '+' {
        i += 1;
    }
    let start: usize = i;
    proof {
        assert(seg =~= cs@.subrange(start as int, to as int));
    }
    if i == to {
        return None;
    }
    let mut acc: u32 = 0;
    while i < to
        invariant
            from <= start <= i <= to,
            to <= cs@.len(),
            whole == cs@.subrange(from as int, to as int),
            seg == number_digits(whole),
            seg == cs@.subrange(start as int, to as int),
            all_dec_digits(seg.take(i - start)),
            acc as int == dec_value(seg.take(i - start)),
            acc <= 255,
        decreases to - i,
    {
        let c = cs[i];
        proof {
            assert(seg[i - start] == c);
            assert(seg.take(i - start + 1).drop_last() =~= seg.take(i - start));
            assert(seg.take(i - start + 1).last() == seg[i - start]);
        }
        let d: u32 = match c {
            '0' => 0,
            '1' => 1,
            '2' => 2,
            '3' => 3,
            '4' => 4,
            '5' => 5,
            '6' => 6,
            '7' => 7,
            '8' => 8,
            '9' => 9,
            _ => {
                proof {
                    assert(!is_dec_digit(seg[i - start]));
                    assert(!all_dec_digits(seg));
                }
                return None;
            },
        };
        let next: u32 = acc * 10 + d;
        proof {
            assert(d as int == digit_value(seg[i - start]));
            assert(dec_value(seg.take(i - start + 1)) == next as int);
        }
        if next > 255 {
            proof {
                if all_dec_digits(seg) {
                    lemma_dec_value_prefix(seg, i - start + 1);
                }
                assert(!is_valid_u8_str(whole));
            }
            return None;
        }
        acc = next;
        i += 1;
    }
    proof {
        assert(seg.take((to - start) as int) =~= seg);
    }
    Some(acc as u8)
}

impl Version {
    /// Reads a revision from a string, as [parse_spec] describes.
    pub fn parse(s: &str) -> (r: Result<Version, ParsingError>)
        ensures
            r == parse_spec(s@),
    {
        let cs = crate::text::str_chars(s);
        let n = cs.len();
        let p = find_dot(&cs, 0);
        if p == n {
            proof {
                assert(cs@.subrange(0, n as int) =~= s@);
            }
            match parse_u8_seg(&cs, 0, n) {
                Some(major) => Ok(Version { major, minor: 0 }),
                None => Err(ParsingError::VersionParsing),
            }
        } else {
            let q = find_dot(&cs, p + 1);
            let major_opt = parse_u8_seg(&cs, 0, p);
            let minor_opt = parse_u8_seg(&cs, p + 1, q);
            match (major_opt, minor_opt) {
                (Some(major), Some(minor)) => Ok(Version { major, minor }),
                _ => Err(ParsingError::VersionParsing),
            }
        }
    }
}

impl core::str::FromStr for Version {
    type Err = ParsingError;

    fn from_str(s: &str) -> Result<Self, Self::Err> {
        Version::parse(s)
    }
}

impl core::ops::Add<u8> for Version {
    type Output = Version;

    /// Raises the major revision number.
    fn add(self, rhs: u8) -> Version {
        Version { major: self.major + rhs, minor: self.minor }
    }
}

impl vstd::std_specs::ops::AddSpecImpl<u8> for Version {
    open spec fn obeys_add_spec() -> bool {
        true
    }

    open spec fn add_req(self, rhs: u8) -> bool {
        self.major + rhs <= u8::MAX
    }

    open spec fn add_spec(self, rhs: u8) -> Self::Output {
        Version { major: (self.major + rhs) as u8, minor: self.minor }
    }
}

impl core::ops::Sub<u8> for Version {
    type Output = Version;

    /// Lowers the major revision number, clamped at major revision 1.
    fn sub(self, rhs: u8) -> Version {
        if rhs >= self.major {
            Version { major: 1, minor: self.minor }
        } else {
            Version { major: self.major - rhs, minor: self.minor }
        }
    }
}

impl vstd::std_specs::ops::SubSpecImpl<u8> for Version {
    open spec fn obeys_sub_spec() -> bool {
        true
    }

    open spec fn sub_req(self, rhs: u8) -> bool {
        true
    }

    open spec fn sub_spec(self, rhs: u8) -> Self::Output {
        if rhs >= self.major {
            Version { major: 1u8, minor: self.minor }
        } else {
            Version { major: (self.major - rhs) as u8, minor: self.minor }
        }
    }
}

impl core::ops::SubAssign<u8> for Version {
    /// Lowers the major revision number in place, clamped at major
    /// revision 1.
    fn sub_assign(&mut self, rhs: u8)
        ensures
            *final(self) == old(self).sub_spec(rhs),
    {
        if rhs >= self.major {
            self.major = 1;
        } else {
            self.major = self.major - rhs;
        }
    }
}

impl core::convert::From<Version> for (u8, u8) {
    /// The `(major, minor)` pair of the revision.
    fn from(v: Version) -> (u8, u8) {
        (v.major, v.minor)
    }
}

impl vstd::std_specs::convert::FromSpecImpl<Version> for (u8, u8) {
    open spec fn obeys_from_spec() -> bool {
        true
    }

    open spec fn from_spec(v: Version) -> Self {
        (v.major, v.minor)
    }
}

impl Version {
    /// Builds a new [Version].
    pub fn new(major: u8, minor: u8) -> (r: Self)
        ensures
            r == (Version { major, minor }),
    {
        Self { major, minor }
    }
}

impl Default for Version {
    /// Builds a default [Version] object.
    fn default() -> (r: Self)
        ensures
            r == (Version { major: 4u8, minor: 0u8 }),
    {
        Version::new(4, 0)
    }
}

} // verus!
