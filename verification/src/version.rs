//! Version numbers: reading the three leading components of a dotted version,
//! and writing the version that follows it.

use crate::text::{
    chars_of, is_digit, join, lemma_split_of_join, split, split_on, trim, trimmed,
};
use vstd::prelude::*;
use vstd::string::StringExecFns;

verus! {

/// The value of a decimal digit.
pub open spec fn digit_value(c: char) -> nat {
    (c as u32 - '0' as u32) as nat
}

/// The number that a sequence of decimal digits writes.
pub open spec fn decimal_value(s: Seq<char>) -> nat
    decreases s.len(),
{
    if s.len() == 0 {
        0
    } else {
        decimal_value(s.drop_last()) * 10 + digit_value(s.last())
    }
}

/// Every character of `s` is a decimal digit.
pub open spec fn all_digits(s: Seq<char>) -> bool {
    forall|i: int| 0 <= i < s.len() ==> is_digit(#[trigger] s[i])
}

/// `s` without the plus sign that may lead it.
pub open spec fn unsigned_part(s: Seq<char>) -> Seq<char> {
    if s.len() > 0 && s[0] == '+' {
        s.drop_first()
    } else {
        s
    }
}

/// The number that `s` writes: an optional plus sign, then one or more decimal
/// digits whose value fits in 32 bits. Anything else is no number.
pub open spec fn parse_number(s: Seq<char>) -> Option<u32> {
    let digits = unsigned_part(s);
    if digits.len() > 0 && all_digits(digits) && decimal_value(digits) <= u32::MAX {
        Some(decimal_value(digits) as u32)
    } else {
        None
    }
}

/// A longer run of digits never writes a smaller number than its prefix.
pub proof fn lemma_decimal_value_prefix(s: Seq<char>, k: int)
    requires
        0 <= k <= s.len(),
    ensures
        decimal_value(s.take(k)) <= decimal_value(s),
    decreases s.len(),
{
    if k == s.len() {
        assert(s.take(k) == s);
    } else {
        assert(s.drop_last().take(k) == s.take(k));
        lemma_decimal_value_prefix(s.drop_last(), k);
    }
}

/// Reads a decimal number of at most 32 bits.
pub fn parse_u32(s: &str) -> (r: Option<u32>)
    ensures
        r == parse_number(s@),
{
    let chars = chars_of(s);
    let n: usize = chars.len();
    let start: usize = if n > 0 && chars[0] == '+' {
        1
    } else {
        0
    };
    let ghost digits = unsigned_part(s@);
    assert(digits == chars@.skip(start as int));
    if start == n {
        return None;
    }
    let mut acc: u32 = 0;
    let mut i: usize = start;
    assert(digits.take(0) == Seq::<char>::empty());
    while i < n
        invariant
            start <= i <= n,
            n == chars@.len(),
            digits == chars@.skip(start as int),
            digits == unsigned_part(s@),
            all_digits(digits.take(i - start)),
            acc == decimal_value(digits.take(i - start)),
        decreases n - i,
    {
        let c: char = chars[i];
        let ghost k = i - start;
        assert(digits[k] == c);
        assert(digits.take(k + 1).drop_last() == digits.take(k));
        if !('0' <= c && c <= '9') {
            assert(!all_digits(digits));
            return None;
        }
        let d: u32 = c as u32 - '0' as u32;
        if acc > (u32::MAX - d) / 10 {
            proof {
                lemma_decimal_value_prefix(digits, k + 1);
            }
            return None;
        }
        acc = acc * 10 + d;
        assert forall|j: int| 0 <= j < k + 1 implies is_digit(#[trigger] digits.take(k + 1)[j]) by {
            if j < k {
                assert(digits.take(k)[j] == digits.take(k + 1)[j]);
            }
        }
        i += 1;
    }
    assert(digits.take(n - start) == digits);
    Some(acc)
}

/// The number that the piece at index `k` writes, or zero where there is no
/// such piece or it writes no number.
pub open spec fn component(parts: Seq<Seq<char>>, k: int) -> u32 {
    if 0 <= k < parts.len() {
        match parse_number(parts[k]) {
            Some(n) => n,
            None => 0,
        }
    } else {
        0
    }
}

/// Major, minor and patch number of a dotted version. A component that is
/// missing or is no number counts as zero; components after the third are
/// ignored.
pub open spec fn version_triple(s: Seq<char>) -> (u32, u32, u32) {
    let parts = split(s, '.');
    (component(parts, 0), component(parts, 1), component(parts, 2))
}

fn component_at(parts: &Vec<&str>, k: usize) -> (r: u32)
    ensures
        r == component(parts.deep_view(), k as int),
{
    if k < parts.len() {
        match parse_u32(parts[k]) {
            Some(n) => n,
            None => 0,
        }
    } else {
        0
    }
}

/// The character that writes the digit `d`.
pub open spec fn digit_char(d: nat) -> char {
    if d == 0 {
        '0'
    } else if d == 1 {
        '1'
    } else if d == 2 {
        '2'
    } else if d == 3 {
        '3'
    } else if d == 4 {
        '4'
    } else if d == 5 {
        '5'
    } else if d == 6 {
        '6'
    } else if d == 7 {
        '7'
    } else if d == 8 {
        '8'
    } else {
        '9'
    }
}

/// `n` in decimal digits, without leading zeros.
pub open spec fn decimal(n: nat) -> Seq<char>
    decreases n,
{
    if n < 10 {
        seq![digit_char(n)]
    } else {
        decimal(n / 10).push(digit_char(n % 10))
    }
}

/// Three numbers with dots between them.
pub open spec fn dotted(major: nat, minor: nat, patch: nat) -> Seq<char> {
    decimal(major) + seq!['.'] + decimal(minor) + seq!['.'] + decimal(patch)
}

/// A version without the `v` that may lead it.
pub open spec fn version_part(tag: Seq<char>) -> Seq<char> {
    if tag.len() > 0 && tag[0] == 'v' {
        tag.drop_first()
    } else {
        tag
    }
}

/// The version to start from: what the latest tag says, without the white
/// space around it and without a leading `v`; or `0.0.0` where there is no
/// tag yet.
pub open spec fn current_version_of(described: Option<Seq<char>>) -> Seq<char> {
    match described {
        Some(output) => version_part(trim(output)),
        None => "0.0.0"@,
    }
}

/// The version that follows `(major, minor, patch)`: kind 1 raises the major
/// number, kind 2 the minor number, kind 3 the patch number, and what stands
/// to the right of the raised number falls back to zero.
pub open spec fn bumped_version(major: u32, minor: u32, patch: u32, kind: u8) -> Seq<char> {
    if kind == 1 {
        dotted((major + 1) as nat, 0, 0)
    } else if kind == 2 {
        dotted(major as nat, (minor + 1) as nat, 0)
    } else {
        dotted(major as nat, minor as nat, (patch + 1) as nat)
    }
}

/// A number in decimal digits is one digit at least and digits only, and its
/// value is the number.
pub proof fn lemma_decimal(n: nat)
    ensures
        decimal(n).len() >= 1,
        all_digits(decimal(n)),
        decimal_value(decimal(n)) == n,
    decreases n,
{
    if n < 10 {
        assert(decimal(n).drop_last() == Seq::<char>::empty());
        assert(decimal_value(decimal(n)) == decimal_value(Seq::<char>::empty()) * 10
            + digit_value(digit_char(n)));
    } else {
        lemma_decimal(n / 10);
        let init = decimal(n / 10);
        let all = decimal(n);
        assert(all.drop_last() == init);
        assert forall|i: int| 0 <= i < all.len() implies is_digit(#[trigger] all[i]) by {
            if i < init.len() {
                assert(all[i] == init[i]);
            }
        }
    }
}

/// A number that is written in decimal digits reads back as itself.
pub proof fn lemma_number_reads_back(n: u32)
    ensures
        parse_number(decimal(n as nat)) == Some(n),
{
    lemma_decimal(n as nat);
    assert(is_digit(decimal(n as nat)[0]));
}

/// Three numbers that are written with dots between them read back as
/// themselves.
pub proof fn lemma_version_reads_back(major: u32, minor: u32, patch: u32)
    ensures
        version_triple(dotted(major as nat, minor as nat, patch as nat)) == (major, minor, patch),
{
    let pieces = seq![decimal(major as nat), decimal(minor as nat), decimal(patch as nat)];
    lemma_decimal(major as nat);
    lemma_decimal(minor as nat);
    lemma_decimal(patch as nat);
    assert forall|i: int| 0 <= i < pieces.len() implies !(#[trigger] pieces[i]).contains('.') by {
        if pieces[i].contains('.') {
            let k = choose|k: int| 0 <= k < pieces[i].len() && pieces[i][k] == '.';
            assert(is_digit(pieces[i][k]));
        }
    }
    lemma_split_of_join(pieces, '.');
    let two = pieces.drop_last();
    assert(two == seq![decimal(major as nat), decimal(minor as nat)]);
    assert(two.drop_last() == seq![decimal(major as nat)]);
    assert(join(two.drop_last(), '.') == decimal(major as nat));
    assert(join(two, '.') == decimal(major as nat).push('.') + decimal(minor as nat));
    assert(join(pieces, '.') == join(two, '.').push('.') + decimal(patch as nat));
    assert(join(pieces, '.') == dotted(major as nat, minor as nat, patch as nat));
    lemma_number_reads_back(major);
    lemma_number_reads_back(minor);
    lemma_number_reads_back(patch);
}

/// The version that follows reads back as the numbers of the current one,
/// with one of them raised by one and those to its right at zero.
pub proof fn lemma_bumped_version_reads_back(major: u32, minor: u32, patch: u32, kind: u8)
    requires
        1 <= kind <= 3,
        kind == 1 ==> major < u32::MAX,
        kind == 2 ==> minor < u32::MAX,
        kind == 3 ==> patch < u32::MAX,
    ensures
        version_triple(bumped_version(major, minor, patch, kind)) == if kind == 1 {
            ((major + 1) as u32, 0u32, 0u32)
        } else if kind == 2 {
            (major, (minor + 1) as u32, 0u32)
        } else {
            (major, minor, (patch + 1) as u32)
        },
{
    if kind == 1 {
        lemma_version_reads_back((major + 1) as u32, 0, 0);
    } else if kind == 2 {
        lemma_version_reads_back(major, (minor + 1) as u32, 0);
    } else {
        lemma_version_reads_back(major, minor, (patch + 1) as u32);
    }
}

fn digit_str(d: u32) -> (r: &'static str)
    requires
        d < 10,
    ensures
        r@ == seq![digit_char(d as nat)],
{
    proof {
        reveal_strlit("0");
        reveal_strlit("1");
        reveal_strlit("2");
        reveal_strlit("3");
        reveal_strlit("4");
        reveal_strlit("5");
        reveal_strlit("6");
        reveal_strlit("7");
        reveal_strlit("8");
        reveal_strlit("9");
    }
    let r: &'static str = if d == 0 {
        "0"
    } else if d == 1 {
        "1"
    } else if d == 2 {
        "2"
    } else if d == 3 {
        "3"
    } else if d == 4 {
        "4"
    } else if d == 5 {
        "5"
    } else if d == 6 {
        "6"
    } else if d == 7 {
        "7"
    } else if d == 8 {
        "8"
    } else {
        "9"
    };
    assert(r@ =~= seq![digit_char(d as nat)]);
    r
}

/// Appends `n` in decimal digits to `out`.
fn push_decimal(out: &mut String, n: u32)
    ensures
        final(out)@ == old(out)@ + decimal(n as nat),
    decreases n,
{
    if n >= 10 {
        push_decimal(out, n / 10);
    }
    let ghost before = out@;
    out.append(digit_str(n % 10));
    assert(out@ == before + seq![digit_char((n % 10) as nat)]);
    assert(n >= 10 ==> decimal(n as nat) == decimal((n / 10) as nat).push(
        digit_char((n % 10) as nat),
    ));
}

/// The version that a release starts from, and its numbers.
pub struct VersionBumper {
    current_version: String,
    major: u32,
    minor: u32,
    patch: u32,
}

impl VersionBumper {
    #[verifier::type_invariant]
    spec fn inv(&self) -> bool {
        (self.major, self.minor, self.patch) == version_triple(self.current_version@)
    }

    /// The version to start from.
    pub closed spec fn current(&self) -> Seq<char> {
        self.current_version@
    }

    /// Major, minor and patch number of the version to start from.
    pub closed spec fn numbers(&self) -> (u32, u32, u32) {
        (self.major, self.minor, self.patch)
    }

    /// The version to start from, given what describing the latest tag
    /// printed, if it printed anything.
    pub fn get_latest_tag(described: Option<&str>) -> (version: String)
        ensures
            version@ == current_version_of(
                match described {
                    Some(output) => Some(output@),
                    None => None,
                },
            ),
    {
        match described {
            Some(output) => {
                let tag: &str = trimmed(output);
                let len: usize = tag.unicode_len();
                if len > 0 && tag.get_char(0) == 'v' {
                    assert(tag@.drop_first() == tag@.subrange(1, len as int));
                    tag.substring_char(1, len).to_owned()
                } else {
                    tag.to_owned()
                }
            },
            None => "0.0.0".to_owned(),
        }
    }

    /// Starts from the latest tag, or from `0.0.0` where there is none.
    pub fn new(described: Option<&str>) -> (bumper: VersionBumper)
        ensures
            bumper.current() == current_version_of(
                match described {
                    Some(output) => Some(output@),
                    None => None,
                },
            ),
            bumper.numbers() == version_triple(bumper.current()),
    {
        let current_version = VersionBumper::get_latest_tag(described);
        let (major, minor, patch) = VersionBumper::parse_version(current_version.as_str());
        VersionBumper { current_version, major, minor, patch }
    }

    /// Reads major, minor and patch number from a dotted version.
    pub fn parse_version(version: &str) -> (r: (u32, u32, u32))
        ensures
            r == version_triple(version@),
    {
        let parts = split_on(version, '.');
        (component_at(&parts, 0), component_at(&parts, 1), component_at(&parts, 2))
    }

    /// Writes the version that follows the current one. `bump_type` is 1 for
    /// a major, 2 for a minor and 3 for a patch release.
    pub fn calculate_new_version(&self, bump_type: u8) -> (version: String)
        requires
            1 <= bump_type <= 3,
            bump_type == 1 ==> self.numbers().0 < u32::MAX,
            bump_type == 2 ==> self.numbers().1 < u32::MAX,
            bump_type == 3 ==> self.numbers().2 < u32::MAX,
        ensures
            version@ == bumped_version(
                self.numbers().0,
                self.numbers().1,
                self.numbers().2,
                bump_type,
            ),
            version_triple(version@) == if bump_type == 1 {
                ((self.numbers().0 + 1) as u32, 0u32, 0u32)
            } else if bump_type == 2 {
                (self.numbers().0, (self.numbers().1 + 1) as u32, 0u32)
            } else {
                (self.numbers().0, self.numbers().1, (self.numbers().2 + 1) as u32)
            },
    {
        proof {
            reveal_strlit(".");
            lemma_bumped_version_reads_back(self.major, self.minor, self.patch, bump_type);
        }
        let (major, minor, patch): (u32, u32, u32) = if bump_type == 1 {
            (self.major + 1, 0, 0)
        } else if bump_type == 2 {
            (self.major, self.minor + 1, 0)
        } else {
            (self.major, self.minor, self.patch + 1)
        };
        let mut version = String::new();
        push_decimal(&mut version, major);
        version.append(".");
        push_decimal(&mut version, minor);
        version.append(".");
        push_decimal(&mut version, patch);
        assert(version@ == dotted(major as nat, minor as nat, patch as nat));
        version
    }

    /// The version to start from.
    pub fn current_version(&self) -> (version: &String)
        ensures
            version@ == self.current(),
    {
        &self.current_version
    }

    /// Major, minor and patch number of the version to start from.
    pub fn version_numbers(&self) -> (r: (u32, u32, u32))
        ensures
            r == self.numbers(),
            r == version_triple(self.current()),
    {
        proof {
            use_type_invariant(self);
        }
        (self.major, self.minor, self.patch)
    }
}

} // verus!
