//! Sizes written as a count and a unit (`1500 kb`), and their rendering in
//! bytes, kilobytes, megabytes and gigabytes with decimal (1000-based) scaling.
//!
//! The count is always a whole number, so every quantity is kept exactly as an
//! integer number of bytes. The three fractional units are rounded to
//! hundredths, half up.
use vstd::prelude::*;
use vstd::string::*;

use crate::text::{
    all_digits, decimal, digit_char, digits_value, is_u64_text, is_ws, lemma_decimal_digits,
    lemma_words_append_word, lemma_words_append_ws, number_digits, parse_u64, push_decimal,
    push_digit, split_words, words,
};

verus! {

/// Why a size text was refused.
#[derive(Debug, Clone, Copy, PartialEq, Eq, Structural)]
pub enum SizeError {
    /// The command line did not hold exactly one size text.
    InvalidArgumentCount,
    /// The text is not exactly two words.
    InvalidFormat,
    /// The first word is not a non-negative integer that fits in 64 bits.
    InvalidNumber,
    /// The second word is not a known unit.
    InvalidUnit,
}

/// A size as it was written: a count and the unit it was given in.
#[derive(Debug, Clone, Copy, PartialEq, Eq, Structural)]
pub enum FileSize {
    Bytes(u64),
    Kilobytes(u64),
    Megabytes(u64),
    Gigabytes(u64),
}

/// `c` lowercases to the ASCII lowercase letter `l`: it is `l`, the capital
/// of `l`, or, for `k`, the Kelvin sign.
pub open spec fn lowers_to(c: char, l: char) -> bool {
    ||| c == l
    ||| ('a' <= l <= 'z' && c as u32 + 32 == l as u32)
    ||| (l == 'k' && c as u32 == 0x212a)
}

/// The token `t` lowercases to the lowercase ASCII word `w`.
pub open spec fn matches_word(t: Seq<char>, w: Seq<char>) -> bool {
    &&& t.len() == w.len()
    &&& forall|i: int| 0 <= i < t.len() ==> lowers_to(#[trigger] t[i], w[i])
}

/// The size of `n` in the unit that `unit` names, if it names one.
pub open spec fn size_in_unit(n: u64, unit: Seq<char>) -> Option<FileSize> {
    if matches_word(unit, seq!['b']) || matches_word(unit, seq!['b', 'y', 't', 'e', 's']) {
        Some(FileSize::Bytes(n))
    } else if matches_word(unit, seq!['k', 'b']) || matches_word(
        unit,
        seq!['k', 'i', 'l', 'o', 'b', 'y', 't', 'e', 's'],
    ) {
        Some(FileSize::Kilobytes(n))
    } else if matches_word(unit, seq!['m', 'b']) || matches_word(
        unit,
        seq!['m', 'e', 'g', 'a', 'b', 'y', 't', 'e', 's'],
    ) {
        Some(FileSize::Megabytes(n))
    } else if matches_word(unit, seq!['g', 'b']) || matches_word(
        unit,
        seq!['g', 'i', 'g', 'a', 'b', 'y', 't', 'e', 's'],
    ) {
        Some(FileSize::Gigabytes(n))
    } else {
        None
    }
}

/// What reading the text `s` as a size gives: exactly two words, the first a
/// number, the second a unit; the number is checked before the unit.
pub open spec fn parse_size(s: Seq<char>) -> Result<FileSize, SizeError> {
    let w = words(s);
    if w.len() != 2 {
        Err(SizeError::InvalidFormat)
    } else if !is_u64_text(w[0]) {
        Err(SizeError::InvalidNumber)
    } else {
        match size_in_unit(digits_value(number_digits(w[0])) as u64, w[1]) {
            Some(v) => Ok(v),
            None => Err(SizeError::InvalidUnit),
        }
    }
}

/// Tests whether the token `t` lowercases to the word `w`.
fn word_matches(t: &Vec<char>, w: &Vec<char>) -> (r: bool)
    requires
        forall|i: int| 0 <= i < w@.len() ==> 'a' <= #[trigger] w@[i] <= 'z',
    ensures
        r == matches_word(t@, w@),
{
    if t.len() != w.len() {
        return false;
    }
    let mut i: usize = 0;
    while i < t.len()
        invariant
            t@.len() == w@.len(),
            i <= t@.len(),
            forall|j: int| 0 <= j < w@.len() ==> 'a' <= #[trigger] w@[j] <= 'z',
            forall|j: int| 0 <= j < i ==> lowers_to(#[trigger] t@[j], w@[j]),
        decreases t@.len() - i,
    {
        let c = t[i];
        let l = w[i];
        let ok = c == l || c as u32 == l as u32 - 32 || (l == 'k' && c as u32 == 0x212a);
        if !ok {
            return false;
        }
        i += 1;
    }
    true
}

/// Tests whether the token `t` names the unit written `short` or `long`.
fn unit_matches(t: &Vec<char>, short: &Vec<char>, long: &Vec<char>) -> (r: bool)
    requires
        forall|i: int| 0 <= i < short@.len() ==> 'a' <= #[trigger] short@[i] <= 'z',
        forall|i: int| 0 <= i < long@.len() ==> 'a' <= #[trigger] long@[i] <= 'z',
    ensures
        r == (matches_word(t@, short@) || matches_word(t@, long@)),
{
    word_matches(t, short) || word_matches(t, long)
}

/// `bytes` counted in units of `unit` bytes, in hundredths, rounded half up.
pub open spec fn hundredths(bytes: nat, unit: nat) -> nat {
    (200 * bytes + unit) / (2 * unit)
}

/// The hundredths `h` written with two decimal places, as in `1.50`.
pub open spec fn two_places(h: nat) -> Seq<char> {
    decimal(h / 100) + seq!['.', digit_char((h / 10) % 10), digit_char(h % 10)]
}

impl FileSize {
    /// The number of bytes this size stands for.
    pub open spec fn byte_count(self) -> nat {
        match self {
            FileSize::Bytes(n) => n as nat,
            FileSize::Kilobytes(k) => k as nat * 1000,
            FileSize::Megabytes(m) => m as nat * 1_000_000,
            FileSize::Gigabytes(g) => g as nat * 1_000_000_000,
        }
    }

    /// The text of the size in bytes, as in `1500 bytes`.
    pub open spec fn bytes_text(self) -> Seq<char> {
        decimal(self.byte_count()) + " bytes"@
    }

    /// The text of the size in kilobytes, as in `1.50 kilobytes`.
    pub open spec fn kilobytes_text(self) -> Seq<char> {
        two_places(hundredths(self.byte_count(), 1000)) + " kilobytes"@
    }

    /// The text of the size in megabytes, as in `1.50 megabytes`.
    pub open spec fn megabytes_text(self) -> Seq<char> {
        two_places(hundredths(self.byte_count(), 1_000_000)) + " megabytes"@
    }

    /// The text of the size in gigabytes, as in `1.50 gigabytes`.
    pub open spec fn gigabytes_text(self) -> Seq<char> {
        two_places(hundredths(self.byte_count(), 1_000_000_000)) + " gigabytes"@
    }

    /// The number of bytes, exactly.
    pub fn to_bytes(&self) -> (r: u128)
        ensures
            r == self.byte_count(),
            r <= u64::MAX * 1_000_000_000,
    {
        match *self {
            FileSize::Bytes(n) => n as u128,
            FileSize::Kilobytes(k) => k as u128 * 1000,
            FileSize::Megabytes(m) => m as u128 * 1_000_000,
            FileSize::Gigabytes(g) => g as u128 * 1_000_000_000,
        }
    }

    /// The size in hundredths of a kilobyte, rounded half up.
    pub fn to_kilobytes(&self) -> (r: u128)
        ensures
            r == hundredths(self.byte_count(), 1000),
    {
        (200 * self.to_bytes() + 1000) / 2000
    }

    /// The size in hundredths of a megabyte, rounded half up.
    pub fn to_megabytes(&self) -> (r: u128)
        ensures
            r == hundredths(self.byte_count(), 1_000_000),
    {
        (200 * self.to_bytes() + 1_000_000) / 2_000_000
    }

    /// The size in hundredths of a gigabyte, rounded half up.
    pub fn to_gigabytes(&self) -> (r: u128)
        ensures
            r == hundredths(self.byte_count(), 1_000_000_000),
    {
        (200 * self.to_bytes() + 1_000_000_000) / 2_000_000_000
    }

    /// Reads a size written as a count and a unit separated by white space,
    /// such as `1500 kb`. The unit is one of `b`, `bytes`, `kb`, `kilobytes`,
    /// `mb`, `megabytes`, `gb`, `gigabytes`, in any case.
    pub fn parse(s: &str) -> (r: Result<FileSize, SizeError>)
        ensures
            r == parse_size(s@),
    {
        let w = split_words(s);
        if w.len() != 2 {
            return Err(SizeError::InvalidFormat);
        }
        assert(w@[0]@ == words(s@)[0]);
        assert(w@[1]@ == words(s@)[1]);
        let n = match parse_u64(&w[0]) {
            Some(n) => n,
            None => return Err(SizeError::InvalidNumber),
        };
        let unit = &w[1];
        if unit_matches(unit, &vec!['b'], &vec!['b', 'y', 't', 'e', 's']) {
            Ok(FileSize::Bytes(n))
        } else if unit_matches(
            unit,
            &vec!['k', 'b'],
            &vec!['k', 'i', 'l', 'o', 'b', 'y', 't', 'e', 's'],
        ) {
            Ok(FileSize::Kilobytes(n))
        } else if unit_matches(
            unit,
            &vec!['m', 'b'],
            &vec!['m', 'e', 'g', 'a', 'b', 'y', 't', 'e', 's'],
        ) {
            Ok(FileSize::Megabytes(n))
        } else if unit_matches(
            unit,
            &vec!['g', 'b'],
            &vec!['g', 'i', 'g', 'a', 'b', 'y', 't', 'e', 's'],
        ) {
            Ok(FileSize::Gigabytes(n))
        } else {
            Err(SizeError::InvalidUnit)
        }
    }
}

/// Appends the hundredths `h` with two decimal places to `s`.
fn push_two_places(s: &mut String, h: u128)
    ensures
        final(s)@ == old(s)@ + two_places(h as nat),
{
    push_decimal(s, h / 100);
    proof {
        reveal_strlit(".");
    }
    s.append(".");
    push_digit(s, (h / 10) % 10);
    push_digit(s, h % 10);
    assert(final(s)@ == old(s)@ + two_places(h as nat));
}

/// A size rendered in each of the four units.
#[derive(Debug)]
pub struct Sizes {
    pub bytes: String,
    pub kilobytes: String,
    pub megabytes: String,
    pub gigabytes: String,
}

impl Sizes {
    /// The four texts are those of the size `v`.
    pub open spec fn renders(self, v: FileSize) -> bool {
        &&& self.bytes@ == v.bytes_text()
        &&& self.kilobytes@ == v.kilobytes_text()
        &&& self.megabytes@ == v.megabytes_text()
        &&& self.gigabytes@ == v.gigabytes_text()
    }

    /// Renders `v` in bytes, kilobytes, megabytes and gigabytes.
    pub fn from_file_size(v: &FileSize) -> (r: Sizes)
        ensures
            r.renders(*v),
    {
        let mut bytes = String::new();
        push_decimal(&mut bytes, v.to_bytes());
        bytes.append(" bytes");
        let mut kilobytes = String::new();
        push_two_places(&mut kilobytes, v.to_kilobytes());
        kilobytes.append(" kilobytes");
        let mut megabytes = String::new();
        push_two_places(&mut megabytes, v.to_megabytes());
        megabytes.append(" megabytes");
        let mut gigabytes = String::new();
        push_two_places(&mut gigabytes, v.to_gigabytes());
        gigabytes.append(" gigabytes");
        Sizes { bytes, kilobytes, megabytes, gigabytes }
    }

    /// Reads the size text `size_str` and renders it in the four units.
    pub fn get_sizes(size_str: &str) -> (r: Result<Sizes, SizeError>)
        ensures
            match parse_size(size_str@) {
                Ok(v) => r is Ok && r->Ok_0.renders(v),
                Err(e) => r is Err && r->Err_0 == e,
            },
    {
        match FileSize::parse(size_str) {
            Ok(v) => Ok(Sizes::from_file_size(&v)),
            Err(e) => Err(e),
        }
    }
}

/// The text of `n` followed by a space and the unit `unit` reads as two
/// words, the first of which is the number `n`.
proof fn lemma_count_and_unit(n: u64, unit: Seq<char>)
    requires
        unit.len() > 0,
        forall|i: int| 0 <= i < unit.len() ==> !is_ws(#[trigger] unit[i]),
    ensures
        words(decimal(n as nat) + seq![' '] + unit) == seq![decimal(n as nat), unit],
        is_u64_text(decimal(n as nat)),
        digits_value(number_digits(decimal(n as nat))) == n,
{
    let d = decimal(n as nat);
    lemma_decimal_digits(n as nat);
    assert forall|i: int| 0 <= i < d.len() implies !is_ws(#[trigger] d[i]) by {
        assert(all_digits(d));
        assert('0' <= d[i] <= '9');
    }
    assert(Seq::<char>::empty() + d == d);
    lemma_words_append_word(Seq::<char>::empty(), d);
    assert(words(Seq::<char>::empty()) == Seq::<Seq<char>>::empty());
    lemma_words_append_ws(d, ' ');
    assert(d.push(' ') == d + seq![' ']);
    lemma_words_append_word(d.push(' '), unit);
    assert(words(d + seq![' '] + unit) =~= seq![d, unit]);
    assert('0' <= d[0] <= '9');
    assert(number_digits(d) == d);
}

/// Reading `<n> kb` gives `n` kilobytes, which are exactly `n * 1000` bytes.
pub proof fn lemma_kilobytes_round_trip(n: u64)
    ensures
        parse_size(decimal(n as nat) + seq![' ', 'k', 'b']) == Ok::<FileSize, SizeError>(
            FileSize::Kilobytes(n),
        ),
        FileSize::Kilobytes(n).byte_count() == n * 1000,
{
    let unit = seq!['k', 'b'];
    lemma_count_and_unit(n, unit);
    assert(decimal(n as nat) + seq![' '] + unit == decimal(n as nat) + seq![' ', 'k', 'b']);
    assert(!matches_word(unit, seq!['b']));
    assert(!matches_word(unit, seq!['b', 'y', 't', 'e', 's']));
    assert(matches_word(unit, seq!['k', 'b']));
}

/// Reading `<n> b` gives `n` bytes, whose kilobyte text is `n / 1000` rounded
/// half up to two decimal places.
pub proof fn lemma_bytes_round_trip(n: u64)
    ensures
        parse_size(decimal(n as nat) + seq![' ', 'b']) == Ok::<FileSize, SizeError>(
            FileSize::Bytes(n),
        ),
        FileSize::Bytes(n).kilobytes_text() == two_places((n as nat + 5) / 10) + " kilobytes"@,
{
    let unit = seq!['b'];
    lemma_count_and_unit(n, unit);
    assert(decimal(n as nat) + seq![' '] + unit == decimal(n as nat) + seq![' ', 'b']);
    assert(matches_word(unit, seq!['b']));
    assert(hundredths(n as nat, 1000) == (n as nat + 5) / 10) by (nonlinear_arith);
}

} // verus!
