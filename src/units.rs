use vstd::prelude::*;
use vstd::string::*;

use crate::text::{
    decimal_chars, decimal_value, digit_value, fold_char, folded, folds_to, is_digit, is_digit_char,
    push_decimal,
};

verus! {

/// A binary-multiple unit of byte counts, from the smallest to the largest.
#[derive(Debug, Clone, Copy, PartialEq, Eq, Structural)]
pub enum ByteUnit1024 {
    Bytes,
    Kibibytes,
    Mebibytes,
    Gibibytes,
}

/// The largest unit whose size does not exceed `n` (bytes for `n < 1024`).
pub open spec fn unit_for(n: nat) -> ByteUnit1024 {
    if n >= 1073741824 {
        ByteUnit1024::Gibibytes
    } else if n >= 1048576 {
        ByteUnit1024::Mebibytes
    } else if n >= 1024 {
        ByteUnit1024::Kibibytes
    } else {
        ByteUnit1024::Bytes
    }
}

/// `n` written in the largest unit whose floor quotient is at least one.
pub open spec fn formatted(n: nat) -> (nat, ByteUnit1024) {
    (n / unit_for(n).spec_size(), unit_for(n))
}

/// The unit that an abbreviation names, ignoring ASCII case: `b`; `kib` or `k`;
/// `mib` or `m`; `gib` or `g`.
pub open spec fn unit_of_abbreviation(s: Seq<char>) -> Option<ByteUnit1024> {
    if folds_to(s, seq!['b']) {
        Some(ByteUnit1024::Bytes)
    } else if folds_to(s, seq!['k']) || folds_to(s, seq!['k', 'i', 'b']) {
        Some(ByteUnit1024::Kibibytes)
    } else if folds_to(s, seq!['m']) || folds_to(s, seq!['m', 'i', 'b']) {
        Some(ByteUnit1024::Mebibytes)
    } else if folds_to(s, seq!['g']) || folds_to(s, seq!['g', 'i', 'b']) {
        Some(ByteUnit1024::Gibibytes)
    } else {
        None
    }
}

impl ByteUnit1024 {
    /// Number of bytes in one of this unit.
    pub open spec fn spec_size(self) -> nat {
        match self {
            ByteUnit1024::Bytes => 1,
            ByteUnit1024::Kibibytes => 1024,
            ByteUnit1024::Mebibytes => 1048576,
            ByteUnit1024::Gibibytes => 1073741824,
        }
    }

    /// Canonical short form.
    pub open spec fn spec_abbreviation(self) -> Seq<char> {
        match self {
            ByteUnit1024::Bytes => seq!['B'],
            ByteUnit1024::Kibibytes => seq!['K', 'i', 'B'],
            ByteUnit1024::Mebibytes => seq!['M', 'i', 'B'],
            ByteUnit1024::Gibibytes => seq!['G', 'i', 'B'],
        }
    }

    /// The abbreviation in lower case, as fixture file names carry it.
    pub open spec fn spec_lower_abbreviation(self) -> Seq<char> {
        match self {
            ByteUnit1024::Bytes => seq!['b'],
            ByteUnit1024::Kibibytes => seq!['k', 'i', 'b'],
            ByteUnit1024::Mebibytes => seq!['m', 'i', 'b'],
            ByteUnit1024::Gibibytes => seq!['g', 'i', 'b'],
        }
    }

    /// All units, in ascending order of magnitude.
    pub open spec fn spec_ordered() -> Seq<ByteUnit1024> {
        seq![
            ByteUnit1024::Bytes,
            ByteUnit1024::Kibibytes,
            ByteUnit1024::Mebibytes,
            ByteUnit1024::Gibibytes,
        ]
    }

    pub fn size_in_bytes(&self) -> (r: usize)
        ensures
            r == self.spec_size(),
    {
        match self {
            ByteUnit1024::Bytes => 1,
            ByteUnit1024::Kibibytes => 1024,
            ByteUnit1024::Mebibytes => 1024 * 1024,
            ByteUnit1024::Gibibytes => 1024 * 1024 * 1024,
        }
    }

    pub fn abbreviation(&self) -> (r: &'static str)
        ensures
            r@ == self.spec_abbreviation(),
    {
        proof {
            reveal_strlit("B");
            reveal_strlit("KiB");
            reveal_strlit("MiB");
            reveal_strlit("GiB");
        }
        match self {
            ByteUnit1024::Bytes => "B",
            ByteUnit1024::Kibibytes => "KiB",
            ByteUnit1024::Mebibytes => "MiB",
            ByteUnit1024::Gibibytes => "GiB",
        }
    }

    pub fn from_abbreviation(abbreviation: &str) -> (r: Option<Self>)
        ensures
            r == unit_of_abbreviation(abbreviation@),
    {
        let ghost s = abbreviation@;
        let n = abbreviation.unicode_len();
        if n == 1 {
            let c = fold_char(abbreviation.get_char(0));
            assert(folds_to(s, seq!['b']) <==> c == 'b' as u32);
            assert(folds_to(s, seq!['k']) <==> c == 'k' as u32);
            assert(folds_to(s, seq!['m']) <==> c == 'm' as u32);
            assert(folds_to(s, seq!['g']) <==> c == 'g' as u32);
            if c == 'b' as u32 {
                Some(ByteUnit1024::Bytes)
            } else if c == 'k' as u32 {
                Some(ByteUnit1024::Kibibytes)
            } else if c == 'm' as u32 {
                Some(ByteUnit1024::Mebibytes)
            } else if c == 'g' as u32 {
                Some(ByteUnit1024::Gibibytes)
            } else {
                None
            }
        } else if n == 3 {
            let c0 = fold_char(abbreviation.get_char(0));
            let c1 = fold_char(abbreviation.get_char(1));
            let c2 = fold_char(abbreviation.get_char(2));
            let tail = c1 == 'i' as u32 && c2 == 'b' as u32;
            assert(folds_to(s, seq!['k', 'i', 'b']) <==> (c0 == 'k' as u32 && tail));
            assert(folds_to(s, seq!['m', 'i', 'b']) <==> (c0 == 'm' as u32 && tail));
            assert(folds_to(s, seq!['g', 'i', 'b']) <==> (c0 == 'g' as u32 && tail));
            if !tail {
                None
            } else if c0 == 'k' as u32 {
                Some(ByteUnit1024::Kibibytes)
            } else if c0 == 'm' as u32 {
                Some(ByteUnit1024::Mebibytes)
            } else if c0 == 'g' as u32 {
                Some(ByteUnit1024::Gibibytes)
            } else {
                None
            }
        } else {
            None
        }
    }

    /// The abbreviation with its ASCII letters in lower case.
    pub fn lower_abbreviation(&self) -> (r: &'static str)
        ensures
            r@ == self.spec_lower_abbreviation(),
            folds_to(self.spec_abbreviation(), r@),
    {
        proof {
            reveal_strlit("b");
            reveal_strlit("kib");
            reveal_strlit("mib");
            reveal_strlit("gib");
        }
        match self {
            ByteUnit1024::Bytes => "b",
            ByteUnit1024::Kibibytes => "kib",
            ByteUnit1024::Mebibytes => "mib",
            ByteUnit1024::Gibibytes => "gib",
        }
    }

    pub fn ordered() -> (r: Vec<ByteUnit1024>)
        ensures
            r@ == Self::spec_ordered(),
    {
        let r = vec![
            ByteUnit1024::Bytes,
            ByteUnit1024::Kibibytes,
            ByteUnit1024::Mebibytes,
            ByteUnit1024::Gibibytes,
        ];
        assert(r@ =~= Self::spec_ordered());
        r
    }

    /// Given a number of bytes, converts them to the largest unit that
    /// can represent the size of `bytes` without being less than 1.
    pub fn format_bytes(bytes: usize) -> (r: (usize, ByteUnit1024))
        ensures
            r.0 == formatted(bytes as nat).0,
            r.1 == formatted(bytes as nat).1,
    {
        let units = ByteUnit1024::ordered();
        let mut closest = ByteUnit1024::Bytes;
        let mut idx: usize = 0;
        while idx < units.len()
            invariant
                units@ == Self::spec_ordered(),
                0 <= idx <= 4,
                closest == (if idx == 0 { ByteUnit1024::Bytes } else { units@[idx - 1] }),
                idx > 0 ==> bytes >= closest.spec_size(),
            ensures
                idx < 4 ==> bytes < units@[idx as int].spec_size(),
                closest == (if idx == 0 { ByteUnit1024::Bytes } else { units@[idx - 1] }),
            decreases 4 - idx,
        {
            let unit = units[idx];
            let size = unit.size_in_bytes();
            let size_in_units = bytes / size;
            assert(size_in_units < 1 <==> bytes < size) by (nonlinear_arith)
                requires
                    size_in_units == bytes / size,
                    size > 0,
            ;
            if size_in_units < 1 {
                break;
            }
            closest = unit;
            idx = idx + 1;
        }
        (bytes / closest.size_in_bytes(), closest)
    }
}

/// A non-negative count of bytes, ordered by that count.
#[derive(Debug, PartialEq, Eq, Ord, Structural)]
pub struct Bytes {
    value: usize,
}

impl View for Bytes {
    type V = nat;

    closed spec fn view(&self) -> nat {
        self.value as nat
    }
}

/// The text of a byte count: its formatted magnitude, then the unit's abbreviation.
pub open spec fn display_chars(n: nat) -> Seq<char> {
    decimal_chars(formatted(n).0) + formatted(n).1.spec_abbreviation()
}

/// Number of decimal digits at the start of `s`.
pub open spec fn leading_digits(s: Seq<char>) -> nat
    decreases s.len(),
{
    if s.len() > 0 && is_digit(s[0]) {
        1 + leading_digits(s.drop_first())
    } else {
        0
    }
}

/// Whether a digit follows a character that is not a digit.
pub open spec fn digits_inside_unit(s: Seq<char>) -> bool {
    exists|i: int, j: int|
        0 <= i < j < s.len() && !is_digit(#[trigger] s[i]) && is_digit(#[trigger] s[j])
}

/// The number that the leading digits of `s` denote.
pub open spec fn magnitude_of(s: Seq<char>) -> nat {
    decimal_value(s.take(leading_digits(s) as int))
}

/// What follows the leading digits of `s`.
pub open spec fn unit_text(s: Seq<char>) -> Seq<char> {
    s.skip(leading_digits(s) as int)
}

/// The byte count that `s` denotes as `<digits><unit>`, if it has that form.
pub open spec fn parsed_bytes(s: Seq<char>) -> Option<nat> {
    if digits_inside_unit(s) || leading_digits(s) == 0 {
        None
    } else {
        match unit_of_abbreviation(unit_text(s)) {
            Some(u) => Some(magnitude_of(s) * u.spec_size()),
            None => None,
        }
    }
}

/// Why a text is not a byte count.
#[derive(Debug, PartialEq, Eq)]
pub enum ParseError {
    /// A digit follows the unit; holds the whole text.
    DigitsInsideUnit(String),
    /// The text does not start with a digit.
    MissingDigits,
    /// The text after the digits is no known unit; holds that text.
    UnknownUnit(String),
    /// The count does not fit in `usize`.
    TooLarge,
}

proof fn lemma_leading_digits(s: Seq<char>, k: nat)
    requires
        k <= s.len(),
        forall|j: int| 0 <= j < k ==> is_digit(#[trigger] s[j]),
        k == s.len() || !is_digit(s[k as int]),
    ensures
        leading_digits(s) == k,
    decreases k,
{
    if k > 0 {
        let t = s.drop_first();
        assert forall|j: int| 0 <= j < k - 1 implies is_digit(#[trigger] t[j]) by {
            assert(t[j] == s[j + 1]);
        }
        if k < s.len() {
            assert(t[k - 1] == s[k as int]);
        }
        lemma_leading_digits(t, (k - 1) as nat);
    }
}

proof fn lemma_decimal_value_grows(s: Seq<char>, a: int, b: int)
    requires
        0 <= a <= b <= s.len(),
    ensures
        decimal_value(s.take(a)) <= decimal_value(s.take(b)),
    decreases b - a,
{
    if a < b {
        lemma_decimal_value_grows(s, a, b - 1);
        assert(s.take(b).drop_last() =~= s.take(b - 1));
    }
}

impl Bytes {
    pub fn from_bytes(value: usize) -> (r: Self)
        ensures
            r@ == value,
    {
        Bytes { value }
    }

    pub fn from_unit(value: usize, unit: ByteUnit1024) -> (r: Self)
        requires
            value * unit.spec_size() <= usize::MAX,
        ensures
            r@ == value * unit.spec_size(),
    {
        Bytes { value: value * unit.size_in_bytes() }
    }

    pub fn to_bytes(&self) -> (r: usize)
        ensures
            r == self@,
    {
        self.value
    }

    pub fn format_bytes(&self) -> (r: (usize, ByteUnit1024))
        ensures
            r.0 == formatted(self@).0,
            r.1 == formatted(self@).1,
    {
        ByteUnit1024::format_bytes(self.value)
    }

    /// The count written as `"{magnitude}{abbreviation}"`, e.g. `5GiB`.
    pub fn to_string(&self) -> (r: String)
        ensures
            r@ == display_chars(self@),
    {
        let (value, unit) = self.format_bytes();
        let mut r = String::new();
        push_decimal(&mut r, value);
        r.append(unit.abbreviation());
        r
    }

    /// Reads a count written as decimal digits followed by a unit abbreviation.
    pub fn parse(s: &str) -> (r: Result<Self, ParseError>)
        ensures
            match r {
                Ok(b) => parsed_bytes(s@) == Some(b@),
                Err(ParseError::DigitsInsideUnit(t)) => digits_inside_unit(s@) && t@ == s@,
                Err(ParseError::MissingDigits) => !digits_inside_unit(s@) && leading_digits(s@)
                    == 0,
                Err(ParseError::UnknownUnit(t)) => {
                    &&& !digits_inside_unit(s@)
                    &&& leading_digits(s@) > 0
                    &&& unit_of_abbreviation(unit_text(s@)) is None
                    &&& t@ == unit_text(s@)
                },
                Err(ParseError::TooLarge) => parsed_bytes(s@) matches Some(v) && v > usize::MAX,
            },
    {
        let n = s.unicode_len();
        let mut digits: usize = 0;
        let mut in_unit = false;
        let mut i: usize = 0;
        while i < n
            invariant
                n == s@.len(),
                digits <= i <= n,
                forall|j: int| 0 <= j < digits ==> is_digit(#[trigger] s@[j]),
                !in_unit ==> digits == i,
                in_unit ==> digits < i && forall|j: int|
                    digits <= j < i ==> !is_digit(#[trigger] s@[j]),
            decreases n - i,
        {
            let c = s.get_char(i);
            if is_digit_char(c) {
                if in_unit {
                    assert(!is_digit(s@[digits as int]) && is_digit(s@[i as int]));
                    return Err(ParseError::DigitsInsideUnit(String::from_str(s)));
                }
                digits = digits + 1;
            } else {
                in_unit = true;
            }
            i = i + 1;
        }
        proof {
            lemma_leading_digits(s@, digits as nat);
            assert forall|a: int, b: int| 0 <= a < b < s@.len() && !is_digit(#[trigger] s@[a])
                implies !is_digit(#[trigger] s@[b]) by {}
        }
        if digits == 0 {
            return Err(ParseError::MissingDigits);
        }
        let unit_str = s.substring_char(digits, n);
        assert(unit_str@ =~= unit_text(s@));
        let unit = match ByteUnit1024::from_abbreviation(unit_str) {
            Some(u) => u,
            None => {
                return Err(ParseError::UnknownUnit(String::from_str(unit_str)));
            },
        };
        let mut magnitude: usize = 0;
        let mut k: usize = 0;
        while k < digits
            invariant
                n == s@.len(),
                k <= digits <= n,
                digits == leading_digits(s@),
                forall|j: int| 0 <= j < digits ==> is_digit(#[trigger] s@[j]),
                magnitude == decimal_value(s@.take(k as int)),
                unit_of_abbreviation(unit_text(s@)) == Some(unit),
                parsed_bytes(s@) == Some(magnitude_of(s@) * unit.spec_size()),
            decreases digits - k,
        {
            let c = s.get_char(k);
            assert(is_digit(s@[k as int]));
            let d = (c as u32 - '0' as u32) as usize;
            assert(s@.take(k + 1).drop_last() =~= s@.take(k as int));
            assert(decimal_value(s@.take(k + 1)) == magnitude * 10 + d);
            proof {
                lemma_decimal_value_grows(s@, k + 1, digits as int);
            }
            magnitude = match magnitude.checked_mul(10) {
                Some(m) => match m.checked_add(d) {
                    Some(m) => m,
                    None => {
                        return Err(ParseError::TooLarge);
                    },
                },
                None => {
                    return Err(ParseError::TooLarge);
                },
            };
            k = k + 1;
        }
        match magnitude.checked_mul(unit.size_in_bytes()) {
            Some(value) => Ok(Bytes { value }),
            None => Err(ParseError::TooLarge),
        }
    }
}

/// The message for a text whose unit part `t` is not a unit.
pub open spec fn invalid_unit_message(t: Seq<char>) -> Seq<char> {
    "Invalid unit '"@ + t + "'. Valid units are 'B', 'KiB', 'MiB', and 'GiB'."@
}

/// The message for a text that does not start with digits.
pub open spec fn missing_digits_message() -> Seq<char> {
    "Missing size: a size starts with decimal digits."@
}

/// The message for a count that does not fit in `usize`.
pub open spec fn too_large_message() -> Seq<char> {
    "Size too large: it does not fit in a usize."@
}

/// The message that reading `s` as a byte count fails with, where it fails.
pub open spec fn parse_error_message(s: Seq<char>) -> Seq<char> {
    if digits_inside_unit(s) {
        invalid_unit_message(s)
    } else if leading_digits(s) == 0 {
        missing_digits_message()
    } else if unit_of_abbreviation(unit_text(s)) is None {
        invalid_unit_message(unit_text(s))
    } else {
        too_large_message()
    }
}

impl ParseError {
    /// A sentence for a person who wrote the text.
    pub fn message(&self) -> (r: String)
        ensures
            match self {
                ParseError::DigitsInsideUnit(t) => r@ == invalid_unit_message(t@),
                ParseError::UnknownUnit(t) => r@ == invalid_unit_message(t@),
                ParseError::MissingDigits => r@ == missing_digits_message(),
                ParseError::TooLarge => r@ == too_large_message(),
            },
    {
        match self {
            ParseError::DigitsInsideUnit(t) | ParseError::UnknownUnit(t) => {
                let mut r = String::from_str("Invalid unit '");
                r.append(t.as_str());
                r.append("'. Valid units are 'B', 'KiB', 'MiB', and 'GiB'.");
                r
            },
            ParseError::MissingDigits => String::from_str(
                "Missing size: a size starts with decimal digits.",
            ),
            ParseError::TooLarge => String::from_str("Size too large: it does not fit in a usize."),
        }
    }
}

impl std::str::FromStr for Bytes {
    type Err = String;

    /// Reads a count as `Bytes::parse` does; an error carries its message.
    fn from_str(s: &str) -> (r: Result<Self, String>)
        ensures
            r matches Ok(b) ==> parsed_bytes(s@) == Some(b@),
            r matches Err(m) ==> m@ == parse_error_message(s@),
            r is Ok <==> (parsed_bytes(s@) matches Some(v) && v <= usize::MAX),
    {
        match Bytes::parse(s) {
            Ok(b) => Ok(b),
            Err(e) => Err(e.message()),
        }
    }
}

impl PartialOrd for Bytes {
    fn partial_cmp(&self, other: &Bytes) -> Option<std::cmp::Ordering> {
        if self.value < other.value {
            Some(std::cmp::Ordering::Less)
        } else if self.value > other.value {
            Some(std::cmp::Ordering::Greater)
        } else {
            Some(std::cmp::Ordering::Equal)
        }
    }
}

impl vstd::std_specs::cmp::PartialOrdSpecImpl for Bytes {
    open spec fn obeys_partial_cmp_spec() -> bool {
        true
    }

    open spec fn partial_cmp_spec(&self, other: &Bytes) -> Option<std::cmp::Ordering> {
        if self@ < other@ {
            Some(std::cmp::Ordering::Less)
        } else if self@ > other@ {
            Some(std::cmp::Ordering::Greater)
        } else {
            Some(std::cmp::Ordering::Equal)
        }
    }
}

/// Two byte counts are equal exactly when they hold the same number of bytes; `<`
/// and the other comparisons go by that number through `partial_cmp_spec`.
pub proof fn lemma_bytes_eq_by_count(a: Bytes, b: Bytes)
    ensures
        (a == b) <==> (a@ == b@),
{
}

/// Formatting a count and converting the pair back gives no more than the count, and
/// the unit chosen is the largest unit whose floor quotient is at least one.
pub proof fn lemma_format_round_trip(n: usize)
    ensures
        formatted(n as nat).0 * formatted(n as nat).1.spec_size() <= n,
        n >= 1 ==> formatted(n as nat).0 >= 1,
        forall|u: ByteUnit1024|
            n as nat / #[trigger] u.spec_size() >= 1 ==> u.spec_size() <= formatted(n as nat).1.spec_size(),
{
    let u = unit_for(n as nat);
    let size = u.spec_size();
    assert((n as nat / size) * size <= n as nat) by (nonlinear_arith)
        requires
            size > 0,
    ;
    assert(n as nat >= size ==> n as nat / size >= 1) by (nonlinear_arith)
        requires
            size > 0,
    ;
    assert forall|v: ByteUnit1024| n as nat / #[trigger] v.spec_size() >= 1 implies v.spec_size()
        <= size by {
        let w = v.spec_size();
        assert(n as nat / w >= 1 ==> n as nat >= w) by (nonlinear_arith)
            requires
                w > 0,
        ;
    }
}

proof fn lemma_abbreviation_parses(u: ByteUnit1024)
    ensures
        unit_of_abbreviation(u.spec_abbreviation()) == Some(u),
        u.spec_abbreviation().len() > 0,
        forall|i: int|
            0 <= i < u.spec_abbreviation().len() ==> !is_digit(#[trigger] u.spec_abbreviation()[i]),
{
    let a = u.spec_abbreviation();
    match u {
        ByteUnit1024::Bytes => {
            assert(folds_to(a, seq!['b']));
        },
        ByteUnit1024::Kibibytes => {
            assert(folds_to(a, seq!['k', 'i', 'b']));
        },
        ByteUnit1024::Mebibytes => {
            assert(folds_to(a, seq!['m', 'i', 'b']));
        },
        ByteUnit1024::Gibibytes => {
            assert(folds_to(a, seq!['g', 'i', 'b']));
        },
    }
}

/// Parsing a count, writing it in its formatted unit and parsing that text again keeps
/// the byte count, whenever the count is a whole number of its formatted unit.
pub proof fn lemma_parse_format_inverse(s: Seq<char>)
    requires
        parsed_bytes(s) is Some,
        parsed_bytes(s)->0 <= usize::MAX,
        parsed_bytes(s)->0 % unit_for(parsed_bytes(s)->0).spec_size() == 0,
    ensures
        parsed_bytes(display_chars(parsed_bytes(s)->0)) == parsed_bytes(s),
{
    let v = parsed_bytes(s)->0;
    let (q, u) = formatted(v);
    let d = decimal_chars(q);
    let a = u.spec_abbreviation();
    let t = display_chars(v);
    assert(t == d + a);
    crate::text::lemma_decimal_chars(q);
    lemma_abbreviation_parses(u);
    assert forall|j: int| 0 <= j < d.len() implies is_digit(#[trigger] t[j]) by {
        assert(t[j] == d[j]);
    }
    assert forall|j: int| d.len() <= j < t.len() implies !is_digit(#[trigger] t[j]) by {
        assert(t[j] == a[j - d.len()]);
    }
    lemma_leading_digits(t, d.len());
    assert(!digits_inside_unit(t));
    assert(t.take(d.len() as int) =~= d);
    assert(unit_text(t) =~= a);
    assert(magnitude_of(t) == q);
    assert(unit_of_abbreviation(unit_text(t)) == Some(u));
    let size = u.spec_size();
    assert(q == v / size);
    assert(q * size == v) by (nonlinear_arith)
        requires
            q == v / size,
            v % size == 0,
            size > 0,
    ;
    assert(parsed_bytes(t) == Some(q * size));
}

} // verus!
