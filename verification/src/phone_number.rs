//! A lightweight domestic telephone number.
//!
//! A number is the triple area code, exchange, line number, each an
//! unsigned 16-bit field. [`PhoneNumber::from_utf8`] parses a finished
//! input buffer leniently: either the delimited form `digits-digits-digits`
//! or the fixed-width form of exactly ten contiguous digits, in both cases
//! consuming the whole input.

use vstd::prelude::*;
use vstd::string::StrSliceExecFns;

verus! {

/// Whether `c` is a decimal digit.
pub open spec fn is_digit_char(c: char) -> bool {
    '0' as int <= c as int && c as int <= '9' as int
}

/// The value of a decimal digit.
pub open spec fn digit_val(c: char) -> int {
    c as int - '0' as int
}

/// Whether every character of `s` is a decimal digit.
pub open spec fn all_digits(s: Seq<char>) -> bool {
    forall|k: int| 0 <= k < s.len() ==> is_digit_char(s[k])
}

/// The number the digit string `s` denotes, most significant digit
/// first; the empty string denotes zero.
pub open spec fn digits_value(s: Seq<char>) -> int
    decreases s.len(),
{
    if s.len() == 0 {
        0
    } else {
        digits_value(s.drop_last()) * 10 + digit_val(s.last())
    }
}

/// A digit group of the grammar: nonempty, all digits, and small enough
/// for an unsigned 16-bit field.
pub open spec fn valid_group(s: Seq<char>) -> bool {
    s.len() > 0 && all_digits(s) && digits_value(s) <= u16::MAX
}

/// Ten raised to `n`.
pub open spec fn pow10(n: nat) -> int
    decreases n,
{
    if n == 0 {
        1
    } else {
        10 * pow10((n - 1) as nat)
    }
}

/// A digit string denotes a number between zero (inclusive) and ten to
/// its length (exclusive).
pub proof fn lemma_digits_value_bounds(s: Seq<char>)
    requires
        all_digits(s),
    ensures
        0 <= digits_value(s) < pow10(s.len()),
    decreases s.len(),
{
    if s.len() > 0 {
        assert(all_digits(s.drop_last()));
        lemma_digits_value_bounds(s.drop_last());
        assert(0 <= digit_val(s.last()) <= 9);
    }
}

/// A digit string denotes at least as much as any of its prefixes.
pub proof fn lemma_digits_value_prefix(s: Seq<char>, k: int)
    requires
        all_digits(s),
        0 <= k <= s.len(),
    ensures
        digits_value(s.take(k)) <= digits_value(s),
    decreases s.len() - k,
{
    if k < s.len() {
        assert(all_digits(s.take(k + 1)));
        assert(s.take(k + 1).drop_last() =~= s.take(k));
        assert(s.take(k + 1).last() == s[k]);
        lemma_digits_value_bounds(s.take(k));
        assert(digits_value(s.take(k)) <= digits_value(s.take(k + 1)));
        lemma_digits_value_prefix(s, k + 1);
        assert(s.take(s.len() as int) =~= s);
    } else {
        assert(s.take(k) =~= s);
    }
}

/// The delimited grammar, split at dash positions `i` and `j`: three
/// valid digit groups separated by single dashes, consuming the whole
/// input.
pub open spec fn delimited_match(s: Seq<char>, i: int, j: int) -> bool {
    &&& 0 <= i < j < s.len()
    &&& s[i] == '-'
    &&& s[j] == '-'
    &&& valid_group(s.subrange(0, i))
    &&& valid_group(s.subrange(i + 1, j))
    &&& valid_group(s.subrange(j + 1, s.len() as int))
}

/// Whether the whole input matches the delimited grammar
/// `digits '-' digits '-' digits`.
pub open spec fn is_delimited(s: Seq<char>) -> bool {
    exists|i: int, j: int| delimited_match(s, i, j)
}

/// The number the delimited grammar yields when split at `i` and `j`.
pub open spec fn delimited_number(s: Seq<char>, i: int, j: int) -> PhoneNumber {
    PhoneNumber {
        area_code: digits_value(s.subrange(0, i)) as u16,
        exchange: digits_value(s.subrange(i + 1, j)) as u16,
        line_number: digits_value(s.subrange(j + 1, s.len() as int)) as u16,
    }
}

/// Whether the whole input matches the fixed-width grammar: exactly ten
/// contiguous digits, split three, three, four.
pub open spec fn is_fixed(s: Seq<char>) -> bool {
    s.len() == 10 && all_digits(s)
}

/// The number the fixed-width grammar yields.
pub open spec fn fixed_number(s: Seq<char>) -> PhoneNumber {
    PhoneNumber {
        area_code: digits_value(s.subrange(0, 3)) as u16,
        exchange: digits_value(s.subrange(3, 6)) as u16,
        line_number: digits_value(s.subrange(6, 10)) as u16,
    }
}

/// The delimited grammar splits an input in at most one way: both
/// delimiters are pinned to the first two dashes, since the groups before
/// them hold digits only.
pub proof fn lemma_delimited_unique(s: Seq<char>, i1: int, j1: int, i2: int, j2: int)
    requires
        delimited_match(s, i1, j1),
        delimited_match(s, i2, j2),
    ensures
        i1 == i2,
        j1 == j2,
{
    assert(!is_digit_char('-'));
    if i1 < i2 {
        assert(is_digit_char(s.subrange(0, i2)[i1]));
        assert(false);
    }
    if i2 < i1 {
        assert(is_digit_char(s.subrange(0, i1)[i2]));
        assert(false);
    }
    if j1 < j2 {
        assert(is_digit_char(s.subrange(i2 + 1, j2)[j1 - i2 - 1]));
        assert(false);
    }
    if j2 < j1 {
        assert(is_digit_char(s.subrange(i1 + 1, j1)[j2 - i1 - 1]));
        assert(false);
    }
}

/// The single failure kind of the parser: no telephone number could be
/// read from the input. The callers re-prompt; they do not need to know
/// which way the input was malformed.
#[derive(Debug, Clone, Copy, PartialEq, Eq, Structural)]
pub enum Error {
    NoNumber,
}

/// A parsed telephone number; equality is by the triple of fields.
#[derive(Debug, Clone, Copy, PartialEq, Eq, Structural)]
pub struct PhoneNumber {
    pub area_code: u16,
    pub exchange: u16,
    pub line_number: u16,
}

/// The index of the first dash at or after `from`, if any.
fn find_dash(chars: &Vec<char>, from: usize) -> (r: Option<usize>)
    requires
        from <= chars@.len(),
    ensures
        match r {
            Some(k) => from <= k < chars@.len() && chars@[k as int] == '-' && (forall|m: int|
                from <= m < k ==> chars@[m] != '-'),
            None => forall|m: int| from <= m < chars@.len() ==> chars@[m] != '-',
        },
{
    let mut k: usize = from;
    while k < chars.len()
        invariant
            from <= k <= chars@.len(),
            forall|m: int| from <= m < k ==> chars@[m] != '-',
        decreases chars@.len() - k,
    {
        if chars[k] == '-' {
            return Some(k);
        }
        k += 1;
    }
    None
}

/// The value of one decimal digit character, if it is one.
fn digit_of(c: char) -> (r: Option<u32>)
    ensures
        r is Some <==> is_digit_char(c),
        r is Some ==> r->0 as int == digit_val(c),
{
    let u = c as u32;
    if u >= 48 && u <= 57 {
        Some(u - 48)
    } else {
        None
    }
}

/// Parse the characters in `[from, to)` as one digit group: succeeds
/// exactly on a nonempty run of digits whose value fits an unsigned
/// 16-bit field, and then yields that value.
fn parse_group(chars: &Vec<char>, from: usize, to: usize) -> (r: Option<u16>)
    requires
        from <= to <= chars@.len(),
    ensures
        r is Some <==> valid_group(chars@.subrange(from as int, to as int)),
        r is Some ==> r->0 as int == digits_value(chars@.subrange(from as int, to as int)),
{
    let ghost g = chars@.subrange(from as int, to as int);
    if from == to {
        return None;
    }
    let mut acc: u32 = 0;
    let mut k: usize = from;
    while k < to
        invariant
            from <= k <= to <= chars@.len(),
            g == chars@.subrange(from as int, to as int),
            acc <= u16::MAX,
            all_digits(g.take(k - from)),
            acc as int == digits_value(g.take(k - from)),
        decreases to - k,
    {
        let c = chars[k];
        let d = match digit_of(c) {
            Some(d) => d,
            None => {
                proof {
                    assert(g[k - from] == c);
                    assert(!is_digit_char(c));
                }
                return None;
            },
        };
        proof {
            assert(g[k - from] == c);
            assert(is_digit_char(c));
            assert(g.take(k - from + 1).drop_last() =~= g.take(k - from));
            assert(g.take(k - from + 1).last() == g[k - from]);
            assert(d as int == digit_val(c));
            assert(all_digits(g.take(k - from + 1)));
        }
        acc = acc * 10 + d;
        if acc > u16::MAX as u32 {
            proof {
                // every digit string extending this prefix denotes at
                // least as much, so the whole group overflows
                if all_digits(g) {
                    lemma_digits_value_prefix(g, k - from + 1);
                }
            }
            return None;
        }
        k += 1;
    }
    proof {
        assert(g.take(to - from) =~= g);
    }
    Some(acc as u16)
}

impl PhoneNumber {
    pub fn new(area_code: u16, exchange: u16, line_number: u16) -> (r: PhoneNumber)
        ensures
            r.area_code == area_code,
            r.exchange == exchange,
            r.line_number == line_number,
    {
        PhoneNumber { area_code, exchange, line_number }
    }

    /// Parse a finished input buffer. The delimited grammar
    /// `digits '-' digits '-' digits` is tried first; failing that, the
    /// fixed-width grammar of exactly ten contiguous digits. Both demand
    /// the whole input; every malformed input fails with
    /// [`Error::NoNumber`]. The two grammars are mutually exclusive, and
    /// the delimited grammar splits an input in at most one way, so the
    /// result is pinned for every input.
    #[verifier::rlimit(100)]
    pub fn from_utf8(s: &str) -> (r: Result<PhoneNumber, Error>)
        ensures
            r is Ok <==> (is_delimited(s@) || is_fixed(s@)),
            forall|i: int, j: int|
                delimited_match(s@, i, j) ==> r == Ok::<PhoneNumber, Error>(
                    delimited_number(s@, i, j),
                ),
            is_fixed(s@) ==> r == Ok::<PhoneNumber, Error>(fixed_number(s@)),
            r is Err ==> r == Err::<PhoneNumber, Error>(Error::NoNumber),
    {
        let n = s.unicode_len();
        let mut chars: Vec<char> = Vec::new();
        let mut idx: usize = 0;
        while idx < n
            invariant
                n == s@.len(),
                idx <= n,
                chars@ == s@.subrange(0, idx as int),
            decreases n - idx,
        {
            let c = s.get_char(idx);
            chars.push(c);
            proof {
                assert(chars@ =~= s@.subrange(0, idx + 1 as int));
            }
            idx += 1;
        }
        proof {
            assert(chars@ =~= s@);
            assert(!is_digit_char('-'));
        }

        match find_dash(&chars, 0) {
            Some(i) => {
                match find_dash(&chars, i + 1) {
                    Some(j) => {
                        let g1 = parse_group(&chars, 0, i);
                        let g2 = parse_group(&chars, i + 1, j);
                        let g3 = parse_group(&chars, j + 1, chars.len());
                        proof {
                            // a dash rules the fixed-width grammar out
                            assert(!is_fixed(s@));
                        }
                        match (g1, g2, g3) {
                            (Some(a), Some(b), Some(c)) => {
                                proof {
                                    assert(delimited_match(s@, i as int, j as int));
                                    assert forall|i2: int, j2: int|
                                        delimited_match(s@, i2, j2) implies i2 == i && j2
                                        == j by {
                                        lemma_delimited_unique(s@, i as int, j as int, i2, j2);
                                    }
                                    lemma_digits_value_bounds(s@.subrange(0, i as int));
                                    lemma_digits_value_bounds(s@.subrange(i + 1, j as int));
                                    lemma_digits_value_bounds(
                                        s@.subrange(j + 1, s@.len() as int),
                                    );
                                }
                                Ok(PhoneNumber::new(a, b, c))
                            },
                            _ => {
                                proof {
                                    // were any split valid, its delimiters
                                    // would be these first two dashes,
                                    // whose groups just failed
                                    assert(!delimited_match(s@, i as int, j as int));
                                    assert forall|i2: int, j2: int|
                                        !delimited_match(s@, i2, j2) by {
                                        if delimited_match(s@, i2, j2) {
                                            if i < i2 {
                                                assert(is_digit_char(
                                                    s@.subrange(0, i2)[i as int],
                                                ));
                                            }
                                            if i2 < i {
                                                assert(s@[i2] == '-');
                                            }
                                            assert(i2 == i);
                                            if j < j2 {
                                                assert(is_digit_char(
                                                    s@.subrange(i2 + 1, j2)[j - i2 - 1],
                                                ));
                                            }
                                            if j2 < j {
                                                assert(s@[j2] == '-');
                                            }
                                        }
                                    }
                                    assert(!is_delimited(s@));
                                }
                                Err(Error::NoNumber)
                            },
                        }
                    },
                    None => {
                        proof {
                            assert(!is_fixed(s@));
                            // a delimited split needs a second dash after
                            // the first, and there is none
                            assert forall|i2: int, j2: int|
                                !delimited_match(s@, i2, j2) by {
                                if delimited_match(s@, i2, j2) {
                                    if i < i2 {
                                        assert(is_digit_char(s@.subrange(0, i2)[i as int]));
                                    }
                                    if i2 < i {
                                        assert(s@[i2] == '-');
                                    }
                                    assert(i2 == i);
                                    assert(s@[j2] == '-');
                                }
                            }
                            assert(!is_delimited(s@));
                        }
                        Err(Error::NoNumber)
                    },
                }
            },
            None => {
                proof {
                    // no dash: only the fixed-width grammar can match
                    assert forall|i2: int, j2: int| !delimited_match(s@, i2, j2) by {
                        if delimited_match(s@, i2, j2) {
                            assert(s@[i2] == '-');
                        }
                    }
                    assert(!is_delimited(s@));
                }
                if chars.len() == 10 {
                    let g1 = parse_group(&chars, 0, 3);
                    let g2 = parse_group(&chars, 3, 6);
                    let g3 = parse_group(&chars, 6, 10);
                    match (g1, g2, g3) {
                        (Some(a), Some(b), Some(c)) => {
                            proof {
                                assert forall|m: int| 0 <= m < s@.len() implies is_digit_char(
                                    s@[m],
                                ) by {
                                    if m < 3 {
                                        assert(is_digit_char(s@.subrange(0, 3)[m]));
                                    } else if m < 6 {
                                        assert(is_digit_char(s@.subrange(3, 6)[m - 3]));
                                    } else {
                                        assert(is_digit_char(s@.subrange(6, 10)[m - 6]));
                                    }
                                }
                                assert(is_fixed(s@));
                                lemma_digits_value_bounds(s@.subrange(0, 3));
                                lemma_digits_value_bounds(s@.subrange(3, 6));
                                lemma_digits_value_bounds(s@.subrange(6, 10));
                            }
                            Ok(PhoneNumber::new(a, b, c))
                        },
                        _ => {
                            proof {
                                // a three- or four-digit group cannot
                                // overflow, so a failed group holds a
                                // non-digit
                                if all_digits(s@) {
                                    reveal_with_fuel(pow10, 5);
                                    assert(pow10(3) == 1000);
                                    assert(pow10(4) == 10000);
                                    assert(all_digits(s@.subrange(0, 3)));
                                    assert(all_digits(s@.subrange(3, 6)));
                                    assert(all_digits(s@.subrange(6, 10)));
                                    lemma_digits_value_bounds(s@.subrange(0, 3));
                                    lemma_digits_value_bounds(s@.subrange(3, 6));
                                    lemma_digits_value_bounds(s@.subrange(6, 10));
                                    assert(false);
                                }
                                assert(!is_fixed(s@));
                            }
                            Err(Error::NoNumber)
                        },
                    }
                } else {
                    proof {
                        assert(!is_fixed(s@));
                    }
                    Err(Error::NoNumber)
                }
            },
        }
    }

    pub fn area_code(&self) -> (r: u16)
        ensures
            r == self.area_code,
    {
        self.area_code
    }

    pub fn exchange(&self) -> (r: u16)
        ensures
            r == self.exchange,
    {
        self.exchange
    }

    pub fn line_number(&self) -> (r: u16)
        ensures
            r == self.line_number,
    {
        self.line_number
    }

    /// Semantic validation (disallowed area codes and the like) is an
    /// explicit placeholder: every parsed number is currently valid.
    pub fn is_valid(&self) -> (r: bool)
        ensures
            r == true,
    {
        true
    }
}

} // verus!
