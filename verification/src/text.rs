//! Text as a sequence of characters: cutting it at a separator, and reading
//! numbers from it.

use vstd::prelude::*;
use vstd::slice::slice_subrange;

verus! {

/// The characters of `s`, one by one.
pub fn to_chars(s: &str) -> (chars: Vec<char>)
    ensures
        chars@ == s@,
{
    let mut chars: Vec<char> = Vec::new();
    for c in it: s.chars()
        invariant
            it.seq() == s@,
            chars@ == it.seq().take(it.index()),
    {
        chars.push(c);
    }
    chars
}

/// The places at which `sep` stands in `s`, in rising order.
pub open spec fn sep_positions(s: Seq<char>, sep: char) -> Seq<int>
    decreases s.len(),
{
    if s.len() == 0 {
        Seq::empty()
    } else if s.last() == sep {
        sep_positions(s.drop_last(), sep).push(s.len() - 1)
    } else {
        sep_positions(s.drop_last(), sep)
    }
}

/// Where piece `k` begins, for the separator places `cuts`: at the start, or
/// behind the separator before it.
pub open spec fn piece_start(cuts: Seq<int>, k: int) -> int {
    if k == 0 {
        0
    } else {
        cuts[k - 1] + 1
    }
}

/// Where piece `k` ends, for the separator places `cuts` in a text of `len`
/// characters: at its separator, or at the end of the text.
pub open spec fn piece_end(cuts: Seq<int>, len: int, k: int) -> int {
    if k == cuts.len() {
        len
    } else {
        cuts[k]
    }
}

/// The pieces between the occurrences of `sep` in `s`: one more than there are
/// occurrences, empty pieces included.
pub open spec fn split(s: Seq<char>, sep: char) -> Seq<Seq<char>> {
    let cuts = sep_positions(s, sep);
    Seq::new(
        cuts.len() + 1,
        |k: int| s.subrange(piece_start(cuts, k), piece_end(cuts, s.len() as int, k)),
    )
}

/// The separator places lie in the text, rise strictly, and hold the
/// separator; no other place does.
pub proof fn lemma_sep_positions(s: Seq<char>, sep: char)
    ensures
        sep_positions(s, sep).len() <= s.len(),
        forall|k: int|
            0 <= k < sep_positions(s, sep).len() ==> 0 <= #[trigger] sep_positions(s, sep)[k]
                < s.len() && s[sep_positions(s, sep)[k]] == sep,
        forall|k: int, l: int|
            0 <= k < l < sep_positions(s, sep).len() ==> sep_positions(s, sep)[k]
                < sep_positions(s, sep)[l],
        forall|i: int|
            0 <= i < s.len() && s[i] == sep ==> sep_positions(s, sep).contains(i),
    decreases s.len(),
{
    if s.len() > 0 {
        let front = s.drop_last();
        lemma_sep_positions(front, sep);
        let cuts = sep_positions(s, sep);
        let before = sep_positions(front, sep);
        assert forall|i: int| 0 <= i < s.len() && s[i] == sep implies cuts.contains(i) by {
            if i < s.len() - 1 {
                assert(front[i] == sep);
                let k = before.index_of(i);
                assert(before[k] == i);
                assert(cuts[k] == i);
            } else {
                assert(cuts[cuts.len() - 1] == i);
            }
        }
    }
}

/// Whether `cuts` holds the numbers of `places`, in their order.
pub open spec fn same_places(cuts: Seq<usize>, places: Seq<int>) -> bool {
    &&& cuts.len() == places.len()
    &&& forall|k: int| 0 <= k < cuts.len() ==> #[trigger] cuts[k] as int == places[k]
}

/// The places at which `sep` stands in `text`, in rising order.
pub fn separators(text: &[char], sep: char) -> (cuts: Vec<usize>)
    ensures
        same_places(cuts@, sep_positions(text@, sep)),
{
    let mut cuts: Vec<usize> = Vec::new();
    let mut i: usize = 0;
    assert(text@.take(0) =~= Seq::<char>::empty());
    while i < text.len()
        invariant
            0 <= i <= text@.len(),
            same_places(cuts@, sep_positions(text@.take(i as int), sep)),
        decreases text@.len() - i,
    {
        assert(text@.take(i + 1).drop_last() =~= text@.take(i as int));
        if text[i] == sep {
            cuts.push(i);
        }
        i += 1;
    }
    assert(text@.take(i as int) =~= text@);
    cuts
}

/// Where piece `k` of `text` begins and ends, for the places `cuts` of the
/// separator `sep`.
#[allow(unused_variables)]
pub fn piece_bounds(text: &[char], sep: char, cuts: &Vec<usize>, k: usize) -> (bounds: (
    usize,
    usize,
))
    requires
        same_places(cuts@, sep_positions(text@, sep)),
        k <= cuts@.len(),
    ensures
        bounds.0 <= bounds.1 <= text@.len(),
        bounds.0 == piece_start(sep_positions(text@, sep), k as int),
        bounds.1 == piece_end(sep_positions(text@, sep), text@.len() as int, k as int),
        text@.subrange(bounds.0 as int, bounds.1 as int) == split(text@, sep)[k as int],
{
    proof {
        lemma_sep_positions(text@, sep);
        let places = sep_positions(text@, sep);
        if k > 0 {
            assert(cuts@[k - 1] as int == places[k - 1]);
        }
        if k < cuts@.len() {
            assert(cuts@[k as int] as int == places[k as int]);
        }
    }
    let len = text.len();
    let start = if k == 0 {
        0
    } else {
        cuts[k - 1] + 1
    };
    let end = if k == cuts.len() {
        len
    } else {
        cuts[k]
    };
    (start, end)
}

/// Piece `k` of `text`, cut at the places `cuts` of the separator `sep`.
pub fn piece<'a>(text: &'a [char], sep: char, cuts: &Vec<usize>, k: usize) -> (part: &'a [char])
    requires
        same_places(cuts@, sep_positions(text@, sep)),
        k <= cuts@.len(),
    ensures
        part@ == split(text@, sep)[k as int],
{
    let (start, end) = piece_bounds(text, sep, cuts, k);
    slice_subrange(text, start, end)
}

/// The value of `c` as a digit: of a decimal digit, or of a letter from `a` to
/// `f` in either case.
pub open spec fn digit_value(c: char) -> Option<int> {
    let code = c as u32;
    if 0x30 <= code <= 0x39 {
        Some(code - 0x30)
    } else if 0x61 <= code <= 0x66 {
        Some(code - 0x61 + 10)
    } else if 0x41 <= code <= 0x46 {
        Some(code - 0x41 + 10)
    } else {
        None
    }
}

/// Whether `c` is a digit below `radix`.
pub open spec fn is_digit(c: char, radix: int) -> bool {
    digit_value(c) matches Some(d) && d < radix
}

/// Whether each character of `s` is a digit below `radix`.
pub open spec fn all_digits(s: Seq<char>, radix: int) -> bool {
    forall|i: int| 0 <= i < s.len() ==> is_digit(#[trigger] s[i], radix)
}

/// The number that the digits of `s` spell to the base `radix`.
pub open spec fn number_value(s: Seq<char>, radix: int) -> int
    decreases s.len(),
{
    if s.len() == 0 {
        0
    } else {
        number_value(s.drop_last(), radix) * radix + match digit_value(s.last()) {
            Some(d) => d,
            None => 0,
        }
    }
}

/// What `s` spells as an unsigned 32-bit number: decimal digits, at least
/// one, after at most one plus sign, of a value that fits.
pub open spec fn u32_literal(s: Seq<char>) -> Option<u32> {
    let digits = if s.len() > 0 && s[0] == '+' {
        s.drop_first()
    } else {
        s
    };
    if digits.len() > 0 && all_digits(digits, 10) && number_value(digits, 10) <= u32::MAX {
        Some(number_value(digits, 10) as u32)
    } else {
        None
    }
}

/// The value of a digit string is at least that of each of its beginnings.
pub proof fn lemma_number_grows(s: Seq<char>, radix: int, n: int)
    requires
        radix >= 1,
        0 <= n <= s.len(),
    ensures
        0 <= number_value(s.take(n), radix) <= number_value(s, radix),
    decreases s.len() - n,
{
    lemma_number_nonnegative(s.take(n), radix);
    if n < s.len() {
        lemma_number_grows(s, radix, n + 1);
        assert(s.take(n + 1).drop_last() =~= s.take(n));
        let shorter = number_value(s.take(n), radix);
        assert(shorter <= shorter * radix) by (nonlinear_arith)
            requires
                shorter >= 0,
                radix >= 1,
        ;
    } else {
        assert(s.take(n) =~= s);
    }
}

/// No digit string spells a negative number.
pub proof fn lemma_number_nonnegative(s: Seq<char>, radix: int)
    requires
        radix >= 1,
    ensures
        0 <= number_value(s, radix),
    decreases s.len(),
{
    if s.len() > 0 {
        lemma_number_nonnegative(s.drop_last(), radix);
        let shorter = number_value(s.drop_last(), radix);
        assert(0 <= shorter * radix) by (nonlinear_arith)
            requires
                shorter >= 0,
                radix >= 1,
        ;
    }
}

/// The value of `c` as a digit below `radix`, if it is one.
pub fn digit_of(c: char, radix: u32) -> (digit: Option<u32>)
    requires
        radix == 10 || radix == 16,
    ensures
        digit is Some <==> is_digit(c, radix as int),
        digit matches Some(d) ==> digit_value(c) == Some(d as int),
{
    let code = c as u32;
    if 0x30 <= code && code <= 0x39 {
        Some(code - 0x30)
    } else if radix == 16 && 0x61 <= code && code <= 0x66 {
        Some(code - 0x61 + 10)
    } else if radix == 16 && 0x41 <= code && code <= 0x46 {
        Some(code - 0x41 + 10)
    } else {
        None
    }
}

/// The number that `text` spells to the base `radix`, if `text` is made of
/// digits below `radix` and the number is at most `limit`.
pub fn read_number(text: &[char], radix: u32, limit: u32) -> (number: Option<u32>)
    requires
        radix == 10 || radix == 16,
    ensures
        number is Some <==> all_digits(text@, radix as int) && number_value(text@, radix as int)
            <= limit,
        number matches Some(n) ==> n == number_value(text@, radix as int),
{
    let mut value: u64 = 0;
    let mut i: usize = 0;
    assert(text@.take(0) =~= Seq::<char>::empty());
    while i < text.len()
        invariant
            radix == 10 || radix == 16,
            0 <= i <= text@.len(),
            all_digits(text@.take(i as int), radix as int),
            value == number_value(text@.take(i as int), radix as int),
            value <= limit,
        decreases text@.len() - i,
    {
        assert(text@.take(i + 1).drop_last() =~= text@.take(i as int));
        assert(text@.take(i + 1).last() == text@[i as int]);
        match digit_of(text[i], radix) {
            None => {
                assert(!is_digit(text@[i as int], radix as int));
                return None;
            },
            Some(d) => {
                assert(value * radix <= 0xffff_ffff * 16) by (nonlinear_arith)
                    requires
                        0 <= value <= 0xffff_ffff,
                        0 <= radix <= 16,
                ;
                value = value * (radix as u64) + (d as u64);
                proof {
                    assert forall|j: int| 0 <= j < i + 1 implies is_digit(
                        #[trigger] text@.take(i + 1)[j],
                        radix as int,
                    ) by {
                        if j < i {
                            assert(text@.take(i as int)[j] == text@.take(i + 1)[j]);
                        }
                    }
                }
                if value > limit as u64 {
                    proof {
                        if all_digits(text@, radix as int) {
                            lemma_number_grows(text@, radix as int, i + 1);
                        }
                    }
                    return None;
                }
            },
        }
        i += 1;
    }
    assert(text@.take(i as int) =~= text@);
    Some(value as u32)
}

/// What `text` spells as an unsigned 32-bit number, if anything.
pub fn read_u32(text: &[char]) -> (number: Option<u32>)
    ensures
        number == u32_literal(text@),
{
    let len = text.len();
    let digits = if len > 0 && text[0] == '+' {
        slice_subrange(text, 1, len)
    } else {
        text
    };
    if digits.len() == 0 {
        return None;
    }
    read_number(digits, 10, u32::MAX)
}

} // verus!
