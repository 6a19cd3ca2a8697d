//! The compute half of the numeric prompts: parsing a line of bytes
//! as an unsigned decimal, and checking a parsed number against an
//! inclusive range. Reading the line itself is I/O and stays outside;
//! these functions touch no board state.

use vstd::prelude::*;

verus! {

pub open spec fn is_ascii_digit(b: u8) -> bool {
    48 <= b && b <= 57
}

/// The value of a sequence of ASCII digits, most significant first.
pub open spec fn digits_value(s: Seq<u8>) -> int
    decreases s.len(),
{
    if s.len() == 0 {
        0
    } else {
        digits_value(s.drop_last()) * 10 + (s.last() - 48)
    }
}

pub open spec fn all_digits(s: Seq<u8>) -> bool {
    forall|i: int| 0 <= i < s.len() ==> is_ascii_digit(#[trigger] s[i])
}

/// The digits of a numeral: an optional leading `+` is dropped.
pub open spec fn numeral_body(s: Seq<u8>) -> Seq<u8> {
    if s.len() >= 1 && s[0] == 43 {
        s.skip(1)
    } else {
        s
    }
}

/// The byte strings that parse as a `usize`: at least one digit after
/// an optional `+`, nothing else, and a value the type can hold.
pub open spec fn valid_numeral(s: Seq<u8>) -> bool {
    &&& numeral_body(s).len() >= 1
    &&& all_digits(numeral_body(s))
    &&& digits_value(numeral_body(s)) <= usize::MAX as int
}

proof fn lemma_digits_value_step(s: Seq<u8>, a: int, i: int)
    requires
        0 <= a <= i < s.len(),
    ensures
        digits_value(s.subrange(a, i + 1)) == digits_value(s.subrange(a, i)) * 10 + (s[i] - 48),
{
    let t = s.subrange(a, i + 1);
    assert(t.drop_last() =~= s.subrange(a, i));
    assert(t.last() == s[i]);
}

proof fn lemma_digits_value_nonneg(s: Seq<u8>, a: int, i: int)
    requires
        0 <= a <= i <= s.len(),
        forall|q: int| a <= q < i ==> is_ascii_digit(#[trigger] s[q]),
    ensures
        digits_value(s.subrange(a, i)) >= 0,
    decreases i - a,
{
    if i > a {
        lemma_digits_value_nonneg(s, a, i - 1);
        lemma_digits_value_step(s, a, i - 1);
    } else {
        assert(s.subrange(a, a) =~= Seq::<u8>::empty());
    }
}

proof fn lemma_digits_value_grow(s: Seq<u8>, a: int, i: int, j: int)
    requires
        0 <= a <= i <= j <= s.len(),
        forall|q: int| a <= q < j ==> is_ascii_digit(#[trigger] s[q]),
    ensures
        digits_value(s.subrange(a, j)) >= digits_value(s.subrange(a, i)),
    decreases j - i,
{
    if j > i {
        lemma_digits_value_grow(s, a, i, j - 1);
        lemma_digits_value_step(s, a, j - 1);
        lemma_digits_value_nonneg(s, a, j - 1);
    }
}

/// Parse a whole line of bytes as an unsigned decimal number, as the
/// numeric prompt expects it: `Some` exactly on a valid numeral.
pub fn parse_usize(s: &Vec<u8>) -> (r: Option<usize>)
    ensures
        valid_numeral(s@) ==> r == Some(digits_value(numeral_body(s@)) as usize),
        !valid_numeral(s@) ==> r is None,
{
    let ghost b = numeral_body(s@);
    let mut start: usize = 0;
    if s.len() >= 1 && s[0] == 43u8 {
        start = 1;
    }
    proof {
        assert(b =~= s@.subrange(start as int, s@.len() as int));
    }
    if s.len() == start {
        return None;
    }
    let mut acc: usize = 0;
    let mut i: usize = start;
    while i < s.len()
        invariant
            start <= i <= s@.len(),
            b == numeral_body(s@),
            b =~= s@.subrange(start as int, s@.len() as int),
            forall|q: int| start <= q < i ==> is_ascii_digit(#[trigger] s@[q]),
            acc == digits_value(s@.subrange(start as int, i as int)),
        decreases s@.len() - i,
    {
        let c = s[i];
        if c < 48 || c > 57 {
            proof {
                assert(b[i - start] == s@[i as int]);
                assert(!all_digits(b));
            }
            return None;
        }
        let d = (c - 48) as usize;
        let limit = (usize::MAX - d) / 10;
        proof {
            lemma_digits_value_step(s@, start as int, i as int);
        }
        if acc > limit {
            proof {
                assert(acc as int * 10 + d as int > usize::MAX as int) by {
                    let m = (usize::MAX - d) as int;
                    assert(acc as int >= m / 10 + 1);
                    assert(10 * (m / 10) + m % 10 == m);
                    assert(acc as int * 10 >= (m / 10 + 1) * 10) by (nonlinear_arith)
                        requires
                            acc as int >= m / 10 + 1,
                    ;
                }
                if all_digits(b) {
                    assert forall|q: int| start <= q < s@.len() implies is_ascii_digit(
                        #[trigger] s@[q],
                    ) by {
                        assert(b[q - start] == s@[q]);
                    }
                    lemma_digits_value_grow(s@, start as int, i as int + 1, s@.len() as int);
                    assert(digits_value(b) > usize::MAX as int);
                }
            }
            return None;
        }
        acc = acc * 10 + d;
        i += 1;
    }
    proof {
        assert(b =~= s@.subrange(start as int, s@.len() as int));
        assert(all_digits(b)) by {
            assert forall|q: int| 0 <= q < b.len() implies is_ascii_digit(#[trigger] b[q]) by {
                assert(b[q] == s@[q + start]);
            }
        }
        assert(digits_value(b) == acc as int);
    }
    Some(acc)
}

/// What a numeric prompt does with one line: not a number, a number
/// outside the inclusive range, or an accepted number.
#[derive(Debug, Clone, Copy, PartialEq, Eq, Structural)]
pub enum NumberCheck {
    NotANumber,
    OutOfBounds,
    Accepted(usize),
}

/// The replay prompt's decision in the free-placement game: a reply
/// whose first byte is `n` or `N` ends the program, anything else
/// starts a new round.
pub fn replay_declined(first: Option<u8>) -> (r: bool)
    ensures
        r <==> (first == Some(110u8) || first == Some(78u8)),
{
    match first {
        Some(b) => b == 110 || b == 78,
        None => false,
    }
}

/// The replay prompt's decision in the gravity-drop game: a reply
/// whose first byte is `y` or `Y` starts a new round, anything else
/// ends the program.
pub fn replay_confirmed(first: Option<u8>) -> (r: bool)
    ensures
        r <==> (first == Some(121u8) || first == Some(89u8)),
{
    match first {
        Some(b) => b == 121 || b == 89,
        None => false,
    }
}

/// Check one parsed line against an inclusive range, exactly as the
/// bounded numeric prompt does; a rejected line leads to a re-prompt
/// and changes nothing.
pub fn validate_number(parsed: Option<usize>, lower: usize, upper: usize) -> (r: NumberCheck)
    ensures
        r is NotANumber <==> parsed is None,
        r is OutOfBounds <==> (parsed matches Some(n) && !(lower <= n <= upper)),
        r is Accepted <==> (parsed matches Some(n) && lower <= n <= upper),
        forall|n: usize| parsed == Some(n) && lower <= n <= upper ==> r == NumberCheck::Accepted(n),
{
    match parsed {
        None => NumberCheck::NotANumber,
        Some(n) => {
            if lower <= n && n <= upper {
                NumberCheck::Accepted(n)
            } else {
                NumberCheck::OutOfBounds
            }
        },
    }
}

} // verus!
