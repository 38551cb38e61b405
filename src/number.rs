use vstd::prelude::*;
use vstd::string::*;

verus! {

/// Largest value of an `i64`, as a mathematical integer.
pub open spec fn i64_max() -> int {
    0x7fff_ffff_ffff_ffff
}

/// Converts an unsigned count to a signed one, saturating at `i64::MAX`.
pub fn u64_to_i64(num: u64) -> (r: i64)
    ensures
        r as int == if (num as int) < i64_max() { num as int } else { i64_max() },
{
    if num < 0x7fff_ffff_ffff_ffffu64 {
        num as i64
    } else {
        0x7fff_ffff_ffff_ffffi64
    }
}

/// Position of the first `c` in `s`, or `s.len()` when there is none.
pub open spec fn first_pos(s: Seq<char>, c: char) -> int
    decreases s.len(),
{
    if s.len() == 0 {
        0
    } else if s[0] == c {
        0
    } else {
        1 + first_pos(s.drop_first(), c)
    }
}

/// What stands before the first `c` (all of `s` when there is none).
pub open spec fn before_first(s: Seq<char>, c: char) -> Seq<char> {
    s.subrange(0, first_pos(s, c))
}

/// What stands after the first `c` (nothing when there is none).
pub open spec fn after_first(s: Seq<char>, c: char) -> Seq<char> {
    if first_pos(s, c) < s.len() {
        s.subrange(first_pos(s, c) + 1, s.len() as int)
    } else {
        Seq::empty()
    }
}

/// The integer part of a decimal text: the first `.`-separated segment.
pub open spec fn integer_part(s: Seq<char>) -> Seq<char> {
    before_first(s, '.')
}

/// The fraction part of a decimal text: the second `.`-separated segment, or
/// nothing when the text holds no `.`.
pub open spec fn fraction_part(s: Seq<char>) -> Seq<char> {
    before_first(after_first(s, '.'), '.')
}

pub open spec fn zeros(n: nat) -> Seq<char> {
    Seq::new(n, |i: int| '0')
}

/// The digits of `s` brought to `d` decimals: excess fraction digits are cut,
/// missing ones are filled with zeros.
pub open spec fn rescaled_text(s: Seq<char>, d: nat) -> Seq<char> {
    let frac = fraction_part(s);
    let kept = if frac.len() > d { frac.subrange(0, d as int) } else { frac };
    let pad = if frac.len() < d { (d - frac.len()) as nat } else { 0nat };
    integer_part(s) + kept + zeros(pad)
}

pub open spec fn is_digit(c: char) -> bool {
    '0' <= c && c <= '9'
}

pub open spec fn all_digits(s: Seq<char>) -> bool {
    forall|i: int| 0 <= i < s.len() ==> is_digit(#[trigger] s[i])
}

pub open spec fn digit_value(c: char) -> nat {
    (c as nat - '0' as nat) as nat
}

/// The value of a string of decimal digits.
pub open spec fn digits_value(s: Seq<char>) -> nat
    decreases s.len(),
{
    if s.len() == 0 {
        0
    } else {
        digits_value(s.drop_last()) * 10 + digit_value(s.last())
    }
}

/// The digits of an unsigned integer text, after an optional leading `+`.
pub open spec fn unsigned_body(s: Seq<char>) -> Seq<char> {
    if s.len() > 0 && s[0] == '+' {
        s.drop_first()
    } else {
        s
    }
}

/// Whether `s` is the text of an unsigned 64-bit integer: an optional `+`,
/// then one or more decimal digits whose value fits in a `u64`.
pub open spec fn is_u64_text(s: Seq<char>) -> bool {
    let body = unsigned_body(s);
    body.len() > 0 && all_digits(body) && digits_value(body) <= u64::MAX
}

pub open spec fn u64_text_value(s: Seq<char>) -> nat {
    digits_value(unsigned_body(s))
}

/// An integer with a count of decimals: `number / 10^decimals`.
#[derive(Debug)]
pub struct ParsedNumber {
    pub number: u64,
    pub decimals: u64,
}

#[derive(Debug, PartialEq, Eq, Structural)]
pub enum ParseNumberError {
    /// The digits do not form an unsigned 64-bit integer.
    InvalidNumber,
}

proof fn lemma_first_pos(s: Seq<char>, c: char, i: int)
    requires
        0 <= i <= s.len(),
        forall|j: int| 0 <= j < i ==> s[j] != c,
        i == s.len() || s[i] == c,
    ensures
        first_pos(s, c) == i,
    decreases s.len(),
{
    if s.len() > 0 && s[0] != c {
        assert forall|j: int| 0 <= j < i - 1 implies s.drop_first()[j] != c by {
            assert(s.drop_first()[j] == s[j + 1]);
        }
        lemma_first_pos(s.drop_first(), c, i - 1);
    }
}

pub(crate) proof fn lemma_first_pos_bounds(s: Seq<char>, c: char)
    ensures
        0 <= first_pos(s, c) <= s.len(),
        first_pos(s, c) < s.len() ==> s[first_pos(s, c)] == c,
    decreases s.len(),
{
    if s.len() > 0 && s[0] != c {
        lemma_first_pos_bounds(s.drop_first(), c);
    }
}

/// Index of the first `c` in `s` (its length when there is none).
pub(crate) fn find_char(s: &str, c: char) -> (r: usize)
    ensures
        r as int == first_pos(s@, c),
{
    let n = s.unicode_len();
    let mut i: usize = 0;
    while i < n
        invariant
            n == s@.len(),
            i <= n,
            forall|j: int| 0 <= j < i ==> s@[j] != c,
        decreases n - i,
    {
        if s.get_char(i) == c {
            proof {
                lemma_first_pos(s@, c, i as int);
            }
            return i;
        }
        i = i + 1;
    }
    proof {
        lemma_first_pos(s@, c, i as int);
    }
    i
}

/// Appends the characters of `s` to `out`.
fn push_chars(out: &mut Vec<char>, s: &str)
    ensures
        final(out)@ == old(out)@ + s@,
{
    let n = s.unicode_len();
    let mut i: usize = 0;
    while i < n
        invariant
            n == s@.len(),
            i <= n,
            out@ == old(out)@ + s@.subrange(0, i as int),
        decreases n - i,
    {
        out.push(s.get_char(i));
        proof {
            assert(s@.subrange(0, i + 1) == s@.subrange(0, i as int).push(s@[i as int]));
        }
        i = i + 1;
    }
    proof {
        assert(s@.subrange(0, n as int) == s@);
    }
}

proof fn lemma_digits_prefix_le(s: Seq<char>, k: int)
    requires
        0 <= k <= s.len(),
    ensures
        digits_value(s.subrange(0, k)) <= digits_value(s),
    decreases s.len(),
{
    if k < s.len() {
        assert(s.drop_last().subrange(0, k) == s.subrange(0, k));
        lemma_digits_prefix_le(s.drop_last(), k);
    } else {
        assert(s.subrange(0, k) == s);
    }
}

/// Reads an unsigned 64-bit integer from `s`: an optional `+`, then decimal digits.
fn parse_u64(s: &Vec<char>) -> (r: Option<u64>)
    ensures
        r.is_some() == is_u64_text(s@),
        r matches Some(v) ==> v as nat == u64_text_value(s@),
{
    let n = s.len();
    let mut start: usize = 0;
    if n > 0 && s[0] == '+' {
        start = 1;
    }
    let ghost body = unsigned_body(s@);
    assert(body == s@.subrange(start as int, n as int));
    if start == n {
        return None;
    }
    let mut acc: u64 = 0;
    let mut i: usize = start;
    while i < n
        invariant
            start <= i <= n,
            n == s@.len(),
            body == s@.subrange(start as int, n as int),
            body == unsigned_body(s@),
            all_digits(body.subrange(0, i - start)),
            acc as nat == digits_value(body.subrange(0, i - start)),
        decreases n - i,
    {
        let c = s[i];
        if !('0' <= c && c <= '9') {
            assert(body[i - start] == c);
            assert(!is_digit(body[i - start]));
            assert(!all_digits(body));
            return None;
        }
        let d = (c as u32 - '0' as u32) as u64;
        proof {
            let p = body.subrange(0, i + 1 - start);
            assert(p.drop_last() == body.subrange(0, i - start));
            assert(p.last() == c);
            assert(digit_value(c) == d);
            assert(digits_value(p) == acc * 10 + d);
        }
        if acc > (u64::MAX - d) / 10 {
            proof {
                assert(acc * 10 + d > u64::MAX) by (nonlinear_arith)
                    requires acc > (u64::MAX - d) / 10, d <= 9;
                lemma_digits_prefix_le(body, i + 1 - start);
                if all_digits(body) {
                    assert(digits_value(body) > u64::MAX);
                }
            }
            return None;
        }
        proof {
            assert(acc * 10 + d <= u64::MAX) by (nonlinear_arith)
                requires acc <= (u64::MAX - d) / 10, d <= 9;
        }
        acc = acc * 10 + d;
        i = i + 1;
        proof {
            let p = body.subrange(0, i - start);
            assert forall|j: int| 0 <= j < p.len() implies is_digit(#[trigger] p[j]) by {
                if j < p.len() - 1 {
                    assert(p[j] == body.subrange(0, i - 1 - start)[j]);
                }
            }
        }
    }
    assert(body.subrange(0, n - start) == body);
    Some(acc)
}

/// How many digits the fraction part of `input` has.
pub fn fraction_digits(input: &str) -> (r: usize)
    ensures
        r == fraction_part(input@).len(),
{
    let len = input.unicode_len();
    let dot = find_char(input, '.');
    proof {
        lemma_first_pos_bounds(input@, '.');
    }
    let rest = if dot < len {
        input.substring_char(dot + 1, len)
    } else {
        input.substring_char(len, len)
    };
    assert(rest@ == after_first(input@, '.'));
    let dot2 = find_char(rest, '.');
    proof {
        lemma_first_pos_bounds(rest@, '.');
    }
    dot2
}

impl ParsedNumber {
    /// Reads a decimal text as an integer with a count of decimals. With
    /// `supposed_decimals` the fraction is cut or zero-filled to that many
    /// digits; without it the decimals are those of the text.
    pub fn parse(input: &str, supposed_decimals: Option<u64>) -> (r: Result<ParsedNumber, ParseNumberError>)
        ensures
            ({
                let d: nat = match supposed_decimals {
                    Some(d) => d as nat,
                    None => fraction_part(input@).len(),
                };
                let text = rescaled_text(input@, d);
                match r {
                    Ok(p) => is_u64_text(text) && p.number as nat == u64_text_value(text)
                        && p.decimals as nat == d,
                    Err(_) => !is_u64_text(text),
                }
            }),
    {
        let len = input.unicode_len();
        let dot = find_char(input, '.');
        proof {
            lemma_first_pos_bounds(input@, '.');
        }
        let int_part = input.substring_char(0, dot);
        let rest = if dot < len {
            input.substring_char(dot + 1, len)
        } else {
            input.substring_char(len, len)
        };
        assert(rest@ == after_first(input@, '.'));
        let rest_len = rest.unicode_len();
        let dot2 = find_char(rest, '.');
        proof {
            lemma_first_pos_bounds(rest@, '.');
        }
        let frac = rest.substring_char(0, dot2);
        assert(frac@ == fraction_part(input@));
        let actual = dot2;
        let d: u64 = match supposed_decimals {
            Some(d) => d,
            None => actual as u64,
        };
        let mut text: Vec<char> = Vec::new();
        push_chars(&mut text, int_part);
        if (actual as u64) > d {
            let kept = frac.substring_char(0, d as usize);
            push_chars(&mut text, kept);
        } else {
            push_chars(&mut text, frac);
            let pad: u64 = d - actual as u64;
            let mut k: u64 = 0;
            let ghost base = text@;
            while k < pad
                invariant
                    k <= pad,
                    text@ == base + zeros(k as nat),
                decreases pad - k,
            {
                text.push('0');
                proof {
                    assert(base + zeros((k + 1) as nat) == (base + zeros(k as nat)).push('0'));
                }
                k = k + 1;
            }
        }
        proof {
            let t = rescaled_text(input@, d as nat);
            if (actual as u64) > d {
                assert(zeros(0) == Seq::<char>::empty());
                assert(text@ == t);
            } else {
                assert(text@ == t);
            }
        }
        match parse_u64(&text) {
            Some(number) => Ok(ParsedNumber { number, decimals: d }),
            None => Err(ParseNumberError::InvalidNumber),
        }
    }
}

} // verus!
