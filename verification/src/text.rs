//! Helpers for texts: cutting a slice at byte offsets, writing numbers and
//! blanks, and looking at the characters of a text.

use vstd::prelude::*;
use vstd::std_specs::iter::IteratorSpec;
use vstd::string::*;
use vstd::utf8::*;

verus! {

broadcast use vstd::string::group_string_axioms;

/// True for the 128 bytes that encode a character on their own.
pub open spec fn is_ascii_byte(b: u8) -> bool {
    b < 0x80
}

/// In well-formed UTF-8 a character starts at every ASCII byte and right
/// behind it.
pub proof fn lemma_ascii_byte_boundaries(bytes: Seq<u8>, i: int)
    requires
        valid_utf8(bytes),
        0 <= i < bytes.len(),
        is_ascii_byte(bytes[i]),
    ensures
        is_char_boundary(bytes, i),
        is_char_boundary(bytes, i + 1),
    decreases bytes.len(),
{
    is_char_boundary_iff_not_is_continuation_byte(bytes, i);
    let rest = pop_first_scalar(bytes);
    let width = length_of_first_scalar(bytes);
    assert(valid_utf8(rest));
    if i == 0 {
        assert(width == 1);
        assert(is_char_boundary(rest, 0));
        assert(is_char_boundary(bytes, 1));
    } else {
        assert(is_char_boundary(bytes, i) == is_char_boundary(rest, i - width));
        assert(i - width >= 0);
        assert(rest[i - width] == bytes[i]);
        lemma_ascii_byte_boundaries(rest, i - width);
        assert(is_char_boundary(bytes, i + 1) == is_char_boundary(rest, i + 1 - width));
    }
}

/// The part of `s` between two byte offsets, borrowed from `s`. The part has
/// to begin and end with an ASCII byte, which keeps both cuts on character
/// boundaries.
pub fn slice_text<'a>(s: &'a str, from: usize, to: usize) -> (part: &'a str)
    requires
        from < to <= s.spec_bytes().len(),
        is_ascii_byte(s.spec_bytes()[from as int]),
        is_ascii_byte(s.spec_bytes()[to - 1]),
    ensures
        part.spec_bytes() == s.spec_bytes().subrange(from as int, to as int),
{
    proof {
        encode_utf8_valid_utf8(s@);
        lemma_ascii_byte_boundaries(s.spec_bytes(), to - 1);
    }
    let (head, _) = s.split_at(to);
    proof {
        encode_utf8_valid_utf8(head@);
        assert(head.spec_bytes()[from as int] == s.spec_bytes()[from as int]);
        lemma_ascii_byte_boundaries(head.spec_bytes(), from as int);
    }
    let (_, part) = head.split_at(from);
    assert(part.spec_bytes() =~= s.spec_bytes().subrange(from as int, to as int));
    part
}

/// The character that writes the digit `d`.
pub open spec fn digit_char(d: int) -> char {
    if d == 0 {
        '0'
    } else if d == 1 {
        '1'
    } else if d == 2 {
        '2'
    } else if d == 3 {
        '3'
    } else if d == 4 {
        '4'
    } else if d == 5 {
        '5'
    } else if d == 6 {
        '6'
    } else if d == 7 {
        '7'
    } else if d == 8 {
        '8'
    } else {
        '9'
    }
}

/// `n` written in decimal, without leading zeros.
pub open spec fn decimal(n: nat) -> Seq<char>
    decreases n,
{
    if n < 10 {
        seq![digit_char(n as int)]
    } else {
        decimal(n / 10).push(digit_char((n % 10) as int))
    }
}

/// `n` blanks.
pub open spec fn blanks(n: nat) -> Seq<char> {
    Seq::new(n, |i: int| ' ')
}

/// The text that writes the digit `d`.
fn digit_text(d: u64) -> (text: &'static str)
    requires
        d < 10,
    ensures
        text@ == seq![digit_char(d as int)],
{
    proof {
        reveal_strlit("0");
        reveal_strlit("1");
        reveal_strlit("2");
        reveal_strlit("3");
        reveal_strlit("4");
        reveal_strlit("5");
        reveal_strlit("6");
        reveal_strlit("7");
        reveal_strlit("8");
        reveal_strlit("9");
    }
    let text = if d == 0 {
        "0"
    } else if d == 1 {
        "1"
    } else if d == 2 {
        "2"
    } else if d == 3 {
        "3"
    } else if d == 4 {
        "4"
    } else if d == 5 {
        "5"
    } else if d == 6 {
        "6"
    } else if d == 7 {
        "7"
    } else if d == 8 {
        "8"
    } else {
        "9"
    };
    assert(text@ =~= seq![digit_char(d as int)]);
    text
}

/// Writes `n` in decimal at the end of `out`.
pub fn push_decimal(out: &mut String, n: u64)
    ensures
        final(out)@ == old(out)@ + decimal(n as nat),
    decreases n,
{
    if n >= 10 {
        push_decimal(out, n / 10);
    }
    out.append(digit_text(n % 10));
    assert(out@ =~= old(out)@ + decimal(n as nat));
}

/// The number of digits that `n` takes in decimal.
pub fn decimal_width(n: u64) -> (width: usize)
    ensures
        width == decimal(n as nat).len(),
        width >= 1,
{
    let mut width: usize = 1;
    let mut rest: u64 = n;
    assert(pow10(0) == 1);
    assert(rest * 1 == n);
    while rest >= 10
        invariant
            1 <= width <= 20,
            rest <= n,
            width == 20 ==> rest < 10,
            width < 20 ==> rest * pow10((width - 1) as nat) <= n,
            decimal(n as nat).len() + 1 == decimal(rest as nat).len() + width,
        decreases rest,
    {
        proof {
            lemma_pow10_step(rest as nat, width as nat, n as nat);
        }
        rest = rest / 10;
        width = width + 1;
    }
    width
}

/// Ten to the power of `e`.
pub open spec fn pow10(e: nat) -> nat
    decreases e,
{
    if e == 0 {
        1
    } else {
        10 * pow10((e - 1) as nat)
    }
}

/// One digit less of `rest` leaves room for one more power of ten below
/// `n`; a number of 64 bits has no more than twenty digits.
proof fn lemma_pow10_step(rest: nat, width: nat, n: nat)
    requires
        rest >= 10,
        1 <= width < 20,
        rest * pow10((width - 1) as nat) <= n <= u64::MAX,
    ensures
        (rest / 10) * pow10(width) <= n,
        width + 1 == 20 ==> rest / 10 < 10,
{
    let p = pow10((width - 1) as nat);
    assert(pow10(width) == 10 * p);
    assert((rest / 10) * (10 * p) <= rest * p) by (nonlinear_arith)
        requires
            rest >= 0,
            p >= 0,
    ;
    if width + 1 == 20 {
        reveal_with_fuel(pow10, 20);
        assert(pow10(19) == 10_000_000_000_000_000_000nat);
        assert(rest / 10 < 10) by (nonlinear_arith)
            requires
                (rest / 10) * 10_000_000_000_000_000_000nat <= 18_446_744_073_709_551_615nat,
        ;
    }
}

/// Writes `n` blanks at the end of `out`.
pub fn push_blanks(out: &mut String, n: usize)
    ensures
        final(out)@ == old(out)@ + blanks(n as nat),
{
    let mut i: usize = 0;
    proof {
        reveal_strlit(" ");
    }
    assert(out@ =~= old(out)@ + blanks(0));
    while i < n
        invariant
            i <= n,
            out@ == old(out)@ + blanks(i as nat),
            " "@ == seq![' '],
        decreases n - i,
    {
        out.append(" ");
        i = i + 1;
        assert(out@ =~= old(out)@ + blanks(i as nat));
    }
}

/// Names the upper-case form that the standard library gives a text.
pub uninterp spec fn upper_case(text: Seq<char>) -> Seq<char>;

/// `str::to_uppercase` of the standard library. The contract gives the
/// result the name `upper_case` and claims nothing more of it: the mapping
/// follows the Unicode tables and is the same for the same text.
#[verifier::external_body]
pub(crate) fn to_upper_case(text: &str) -> (upper: String)
    ensures
        upper@ == upper_case(text@),
{
    text.to_uppercase()
}

/// The characters of `text`, one by one.
pub fn chars_of(text: &str) -> (chars: Vec<char>)
    ensures
        chars@ == text@,
{
    let mut chars: Vec<char> = Vec::new();
    let mut rest = text.chars();
    loop
        invariant
            chars@.len() <= text@.len(),
            chars@ == text@.take(chars@.len() as int),
            rest.remaining() == text@.skip(chars@.len() as int),
        decreases text@.len() - chars@.len(),
    {
        match rest.next() {
            Some(ch) => {
                let ghost seen = chars@.len() as int;
                assert(ch == text@[seen]);
                assert(text@.skip(seen).drop_first() =~= text@.skip(seen + 1));
                chars.push(ch);
                assert(chars@ =~= text@.take(seen + 1));
            },
            None => {
                assert(text@.skip(chars@.len() as int).len() == 0);
                assert(chars@ =~= text@);
                return chars;
            },
        }
    }
}

/// Says whether `text` begins with `prefix`.
pub fn begins_with(text: &[char], prefix: &[char]) -> (r: bool)
    ensures
        r == prefix@.is_prefix_of(text@),
{
    if prefix.len() > text.len() {
        return false;
    }
    let mut i: usize = 0;
    while i < prefix.len()
        invariant
            i <= prefix@.len() <= text@.len(),
            forall|j: int| 0 <= j < i ==> text@[j] == prefix@[j],
        decreases prefix@.len() - i,
    {
        if text[i] != prefix[i] {
            assert(text@.subrange(0, prefix@.len() as int)[i as int] != prefix@[i as int]);
            return false;
        }
        i = i + 1;
    }
    assert(prefix@ =~= text@.subrange(0, prefix@.len() as int));
    true
}

/// True if `part` stands somewhere in `text`.
pub open spec fn has_part(text: Seq<char>, part: Seq<char>) -> bool {
    exists|at: int| 0 <= at <= text.len() && part.is_prefix_of(#[trigger] text.skip(at))
}

/// Says whether `part` stands somewhere in `text`.
pub fn holds_part(text: &[char], part: &[char]) -> (r: bool)
    ensures
        r == has_part(text@, part@),
{
    let mut at: usize = 0;
    while at < text.len()
        invariant
            at <= text@.len(),
            forall|j: int| 0 <= j < at ==> !part@.is_prefix_of(#[trigger] text@.skip(j)),
        decreases text@.len() - at,
    {
        let rest = vstd::slice::slice_subrange(text, at, text.len());
        assert(rest@ =~= text@.skip(at as int));
        if begins_with(rest, part) {
            return true;
        }
        at = at + 1;
    }
    let rest = vstd::slice::slice_subrange(text, at, text.len());
    assert(rest@ =~= text@.skip(at as int));
    begins_with(rest, part)
}

/// A text has no more characters than bytes.
pub proof fn lemma_chars_within_bytes(chars: Seq<char>)
    ensures
        chars.len() <= encode_utf8(chars).len(),
    decreases chars.len(),
{
    if chars.len() > 0 {
        lemma_chars_within_bytes(chars.drop_first());
        assert(encode_scalar(chars[0] as u32).len() >= 1);
    }
}

} // verus!
