use vstd::prelude::*;

verus! {

/// A length: a number of pixels or a percentage.
#[derive(Clone, Copy, Debug, PartialEq, Eq, Structural)]
pub enum Size {
    Pixel(u32),
    Percent(u32),
}

pub open spec fn is_digit(c: char) -> bool {
    '0' <= c && c <= '9'
}

pub open spec fn all_digits(s: Seq<char>) -> bool {
    forall|i: int| 0 <= i < s.len() ==> is_digit(#[trigger] s[i])
}

/// The number that a sequence of decimal digits spells.
pub open spec fn digits_value(s: Seq<char>) -> nat
    decreases s.len(),
{
    if s.len() == 0 {
        0
    } else {
        digits_value(s.drop_last()) * 10 + (s.last() as nat - '0' as nat) as nat
    }
}

/// The number that `s` spells, when it is one or more digits whose value fits in `u32`.
pub open spec fn number_of(s: Seq<char>) -> Option<u32> {
    if s.len() > 0 && all_digits(s) && digits_value(s) <= u32::MAX {
        Some(digits_value(s) as u32)
    } else {
        None
    }
}

/// The size that a text such as `600px` or `50%` denotes.
pub open spec fn size_of(s: Seq<char>) -> Option<Size> {
    if s.len() >= 2 && s.subrange(s.len() - 2, s.len() as int) == seq!['p', 'x'] {
        match number_of(s.subrange(0, s.len() - 2)) {
            Some(n) => Some(Size::Pixel(n)),
            None => None,
        }
    } else if s.len() >= 1 && s.last() == '%' {
        match number_of(s.drop_last()) {
            Some(n) => Some(Size::Percent(n)),
            None => None,
        }
    } else {
        None
    }
}

/// The decimal digits of `n`, without leading zeros.
pub open spec fn decimal(n: nat) -> Seq<char>
    decreases n,
{
    if n < 10 {
        seq![digit_char(n)]
    } else {
        decimal(n / 10).push(digit_char(n % 10))
    }
}

pub open spec fn digit_char(d: nat) -> char {
    if d == 0 { '0' }
    else if d == 1 { '1' }
    else if d == 2 { '2' }
    else if d == 3 { '3' }
    else if d == 4 { '4' }
    else if d == 5 { '5' }
    else if d == 6 { '6' }
    else if d == 7 { '7' }
    else if d == 8 { '8' }
    else { '9' }
}

/// The text of a size, as markup writes it.
pub open spec fn size_text(s: Size) -> Seq<char> {
    match s {
        Size::Pixel(n) => decimal(n as nat) + seq!['p', 'x'],
        Size::Percent(n) => decimal(n as nat) + seq!['%'],
    }
}

fn digit_str(d: u32) -> (r: &'static str)
    requires
        d < 10,
    ensures
        r@ == seq![digit_char(d as nat)],
{
    proof {
        reveal_strlit("0");
        reveal_strlit("1");
        reveal_strlit("2");
        reveal_strlit("3");
        reveal_strlit("4");
        reveal_strlit("5");
        reveal_strlit("6");
        reveal_strlit("7");
        reveal_strlit("8");
        reveal_strlit("9");
    }
    if d == 0 { "0" }
    else if d == 1 { "1" }
    else if d == 2 { "2" }
    else if d == 3 { "3" }
    else if d == 4 { "4" }
    else if d == 5 { "5" }
    else if d == 6 { "6" }
    else if d == 7 { "7" }
    else if d == 8 { "8" }
    else { "9" }
}

/// Appends the decimal digits of `n`.
pub fn push_decimal(out: &mut String, n: u32)
    ensures
        final(out)@ == old(out)@ + decimal(n as nat),
    decreases n,
{
    if n < 10 {
        out.append(digit_str(n));
    } else {
        push_decimal(out, n / 10);
        out.append(digit_str(n % 10));
        assert(final(out)@ =~= old(out)@ + decimal(n as nat));
    }
}

impl Size {
    /// Appends the text of the size.
    pub fn push_text(&self, out: &mut String)
        ensures
            final(out)@ == old(out)@ + size_text(*self),
    {
        match self {
            Size::Pixel(n) => {
                push_decimal(out, *n);
                out.append("px");
                proof { reveal_strlit("px"); }
            },
            Size::Percent(n) => {
                push_decimal(out, *n);
                out.append("%");
                proof { reveal_strlit("%"); }
            },
        }
        assert(final(out)@ =~= old(out)@ + size_text(*self));
    }
}

/// The number spelled by `s[from..to]`, where every character is a digit.
fn parse_number(s: &str, from: usize, to: usize) -> (r: Option<u32>)
    requires
        from <= to <= s@.len(),
    ensures
        r == number_of(s@.subrange(from as int, to as int)),
{
    if from == to {
        return None;
    }
    let mut value: u64 = 0;
    let mut i: usize = from;
    while i < to
        invariant
            from <= i <= to <= s@.len(),
            all_digits(s@.subrange(from as int, i as int)),
            value == digits_value(s@.subrange(from as int, i as int)),
            value <= u32::MAX,
        decreases to - i,
    {
        let c = s.get_char(i);
        let ghost sub = s@.subrange(from as int, i + 1);
        assert(sub.drop_last() =~= s@.subrange(from as int, i as int));
        if !('0' <= c && c <= '9') {
            assert(!all_digits(s@.subrange(from as int, to as int))) by {
                assert(s@.subrange(from as int, to as int)[i - from] == c);
            }
            return None;
        }
        let next: u64 = value * 10 + (c as u64 - '0' as u64);
        if next > u32::MAX as u64 {
            assert(number_of(s@.subrange(from as int, to as int)) is None) by {
                let full = s@.subrange(from as int, to as int);
                if all_digits(full) {
                    lemma_digits_value_grows(full, i + 1 - from);
                    assert(full.subrange(0, i + 1 - from) =~= sub);
                }
            }
            return None;
        }
        value = next;
        i = i + 1;
    }
    Some(value as u32)
}

proof fn lemma_digits_value_grows(s: Seq<char>, k: int)
    requires
        0 <= k <= s.len(),
        all_digits(s),
    ensures
        digits_value(s) >= digits_value(s.subrange(0, k)),
    decreases s.len(),
{
    if k < s.len() {
        assert(s.drop_last() =~= s.subrange(0, s.len() - 1));
        assert(all_digits(s.drop_last()));
        assert(s.drop_last().subrange(0, k) =~= s.subrange(0, k));
        lemma_digits_value_grows(s.drop_last(), k);
    } else {
        assert(s.subrange(0, k) =~= s);
    }
}

/// Reads a size such as `600px` or `50%`.
pub fn parse_size(s: &str) -> (r: Option<Size>)
    ensures
        r == size_of(s@),
{
    let n = s.unicode_len();
    if n >= 2 && s.get_char(n - 2) == 'p' && s.get_char(n - 1) == 'x' {
        assert(s@.subrange(n - 2, n as int) =~= seq!['p', 'x']);
        match parse_number(s, 0, n - 2) {
            Some(v) => Some(Size::Pixel(v)),
            None => None,
        }
    } else if n >= 1 && s.get_char(n - 1) == '%' {
        assert(s@.subrange(0, n - 1) =~= s@.drop_last());
        proof {
            if n >= 2 {
                assert(s@.subrange(n - 2, n as int)[1] == s@[n - 1]);
            }
        }
        match parse_number(s, 0, n - 1) {
            Some(v) => Some(Size::Percent(v)),
            None => None,
        }
    } else {
        proof {
            if n >= 2 {
                assert(s@.subrange(n - 2, n as int)[0] == s@[n - 2]);
                assert(s@.subrange(n - 2, n as int)[1] == s@[n - 1]);
            }
        }
        None
    }
}

} // verus!
