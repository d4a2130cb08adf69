//! Text: what a string holds is the sequence of its characters.

use vstd::arithmetic::div_mod::lemma_div_decreases;
use vstd::prelude::*;

verus! {

/// `String::push` appends the character.
pub assume_specification[ String::push ](s: &mut String, c: char)
    ensures
        final(s)@ == old(s)@.push(c),
;

/// `==` on `str` holds exactly where both hold the same characters.
pub assume_specification[ <str as PartialEq>::eq ](a: &str, b: &str) -> (r: bool)
    ensures
        r == (a@ == b@),
;

/// Whether `a` and `b` hold the same characters.
pub fn same_text(a: &str, b: &str) -> (r: bool)
    ensures
        r == (a@ == b@),
{
    *a == *b
}

/// The characters of `s`.
pub fn chars_of(s: &str) -> (v: Vec<char>)
    ensures
        v@ == s@,
{
    let mut v: Vec<char> = Vec::new();
    for c in it: s.chars()
        invariant
            v@ == it.seq().take(it.index() as int),
            it.seq() == s@,
    {
        v.push(c);
    }
    v
}

/// The text with the characters of `v` from `from` up to `to`.
pub fn text_of(v: &Vec<char>, from: usize, to: usize) -> (s: String)
    requires
        from <= to <= v@.len(),
    ensures
        s@ == v@.subrange(from as int, to as int),
{
    let mut s: String = String::new();
    let mut i: usize = from;
    while i < to
        invariant
            from <= i <= to <= v@.len(),
            s@ == v@.subrange(from as int, i as int),
        decreases to - i,
    {
        s.push(v[i]);
        i = i + 1;
    }
    s
}

/// Whether `c` has the Unicode property White_Space.
pub open spec fn white(c: char) -> bool {
    let n = c as u32;
    ||| 0x9 <= n <= 0xd
    ||| n == 0x20
    ||| n == 0x85
    ||| n == 0xa0
    ||| n == 0x1680
    ||| 0x2000 <= n <= 0x200a
    ||| n == 0x2028
    ||| n == 0x2029
    ||| n == 0x202f
    ||| n == 0x205f
    ||| n == 0x3000
}

/// `s` without the white space at its ends.
pub open spec fn trimmed(s: Seq<char>) -> Seq<char>
    decreases s.len(),
{
    if s.len() > 0 && white(s[0]) {
        trimmed(s.skip(1))
    } else if s.len() > 0 && white(s.last()) {
        trimmed(s.drop_last())
    } else {
        s
    }
}

/// No white space is left at the ends of a trimmed text.
pub open spec fn tidy(s: Seq<char>) -> bool {
    s.len() > 0 ==> !white(s[0]) && !white(s.last())
}

/// A trimmed text is tidy, and a tidy one stays as it is.
pub proof fn lemma_trimmed(s: Seq<char>)
    ensures
        tidy(trimmed(s)),
        tidy(s) ==> trimmed(s) == s,
        trimmed(trimmed(s)) == trimmed(s),
    decreases s.len(),
{
    if s.len() > 0 && white(s[0]) {
        lemma_trimmed(s.skip(1));
    } else if s.len() > 0 && white(s.last()) {
        lemma_trimmed(s.drop_last());
    }
}

/// `str::trim`: the text without leading and trailing white space, which is what has the Unicode
/// property White_Space.
#[verifier::external_body]
pub(crate) fn trim(s: &str) -> (r: String)
    ensures
        r@ == trimmed(s@),
{
    s.trim().to_string()
}

/// The small letter of an ASCII capital; any other character is its own.
pub open spec fn small(c: char) -> char {
    if 'A' <= c <= 'Z' {
        (c as u32 + 32) as char
    } else {
        c
    }
}

/// The capital of an ASCII small letter; any other character is its own.
pub open spec fn capital(c: char) -> char {
    if 'a' <= c <= 'z' {
        (c as u32 - 32) as char
    } else {
        c
    }
}

/// Whether every character of `s` is among the first 256 of Unicode, which are those of Latin-1.
pub open spec fn is_latin(s: Seq<char>) -> bool {
    forall|i: int| 0 <= i < s.len() ==> (#[trigger] s[i] as u32) < 0x100
}

/// The small letter of a Latin-1 capital; any other character is its own.
pub open spec fn latin_small(c: char) -> char {
    let n = c as u32;
    if 0x41 <= n <= 0x5a || (0xc0 <= n <= 0xde && n != 0xd7) {
        (n + 32) as char
    } else {
        c
    }
}

/// What `str::to_lowercase` gives for a text without ASCII capitals that has other characters than
/// those of Latin-1.
pub uninterp spec fn unicode_lowercase(s: Seq<char>) -> Seq<char>;

/// The text in small letters.
pub open spec fn lowercase(s: Seq<char>) -> Seq<char> {
    if is_latin(s) {
        s.map_values(|c: char| latin_small(c))
    } else {
        unicode_lowercase(s.map_values(|c: char| small(c))).map_values(|c: char| small(c))
    }
}

/// `str::to_lowercase`: a Latin-1 text has each capital replaced by its small letter. Of other
/// texts it is said that the result depends on the text alone, that it is the same whether the
/// ASCII letters of the text are capitals or small, and that it holds no ASCII capital. Each
/// character is lowered on its own but for the Greek capital sigma, for which it counts whether
/// letters stand around it; an ASCII letter is one in either case.
#[verifier::external_body]
pub(crate) fn to_lowercase(s: &str) -> (r: String)
    ensures
        r@ == (if is_latin(s@) {
            s@.map_values(|c: char| latin_small(c))
        } else {
            unicode_lowercase(s@.map_values(|c: char| small(c))).map_values(|c: char| small(c))
        }),
{
    s.to_lowercase()
}

/// The text with its ASCII small letters in capitals.
pub fn to_capitals(s: &str) -> (r: String)
    ensures
        r@ == s@.map_values(|c: char| capital(c)),
{
    let v: Vec<char> = chars_of(s);
    let mut r: String = String::new();
    let mut i: usize = 0;
    while i < v.len()
        invariant
            i <= v@.len(),
            r@ == v@.take(i as int).map_values(|c: char| capital(c)),
        decreases v@.len() - i,
    {
        let c: char = v[i];
        let d: char = if 'a' <= c && c <= 'z' {
            ((c as u8) - 32) as char
        } else {
            c
        };
        r.push(d);
        i = i + 1;
        proof {
            assert(v@.take(i as int).map_values(|c: char| capital(c)) =~= v@.take(i - 1).map_values(
                |c: char| capital(c),
            ).push(d));
        }
    }
    proof {
        assert(v@.take(i as int) == v@);
    }
    r
}

/// The digit for `d`, a number below sixteen.
pub open spec fn digit(d: nat) -> char {
    if d < 10 {
        (48 + d) as char
    } else {
        (87 + d) as char
    }
}

/// The number `n` written in base `base`, ten or sixteen, without leading zeros.
pub open spec fn numeral(n: nat, base: nat) -> Seq<char>
    decreases n,
{
    if n < base || base < 2 {
        seq![digit(n % base)]
    } else {
        proof {
            lemma_div_decreases(n as int, base as int);
        }
        numeral(n / base, base).push(digit(n % base))
    }
}

/// `s` with zeros in front, up to `width` characters.
pub open spec fn padded(s: Seq<char>, width: nat) -> Seq<char>
    decreases width - s.len(),
{
    if s.len() >= width {
        s
    } else {
        padded(seq!['0'] + s, width)
    }
}

/// The integer `n` in decimal.
pub open spec fn decimal(n: int) -> Seq<char> {
    if n < 0 {
        seq!['-'] + numeral((-n) as nat, 10)
    } else {
        numeral(n as nat, 10)
    }
}

/// The number for a digit.
pub open spec fn digit_value(c: char) -> nat {
    if c <= '9' {
        (c as u32 - 48) as nat
    } else {
        (c as u32 - 87) as nat
    }
}

/// The number that a sequence of digits writes.
pub open spec fn number_of(s: Seq<char>, base: nat) -> nat
    decreases s.len(),
{
    if s.len() == 0 {
        0
    } else {
        number_of(s.drop_last(), base) * base + digit_value(s.last())
    }
}

/// A written number reads as itself, also with zeros in front.
pub proof fn lemma_number_of(n: nat, base: nat, width: nat)
    requires
        base == 10 || base == 16,
    ensures
        number_of(numeral(n, base), base) == n,
        number_of(padded(numeral(n, base), width), base) == n,
{
    lemma_number_of_numeral(n, base);
    lemma_number_of_padded(numeral(n, base), base, width);
}

proof fn lemma_number_of_numeral(n: nat, base: nat)
    requires
        base == 10 || base == 16,
    ensures
        number_of(numeral(n, base), base) == n,
    decreases n,
{
    let d: nat = n % base;
    assert(digit_value(digit(d)) == d);
    if n < base {
        let one = seq![digit(d)];
        assert(one.drop_last() =~= Seq::empty());
        assert(number_of(one.drop_last(), base) * base == 0);
    } else {
        lemma_number_of_numeral(n / base, base);
        assert(numeral(n, base).drop_last() =~= numeral(n / base, base));
        assert((n / base) * base + n % base == n);
    }
}

proof fn lemma_number_of_padded(s: Seq<char>, base: nat, width: nat)
    ensures
        number_of(padded(s, width), base) == number_of(s, base),
    decreases width - s.len(),
{
    if s.len() < width {
        lemma_number_of_zero(s, base);
        lemma_number_of_padded(seq!['0'] + s, base, width);
    }
}

proof fn lemma_number_of_zero(s: Seq<char>, base: nat)
    ensures
        number_of(seq!['0'] + s, base) == number_of(s, base),
    decreases s.len(),
{
    let z = seq!['0'] + s;
    if s.len() > 0 {
        lemma_number_of_zero(s.drop_last(), base);
        assert(z.drop_last() =~= seq!['0'] + s.drop_last());
    } else {
        assert(z.drop_last() =~= Seq::empty());
        assert(number_of(z.drop_last(), base) * base == 0) by (nonlinear_arith)
            requires
                number_of(z.drop_last(), base) == 0,
        ;
    }
}

/// Appends `n` written in base `base`.
pub fn push_numeral(out: &mut String, n: u128, base: u128)
    requires
        base == 10 || base == 16,
    ensures
        final(out)@ == old(out)@ + numeral(n as nat, base as nat),
    decreases n,
{
    if n >= base {
        push_numeral(out, n / base, base);
    }
    let d: u8 = (n % base) as u8;
    let c: char = if d < 10 {
        (48 + d) as char
    } else {
        (87 + d) as char
    };
    out.push(c);
    proof {
        if n >= base {
            assert(out@ =~= old(out)@ + numeral(n as nat, base as nat));
        } else {
            assert(out@ =~= old(out)@ + seq![c]);
        }
    }
}

/// `n` in decimal.
pub fn decimal_text(n: i128) -> (r: String)
    requires
        n > i128::MIN,
    ensures
        r@ == decimal(n as int),
{
    let mut r: String = String::new();
    if n < 0 {
        r.push('-');
        push_numeral(&mut r, (-n) as u128, 10);
        proof {
            assert(r@ =~= decimal(n as int));
        }
    } else {
        push_numeral(&mut r, n as u128, 10);
        proof {
            assert(r@ =~= decimal(n as int));
        }
    }
    r
}

/// `n` in base `base`, with zeros in front up to `width` characters.
pub fn padded_text(n: u128, base: u128, width: usize) -> (r: String)
    requires
        base == 10 || base == 16,
    ensures
        r@ == padded(numeral(n as nat, base as nat), width as nat),
{
    let mut digits: String = String::new();
    push_numeral(&mut digits, n, base);
    proof {
        assert(digits@ =~= numeral(n as nat, base as nat));
    }
    let v: Vec<char> = chars_of(digits.as_str());
    let mut r: String = String::new();
    let mut i: usize = v.len();
    while i < width
        invariant
            v@.len() <= i,
            v@.len() < width ==> i <= width,
            padded(v@, width as nat) == padded(r@ + v@, width as nat),
            r@.len() + v@.len() == i,
            forall|j: int| 0 <= j < r@.len() ==> r@[j] == '0',
        decreases width - i,
    {
        let ghost before: Seq<char> = r@;
        r.push('0');
        i = i + 1;
        proof {
            assert(r@ + v@ =~= seq!['0'] + (before + v@));
        }
    }
    r.append(digits.as_str());
    r
}

/// The number of bytes of a character in UTF-8.
pub open spec fn width(c: char) -> nat {
    if (c as u32) < 0x80 {
        1
    } else if (c as u32) < 0x800 {
        2
    } else if (c as u32) < 0x10000 {
        3
    } else {
        4
    }
}

/// The number of bytes of a text in UTF-8.
pub open spec fn byte_len(s: Seq<char>) -> nat
    decreases s.len(),
{
    if s.len() == 0 {
        0
    } else {
        byte_len(s.drop_last()) + width(s.last())
    }
}

/// A longer text has more bytes.
pub proof fn lemma_byte_len_monotone(s: Seq<char>, i: int, j: int)
    requires
        0 <= i <= j <= s.len(),
    ensures
        byte_len(s.take(i)) + (j - i) <= byte_len(s.take(j)),
    decreases j - i,
{
    if i < j {
        assert(s.take(j).drop_last() =~= s.take(j - 1));
        lemma_byte_len_monotone(s, i, j - 1);
    }
}

/// The longest piece from the start of `v` with at most `limit` bytes, as its number of
/// characters and of bytes.
pub fn measure(v: &Vec<char>, limit: usize) -> (r: (usize, usize))
    ensures
        r.0 <= v@.len(),
        r.1 == byte_len(v@.take(r.0 as int)),
        r.1 <= limit,
        r.0 < v@.len() ==> byte_len(v@.take(r.0 + 1)) > limit,
{
    let mut i: usize = 0;
    let mut total: usize = 0;
    proof {
        assert(byte_len(v@.take(0)) == 0);
    }
    while i < v.len()
        invariant
            i <= v@.len(),
            total == byte_len(v@.take(i as int)),
            total <= limit,
        decreases v@.len() - i,
    {
        let n: u32 = v[i] as u32;
        let w: usize = if n < 0x80 {
            1
        } else if n < 0x800 {
            2
        } else if n < 0x10000 {
            3
        } else {
            4
        };
        proof {
            assert(v@.take(i + 1).drop_last() =~= v@.take(i as int));
        }
        if w > limit - total {
            return (i, total);
        }
        total = total + w;
        i = i + 1;
    }
    (i, total)
}

/// Whether `s` has at least `limit` characters.
pub fn has_length(s: &str, limit: usize) -> (r: bool)
    ensures
        r == (s@.len() >= limit),
{
    chars_of(s).len() >= limit
}

} // verus!
