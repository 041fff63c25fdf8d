//! Text: trimming, case, search, and whole numbers.
use vstd::prelude::*;

verus! {

/// `String::push` of std: it appends one character.
pub assume_specification[ String::push ](s: &mut String, ch: char)
    ensures
        final(s)@ == old(s)@.push(ch),
;

/// Whether two texts are the same.
pub fn same(a: &str, b: &str) -> (r: bool)
    ensures
        r == (a@ == b@),
{
    let x: String = a.to_string();
    let y: String = b.to_string();
    x == y
}

/// The characters of a text.
pub fn chars_of(s: &str) -> (r: Vec<char>)
    ensures
        r@ == s@,
{
    let mut r: Vec<char> = Vec::new();
    for c in it: s.chars()
        invariant
            r@ == s@.take(it.index()),
            it.seq() == s@,
    {
        r.push(c);
    }
    r
}

/// Whether a character is white space as Unicode has it.
pub open spec fn is_space(c: char) -> bool {
    let n = c as int;
    ||| 0x9 <= n <= 0xd
    ||| n == 0x20
    ||| n == 0x85
    ||| n == 0xa0
    ||| n == 0x1680
    ||| 0x2000 <= n <= 0x200a
    ||| n == 0x2028
    ||| n == 0x2029
    ||| n == 0x202f
    ||| n == 0x205f
    ||| n == 0x3000
}

/// Where the first character at or after `i` that is not white space stands.
pub open spec fn lead(s: Seq<char>, i: int) -> int
    decreases s.len() - i,
{
    if 0 <= i < s.len() && is_space(s[i]) {
        lead(s, i + 1)
    } else {
        i
    }
}

/// Where the last character before `n` that is not white space ends.
pub open spec fn tail(s: Seq<char>, n: int) -> int
    decreases n,
{
    if 0 < n <= s.len() && is_space(s[n - 1]) {
        tail(s, n - 1)
    } else {
        n
    }
}

/// A text without the white space at its ends.
pub open spec fn trimmed(s: Seq<char>) -> Seq<char> {
    let a = lead(s, 0);
    let b = tail(s, s.len() as int);
    if a < b {
        s.subrange(a, b)
    } else {
        Seq::empty()
    }
}

/// Whether a character is white space.
fn space(c: char) -> (r: bool)
    ensures
        r == is_space(c),
{
    let n: u32 = c as u32;
    (0x9 <= n && n <= 0xd) || n == 0x20 || n == 0x85 || n == 0xa0 || n == 0x1680 || (0x2000 <= n && n
        <= 0x200a) || n == 0x2028 || n == 0x2029 || n == 0x202f || n == 0x205f || n == 0x3000
}

/// A text without the white space at its ends.
pub fn trim(s: &str) -> (r: String)
    ensures
        r@ == trimmed(s@),
{
    let chars: Vec<char> = chars_of(s);
    let mut a: usize = 0;
    while a < chars.len() && space(chars[a])
        invariant
            a <= chars.len(),
            chars@ == s@,
            lead(s@, 0) == lead(s@, a as int),
        decreases chars.len() - a,
    {
        a = a + 1;
    }
    let mut b: usize = chars.len();
    while b > 0 && space(chars[b - 1])
        invariant
            b <= chars.len(),
            chars@ == s@,
            tail(s@, s@.len() as int) == tail(s@, b as int),
        decreases b,
    {
        b = b - 1;
    }
    if a < b {
        s.substring_char(a, b).to_string()
    } else {
        String::new()
    }
}

/// A character with an ASCII capital made small.
pub open spec fn small(c: char) -> char {
    if 'A' <= c <= 'Z' {
        (c as u32 + 32) as char
    } else {
        c
    }
}

/// A character with a small ASCII letter made a capital.
pub open spec fn capital(c: char) -> char {
    if 'a' <= c <= 'z' {
        (c as u32 - 32) as char
    } else {
        c
    }
}

/// A text with its ASCII capitals made small.
pub open spec fn lowered(s: Seq<char>) -> Seq<char> {
    s.map_values(|c: char| small(c))
}

/// A text with its small ASCII letters made capitals.
pub open spec fn raised(s: Seq<char>) -> Seq<char> {
    s.map_values(|c: char| capital(c))
}

/// A text with its ASCII capitals made small.
pub fn to_lower(s: &str) -> (r: String)
    ensures
        r@ == lowered(s@),
{
    let chars: Vec<char> = chars_of(s);
    let mut r: String = String::new();
    let mut i: usize = 0;
    while i < chars.len()
        invariant
            i <= chars.len(),
            chars@ == s@,
            r@ == lowered(s@.take(i as int)),
        decreases chars.len() - i,
    {
        let c: char = chars[i];
        let d: char = if 'A' <= c && c <= 'Z' {
            (c as u8 + 32) as char
        } else {
            c
        };
        r.push(d);
        proof {
            assert(lowered(s@.take(i + 1)) =~= lowered(s@.take(i as int)).push(small(c)));
        }
        i = i + 1;
    }
    proof {
        assert(s@.take(i as int) =~= s@);
    }
    r
}

/// A text with its small ASCII letters made capitals.
pub fn to_upper(s: &str) -> (r: String)
    ensures
        r@ == raised(s@),
{
    let chars: Vec<char> = chars_of(s);
    let mut r: String = String::new();
    let mut i: usize = 0;
    while i < chars.len()
        invariant
            i <= chars.len(),
            chars@ == s@,
            r@ == raised(s@.take(i as int)),
        decreases chars.len() - i,
    {
        let c: char = chars[i];
        let d: char = if 'a' <= c && c <= 'z' {
            (c as u8 - 32) as char
        } else {
            c
        };
        r.push(d);
        proof {
            assert(raised(s@.take(i + 1)) =~= raised(s@.take(i as int)).push(capital(c)));
        }
        i = i + 1;
    }
    proof {
        assert(s@.take(i as int) =~= s@);
    }
    r
}

/// Whether a text has another one at `i`.
pub open spec fn has_at(s: Seq<char>, part: Seq<char>, i: int) -> bool {
    0 <= i && i + part.len() <= s.len() && s.subrange(i, i + part.len()) == part
}

/// Whether a text has another one in it.
pub open spec fn has_part(s: Seq<char>, part: Seq<char>) -> bool {
    exists|i: int| #[trigger] has_at(s, part, i)
}

/// Whether characters have others at `i`.
fn part_at(s: &Vec<char>, part: &Vec<char>, i: usize) -> (r: bool)
    requires
        i + part.len() <= s.len(),
    ensures
        r == has_at(s@, part@, i as int),
{
    let mut k: usize = 0;
    while k < part.len()
        invariant
            k <= part.len(),
            i + part.len() <= s.len(),
            forall|j: int| 0 <= j < k ==> s@[i + j] == #[trigger] part@[j],
        decreases part.len() - k,
    {
        if s[i + k] != part[k] {
            proof {
                assert(s@.subrange(i as int, i + part@.len())[k as int] != part@[k as int]);
            }
            return false;
        }
        k = k + 1;
    }
    proof {
        assert(s@.subrange(i as int, i + part@.len()) =~= part@);
    }
    true
}

/// Whether a text has another one in it.
pub fn contains(s: &str, part: &str) -> (r: bool)
    ensures
        r == has_part(s@, part@),
{
    let a: Vec<char> = chars_of(s);
    let b: Vec<char> = chars_of(part);
    if b.len() > a.len() {
        return false;
    }
    let last: usize = a.len() - b.len();
    let mut i: usize = 0;
    while i < last
        invariant
            i <= last,
            last == a.len() - b.len(),
            a@ == s@,
            b@ == part@,
            forall|j: int| 0 <= j < i ==> !#[trigger] has_at(s@, part@, j),
        decreases last - i,
    {
        if part_at(&a, &b, i) {
            return true;
        }
        i = i + 1;
    }
    part_at(&a, &b, last)
}

/// Whether a text begins with another one.
pub fn starts_with(s: &str, part: &str) -> (r: bool)
    ensures
        r == has_at(s@, part@, 0),
{
    let a: Vec<char> = chars_of(s);
    let b: Vec<char> = chars_of(part);
    if b.len() > a.len() {
        return false;
    }
    part_at(&a, &b, 0)
}

/// The digit of a number below ten.
pub open spec fn digit(n: int) -> char {
    (n + 48) as char
}

/// A whole number in digits.
pub open spec fn digits_of(n: int) -> Seq<char>
    decreases n,
{
    if n < 10 {
        seq![digit(n)]
    } else {
        digits_of(n / 10).push(digit(n % 10))
    }
}

/// A whole number in digits, with a minus if it is below nothing.
pub open spec fn number_text(n: int) -> Seq<char> {
    if n < 0 {
        seq!['-'] + digits_of(-n)
    } else {
        digits_of(n)
    }
}

/// Digits with zeros before them up to a width.
pub open spec fn padded(s: Seq<char>, width: int) -> Seq<char>
    decreases width - s.len(),
{
    if s.len() < width {
        padded(seq!['0'] + s, width)
    } else {
        s
    }
}

/// The digit of a number below ten.
fn digit_char(n: u64) -> (r: char)
    requires
        n < 10,
    ensures
        r == digit(n as int),
{
    (n as u8 + 48) as char
}

/// A whole number in digits.
pub fn digits(n: u64) -> (r: String)
    ensures
        r@ == digits_of(n as int),
    decreases n,
{
    if n < 10 {
        let mut r: String = String::new();
        r.push(digit_char(n));
        proof {
            assert(r@ =~= seq![digit(n as int)]);
        }
        r
    } else {
        let mut r: String = digits(n / 10);
        r.push(digit_char(n % 10));
        r
    }
}

/// A whole number in digits, with a minus if it is below nothing.
pub fn number(n: i64) -> (r: String)
    ensures
        r@ == number_text(n as int),
{
    if n < 0 {
        let mut r: String = String::new();
        r.push('-');
        let magnitude: u64 = if n == i64::MIN {
            9_223_372_036_854_775_808
        } else {
            (-n) as u64
        };
        let rest: String = digits(magnitude);
        r.append(rest.as_str());
        proof {
            assert(r@ =~= seq!['-'] + digits_of(-n));
        }
        r
    } else {
        digits(n as u64)
    }
}

/// A whole number in digits, with zeros before it up to a width.
pub fn padded_digits(n: u64, width: usize) -> (r: String)
    requires
        width <= 20,
    ensures
        r@ == padded(digits_of(n as int), width as int),
{
    let mut r: String = digits(n);
    let ghost target = padded(r@, width as int);
    let mut len: usize = r.as_str().unicode_len();
    while len < width
        invariant
            len == r@.len(),
            width <= 20,
            target == padded(r@, width as int),
        decreases width - len,
    {
        let mut longer: String = String::new();
        longer.push('0');
        longer.append(r.as_str());
        proof {
            assert(longer@ =~= seq!['0'] + r@);
        }
        r = longer;
        len = len + 1;
    }
    r
}

} // verus!
