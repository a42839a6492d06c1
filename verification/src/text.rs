//! Text building: decimal rendering of integers and concatenation helpers.
use vstd::prelude::*;

use crate::lookup::{first_index, lemma_first_index_at, lemma_first_index_none};

verus! {

/// The character of a decimal digit.
pub open spec fn digit_char(d: int) -> char {
    if d == 0 {
        '0'
    } else if d == 1 {
        '1'
    } else if d == 2 {
        '2'
    } else if d == 3 {
        '3'
    } else if d == 4 {
        '4'
    } else if d == 5 {
        '5'
    } else if d == 6 {
        '6'
    } else if d == 7 {
        '7'
    } else if d == 8 {
        '8'
    } else {
        '9'
    }
}

/// The decimal digits of a natural number, most significant first, without
/// leading zeros (zero is written as one digit).
pub open spec fn nat_digits(n: nat) -> Seq<char>
    decreases n,
{
    if n < 10 {
        seq![digit_char(n as int)]
    } else {
        nat_digits(n / 10).push(digit_char((n % 10) as int))
    }
}

/// The decimal text of an integer, as Rust's `Display` writes it: a `-` in
/// front of negative numbers.
pub open spec fn int_text(n: int) -> Seq<char> {
    if n < 0 {
        seq!['-'] + nat_digits((-n) as nat)
    } else {
        nat_digits(n as nat)
    }
}

/// `n` zero characters.
pub open spec fn zeros(n: nat) -> Seq<char> {
    Seq::new(n, |i: int| '0')
}

/// The decimal digits of `n` padded with zeros on the left to at least
/// `width` characters, as `{:0width$}` writes a natural number.
pub open spec fn padded_digits(n: nat, width: nat) -> Seq<char> {
    let d = nat_digits(n);
    if d.len() < width {
        zeros((width - d.len()) as nat) + d
    } else {
        d
    }
}

fn digit_str(d: u64) -> (r: &'static str)
    requires
        d < 10,
    ensures
        r@ == seq![digit_char(d as int)],
{
    proof {
        reveal_strlit("0");
        reveal_strlit("1");
        reveal_strlit("2");
        reveal_strlit("3");
        reveal_strlit("4");
        reveal_strlit("5");
        reveal_strlit("6");
        reveal_strlit("7");
        reveal_strlit("8");
        reveal_strlit("9");
    }
    if d == 0 {
        "0"
    } else if d == 1 {
        "1"
    } else if d == 2 {
        "2"
    } else if d == 3 {
        "3"
    } else if d == 4 {
        "4"
    } else if d == 5 {
        "5"
    } else if d == 6 {
        "6"
    } else if d == 7 {
        "7"
    } else if d == 8 {
        "8"
    } else {
        "9"
    }
}

/// Appends the decimal digits of `n` to `out`.
pub fn push_digits(out: &mut String, n: u64)
    ensures
        final(out)@ == old(out)@ + nat_digits(n as nat),
    decreases n,
{
    if n < 10 {
        out.append(digit_str(n));
    } else {
        push_digits(out, n / 10);
        out.append(digit_str(n % 10));
        assert(nat_digits(n as nat) == nat_digits((n / 10) as nat).push(digit_char((n % 10) as int)));
    }
}

/// Appends the decimal text of `n` to `out`.
pub fn push_int(out: &mut String, n: i64)
    ensures
        final(out)@ == old(out)@ + int_text(n as int),
{
    proof {
        reveal_strlit("-");
    }
    if n < 0 {
        out.append("-");
        let m: u64 = if n == i64::MIN {
            9223372036854775808u64
        } else {
            (-n) as u64
        };
        push_digits(out, m);
        assert(final(out)@ =~= old(out)@ + int_text(n as int));
    } else {
        push_digits(out, n as u64);
    }
}

/// The decimal text of `n`.
pub fn int_to_text(n: i64) -> (r: String)
    ensures
        r@ == int_text(n as int),
{
    let mut out = String::new();
    push_int(&mut out, n);
    assert(out@ =~= int_text(n as int));
    out
}

/// The number of decimal digits of `n`.
pub proof fn lemma_digits_len(n: nat)
    ensures
        nat_digits(n).len() >= 1,
        n < 10 <==> nat_digits(n).len() == 1,
        n < 100 <==> nat_digits(n).len() <= 2,
    decreases n,
{
    if n >= 10 {
        lemma_digits_len(n / 10);
    }
}

/// The first decimal digit of a natural number is a digit character.
pub proof fn lemma_first_digit(n: nat)
    ensures
        48 <= nat_digits(n)[0] as int <= 57,
    decreases n,
{
    lemma_digits_len(n);
    if n >= 10 {
        lemma_first_digit(n / 10);
        lemma_digits_len(n / 10);
        assert(nat_digits(n)[0] == nat_digits(n / 10)[0]);
    }
}

/// The first decimal digit of a positive number is not `0`.
pub proof fn lemma_first_digit_nonzero(n: nat)
    requires
        n > 0,
    ensures
        nat_digits(n)[0] != '0',
    decreases n,
{
    lemma_digits_len(n);
    if n >= 10 {
        lemma_first_digit_nonzero(n / 10);
        lemma_digits_len(n / 10);
        assert(nat_digits(n)[0] == nat_digits(n / 10)[0]);
    }
}

/// Distinct numbers have distinct decimal digits.
pub proof fn lemma_digits_injective(a: nat, b: nat)
    requires
        nat_digits(a) == nat_digits(b),
    ensures
        a == b,
    decreases a,
{
    lemma_digits_len(a);
    lemma_digits_len(b);
    if a < 10 && b < 10 {
        assert(nat_digits(a)[0] == digit_char(a as int));
        assert(nat_digits(b)[0] == digit_char(b as int));
    } else if a >= 10 && b >= 10 {
        let da = nat_digits(a);
        let db = nat_digits(b);
        assert(da.last() == digit_char((a % 10) as int));
        assert(db.last() == digit_char((b % 10) as int));
        assert(a % 10 == b % 10);
        assert(da.drop_last() == nat_digits(a / 10));
        assert(db.drop_last() == nat_digits(b / 10));
        lemma_digits_injective(a / 10, b / 10);
    }
}

/// Distinct numbers padded to the same width have distinct texts.
pub proof fn lemma_padded_digits_injective(a: nat, b: nat, width: nat)
    requires
        padded_digits(a, width) == padded_digits(b, width),
    ensures
        a == b,
{
    let da = nat_digits(a);
    let db = nat_digits(b);
    lemma_digits_len(a);
    lemma_digits_len(b);
    if da.len() == db.len() {
        if da.len() < width {
            let z = zeros((width - da.len()) as nat);
            assert(padded_digits(a, width).subrange(z.len() as int, width as int) == da);
            assert(padded_digits(b, width).subrange(z.len() as int, width as int) == db);
        }
        lemma_digits_injective(a, b);
    } else {
        // the shorter one is padded where the longer one has its first digit
        let (s, l, ds, dl) = if da.len() < db.len() {
            (a, b, da, db)
        } else {
            (b, a, db, da)
        };
        let pl = padded_digits(l, width);
        let p = if dl.len() < width {
            width - dl.len()
        } else {
            0
        };
        assert(pl[p as int] == dl[0]);
        assert(padded_digits(s, width)[p as int] == '0');
        if l > 0 {
            lemma_first_digit_nonzero(l);
        }
        assert(l == 0);
        assert(false);
    }
}

/// Appends the decimal digits of `n`, padded with zeros to three places.
pub fn push_digits_width3(out: &mut String, n: u64)
    ensures
        final(out)@ == old(out)@ + padded_digits(n as nat, 3),
{
    proof {
        reveal_strlit("0");
        reveal_strlit("00");
        lemma_digits_len(n as nat);
    }
    let ghost start = out@;
    if n < 10 {
        out.append("00");
        assert(zeros(2) =~= seq!['0', '0']);
    } else if n < 100 {
        out.append("0");
        assert(zeros(1) =~= seq!['0']);
    }
    let ghost mid = out@;
    push_digits(out, n);
    assert(final(out)@ =~= start + padded_digits(n as nat, 3));
}

/// Concatenation of two pieces of text.
pub fn concat2(a: &str, b: &str) -> (r: String)
    ensures
        r@ == a@ + b@,
{
    let mut out = a.to_owned();
    out.append(b);
    out
}

/// Concatenation of three pieces of text.
pub fn concat3(a: &str, b: &str, c: &str) -> (r: String)
    ensures
        r@ == a@ + b@ + c@,
{
    let mut out = a.to_owned();
    out.append(b);
    out.append(c);
    out
}

/// `a`, then the decimal text of `n`, then `b`.
pub fn text_with_int(a: &str, n: i64, b: &str) -> (r: String)
    ensures
        r@ == a@ + int_text(n as int) + b@,
{
    let mut out = a.to_owned();
    push_int(&mut out, n);
    out.append(b);
    out
}

/// Whether two pieces of text are equal.
pub fn same_text(a: &str, b: &str) -> (r: bool)
    ensures
        r == (a@ == b@),
{
    let x = a.to_owned();
    let y = b.to_owned();
    x == y
}

/// Unicode's `White_Space` characters: tab to carriage return, space, next
/// line, no-break space, ogham space mark, the spaces from en quad to hair
/// space, line and paragraph separator, narrow no-break space, medium
/// mathematical space and ideographic space.
pub open spec fn is_white_space(c: char) -> bool {
    let n = c as int;
    (9 <= n <= 13) || n == 0x20 || n == 0x85 || n == 0xA0 || n == 0x1680 || (0x2000 <= n <= 0x200A)
        || n == 0x2028 || n == 0x2029 || n == 0x202F || n == 0x205F || n == 0x3000
}

/// Whether a character is not whitespace.
pub open spec fn is_solid(c: char) -> bool {
    !is_white_space(c)
}

/// Where a text starts without its leading whitespace.
pub open spec fn trim_start(s: Seq<char>) -> int {
    match first_index(s, |c: char| is_solid(c)) {
        Some(i) => i,
        None => s.len() as int,
    }
}

/// Where a text ends without its trailing whitespace.
pub open spec fn trim_end(s: Seq<char>) -> int
    decreases s.len(),
{
    if s.len() == 0 {
        0
    } else if is_solid(s.last()) {
        s.len() as int
    } else {
        trim_end(s.drop_last())
    }
}

/// A text without its leading and trailing whitespace.
pub open spec fn trimmed(s: Seq<char>) -> Seq<char> {
    if trim_start(s) >= s.len() {
        Seq::empty()
    } else {
        s.subrange(trim_start(s), trim_end(s))
    }
}

fn is_white_space_char(c: char) -> (r: bool)
    ensures
        r == is_white_space(c),
{
    let n = c as u32;
    (9 <= n && n <= 13) || n == 0x20 || n == 0x85 || n == 0xA0 || n == 0x1680 || (0x2000 <= n && n
        <= 0x200A) || n == 0x2028 || n == 0x2029 || n == 0x202F || n == 0x205F || n == 0x3000
}

/// A text without its leading and trailing whitespace, as `str::trim`
/// gives it.
pub fn trim_text(s: &str) -> (r: String)
    ensures
        r@ == trimmed(s@),
{
    let n = s.unicode_len();
    let mut i: usize = 0;
    while i < n && is_white_space_char(s.get_char(i))
        invariant
            i <= n,
            n == s@.len(),
            forall|k: int| 0 <= k < i ==> !is_solid(#[trigger] s@[k]),
        decreases n - i,
    {
        i = i + 1;
    }
    if i == n {
        proof {
            lemma_first_index_none(s@, |c: char| is_solid(c));
        }
        return String::new();
    }
    proof {
        lemma_first_index_at(s@, |c: char| is_solid(c), i as int);
    }
    let mut j: usize = n;
    assert(s@.take(n as int) =~= s@);
    while j > i + 1 && is_white_space_char(s.get_char(j - 1))
        invariant
            i < j <= n,
            n == s@.len(),
            is_solid(s@[i as int]),
            trim_end(s@) == trim_end(s@.take(j as int)),
        decreases j,
    {
        assert(s@.take(j as int).drop_last() =~= s@.take(j - 1));
        j = j - 1;
    }
    proof {
        if j == i + 1 {
            if !is_solid(s@[j - 1]) {
                assert(false);
            }
        }
        assert(s@.take(j as int).last() == s@[j - 1]);
    }
    s.substring_char(i, j).to_string()
}

} // verus!
