//! Integers and comma lists read and written the way the standard library
//! reads and writes them: `str::parse`, `from_str_radix`, `to_string` and
//! `split`.
use vstd::prelude::*;
use vstd::string::*;

verus! {

/// Why a string is not an integer (the kinds of `std::num::ParseIntError`).
#[derive(Clone, Copy, Debug, PartialEq, Eq, Structural)]
pub enum IntErrorKind {
    Empty,
    InvalidDigit,
    PosOverflow,
    NegOverflow,
}

impl IntErrorKind {
    /// The text that `ParseIntError` displays for this kind.
    pub open spec fn text(self) -> Seq<char> {
        match self {
            IntErrorKind::Empty => "cannot parse integer from empty string"@,
            IntErrorKind::InvalidDigit => "invalid digit found in string"@,
            IntErrorKind::PosOverflow => "number too large to fit in target type"@,
            IntErrorKind::NegOverflow => "number too small to fit in target type"@,
        }
    }

    pub fn describe(&self) -> (r: String)
        ensures
            r@ == self.text(),
    {
        match self {
            IntErrorKind::Empty => String::from_str("cannot parse integer from empty string"),
            IntErrorKind::InvalidDigit => String::from_str("invalid digit found in string"),
            IntErrorKind::PosOverflow => String::from_str("number too large to fit in target type"),
            IntErrorKind::NegOverflow => String::from_str("number too small to fit in target type"),
        }
    }
}

/// The value of `c` as a digit in base `radix` (10 or 16), as
/// `char::to_digit` gives it.
pub open spec fn digit_value(c: char, radix: int) -> Option<int> {
    if '0' <= c && c <= '9' {
        Some((c as int) - ('0' as int))
    } else if radix == 16 && 'a' <= c && c <= 'f' {
        Some((c as int) - ('a' as int) + 10)
    } else if radix == 16 && 'A' <= c && c <= 'F' {
        Some((c as int) - ('A' as int) + 10)
    } else {
        None
    }
}

/// Reading the digits of `s` from the left in base `radix` with the bound
/// `max`: the first character that is no digit, or the first digit that
/// takes the value past `max`, decides the error.
pub open spec fn scan_digits(s: Seq<char>, radix: int, max: int) -> Result<int, IntErrorKind>
    decreases s.len(),
{
    if s.len() == 0 {
        Ok(0)
    } else {
        match scan_digits(s.drop_last(), radix, max) {
            Err(e) => Err(e),
            Ok(v) => match digit_value(s.last(), radix) {
                None => Err(IntErrorKind::InvalidDigit),
                Some(d) => if v * radix + d > max {
                    Err(IntErrorKind::PosOverflow)
                } else {
                    Ok(v * radix + d)
                },
            },
        }
    }
}

/// `from_str_radix` (and `str::parse`, with `radix` 10) for an unsigned
/// integer type whose largest value is `max`.
pub open spec fn parse_unsigned_spec(s: Seq<char>, radix: int, max: int) -> Result<int, IntErrorKind> {
    if s.len() == 0 {
        Err(IntErrorKind::Empty)
    } else {
        let body = if s[0] == '+' { s.drop_first() } else { s };
        if body.len() == 0 {
            Err(IntErrorKind::InvalidDigit)
        } else {
            scan_digits(body, radix, max)
        }
    }
}

/// `str::parse` for a signed integer type whose values run from `-(max + 1)`
/// to `max`.
pub open spec fn parse_signed_spec(s: Seq<char>, max: int) -> Result<int, IntErrorKind> {
    if s.len() == 0 {
        Err(IntErrorKind::Empty)
    } else if s[0] == '-' {
        if s.len() == 1 {
            Err(IntErrorKind::InvalidDigit)
        } else {
            match scan_digits(s.drop_first(), 10, max + 1) {
                Ok(v) => Ok(-v),
                Err(IntErrorKind::PosOverflow) => Err(IntErrorKind::NegOverflow),
                Err(e) => Err(e),
            }
        }
    } else {
        parse_unsigned_spec(s, 10, max)
    }
}

/// Once a prefix of `s` is refused, `s` is refused with the same error.
proof fn lemma_scan_prefix_err(s: Seq<char>, k: int, radix: int, max: int)
    requires
        0 <= k <= s.len(),
        scan_digits(s.take(k), radix, max) is Err,
    ensures
        scan_digits(s, radix, max) == scan_digits(s.take(k), radix, max),
    decreases s.len() - k,
{
    if k < s.len() {
        let t = s.take(k + 1);
        assert(t.drop_last() =~= s.take(k));
        lemma_scan_prefix_err(s, k + 1, radix, max);
    } else {
        assert(s.take(k) =~= s);
    }
}

fn digit_of(c: char, radix: u32) -> (r: Option<u32>)
    requires
        radix == 10 || radix == 16,
    ensures
        match (r, digit_value(c, radix as int)) {
            (Some(a), Some(b)) => a as int == b && a < radix,
            (None, None) => true,
            _ => false,
        },
{
    if '0' <= c && c <= '9' {
        Some(c as u32 - '0' as u32)
    } else if radix == 16 && 'a' <= c && c <= 'f' {
        Some(c as u32 - 'a' as u32 + 10)
    } else if radix == 16 && 'A' <= c && c <= 'F' {
        Some(c as u32 - 'A' as u32 + 10)
    } else {
        None
    }
}

fn scan_digits_exec(s: &str, start: usize, len: usize, radix: u32, max: u64) -> (r: Result<u64, IntErrorKind>)
    requires
        len == s@.len(),
        start <= len,
        radix == 10 || radix == 16,
    ensures
        match (r, scan_digits(s@.subrange(start as int, len as int), radix as int, max as int)) {
            (Ok(a), Ok(b)) => a as int == b,
            (Err(a), Err(b)) => a == b,
            _ => false,
        },
{
    let ghost body = s@.subrange(start as int, len as int);
    let mut acc: u64 = 0;
    let mut i: usize = start;
    assert(body.take(0) =~= Seq::<char>::empty());
    while i < len
        invariant
            start <= i <= len,
            len == s@.len(),
            radix == 10 || radix == 16,
            body == s@.subrange(start as int, len as int),
            scan_digits(body.take(i - start), radix as int, max as int) == Ok::<int, IntErrorKind>(acc as int),
            acc <= max,
        decreases len - i,
    {
        let c = s.get_char(i);
        let ghost pre = body.take(i - start);
        let ghost next = body.take(i - start + 1);
        assert(next.drop_last() =~= pre);
        assert(next.last() == c);
        let d = match digit_of(c, radix) {
            Some(d) => d,
            None => {
                proof { lemma_scan_prefix_err(body, (i - start + 1) as int, radix as int, max as int); }
                return Err(IntErrorKind::InvalidDigit);
            }
        };
        assert((acc as u128) * (radix as u128) <= 0xffff_ffff_ffff_ffffu128 * 16) by (nonlinear_arith)
            requires
                acc <= 0xffff_ffff_ffff_ffffu64,
                radix <= 16,
        ;
        let wide: u128 = (acc as u128) * (radix as u128) + (d as u128);
        if wide > max as u128 {
            proof { lemma_scan_prefix_err(body, (i - start + 1) as int, radix as int, max as int); }
            return Err(IntErrorKind::PosOverflow);
        }
        acc = wide as u64;
        i = i + 1;
    }
    assert(body.take(len - start) =~= body);
    Ok(acc)
}

/// `u64::from_str_radix(s, radix)` for `radix` 10 or 16; with a smaller
/// `max`, the same for the narrower unsigned types (`str::parse::<u16>` is
/// `parse_unsigned(s, 10, 65535)`).
pub fn parse_unsigned(s: &str, radix: u32, max: u64) -> (r: Result<u64, IntErrorKind>)
    requires
        radix == 10 || radix == 16,
    ensures
        match (r, parse_unsigned_spec(s@, radix as int, max as int)) {
            (Ok(a), Ok(b)) => a as int == b,
            (Err(a), Err(b)) => a == b,
            _ => false,
        },
{
    let len = s.unicode_len();
    if len == 0 {
        return Err(IntErrorKind::Empty);
    }
    let first = s.get_char(0);
    let start: usize = if first == '+' { 1 } else { 0 };
    assert(s@.subrange(start as int, len as int) =~= (if s@[0] == '+' { s@.drop_first() } else { s@ }));
    if start == len {
        return Err(IntErrorKind::InvalidDigit);
    }
    scan_digits_exec(s, start, len, radix, max)
}

/// `str::parse::<i32>`.
pub fn parse_i32(s: &str) -> (r: Result<i32, IntErrorKind>)
    ensures
        match (r, parse_signed_spec(s@, 0x7fff_ffff)) {
            (Ok(a), Ok(b)) => a as int == b,
            (Err(a), Err(b)) => a == b,
            _ => false,
        },
{
    let len = s.unicode_len();
    if len == 0 {
        return Err(IntErrorKind::Empty);
    }
    let first = s.get_char(0);
    if first == '-' {
        if len == 1 {
            return Err(IntErrorKind::InvalidDigit);
        }
        assert(s@.subrange(1, len as int) =~= s@.drop_first());
        match scan_digits_exec(s, 1, len, 10, 0x8000_0000) {
            Ok(v) => {
                let neg: i64 = 0i64 - (v as i64);
                Ok(neg as i32)
            },
            Err(IntErrorKind::PosOverflow) => Err(IntErrorKind::NegOverflow),
            Err(e) => Err(e),
        }
    } else {
        match parse_unsigned(s, 10, 0x7fff_ffff) {
            Ok(v) => Ok(v as i32),
            Err(e) => Err(e),
        }
    }
}

/// The character of digit `d` in base 16 (lower case), which for `d < 10`
/// is the decimal digit.
pub open spec fn digit_char(d: int) -> char {
    if d < 10 {
        ((d + ('0' as int)) as char)
    } else {
        ((d - 10 + ('a' as int)) as char)
    }
}

/// The decimal digits of `n`, as `to_string` writes them.
pub open spec fn decimal(n: nat) -> Seq<char>
    decreases n,
{
    if n < 10 {
        seq![digit_char(n as int)]
    } else {
        decimal(n / 10).push(digit_char((n % 10) as int))
    }
}

/// How `to_string` writes a signed integer.
pub open spec fn signed_decimal(n: int) -> Seq<char> {
    if n < 0 {
        seq!['-'] + decimal((-n) as nat)
    } else {
        decimal(n as nat)
    }
}

fn digit_str(d: u64) -> (s: &'static str)
    requires
        d < 10,
    ensures
        s@ == seq![digit_char(d as int)],
{
    proof {
        reveal_strlit("0");
        reveal_strlit("1");
        reveal_strlit("2");
        reveal_strlit("3");
        reveal_strlit("4");
        reveal_strlit("5");
        reveal_strlit("6");
        reveal_strlit("7");
        reveal_strlit("8");
        reveal_strlit("9");
    }
    if d == 0 { "0" } else if d == 1 { "1" } else if d == 2 { "2" } else if d == 3 { "3" }
    else if d == 4 { "4" } else if d == 5 { "5" } else if d == 6 { "6" } else if d == 7 { "7" }
    else if d == 8 { "8" } else { "9" }
}

/// `u64::to_string`.
pub fn u64_to_string(n: u64) -> (r: String)
    ensures
        r@ == decimal(n as nat),
{
    // the digits, least significant first
    let mut digits: Vec<u64> = Vec::new();
    let mut m: u64 = n;
    let ghost mut rest: Seq<char> = Seq::empty();
    // decimal(n) == decimal(m) + (digits reversed)
    while m >= 10
        invariant
            decimal(n as nat) == decimal(m as nat) + Seq::new(digits@.len(), |i: int| digit_char(digits@[digits@.len() - 1 - i] as int)),
            forall|i: int| 0 <= i < digits@.len() ==> digits@[i] < 10,
            m <= n,
            digits@.len() == 0 ==> m == n,
        decreases m,
    {
        let ghost old_digits = digits@;
        let ghost old_m = m;
        digits.push(m % 10);
        m = m / 10;
        proof {
            let tail_old = Seq::new(old_digits.len(), |i: int| digit_char(old_digits[old_digits.len() - 1 - i] as int));
            let tail_new = Seq::new(digits@.len(), |i: int| digit_char(digits@[digits@.len() - 1 - i] as int));
            assert(decimal(old_m as nat) == decimal(m as nat).push(digit_char((old_m % 10) as int)));
            assert(tail_new =~= seq![digit_char((old_m % 10) as int)] + tail_old);
            assert(decimal(m as nat) + tail_new =~= decimal(m as nat).push(digit_char((old_m % 10) as int)) + tail_old);
        }
    }
    let mut r = String::from_str(digit_str(m));
    assert(r@ == decimal(m as nat));
    let mut j: usize = digits.len();
    while j > 0
        invariant
            j <= digits@.len(),
            forall|i: int| 0 <= i < digits@.len() ==> digits@[i] < 10,
            decimal(n as nat) == decimal(m as nat) + Seq::new(digits@.len(), |i: int| digit_char(digits@[digits@.len() - 1 - i] as int)),
            r@ == decimal(m as nat) + Seq::new((digits@.len() - j) as nat, |i: int| digit_char(digits@[digits@.len() - 1 - i] as int)),
        decreases j,
    {
        j = j - 1;
        let ghost before = r@;
        r.append(digit_str(digits[j]));
        assert(r@ =~= decimal(m as nat) + Seq::new((digits@.len() - j) as nat, |i: int| digit_char(digits@[digits@.len() - 1 - i] as int)));
    }
    assert(r@ =~= decimal(n as nat));
    r
}

/// `i64::to_string`.
pub fn i64_to_string(n: i64) -> (r: String)
    ensures
        r@ == signed_decimal(n as int),
{
    if n < 0 {
        let mag: u64 = if n == i64::MIN { 0x8000_0000_0000_0000u64 } else { (0i64 - n) as u64 };
        let digits = u64_to_string(mag);
        let mut r = String::from_str("-");
        proof { reveal_strlit("-"); }
        r.append(digits.as_str());
        r
    } else {
        u64_to_string(n as u64)
    }
}

proof fn lemma_digit_char_value(d: int)
    requires
        0 <= d < 10,
    ensures
        digit_value(digit_char(d), 10) == Some(d),
        digit_char(d) != '+',
        digit_char(d) != '-',
{
}

proof fn lemma_scan_decimal(n: nat, max: int)
    requires
        n <= max,
    ensures
        scan_digits(decimal(n), 10, max) == Ok::<int, IntErrorKind>(n as int),
        decimal(n).len() >= 1,
        digit_value(decimal(n)[0], 10) is Some,
    decreases n,
{
    if n < 10 {
        lemma_digit_char_value(n as int);
        assert(decimal(n).drop_last() =~= Seq::<char>::empty());
        assert(scan_digits(decimal(n).drop_last(), 10, max) == Ok::<int, IntErrorKind>(0));
        assert(decimal(n).last() == digit_char(n as int));
    } else {
        lemma_scan_decimal(n / 10, max);
        lemma_digit_char_value((n % 10) as int);
        assert(decimal(n).drop_last() =~= decimal(n / 10));
        assert(decimal(n)[0] == decimal(n / 10)[0]);
        assert((n / 10) * 10 + n % 10 == n);
        assert(decimal(n).last() == digit_char((n % 10) as int));
    }
}

/// Reading back what `to_string` wrote gives the number written, for every
/// unsigned integer type (`max` its largest value) that can hold it.
pub proof fn lemma_parse_of_decimal(n: nat, max: int)
    requires
        n <= max,
    ensures
        parse_unsigned_spec(decimal(n), 10, max) == Ok::<int, IntErrorKind>(n as int),
{
    lemma_scan_decimal(n, max);
}

/// `s.split(sep)`: the pieces of `s` between the occurrences of `sep`; an
/// empty string is one empty piece.
pub open spec fn split_on(s: Seq<char>, sep: char) -> Seq<Seq<char>>
    decreases s.len(),
{
    if s.len() == 0 {
        seq![Seq::<char>::empty()]
    } else {
        let p = split_on(s.drop_last(), sep);
        if s.last() == sep {
            p.push(Seq::<char>::empty())
        } else {
            p.update(p.len() - 1, p.last().push(s.last()))
        }
    }
}

pub proof fn lemma_split_nonempty(s: Seq<char>, sep: char)
    ensures
        split_on(s, sep).len() >= 1,
    decreases s.len(),
{
    if s.len() > 0 {
        lemma_split_nonempty(s.drop_last(), sep);
    }
}

/// The views of a list of strings.
pub open spec fn views(v: Seq<String>) -> Seq<Seq<char>> {
    v.map_values(|x: String| x@)
}

/// `s.split(sep).map(String::from).collect()`.
pub fn split_to_strings(s: &str, sep: char) -> (r: Vec<String>)
    ensures
        views(r@) == split_on(s@, sep),
{
    let len = s.unicode_len();
    let mut pieces: Vec<String> = Vec::new();
    let mut start: usize = 0;
    let mut i: usize = 0;
    assert(s@.take(0) =~= Seq::<char>::empty());
    assert(views(pieces@) + seq![s@.subrange(0, 0)] =~= split_on(s@.take(0), sep));
    while i < len
        invariant
            len == s@.len(),
            start <= i <= len,
            views(pieces@) + seq![s@.subrange(start as int, i as int)] == split_on(s@.take(i as int), sep),
        decreases len - i,
    {
        let c = s.get_char(i);
        let ghost t = s@.take(i + 1);
        assert(t.drop_last() =~= s@.take(i as int));
        assert(t.last() == c);
        proof { lemma_split_nonempty(s@.take(i as int), sep); }
        if c == sep {
            let ghost p = split_on(s@.take(i as int), sep);
            let ghost old_views = views(pieces@);
            let piece = String::from_str(s.substring_char(start, i));
            pieces.push(piece);
            assert(views(pieces@) =~= old_views.push(s@.subrange(start as int, i as int)));
            assert(p =~= old_views.push(s@.subrange(start as int, i as int)));
            start = i + 1;
            assert(s@.subrange(start as int, (i + 1) as int) =~= Seq::<char>::empty());
            assert(split_on(t, sep) == p.push(Seq::<char>::empty()));
            assert(views(pieces@) + seq![s@.subrange(start as int, (i + 1) as int)] =~= split_on(t, sep));
        } else {
            assert(s@.subrange(start as int, (i + 1) as int) =~= s@.subrange(start as int, i as int).push(c));
            let ghost p = split_on(s@.take(i as int), sep);
            assert(p.last() == s@.subrange(start as int, i as int));
            assert(split_on(t, sep) == p.update(p.len() - 1, p.last().push(c)));
            let ghost lhs = views(pieces@) + seq![s@.subrange(start as int, (i + 1) as int)];
            let ghost rhs = p.update(p.len() - 1, p.last().push(c));
            assert(p.len() == views(pieces@).len() + 1);
            assert(lhs.len() == rhs.len());
            assert forall|k: int| 0 <= k < lhs.len() implies lhs[k] == rhs[k] by {
                if k < views(pieces@).len() {
                    assert(p[k] == views(pieces@)[k]);
                }
            }
            assert(views(pieces@) + seq![s@.subrange(start as int, (i + 1) as int)] =~= split_on(t, sep));
        }
        i = i + 1;
    }
    let last = String::from_str(s.substring_char(start, len));
    pieces.push(last);
    assert(s@.take(len as int) =~= s@);
    assert(views(pieces@) =~= split_on(s@, sep));
    pieces
}

/// Whether `x` is one of the strings of `v`.
pub fn contains_string(v: &Vec<String>, x: &String) -> (r: bool)
    ensures
        r == views(v@).contains(x@),
{
    let mut i: usize = 0;
    while i < v.len()
        invariant
            i <= v@.len(),
            forall|j: int| 0 <= j < i ==> views(v@)[j] != x@,
        decreases v@.len() - i,
    {
        if v[i] == *x {
            assert(views(v@)[i as int] == x@);
            return true;
        }
        i = i + 1;
    }
    false
}

/// A copy of a list of strings.
pub fn copy_strings(v: &Vec<String>) -> (r: Vec<String>)
    ensures
        r@ == v@,
{
    let mut r: Vec<String> = Vec::new();
    let mut i: usize = 0;
    while i < v.len()
        invariant
            i <= v@.len(),
            r@ == v@.take(i as int),
        decreases v@.len() - i,
    {
        r.push(v[i].clone());
        assert(r@ =~= v@.take(i as int + 1));
        i = i + 1;
    }
    assert(v@.take(v@.len() as int) =~= v@);
    r
}

/// The first `n` strings of `v` (all of them when there are fewer).
pub fn first_strings(v: &Vec<String>, n: usize) -> (r: Vec<String>)
    ensures
        n <= v@.len() ==> r@ == v@.take(n as int),
        n > v@.len() ==> r@ == v@,
{
    let mut r: Vec<String> = Vec::new();
    let mut i: usize = 0;
    while i < v.len() && i < n
        invariant
            i <= v@.len(),
            i <= n,
            r@ == v@.take(i as int),
        decreases v@.len() - i,
    {
        r.push(v[i].clone());
        assert(r@ =~= v@.take(i as int + 1));
        i = i + 1;
    }
    assert(v@.take(v@.len() as int) =~= v@);
    r
}

} // verus!
