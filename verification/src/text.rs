//! Text primitives: whitespace, ASCII case folding and decimal numbers.

use vstd::prelude::*;

verus! {

/// Why a piece of text is not a number of the wanted size.
#[derive(Clone, Copy, Debug, PartialEq, Eq, Structural)]
pub enum NumberError {
    /// There is no text at all.
    Empty,
    /// A character that is not a decimal digit, or a sign with nothing behind it.
    InvalidDigit,
    /// The digits read so far exceed the largest value that is allowed.
    TooLarge,
}

/// The characters with the Unicode `White_Space` property.
pub open spec fn white_space(c: char) -> bool {
    ||| 0x09 <= c as u32 <= 0x0d
    ||| c as u32 == 0x20
    ||| c as u32 == 0x85
    ||| c as u32 == 0xa0
    ||| c as u32 == 0x1680
    ||| 0x2000 <= c as u32 <= 0x200a
    ||| c as u32 == 0x2028
    ||| c as u32 == 0x2029
    ||| c as u32 == 0x202f
    ||| c as u32 == 0x205f
    ||| c as u32 == 0x3000
}

/// `s` without the whitespace it starts with.
pub open spec fn trimmed_start(s: Seq<char>) -> Seq<char>
    decreases s.len(),
{
    if s.len() > 0 && white_space(s[0]) {
        trimmed_start(s.drop_first())
    } else {
        s
    }
}

/// `s` without the whitespace it ends with.
pub open spec fn trimmed_end(s: Seq<char>) -> Seq<char>
    decreases s.len(),
{
    if s.len() > 0 && white_space(s.last()) {
        trimmed_end(s.drop_last())
    } else {
        s
    }
}

/// `s` without the whitespace around it.
pub open spec fn trimmed(s: Seq<char>) -> Seq<char> {
    trimmed_end(trimmed_start(s))
}

/// `s` without the dots it ends with.
pub open spec fn without_dots(s: Seq<char>) -> Seq<char>
    decreases s.len(),
{
    if s.len() > 0 && s.last() == '.' {
        without_dots(s.drop_last())
    } else {
        s
    }
}

/// Whether `c` has the Unicode `White_Space` property.
pub fn is_whitespace(c: char) -> (r: bool)
    ensures
        r == white_space(c),
{
    let n: u32 = c as u32;
    (0x09 <= n && n <= 0x0d) || n == 0x20 || n == 0x85 || n == 0xa0 || n == 0x1680 || (0x2000 <= n
        && n <= 0x200a) || n == 0x2028 || n == 0x2029 || n == 0x202f || n == 0x205f || n == 0x3000
}

/// The characters of `s`, one by one.
pub(crate) fn chars_of(s: &str) -> (r: Vec<char>)
    ensures
        r@ == s@,
{
    let mut out: Vec<char> = Vec::new();
    for c in it: s.chars()
        invariant
            out@ == it.seq().take(it.index()),
            it.seq() == s@,
    {
        out.push(c);
    }
    out
}

/// `s` without the whitespace around it.
pub fn trim(s: &str) -> (r: &str)
    ensures
        r@ == trimmed(s@),
{
    let cs = chars_of(s);
    let n: usize = cs.len();
    let mut lo: usize = 0;
    assert(s@.subrange(0, n as int) == s@);
    while lo < n && is_whitespace(cs[lo])
        invariant
            lo <= n,
            n == cs@.len(),
            cs@ == s@,
            trimmed_start(s@) == trimmed_start(s@.subrange(lo as int, n as int)),
        decreases n - lo,
    {
        assert(s@.subrange(lo as int, n as int).drop_first() == s@.subrange(lo + 1, n as int));
        lo += 1;
    }
    let ghost front = s@.subrange(lo as int, n as int);
    assert(trimmed_start(s@) == front);
    let mut hi: usize = n;
    while lo < hi && is_whitespace(cs[hi - 1])
        invariant
            lo <= hi <= n,
            n == cs@.len(),
            cs@ == s@,
            trimmed_end(front) == trimmed_end(s@.subrange(lo as int, hi as int)),
        decreases hi - lo,
    {
        assert(s@.subrange(lo as int, hi as int).drop_last() == s@.subrange(lo as int, hi - 1));
        hi -= 1;
    }
    s.substring_char(lo, hi)
}

/// `s` without the dots it ends with.
pub fn trim_end_dots(s: &str) -> (r: &str)
    ensures
        r@ == without_dots(s@),
{
    let cs = chars_of(s);
    let mut hi: usize = cs.len();
    assert(s@.subrange(0, hi as int) == s@);
    while 0 < hi && cs[hi - 1] == '.'
        invariant
            hi <= cs@.len(),
            cs@ == s@,
            without_dots(s@) == without_dots(s@.subrange(0, hi as int)),
        decreases hi,
    {
        assert(s@.subrange(0, hi as int).drop_last() == s@.subrange(0, hi - 1));
        hi -= 1;
    }
    s.substring_char(0, hi)
}

/// Whether `s` begins with `prefix`.
pub fn starts_with(s: &str, prefix: &str) -> (r: bool)
    ensures
        r == prefix@.is_prefix_of(s@),
{
    let a = chars_of(s);
    let b = chars_of(prefix);
    if a.len() < b.len() {
        return false;
    }
    let mut i: usize = 0;
    while i < b.len()
        invariant
            i <= b@.len() <= a@.len(),
            a@ == s@,
            b@ == prefix@,
            forall|j: int| 0 <= j < i ==> a@[j] == b@[j],
        decreases b@.len() - i,
    {
        if a[i] != b[i] {
            assert(prefix@.is_prefix_of(s@) ==> s@.subrange(0, prefix@.len() as int)[i as int]
                == prefix@[i as int]);
            return false;
        }
        i += 1;
    }
    assert(prefix@ == s@.subrange(0, prefix@.len() as int));
    true
}

/// Whether `a` and `b` are the same text.
pub fn same_text(a: &str, b: &str) -> (r: bool)
    ensures
        r == (a@ == b@),
{
    let x = chars_of(a);
    let y = chars_of(b);
    if x.len() != y.len() {
        return false;
    }
    let mut i: usize = 0;
    while i < x.len()
        invariant
            i <= x@.len() == y@.len(),
            x@ == a@,
            y@ == b@,
            forall|j: int| 0 <= j < i ==> x@[j] == y@[j],
        decreases x@.len() - i,
    {
        if x[i] != y[i] {
            return false;
        }
        i += 1;
    }
    assert(a@ == b@);
    true
}

/// `c`, with `A` to `Z` turned into `a` to `z`.
pub open spec fn ascii_lower(c: char) -> char {
    if 0x41 <= c as u32 <= 0x5a {
        (c as u32 + 0x20) as char
    } else {
        c
    }
}

/// Whether `a` and `b` are the same text once ASCII letters have lost their case.
pub open spec fn same_ignoring_case(a: Seq<char>, b: Seq<char>) -> bool {
    &&& a.len() == b.len()
    &&& forall|i: int| 0 <= i < a.len() ==> ascii_lower(#[trigger] a[i]) == ascii_lower(b[i])
}

fn lower(c: char) -> (r: u32)
    ensures
        r == ascii_lower(c) as u32,
{
    let n: u32 = c as u32;
    if 0x41 <= n && n <= 0x5a {
        n + 0x20
    } else {
        n
    }
}

/// Whether `a` and `b` differ at most in the case of ASCII letters.
pub fn eq_ignore_ascii_case(a: &str, b: &str) -> (r: bool)
    ensures
        r == same_ignoring_case(a@, b@),
{
    let x = chars_of(a);
    let y = chars_of(b);
    if x.len() != y.len() {
        return false;
    }
    let mut i: usize = 0;
    while i < x.len()
        invariant
            i <= x@.len() == y@.len(),
            x@ == a@,
            y@ == b@,
            forall|j: int| 0 <= j < i ==> ascii_lower(#[trigger] x@[j]) == ascii_lower(y@[j]),
        decreases x@.len() - i,
    {
        if lower(x[i]) != lower(y[i]) {
            return false;
        }
        i += 1;
    }
    true
}

/// The value of a decimal digit.
pub open spec fn digit_value(c: char) -> Option<nat> {
    if 0x30 <= c as u32 <= 0x39 {
        Some((c as u32 - 0x30) as nat)
    } else {
        None
    }
}

/// The number that `s` spells behind digits worth `acc`, or the first thing that
/// is wrong with it when it is read from the left.
pub open spec fn digits_value(s: Seq<char>, acc: nat, max: nat) -> Result<nat, NumberError>
    decreases s.len(),
{
    if s.len() == 0 {
        Ok(acc)
    } else {
        match digit_value(s[0]) {
            None => Err(NumberError::InvalidDigit),
            Some(d) => if acc * 10 + d > max {
                Err(NumberError::TooLarge)
            } else {
                digits_value(s.drop_first(), acc * 10 + d, max)
            },
        }
    }
}

/// The number that `s` spells: an optional `+` and decimal digits, worth at most
/// `max`.
pub open spec fn decimal(s: Seq<char>, max: nat) -> Result<nat, NumberError> {
    if s.len() == 0 {
        Err(NumberError::Empty)
    } else if s[0] == '+' {
        if s.len() == 1 {
            Err(NumberError::InvalidDigit)
        } else {
            digits_value(s.drop_first(), 0, max)
        }
    } else {
        digits_value(s, 0, max)
    }
}

/// The number that `s` spells, if it is at most `max`.
fn parse_up_to(s: &str, max: u64) -> (r: Result<u64, NumberError>)
    ensures
        match r {
            Ok(v) => decimal(s@, max as nat) == Ok::<nat, NumberError>(v as nat) && v <= max,
            Err(e) => decimal(s@, max as nat) == Err::<nat, NumberError>(e),
        },
{
    let cs = chars_of(s);
    let n: usize = cs.len();
    if n == 0 {
        return Err(NumberError::Empty);
    }
    let mut i: usize = 0;
    if cs[0] == '+' {
        if n == 1 {
            return Err(NumberError::InvalidDigit);
        }
        i = 1;
    }
    let mut acc: u64 = 0;
    assert(s@.subrange(0, n as int) == s@);
    assert(s@.subrange(1, n as int) == s@.drop_first());
    while i < n
        invariant
            i <= n,
            n == cs@.len(),
            cs@ == s@,
            acc <= max,
            decimal(s@, max as nat) == digits_value(
                s@.subrange(i as int, n as int),
                acc as nat,
                max as nat,
            ),
        decreases n - i,
    {
        let ghost rest = s@.subrange(i as int, n as int);
        assert(rest[0] == cs@[i as int]);
        let ch: char = cs[i];
        let c: u32 = ch as u32;
        if c < 0x30 || c > 0x39 {
            return Err(NumberError::InvalidDigit);
        }
        let d: u64 = (c - 0x30) as u64;
        assert(digit_value(rest[0]) == Some(d as nat));
        if acc > max / 10 || d > max - acc * 10 {
            return Err(NumberError::TooLarge);
        }
        assert(rest.drop_first() == s@.subrange(i + 1, n as int));
        acc = acc * 10 + d;
        i += 1;
    }
    Ok(acc)
}

/// Unsigned integers that can be read from decimal text.
pub trait Decimal: Sized {
    /// The largest value of the type.
    spec fn limit() -> nat;

    /// The number that a value stands for.
    spec fn number(self) -> nat;

    /// Reads a value from `text`.
    fn from_decimal(text: &str) -> (r: Result<Self, NumberError>)
        ensures
            match r {
                Ok(v) => decimal(text@, Self::limit()) == Ok::<nat, NumberError>(v.number()),
                Err(e) => decimal(text@, Self::limit()) == Err::<nat, NumberError>(e),
            },
    ;
}

impl Decimal for u64 {
    open spec fn limit() -> nat {
        u64::MAX as nat
    }

    open spec fn number(self) -> nat {
        self as nat
    }

    fn from_decimal(text: &str) -> (r: Result<Self, NumberError>) {
        parse_up_to(text, u64::MAX)
    }
}

impl Decimal for u8 {
    open spec fn limit() -> nat {
        u8::MAX as nat
    }

    open spec fn number(self) -> nat {
        self as nat
    }

    fn from_decimal(text: &str) -> (r: Result<Self, NumberError>) {
        match parse_up_to(text, 255) {
            Ok(v) => Ok(v as u8),
            Err(e) => Err(e),
        }
    }
}

/// The decimal digit worth `d`.
pub open spec fn digit_char(d: nat) -> char {
    (0x30 + d) as char
}

/// `n` in decimal, without leading zeros.
pub open spec fn decimal_digits(n: nat) -> Seq<char>
    decreases n,
{
    if n < 10 {
        seq![digit_char(n)]
    } else {
        decimal_digits(n / 10).push(digit_char(n % 10))
    }
}

fn digit_text(d: u64) -> (r: &'static str)
    requires
        d < 10,
    ensures
        r@ == seq![digit_char(d as nat)],
{
    proof {
        reveal_strlit("0");
        reveal_strlit("1");
        reveal_strlit("2");
        reveal_strlit("3");
        reveal_strlit("4");
        reveal_strlit("5");
        reveal_strlit("6");
        reveal_strlit("7");
        reveal_strlit("8");
        reveal_strlit("9");
    }
    let r: &'static str = if d == 0 {
        "0"
    } else if d == 1 {
        "1"
    } else if d == 2 {
        "2"
    } else if d == 3 {
        "3"
    } else if d == 4 {
        "4"
    } else if d == 5 {
        "5"
    } else if d == 6 {
        "6"
    } else if d == 7 {
        "7"
    } else if d == 8 {
        "8"
    } else {
        "9"
    };
    assert(r@ =~= seq![digit_char(d as nat)]);
    r
}

/// `n` in decimal.
pub fn decimal_text(n: u64) -> (r: String)
    ensures
        r@ == decimal_digits(n as nat),
    decreases n,
{
    if n < 10 {
        digit_text(n).to_owned()
    } else {
        let head = decimal_text(n / 10);
        let r = head.concat(digit_text(n % 10));
        assert(r@ =~= decimal_digits(n as nat / 10).push(digit_char(n as nat % 10)));
        r
    }
}

/// A number that was read is no larger than what is allowed.
pub proof fn lemma_decimal_within(s: Seq<char>, max: nat)
    ensures
        decimal(s, max) matches Ok(n) ==> n <= max,
{
    lemma_digits_within(s, 0, max);
    lemma_digits_within(s.drop_first(), 0, max);
}

proof fn lemma_digits_within(s: Seq<char>, acc: nat, max: nat)
    requires
        acc <= max,
    ensures
        digits_value(s, acc, max) matches Ok(n) ==> n <= max,
    decreases s.len(),
{
    if s.len() > 0 {
        if let Some(d) = digit_value(s[0]) {
            if acc * 10 + d <= max {
                lemma_digits_within(s.drop_first(), acc * 10 + d, max);
            }
        }
    }
}

/// Reading `a` and then `b` is reading `a + b`.
proof fn lemma_digits_value_concat(a: Seq<char>, b: Seq<char>, acc: nat, max: nat)
    ensures
        digits_value(a + b, acc, max) == match digits_value(a, acc, max) {
            Ok(v) => digits_value(b, v, max),
            Err(e) => Err::<nat, NumberError>(e),
        },
    decreases a.len(),
{
    if a.len() == 0 {
        assert(a + b == b);
    } else {
        assert((a + b)[0] == a[0]);
        assert((a + b).drop_first() == a.drop_first() + b);
        if let Some(d) = digit_value(a[0]) {
            if acc * 10 + d <= max {
                lemma_digits_value_concat(a.drop_first(), b, acc * 10 + d, max);
            }
        }
    }
}

/// Decimal text is made of digits, and there is at least one.
pub proof fn lemma_decimal_digits_are_digits(n: nat)
    ensures
        decimal_digits(n).len() > 0,
        forall|i: int|
            0 <= i < decimal_digits(n).len() ==> 0x30 <= (#[trigger] decimal_digits(n)[i]) as u32 <= 0x39,
    decreases n,
{
    if n >= 10 {
        lemma_decimal_digits_are_digits(n / 10);
    }
}

/// A number can be read back from its decimal text.
pub proof fn law_decimal_text_reads_back(n: nat, max: nat)
    requires
        n <= max,
    ensures
        decimal(decimal_digits(n), max) == Ok::<nat, NumberError>(n),
{
    lemma_decimal_digits_are_digits(n);
    lemma_digits_read_back(n, max);
    assert(decimal_digits(n)[0] != '+');
}

proof fn lemma_digits_read_back(n: nat, max: nat)
    requires
        n <= max,
    ensures
        digits_value(decimal_digits(n), 0, max) == Ok::<nat, NumberError>(n),
    decreases n,
{
    reveal_with_fuel(digits_value, 2);
    if n < 10 {
        assert(decimal_digits(n).drop_first() == Seq::<char>::empty());
        assert(digit_value(decimal_digits(n)[0]) == Some(n));
    } else {
        let head = decimal_digits(n / 10);
        let tail = seq![digit_char(n % 10)];
        lemma_digits_read_back(n / 10, max);
        lemma_digits_value_concat(head, tail, 0, max);
        assert(head + tail == decimal_digits(n));
        assert(tail.drop_first() == Seq::<char>::empty());
        assert(digit_value(tail[0]) == Some(n % 10));
    }
}

/// Text with no whitespace at either end is its own trimmed form.
pub proof fn lemma_trimmed_fixpoint(s: Seq<char>)
    requires
        s.len() > 0 ==> !white_space(s[0]) && !white_space(s.last()),
    ensures
        trimmed(s) == s,
{
}

/// Trimming leaves no whitespace at either end.
pub proof fn lemma_trimmed_ends(s: Seq<char>)
    ensures
        trimmed(s).len() > 0 ==> !white_space(trimmed(s)[0]) && !white_space(trimmed(s).last()),
{
    lemma_trimmed_start_first(s);
    lemma_trimmed_end_end(trimmed_start(s));
}

/// Trimming the start leaves no whitespace there.
pub proof fn lemma_trimmed_start_first(s: Seq<char>)
    ensures
        trimmed_start(s).len() > 0 ==> !white_space(trimmed_start(s)[0]),
    decreases s.len(),
{
    if s.len() > 0 && white_space(s[0]) {
        lemma_trimmed_start_first(s.drop_first());
    }
}

proof fn lemma_trimmed_end_end(s: Seq<char>)
    ensures
        trimmed_end(s).len() <= s.len(),
        trimmed_end(s) == s.subrange(0, trimmed_end(s).len() as int),
        trimmed_end(s).len() > 0 ==> !white_space(trimmed_end(s).last()),
    decreases s.len(),
{
    if s.len() > 0 && white_space(s.last()) {
        lemma_trimmed_end_end(s.drop_last());
        assert(s.drop_last().subrange(0, trimmed_end(s).len() as int) == s.subrange(
            0,
            trimmed_end(s).len() as int,
        ));
    } else {
        assert(s == s.subrange(0, s.len() as int));
    }
}

/// Whitespace put around text does not change its trimmed form.
pub proof fn law_trim_ignores_padding(front: Seq<char>, s: Seq<char>, back: Seq<char>)
    requires
        forall|i: int| 0 <= i < front.len() ==> white_space(#[trigger] front[i]),
        forall|i: int| 0 <= i < back.len() ==> white_space(#[trigger] back[i]),
    ensures
        trimmed(front + s + back) == trimmed(s),
{
    lemma_trimmed_start_skips(front, s + back);
    assert(front + s + back == front + (s + back));
    lemma_trimmed_end_skips(s, back);
    lemma_trim_order(s + back);
    lemma_trim_order(s);
}

proof fn lemma_trimmed_start_skips(front: Seq<char>, s: Seq<char>)
    requires
        forall|i: int| 0 <= i < front.len() ==> white_space(#[trigger] front[i]),
    ensures
        trimmed_start(front + s) == trimmed_start(s),
    decreases front.len(),
{
    if front.len() == 0 {
        assert(front + s == s);
    } else {
        assert((front + s)[0] == front[0]);
        assert((front + s).drop_first() == front.drop_first() + s);
        lemma_trimmed_start_skips(front.drop_first(), s);
    }
}

proof fn lemma_trimmed_end_skips(s: Seq<char>, back: Seq<char>)
    requires
        forall|i: int| 0 <= i < back.len() ==> white_space(#[trigger] back[i]),
    ensures
        trimmed_end(s + back) == trimmed_end(s),
    decreases back.len(),
{
    if back.len() == 0 {
        assert(s + back == s);
    } else {
        assert((s + back).last() == back.last());
        assert((s + back).drop_last() == s + back.drop_last());
        lemma_trimmed_end_skips(s, back.drop_last());
    }
}

/// Trimming the start works the same before further text.
pub proof fn lemma_trimmed_start_concat(s: Seq<char>, t: Seq<char>)
    ensures
        trimmed_start(s).len() <= s.len(),
        trimmed_start(s) == s.skip(s.len() - trimmed_start(s).len()),
        trimmed_start(s).len() > 0 ==> trimmed_start(s + t) == trimmed_start(s) + t,
        trimmed_start(s).len() == 0 ==> trimmed_start(s + t) == trimmed_start(t),
    decreases s.len(),
{
    if s.len() == 0 {
        assert(s + t == t);
        assert(s == s.skip(0));
    } else {
        assert((s + t)[0] == s[0]);
        assert((s + t).drop_first() == s.drop_first() + t);
        lemma_trimmed_start_concat(s.drop_first(), t);
        if white_space(s[0]) {
            let n = trimmed_start(s).len();
            assert(s.drop_first().skip(s.len() - 1 - n) == s.skip(s.len() - n));
        } else {
            assert(s == s.skip(0));
        }
    }
}

/// A dot put behind text that does not end in whitespace is the only change to
/// its trimmed form.
pub proof fn lemma_trimmed_keeps_dot(s: Seq<char>)
    requires
        s.len() > 0 ==> !white_space(s.last()),
    ensures
        trimmed(s.push('.')) == trimmed(s).push('.'),
{
    let dot = seq!['.'];
    assert(s.push('.') == s + dot);
    lemma_trimmed_start_concat(s, dot);
    if s.len() > 0 {
        lemma_trimmed_end_skips_nothing(s);
        lemma_trimmed_start_keeps_last(s);
        assert(trimmed_start(s) + dot == trimmed_start(s).push('.'));
    } else {
        assert(trimmed_start(dot) == dot);
        assert(dot == Seq::<char>::empty().push('.'));
    }
}

proof fn lemma_trimmed_end_skips_nothing(s: Seq<char>)
    requires
        s.len() > 0,
        !white_space(s.last()),
    ensures
        trimmed_end(s) == s,
{
}

proof fn lemma_trimmed_start_keeps_last(s: Seq<char>)
    requires
        s.len() > 0,
        !white_space(s.last()),
    ensures
        trimmed_start(s).len() > 0,
        trimmed_start(s).last() == s.last(),
    decreases s.len(),
{
    if white_space(s[0]) {
        assert(s.drop_first().last() == s.last());
        lemma_trimmed_start_keeps_last(s.drop_first());
    }
}

/// Trimming the end works the same behind a first character.
proof fn lemma_trimmed_end_first(s: Seq<char>)
    requires
        s.len() > 0,
    ensures
        trimmed_end(s) == if trimmed_end(s.drop_first()).len() > 0 || !white_space(s[0]) {
            seq![s[0]] + trimmed_end(s.drop_first())
        } else {
            Seq::empty()
        },
    decreases s.len(),
{
    if s.len() == 1 {
        reveal_with_fuel(trimmed_end, 2);
        assert(s.drop_first() == Seq::<char>::empty());
        assert(s.drop_last() == Seq::<char>::empty());
        assert(seq![s[0]] + Seq::<char>::empty() == s);
    } else {
        assert(s.drop_first().last() == s.last());
        if white_space(s.last()) {
            lemma_trimmed_end_first(s.drop_last());
            assert(s.drop_first().drop_last() == s.drop_last().drop_first());
        } else {
            assert(seq![s[0]] + s.drop_first() == s);
        }
    }
}

/// It does not matter which end is trimmed first.
proof fn lemma_trim_order(s: Seq<char>)
    ensures
        trimmed_end(trimmed_start(s)) == trimmed_start(trimmed_end(s)),
    decreases s.len(),
{
    if s.len() > 0 {
        lemma_trimmed_end_first(s);
        let t = trimmed_end(s.drop_first());
        if white_space(s[0]) {
            lemma_trim_order(s.drop_first());
            assert((seq![s[0]] + t).drop_first() == t);
        }
    }
}

/// Trimming keeps one stretch of the text: what lies before and behind it is
/// whitespace, and it neither starts nor ends in whitespace.
pub proof fn law_trimmed_is_what_lies_between(s: Seq<char>) -> (ends: (int, int))
    ensures
        0 <= ends.0 <= ends.1 <= s.len(),
        trimmed(s) == s.subrange(ends.0, ends.1),
        forall|i: int| 0 <= i < ends.0 ==> white_space(#[trigger] s[i]),
        forall|i: int| ends.1 <= i < s.len() ==> white_space(#[trigger] s[i]),
        ends.0 < ends.1 ==> !white_space(s[ends.0]) && !white_space(s[ends.1 - 1]),
{
    lemma_trimmed_start_concat(s, Seq::empty());
    lemma_trimmed_start_first(s);
    lemma_trimmed_start_drops_whitespace(s);
    let t = trimmed_start(s);
    let lo = s.len() - t.len();
    lemma_trimmed_end_end(t);
    lemma_trimmed_end_drops_whitespace(t);
    let hi = lo + trimmed_end(t).len();
    assert(trimmed(s) == s.subrange(lo, hi));
    assert forall|i: int| hi <= i < s.len() implies white_space(#[trigger] s[i]) by {
        assert(t[i - lo] == s[i]);
    }
    (lo, hi)
}

proof fn lemma_trimmed_start_drops_whitespace(s: Seq<char>)
    ensures
        trimmed_start(s).len() <= s.len(),
        forall|i: int| 0 <= i < s.len() - trimmed_start(s).len() ==> white_space(#[trigger] s[i]),
    decreases s.len(),
{
    if s.len() > 0 && white_space(s[0]) {
        let r = s.drop_first();
        lemma_trimmed_start_drops_whitespace(r);
        assert forall|i: int| 0 <= i < s.len() - trimmed_start(s).len() implies white_space(
            #[trigger] s[i],
        ) by {
            if i > 0 {
                assert(r[i - 1] == s[i]);
            }
        }
    }
}

proof fn lemma_trimmed_end_drops_whitespace(s: Seq<char>)
    ensures
        forall|i: int| trimmed_end(s).len() <= i < s.len() ==> white_space(#[trigger] s[i]),
    decreases s.len(),
{
    if s.len() > 0 && white_space(s.last()) {
        let r = s.drop_last();
        lemma_trimmed_end_drops_whitespace(r);
        assert forall|i: int| trimmed_end(s).len() <= i < s.len() implies white_space(
            #[trigger] s[i],
        ) by {
            if i < r.len() {
                assert(r[i] == s[i]);
            }
        }
    }
}

/// Stripping dots keeps the front of the text: what lies behind it are dots, and it
/// does not end in one.
pub proof fn law_without_dots_is_the_front(s: Seq<char>) -> (end: int)
    ensures
        0 <= end <= s.len(),
        without_dots(s) == s.take(end),
        forall|i: int| end <= i < s.len() ==> #[trigger] s[i] == '.',
        end > 0 ==> s[end - 1] != '.',
    decreases s.len(),
{
    if s.len() > 0 && s.last() == '.' {
        let r = s.drop_last();
        let end = law_without_dots_is_the_front(r);
        assert(r.take(end) == s.take(end));
        assert forall|i: int| end <= i < s.len() implies #[trigger] s[i] == '.' by {
            if i < r.len() {
                assert(r[i] == s[i]);
            }
        }
        end
    } else {
        assert(s.take(s.len() as int) == s);
        s.len() as int
    }
}

/// Two texts are the same but for case exactly if they are of one length and each
/// two characters are equal or the upper and the lower case of one letter from A
/// to Z.
pub proof fn law_case_is_that_of_ascii_letters(a: Seq<char>, b: Seq<char>)
    ensures
        same_ignoring_case(a, b) <==> (a.len() == b.len() && forall|i: int|
            0 <= i < a.len() ==> {
                ||| #[trigger] a[i] == b[i]
                ||| (0x41 <= a[i] as u32 <= 0x5a && b[i] as u32 == a[i] as u32 + 0x20)
                ||| (0x41 <= b[i] as u32 <= 0x5a && a[i] as u32 == b[i] as u32 + 0x20)
            }),
{
    if a.len() == b.len() {
        assert forall|i: int| 0 <= i < a.len() implies (ascii_lower(#[trigger] a[i]) == ascii_lower(
            b[i],
        ) <==> {
            ||| a[i] == b[i]
            ||| (0x41 <= a[i] as u32 <= 0x5a && b[i] as u32 == a[i] as u32 + 0x20)
            ||| (0x41 <= b[i] as u32 <= 0x5a && a[i] as u32 == b[i] as u32 + 0x20)
        }) by {
            lemma_lower_case(a[i], b[i]);
        }
    }
}

proof fn lemma_lower_case(a: char, b: char)
    ensures
        ascii_lower(a) == ascii_lower(b) <==> {
            ||| a == b
            ||| (0x41 <= a as u32 <= 0x5a && b as u32 == a as u32 + 0x20)
            ||| (0x41 <= b as u32 <= 0x5a && a as u32 == b as u32 + 0x20)
        },
{
    assert(ascii_lower(a) as u32 == if 0x41 <= a as u32 <= 0x5a {
        (a as u32 + 0x20) as u32
    } else {
        a as u32
    });
    assert(ascii_lower(b) as u32 == if 0x41 <= b as u32 <= 0x5a {
        (b as u32 + 0x20) as u32
    } else {
        b as u32
    });
}

/// Whether `s` holds nothing but the characters `0` to `9`.
pub open spec fn only_digits(s: Seq<char>) -> bool {
    forall|i: int| 0 <= i < s.len() ==> 0x30 <= (#[trigger] s[i]) as u32 <= 0x39
}

/// What digits are worth by their places.
pub open spec fn place_value(s: Seq<char>) -> nat
    decreases s.len(),
{
    if s.len() == 0 {
        0
    } else {
        (10 * place_value(s.drop_last()) + (s.last() as u32 - 0x30)) as nat
    }
}

/// The text of a number behind the `+` that it may start with.
pub open spec fn unsigned_part(s: Seq<char>) -> Seq<char> {
    if s.len() > 0 && s[0] == '+' {
        s.skip(1)
    } else {
        s
    }
}

/// Text is a number exactly if it is made of digits, at least one, behind an
/// optional `+`. The number is what the digits are worth by their places, however
/// many zeros they start with, and no larger than what is allowed.
pub proof fn law_number_is_its_place_value(s: Seq<char>, max: nat, n: nat)
    ensures
        decimal(s, max) == Ok::<nat, NumberError>(n) <==> {
            &&& unsigned_part(s).len() > 0
            &&& only_digits(unsigned_part(s))
            &&& place_value(unsigned_part(s)) == n
            &&& n <= max
        },
{
    let d = unsigned_part(s);
    lemma_digits_are_worth_their_places(d, max);
    if s.len() > 0 && s[0] == '+' {
        assert(d == s.drop_first());
    }
}

/// Why text is no number: it is empty, or some of its first digits are already
/// worth more than what is allowed, or else a character is no digit.
pub proof fn law_why_text_is_no_number(s: Seq<char>, max: nat)
    ensures
        decimal(s, max) == Err::<nat, NumberError>(NumberError::Empty) <==> s.len() == 0,
        decimal(s, max) == Err::<nat, NumberError>(NumberError::TooLarge) <==> exists|k: int|
            0 < k <= unsigned_part(s).len() && only_digits(#[trigger] unsigned_part(s).take(k))
                && place_value(unsigned_part(s).take(k)) > max,
{
    let d = unsigned_part(s);
    lemma_digits_are_worth_their_places(d, max);
    lemma_digits_too_large(d, max);
    if s.len() > 0 && s[0] == '+' {
        assert(d == s.drop_first());
    }
}

proof fn lemma_digits_split_last(d: Seq<char>, max: nat)
    requires
        d.len() > 0,
    ensures
        digits_value(d, 0, max) == match digits_value(d.drop_last(), 0, max) {
            Err(e) => Err::<nat, NumberError>(e),
            Ok(v) => match digit_value(d.last()) {
                None => Err(NumberError::InvalidDigit),
                Some(x) => if v * 10 + x > max {
                    Err(NumberError::TooLarge)
                } else {
                    Ok(v * 10 + x)
                },
            },
        },
{
    let tail = seq![d.last()];
    assert(d.drop_last() + tail == d);
    lemma_digits_value_concat(d.drop_last(), tail, 0, max);
    reveal_with_fuel(digits_value, 2);
    assert(tail.drop_first() == Seq::<char>::empty());
}

proof fn lemma_digits_are_worth_their_places(d: Seq<char>, max: nat)
    ensures
        digits_value(d, 0, max) is Ok <==> only_digits(d) && place_value(d) <= max,
        digits_value(d, 0, max) matches Ok(v) ==> v == place_value(d),
        digits_value(d, 0, max) != Err::<nat, NumberError>(NumberError::Empty),
    decreases d.len(),
{
    if d.len() > 0 {
        let e = d.drop_last();
        lemma_digits_are_worth_their_places(e, max);
        lemma_digits_split_last(d, max);
        assert(only_digits(d) ==> only_digits(e)) by {
            assert(forall|i: int| 0 <= i < e.len() ==> e[i] == d[i]);
        }
        assert(only_digits(e) && digit_value(d.last()) is Some ==> only_digits(d)) by {
            assert(forall|i: int| 0 <= i < e.len() ==> d[i] == e[i]);
        }
        assert(only_digits(d) ==> 0x30 <= d[d.len() - 1] as u32 <= 0x39);
    }
}

proof fn lemma_digits_too_large(d: Seq<char>, max: nat)
    ensures
        digits_value(d, 0, max) == Err::<nat, NumberError>(NumberError::TooLarge) <==> exists|k: int|
            0 < k <= d.len() && only_digits(#[trigger] d.take(k)) && place_value(d.take(k)) > max,
    decreases d.len(),
{
    if d.len() > 0 {
        let e = d.drop_last();
        lemma_digits_too_large(e, max);
        lemma_digits_are_worth_their_places(e, max);
        lemma_digits_are_worth_their_places(d, max);
        lemma_digits_split_last(d, max);
        assert(d.take(d.len() as int) == d);
        assert(forall|k: int| 0 < k <= e.len() ==> #[trigger] e.take(k) == d.take(k));
        if exists|k: int|
            0 < k <= e.len() && only_digits(#[trigger] e.take(k)) && place_value(e.take(k)) > max {
            let k = choose|k: int|
                0 < k <= e.len() && only_digits(#[trigger] e.take(k)) && place_value(e.take(k))
                    > max;
            assert(d.take(k) == e.take(k));
        }
        if exists|k: int|
            0 < k <= d.len() && only_digits(#[trigger] d.take(k)) && place_value(d.take(k)) > max {
            let k = choose|k: int|
                0 < k <= d.len() && only_digits(#[trigger] d.take(k)) && place_value(d.take(k))
                    > max;
            if k <= e.len() {
                assert(e.take(k) == d.take(k));
            } else {
                assert(only_digits(d) && place_value(d) > max);
                assert(forall|i: int| 0 <= i < e.len() ==> e[i] == d[i]);
                assert(only_digits(e));
                if place_value(e) > max {
                    assert(e.len() > 0);
                    assert(e.take(e.len() as int) == e);
                } else {
                    assert(0x30 <= d[d.len() - 1] as u32 <= 0x39);
                }
            }
        }
    }
}

/// The decimal text of a number is made of digits that are worth the number, and
/// starts with a zero only if that is all there is to it.
pub proof fn law_decimal_text_is_the_shortest(n: nat)
    ensures
        only_digits(decimal_digits(n)),
        place_value(decimal_digits(n)) == n,
        decimal_digits(n).len() > 0,
        decimal_digits(n)[0] == '0' ==> decimal_digits(n).len() == 1,
    decreases n,
{
    lemma_decimal_digits_are_digits(n);
    reveal_with_fuel(place_value, 2);
    if n < 10 {
        assert(decimal_digits(n).drop_last() == Seq::<char>::empty());
    } else {
        law_decimal_text_is_the_shortest(n / 10);
        let head = decimal_digits(n / 10);
        assert(decimal_digits(n).drop_last() == head);
        assert(decimal_digits(n)[0] == head[0]);
        if head[0] == '0' {
            assert(head.drop_last() == Seq::<char>::empty());
            assert(place_value(head) == 0);
        }
    }
}

/// Numbers are read up to the largest value of their type, and stand for themselves.
pub proof fn law_numbers_reach_the_limit_of_their_type(a: u64, b: u8)
    ensures
        <u64 as Decimal>::limit() == 0xffff_ffff_ffff_ffff,
        <u8 as Decimal>::limit() == 0xff,
        Decimal::number(a) == a,
        Decimal::number(b) == b,
{
}

} // verus!
