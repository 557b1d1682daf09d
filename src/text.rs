use vstd::prelude::*;

verus! {

broadcast use vstd::string::group_string_axioms;

/// The characters of a string slice, in order.
pub fn chars_of(s: &str) -> (r: Vec<char>)
    ensures
        r@ == s@,
{
    let mut r: Vec<char> = Vec::new();
    for c in it: s.chars()
        invariant
            r@ == it.seq().take(it.index() as int),
    {
        r.push(c);
    }
    r
}


pub open spec fn is_digit(c: char) -> bool {
    '0' <= c <= '9'
}

pub open spec fn all_digits(s: Seq<char>) -> bool {
    forall|i: int| 0 <= i < s.len() ==> is_digit(#[trigger] s[i])
}

pub open spec fn digit_value(c: char) -> nat {
    (c as u32 - '0' as u32) as nat
}

/// The number written in decimal by `s`, most significant digit first.
pub open spec fn digits_value(s: Seq<char>) -> nat
    decreases s.len(),
{
    if s.len() == 0 {
        0
    } else {
        digits_value(s.drop_last()) * 10 + digit_value(s.last())
    }
}

pub open spec fn pow10(n: nat) -> nat
    decreases n,
{
    if n == 0 {
        1
    } else {
        10 * pow10((n - 1) as nat)
    }
}

/// Reads the digits `s[from..to]` as an unsigned number; `None` when one of
/// them is not a decimal digit.
pub fn read_digits(s: &Vec<char>, from: usize, to: usize) -> (r: Option<u32>)
    requires
        from <= to <= s.len(),
        to - from <= 9,
    ensures
        match r {
            Some(v) => all_digits(s@.subrange(from as int, to as int)) && v as nat
                == digits_value(s@.subrange(from as int, to as int)),
            None => !all_digits(s@.subrange(from as int, to as int)),
        },
{
    let mut v: u32 = 0;
    let mut i: usize = from;
    while i < to
        invariant
            from <= i <= to <= s.len(),
            to - from <= 9,
            all_digits(s@.subrange(from as int, i as int)),
            v as nat == digits_value(s@.subrange(from as int, i as int)),
            v < pow10((i - from) as nat),
        decreases to - i,
    {
        let c = s[i];
        if c < '0' || c > '9' {
            assert(s@.subrange(from as int, to as int)[i - from] == c);
            return None;
        }
        let ghost before = s@.subrange(from as int, i as int);
        let ghost after = s@.subrange(from as int, i + 1);
        assert(after.drop_last() == before);
        assert(pow10((i - from) as nat) <= 100_000_000) by {
            lemma_pow10_mono((i - from) as nat, 8);
            reveal_with_fuel(pow10, 9);
        }
        let d = (c as u32) - ('0' as u32);
        v = v * 10 + d;
        i = i + 1;
        assert(all_digits(after)) by {
            assert forall|k: int| 0 <= k < after.len() implies is_digit(#[trigger] after[k]) by {
                if k < before.len() {
                    assert(after[k] == before[k]);
                }
            }
        }
    }
    Some(v)
}

proof fn lemma_pow10_mono(a: nat, b: nat)
    requires
        a <= b,
    ensures
        pow10(a) <= pow10(b),
    decreases b,
{
    if a < b {
        lemma_pow10_mono(a, (b - 1) as nat);
    }
}


pub open spec fn is_sign(c: char) -> bool {
    c == '+' || c == '-'
}

/// `s` without its leading sign, if it has one.
pub open spec fn unsigned_part(s: Seq<char>) -> Seq<char> {
    if s.len() > 0 && is_sign(s[0]) {
        s.drop_first()
    } else {
        s
    }
}

/// `s` spells the lower-case ASCII word `w`, in any mix of cases.
pub open spec fn same_letters(s: Seq<char>, w: Seq<char>) -> bool {
    s.len() == w.len() && forall|i: int|
        0 <= i < s.len() ==> (#[trigger] s[i] == w[i] || s[i] as u32 + 32 == w[i] as u32)
}

pub open spec fn is_special_value(s: Seq<char>) -> bool {
    same_letters(s, seq!['i', 'n', 'f']) || same_letters(
        s,
        seq!['i', 'n', 'f', 'i', 'n', 'i', 't', 'y'],
    ) || same_letters(s, seq!['n', 'a', 'n'])
}

pub open spec fn is_mantissa_char(c: char) -> bool {
    is_digit(c) || c == '.'
}

/// Digits with at most one point among them, and at least one digit.
pub open spec fn is_mantissa(m: Seq<char>) -> bool {
    &&& forall|i: int| 0 <= i < m.len() ==> is_mantissa_char(#[trigger] m[i])
    &&& exists|i: int| 0 <= i < m.len() && is_digit(#[trigger] m[i])
    &&& forall|i: int, j: int|
        0 <= i < m.len() && 0 <= j < m.len() && #[trigger] m[i] == '.' && #[trigger] m[j] == '.'
            ==> i == j
}

pub open spec fn is_exp_mark(c: char) -> bool {
    c == 'e' || c == 'E'
}

/// Nothing, or `e` / `E` followed by an optionally signed run of digits.
pub open spec fn is_exponent(x: Seq<char>) -> bool {
    x.len() == 0 || (is_exp_mark(x[0]) && unsigned_part(x.drop_first()).len() > 0 && all_digits(
        unsigned_part(x.drop_first()),
    ))
}

pub open spec fn is_plain_number(b: Seq<char>) -> bool {
    exists|k: int|
        0 <= k <= b.len() && is_mantissa(#[trigger] b.subrange(0, k)) && is_exponent(
            b.subrange(k, b.len() as int),
        )
}

/// The decimal floating-point notation: an optional sign, then `inf`,
/// `infinity` or `nan` in any case, or digits with at most one point and an
/// optional exponent.
pub open spec fn is_decimal(s: Seq<char>) -> bool {
    is_special_value(unsigned_part(s)) || is_plain_number(unsigned_part(s))
}

proof fn lemma_plain_number_at_run_end(b: Seq<char>, k: int)
    requires
        0 <= k <= b.len(),
        forall|i: int| 0 <= i < k ==> is_mantissa_char(#[trigger] b[i]),
        k == b.len() || !is_mantissa_char(b[k]),
    ensures
        is_plain_number(b) == (is_mantissa(b.subrange(0, k)) && is_exponent(
            b.subrange(k, b.len() as int),
        )),
{
    if is_plain_number(b) {
        let j = choose|j: int|
            0 <= j <= b.len() && is_mantissa(#[trigger] b.subrange(0, j)) && is_exponent(
                b.subrange(j, b.len() as int),
            );
        if j < k {
            assert(b.subrange(j, b.len() as int)[0] == b[j]);
            assert(is_mantissa_char(b[j]));
        } else if j > k {
            assert(b.subrange(0, j)[k] == b[k]);
        }
        assert(j == k);
    }
}

/// Whether `w[..]` and the tail `s[from..]` spell the same word, ignoring the
/// case of `s`.
fn letters_match(s: &Vec<char>, from: usize, w: &Vec<char>) -> (r: bool)
    requires
        from <= s.len(),
    ensures
        r == same_letters(s@.subrange(from as int, s.len() as int), w@),
{
    let ghost tail = s@.subrange(from as int, s.len() as int);
    if s.len() - from != w.len() {
        return false;
    }
    let mut i: usize = 0;
    while i < w.len()
        invariant
            tail == s@.subrange(from as int, s.len() as int),
            tail.len() == w.len(),
            i <= w.len(),
            from + w.len() == s.len(),
            forall|k: int|
                0 <= k < i ==> (#[trigger] tail[k] == w@[k] || tail[k] as u32 + 32 == w@[k] as u32),
        decreases w.len() - i,
    {
        let c = s[from + i];
        assert(tail[i as int] == c);
        if !(c == w[i] || (w[i] as u32 >= 32 && c as u32 == w[i] as u32 - 32)) {
            return false;
        }
        i = i + 1;
    }
    true
}

/// Whether `s` is written in the decimal floating-point notation.
pub fn is_decimal_text(s: &str) -> (r: bool)
    ensures
        r == is_decimal(s@),
{
    let cs = chars_of(s);
    let n = cs.len();
    let mut start: usize = 0;
    if n > 0 && (cs[0] == '+' || cs[0] == '-') {
        start = 1;
    }
    let ghost b = cs@.subrange(start as int, n as int);
    assert(b == unsigned_part(s@));
    if letters_match(&cs, start, &vec!['i', 'n', 'f']) || letters_match(
        &cs,
        start,
        &vec!['i', 'n', 'f', 'i', 'n', 'i', 't', 'y'],
    ) || letters_match(&cs, start, &vec!['n', 'a', 'n']) {
        return true;
    }
    // The longest run of digits and points.

    let mut k: usize = start;
    let mut seen_digit = false;
    let mut seen_point = false;
    let mut one_point = true;
    while k < n && (('0' <= cs[k] && cs[k] <= '9') || cs[k] == '.')
        invariant
            start <= k <= n == cs.len(),
            b == cs@.subrange(start as int, n as int),
            forall|i: int| start <= i < k ==> is_mantissa_char(#[trigger] cs@[i]),
            seen_digit == exists|i: int| start <= i < k && is_digit(#[trigger] cs@[i]),
            seen_point == exists|i: int| start <= i < k && #[trigger] cs@[i] == '.',
            one_point == forall|i: int, j: int|
                start <= i < k && start <= j < k && #[trigger] cs@[i] == '.' && #[trigger] cs@[j]
                    == '.' ==> i == j,
        decreases n - k,
    {
        if cs[k] == '.' {
            one_point = one_point && !seen_point;
            seen_point = true;
        } else {
            seen_digit = true;
        }
        k = k + 1;
    }
    let ghost m = b.subrange(0, k - start);
    proof {
        assert forall|i: int| 0 <= i < k - start implies is_mantissa_char(#[trigger] b[i]) by {
            assert(b[i] == cs@[start + i]);
        }
        if k < n {
            assert(b[k - start] == cs@[k as int]);
        }
        lemma_plain_number_at_run_end(b, k - start);
        assert forall|i: int| 0 <= i < m.len() implies #[trigger] m[i] == cs@[start + i] by {}
        if seen_digit {
            let i = choose|i: int| start <= i < k && is_digit(#[trigger] cs@[i]);
            assert(m[i - start] == cs@[i]);
        }
        if !one_point {
            let (i, j) = choose|i: int, j: int|
                start <= i < k && start <= j < k && #[trigger] cs@[i] == '.' && #[trigger] cs@[j]
                    == '.' && i != j;
            assert(m[i - start] == cs@[i] && m[j - start] == cs@[j]);
        }
    }
    if !(seen_digit && one_point) {
        return false;
    }
    assert(is_mantissa(m));
    if k == n {
        return true;
    }
    // The exponent.

    let ghost x = b.subrange(k - start, b.len() as int);
    assert(x[0] == cs@[k as int]);
    if cs[k] != 'e' && cs[k] != 'E' {
        return false;
    }
    let mut j: usize = k + 1;
    if j < n && (cs[j] == '+' || cs[j] == '-') {
        j = j + 1;
    }
    let ghost d = cs@.subrange(j as int, n as int);
    assert(d == unsigned_part(x.drop_first()));
    if j == n {
        return false;
    }
    assert(is_decimal(s@) == all_digits(d));
    let mut i: usize = j;
    while i < n
        invariant
            j <= i <= n == cs.len(),
            d == cs@.subrange(j as int, n as int),
            is_decimal(s@) == all_digits(d),
            forall|p: int| j <= p < i ==> is_digit(#[trigger] cs@[p]),
        decreases n - i,
    {
        if cs[i] < '0' || cs[i] > '9' {
            assert(d[i - j] == cs@[i as int]);
            return false;
        }
        i = i + 1;
    }
    assert forall|p: int| 0 <= p < d.len() implies is_digit(#[trigger] d[p]) by {
        assert(d[p] == cs@[j + p]);
    }
    true
}


pub open spec fn newline_count(s: Seq<char>) -> nat
    decreases s.len(),
{
    if s.len() == 0 {
        0
    } else {
        newline_count(s.drop_last()) + if s.last() == '\n' {
            1nat
        } else {
            0nat
        }
    }
}

/// The number of lines of `s`: each one ends with a line feed, but the last
/// may end with the text instead.
pub open spec fn line_count(s: Seq<char>) -> nat {
    newline_count(s) + if s.len() > 0 && s.last() != '\n' {
        1nat
    } else {
        0nat
    }
}

proof fn lemma_newline_count_bound(s: Seq<char>)
    ensures
        newline_count(s) <= s.len(),
    decreases s.len(),
{
    if s.len() > 0 {
        lemma_newline_count_bound(s.drop_last());
    }
}

/// Counts the line feeds among the first `end` characters of `cs`.
pub fn newlines_before(cs: &Vec<char>, end: usize) -> (r: usize)
    requires
        end <= cs.len(),
    ensures
        r as nat == newline_count(cs@.take(end as int)),
{
    let mut count: usize = 0;
    let mut i: usize = 0;
    while i < end
        invariant
            i <= end <= cs.len(),
            count as nat == newline_count(cs@.take(i as int)),
        decreases end - i,
    {
        let ghost before = cs@.take(i as int);
        assert(cs@.take(i + 1).drop_last() == before);
        proof {
            lemma_newline_count_bound(before);
        }
        if cs[i] == '\n' {
            count = count + 1;
        }
        i = i + 1;
    }
    count
}

/// Counts the lines of `s`.
pub fn count_lines(s: &str) -> (r: usize)
    ensures
        r as nat == line_count(s@),
{
    let cs = chars_of(s);
    let mut count = newlines_before(&cs, cs.len());
    assert(cs@.take(cs.len() as int) == cs@);
    if cs.len() > 0 && cs[cs.len() - 1] != '\n' {
        proof {
            lemma_newline_count_bound(cs@.drop_last());
        }
        count = count + 1;
    }
    count
}

} // verus!
