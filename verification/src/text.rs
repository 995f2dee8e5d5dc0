//! Character-level text primitives: turning strings into character
//! vectors and back, decimal numerals, an escape scheme that keeps
//! every value on one line, and splitting and joining of lines. Each
//! operation comes with its specification-level twin and the round-trip
//! lemmas the codec is proved from.

use vstd::prelude::*;

verus! {

// ------------------------------------------------------------------
// Strings and character vectors
// ------------------------------------------------------------------

/// Relies on `Iterator::collect` building a `String` out of `char`s:
/// the collected string consists of exactly the iterated characters,
/// in order.
#[verifier::external_body]
pub fn chars_to_string(v: &Vec<char>) -> (s: String)
    ensures
        s@ == v@,
{
    v.iter().collect()
}

/// The characters of `s`, as a vector.
pub fn str_to_chars(s: &str) -> (v: Vec<char>)
    ensures
        v@ == s@,
{
    let n = s.unicode_len();
    let mut v: Vec<char> = Vec::new();
    let mut i: usize = 0;
    while i < n
        invariant
            i <= n,
            n == s@.len(),
            v@ == s@.subrange(0, i as int),
        decreases n - i,
    {
        v.push(s.get_char(i));
        proof {
            assert(s@.subrange(0, i as int).push(s@[i as int]) =~= s@.subrange(0, i + 1 as int));
        }
        i = i + 1;
    }
    proof {
        assert(v@ =~= s@);
    }
    v
}

/// Whether two string slices hold the same characters.
pub fn str_eq(a: &str, b: &str) -> (r: bool)
    ensures
        r == (a@ == b@),
{
    let na = a.unicode_len();
    let nb = b.unicode_len();
    if na != nb {
        return false;
    }
    let mut i: usize = 0;
    while i < na
        invariant
            i <= na,
            na == a@.len(),
            na == b@.len(),
            forall|j: int| 0 <= j < i ==> a@[j] == b@[j],
        decreases na - i,
    {
        if a.get_char(i) != b.get_char(i) {
            return false;
        }
        i = i + 1;
    }
    proof {
        assert(a@ =~= b@);
    }
    true
}

// ------------------------------------------------------------------
// Decimal numerals
// ------------------------------------------------------------------

/// The character standing for decimal digit `d`.
pub open spec fn digit_char(d: int) -> char {
    if d == 0 {
        '0'
    } else if d == 1 {
        '1'
    } else if d == 2 {
        '2'
    } else if d == 3 {
        '3'
    } else if d == 4 {
        '4'
    } else if d == 5 {
        '5'
    } else if d == 6 {
        '6'
    } else if d == 7 {
        '7'
    } else if d == 8 {
        '8'
    } else {
        '9'
    }
}

/// The digit a character stands for, or -1 when it is no digit.
pub open spec fn char_digit_val(c: char) -> int {
    if c == '0' {
        0
    } else if c == '1' {
        1
    } else if c == '2' {
        2
    } else if c == '3' {
        3
    } else if c == '4' {
        4
    } else if c == '5' {
        5
    } else if c == '6' {
        6
    } else if c == '7' {
        7
    } else if c == '8' {
        8
    } else if c == '9' {
        9
    } else {
        -1
    }
}

pub open spec fn is_digit_char(c: char) -> bool {
    char_digit_val(c) >= 0
}

/// The decimal numeral of a nonnegative number, most significant
/// digit first.
pub open spec fn u64_dec(n: int) -> Seq<char>
    decreases n,
{
    if n < 10 {
        seq![digit_char(n)]
    } else {
        u64_dec(n / 10).push(digit_char(n % 10))
    }
}

pub open spec fn all_digits(s: Seq<char>) -> bool {
    forall|i: int| 0 <= i < s.len() ==> is_digit_char(s[i])
}

/// The number a digit sequence denotes.
pub open spec fn digits_val(s: Seq<char>) -> int
    decreases s.len(),
{
    if s.len() == 0 {
        0
    } else {
        digits_val(s.drop_last()) * 10 + char_digit_val(s.last())
    }
}

/// A sequence parses as a `u64` when it is a nonempty run of digits
/// whose value fits. Leading zeroes are accepted.
pub open spec fn parse_u64_spec(s: Seq<char>) -> Option<u64> {
    if s.len() > 0 && all_digits(s) && digits_val(s) <= u64::MAX {
        Some(digits_val(s) as u64)
    } else {
        None
    }
}

/// The numeral of a signed number: a minus sign before the numeral of
/// its magnitude.
pub open spec fn i32_dec(n: int) -> Seq<char> {
    if n < 0 {
        seq!['-'] + u64_dec(-n)
    } else {
        u64_dec(n)
    }
}

/// A sequence parses as an `i32` when it is an optionally
/// minus-signed digit run whose value fits.
pub open spec fn parse_i32_spec(s: Seq<char>) -> Option<i32> {
    if s.len() >= 2 && s[0] == '-' {
        match parse_u64_spec(s.drop_first()) {
            Some(v) => if v <= 0x8000_0000 {
                Some((-(v as int)) as i32)
            } else {
                None
            },
            None => None,
        }
    } else {
        match parse_u64_spec(s) {
            Some(v) => if v <= 0x7fff_ffff {
                Some(v as i32)
            } else {
                None
            },
            None => None,
        }
    }
}

/// The numeral of a nonnegative number is a nonempty digit run
/// denoting that number.
pub proof fn lemma_u64_dec_val(n: int)
    requires
        0 <= n,
    ensures
        u64_dec(n).len() >= 1,
        all_digits(u64_dec(n)),
        digits_val(u64_dec(n)) == n,
    decreases n,
{
    if n < 10 {
        assert(u64_dec(n) =~= seq![digit_char(n)]);
        assert(u64_dec(n).drop_last() =~= Seq::<char>::empty());
        assert(digits_val(Seq::<char>::empty()) == 0);
        assert(u64_dec(n).last() == digit_char(n));
        assert(digits_val(u64_dec(n)) == 0 * 10 + char_digit_val(digit_char(n)));
    } else {
        lemma_u64_dec_val(n / 10);
        let s = u64_dec(n / 10);
        assert(u64_dec(n) == s.push(digit_char(n % 10)));
        assert(u64_dec(n).drop_last() =~= s);
        assert(u64_dec(n).last() == digit_char(n % 10));
        assert(digits_val(u64_dec(n)) == n / 10 * 10 + n % 10);
        assert(forall|i: int|
            0 <= i < u64_dec(n).len() ==> is_digit_char(
                #[trigger] u64_dec(n)[i],
            )) by {
            assert(forall|i: int| 0 <= i < s.len() ==> u64_dec(n)[i] == #[trigger] s[i]);
        }
    }
}

/// Printing then parsing a `u64` gives the number back.
pub proof fn lemma_parse_u64_dec(n: u64)
    ensures
        parse_u64_spec(u64_dec(n as int)) == Some(n),
{
    lemma_u64_dec_val(n as int);
}

/// Printing then parsing an `i32` gives the number back.
pub proof fn lemma_parse_i32_dec(n: i32)
    ensures
        parse_i32_spec(i32_dec(n as int)) == Some(n),
{
    if n >= 0 {
        lemma_u64_dec_val(n as int);
        let s = i32_dec(n as int);
        assert(is_digit_char(s[0]));
        assert(s[0] != '-');
    } else {
        lemma_u64_dec_val(-(n as int));
        let s = i32_dec(n as int);
        assert(s.drop_first() =~= u64_dec(-(n as int)));
        assert(s[0] == '-');
        assert(s.len() >= 2);
    }
}

/// The character of decimal digit `d`.
pub fn digit_to_char(d: u64) -> (c: char)
    requires
        d < 10,
    ensures
        c == digit_char(d as int),
{
    if d == 0 {
        '0'
    } else if d == 1 {
        '1'
    } else if d == 2 {
        '2'
    } else if d == 3 {
        '3'
    } else if d == 4 {
        '4'
    } else if d == 5 {
        '5'
    } else if d == 6 {
        '6'
    } else if d == 7 {
        '7'
    } else if d == 8 {
        '8'
    } else {
        '9'
    }
}

/// The digit a character stands for, when it does.
pub fn char_to_digit(c: char) -> (r: Option<u64>)
    ensures
        is_digit_char(c) ==> r == Some(char_digit_val(c) as u64),
        !is_digit_char(c) ==> r is None,
{
    match c {
        '0' => Some(0),
        '1' => Some(1),
        '2' => Some(2),
        '3' => Some(3),
        '4' => Some(4),
        '5' => Some(5),
        '6' => Some(6),
        '7' => Some(7),
        '8' => Some(8),
        '9' => Some(9),
        _ => None,
    }
}

/// The decimal numeral of `n`.
pub fn u64_to_chars(n: u64) -> (r: Vec<char>)
    ensures
        r@ == u64_dec(n as int),
    decreases n,
{
    let d = n % 10;
    let c = digit_to_char(d);
    if n < 10 {
        let mut v: Vec<char> = Vec::new();
        v.push(c);
        proof {
            assert(v@ =~= seq![digit_char(n as int)]);
        }
        v
    } else {
        let mut v = u64_to_chars(n / 10);
        v.push(c);
        v
    }
}

/// The decimal numeral of `n`, minus-signed when negative.
pub fn i32_to_chars(n: i32) -> (r: Vec<char>)
    ensures
        r@ == i32_dec(n as int),
{
    if n >= 0 {
        let v = u64_to_chars(n as u64);
        v
    } else {
        let mut v: Vec<char> = Vec::new();
        v.push('-');
        let m: u64 = (-(n as i64)) as u64;
        let rest = u64_to_chars(m);
        let mut j: usize = 0;
        while j < rest.len()
            invariant
                j <= rest@.len(),
                v@ == seq!['-'] + rest@.subrange(0, j as int),
            decreases rest@.len() - j,
        {
            v.push(rest[j]);
            proof {
                assert(seq!['-'] + rest@.subrange(0, j as int).push(rest@[j as int]) =~= seq!['-']
                    + rest@.subrange(0, j + 1 as int));
            }
            j = j + 1;
        }
        proof {
            assert(rest@.subrange(0, rest@.len() as int) =~= rest@);
            assert(v@ =~= seq!['-'] + u64_dec(-(n as int)));
        }
        v
    }
}

/// All of `s` are digits: its value is nonnegative.
pub proof fn lemma_digits_val_nonneg(s: Seq<char>)
    requires
        all_digits(s),
    ensures
        digits_val(s) >= 0,
    decreases s.len(),
{
    if s.len() > 0 {
        assert(all_digits(s.drop_last())) by {
            assert(forall|i: int| 0 <= i < s.len() - 1 ==> s.drop_last()[i] == #[trigger] s[i]);
        }
        lemma_digits_val_nonneg(s.drop_last());
        assert(is_digit_char(s.last()));
    }
}

/// A digit run's value is at least the value of any of its prefixes.
pub proof fn lemma_digits_val_prefix_le(s: Seq<char>, k: int)
    requires
        all_digits(s),
        0 <= k <= s.len(),
    ensures
        digits_val(s.take(k)) <= digits_val(s),
    decreases s.len() - k,
{
    assert(all_digits(s.take(k))) by {
        assert(forall|i: int| 0 <= i < k ==> s.take(k)[i] == #[trigger] s[i]);
    }
    if k == s.len() {
        assert(s.take(k) =~= s);
    } else {
        assert(s.take(k + 1).drop_last() =~= s.take(k));
        assert(s.take(k + 1).last() == s[k]);
        lemma_digits_val_nonneg(s.take(k));
        assert(digits_val(s.take(k + 1)) == digits_val(s.take(k)) * 10 + char_digit_val(s[k]));
        lemma_digits_val_prefix_le(s, k + 1);
    }
}

/// Parses a nonempty digit run starting at index `from`, rejecting
/// values that do not fit in a `u64`.
pub fn parse_u64_range(v: &Vec<char>, from: usize) -> (r: Option<u64>)
    requires
        from <= v@.len(),
    ensures
        r == parse_u64_spec(v@.skip(from as int)),
{
    let ghost s = v@.skip(from as int);
    let n = v.len();
    if from == n {
        return None;
    }
    let mut acc: u64 = 0;
    let mut i: usize = from;
    while i < n
        invariant
            from <= i <= n,
            n == v@.len(),
            s == v@.skip(from as int),
            all_digits(s.take(i - from)),
            acc as int == digits_val(s.take(i - from)),
        decreases n - i,
    {
        let c = v[i];
        proof {
            assert(s[i - from] == v@[i as int]);
            assert(s.take(i - from + 1).drop_last() =~= s.take(i - from));
            assert(s.take(i - from + 1).last() == s[i - from]);
        }
        match char_to_digit(c) {
            None => {
                proof {
                    assert(!is_digit_char(s[i - from]));
                }
                return None;
            },
            Some(dv) => {
                if acc > (u64::MAX - dv) / 10 {
                    proof {
                        assert(digits_val(s.take(i - from + 1)) == acc as int * 10 + dv as int);
                        assert(acc as int * 10 + dv as int > u64::MAX) by {
                            assert(acc as int >= (u64::MAX - dv) as int / 10 + 1);
                        }
                        if all_digits(s) && digits_val(s) <= u64::MAX {
                            lemma_digits_val_prefix_le(s, i - from + 1);
                        }
                    }
                    return None;
                }
                proof {
                    assert(acc as int * 10 + dv as int <= u64::MAX) by {
                        assert(acc as int <= (u64::MAX - dv) as int / 10);
                    }
                }
                acc = acc * 10 + dv;
            },
        }
        i = i + 1;
    }
    proof {
        assert(s.take(n - from) =~= s);
    }
    Some(acc)
}

/// Parses a whole character vector as a `u64` numeral.
pub fn parse_u64_chars(v: &Vec<char>) -> (r: Option<u64>)
    ensures
        r == parse_u64_spec(v@),
{
    let r = parse_u64_range(v, 0);
    proof {
        assert(v@.skip(0) =~= v@);
    }
    r
}

/// Parses a whole character vector as an `i32` numeral.
pub fn parse_i32_chars(v: &Vec<char>) -> (r: Option<i32>)
    ensures
        r == parse_i32_spec(v@),
{
    if v.len() >= 2 && v[0] == '-' {
        proof {
            assert(v@.skip(1) =~= v@.drop_first());
        }
        match parse_u64_range(v, 1) {
            Some(m) => {
                if m <= 0x8000_0000 {
                    Some((-(m as i64)) as i32)
                } else {
                    None
                }
            },
            None => None,
        }
    } else {
        match parse_u64_chars(v) {
            Some(m) => {
                if m <= 0x7fff_ffff {
                    Some(m as i32)
                } else {
                    None
                }
            },
            None => None,
        }
    }
}

// ------------------------------------------------------------------
// Escaping: keep any value on a single line
// ------------------------------------------------------------------

/// How one character is escaped: backslash and newline become
/// two-character sequences, everything else stands for itself.
pub open spec fn escape_char(c: char) -> Seq<char> {
    if c == '\\' {
        seq!['\\', '\\']
    } else if c == '\n' {
        seq!['\\', 'n']
    } else {
        seq![c]
    }
}

/// The escaped form of a character sequence: newline-free, so it fits
/// on one line of the on-disk form.
pub open spec fn escape_spec(s: Seq<char>) -> Seq<char>
    decreases s.len(),
{
    if s.len() == 0 {
        Seq::empty()
    } else {
        escape_char(s[0]) + escape_spec(s.drop_first())
    }
}

/// The inverse of `escape_spec`: rejects a trailing lone backslash
/// and unknown escapes.
pub open spec fn unescape_spec(s: Seq<char>) -> Option<Seq<char>>
    decreases s.len(),
{
    if s.len() == 0 {
        Some(Seq::empty())
    } else if s[0] == '\\' {
        if s.len() >= 2 && (s[1] == '\\' || s[1] == 'n') {
            let c = if s[1] == '\\' {
                '\\'
            } else {
                '\n'
            };
            match unescape_spec(s.skip(2)) {
                Some(t) => Some(seq![c] + t),
                None => None,
            }
        } else {
            None
        }
    } else {
        match unescape_spec(s.drop_first()) {
            Some(t) => Some(seq![s[0]] + t),
            None => None,
        }
    }
}

/// Escaped text never contains a newline.
pub proof fn lemma_escape_no_newline(s: Seq<char>)
    ensures
        forall|i: int| 0 <= i < escape_spec(s).len() ==> #[trigger] escape_spec(s)[i] != '\n',
    decreases s.len(),
{
    if s.len() > 0 {
        lemma_escape_no_newline(s.drop_first());
        let ec = escape_char(s[0]);
        assert(forall|i: int| 0 <= i < ec.len() ==> #[trigger] ec[i] != '\n');
        assert forall|i: int| 0 <= i < escape_spec(s).len() implies #[trigger] escape_spec(s)[i]
            != '\n' by {
            assert(escape_spec(s) == ec + escape_spec(s.drop_first()));
            if i < ec.len() {
                assert(escape_spec(s)[i] == ec[i]);
            } else {
                assert(escape_spec(s)[i] == escape_spec(s.drop_first())[i - ec.len()]);
            }
        }
    }
}

/// Escaping distributes over appending one character at the end.
pub proof fn lemma_escape_push(s: Seq<char>, c: char)
    ensures
        escape_spec(s.push(c)) == escape_spec(s) + escape_char(c),
    decreases s.len(),
{
    if s.len() == 0 {
        assert(s.push(c)[0] == c);
        assert(s.push(c).drop_first() =~= Seq::<char>::empty());
        assert(escape_spec(s.push(c)) == escape_char(c) + escape_spec(Seq::<char>::empty()));
        assert(escape_char(c) + Seq::<char>::empty() =~= escape_char(c));
        assert(escape_spec(s) + escape_char(c) =~= escape_char(c));
    } else {
        assert(s.push(c)[0] == s[0]);
        assert(s.push(c).drop_first() =~= s.drop_first().push(c));
        lemma_escape_push(s.drop_first(), c);
        assert(escape_char(s[0]) + (escape_spec(s.drop_first()) + escape_char(c)) =~= (escape_char(
            s[0],
        ) + escape_spec(s.drop_first())) + escape_char(c));
    }
}

/// Unescaping undoes escaping.
pub proof fn lemma_unescape_escape(s: Seq<char>)
    ensures
        unescape_spec(escape_spec(s)) == Some(s),
    decreases s.len(),
{
    if s.len() == 0 {
        assert(escape_spec(s) =~= Seq::<char>::empty());
        assert(unescape_spec(escape_spec(s)) == Some(Seq::<char>::empty()));
        assert(Seq::<char>::empty() =~= s);
    } else {
        lemma_unescape_escape(s.drop_first());
        let e = escape_spec(s);
        let c = s[0];
        if c == '\\' || c == '\n' {
            assert(e[0] == '\\');
            assert(e.len() >= 2);
            assert(e[1] == (if c == '\\' { '\\' } else { 'n' }));
            assert(e.skip(2) =~= escape_spec(s.drop_first()));
            assert(unescape_spec(e) == Some(seq![c] + s.drop_first()));
        } else {
            assert(e[0] == c);
            assert(e[0] != '\\');
            assert(e.drop_first() =~= escape_spec(s.drop_first()));
            assert(unescape_spec(e) == Some(seq![c] + s.drop_first()));
        }
        assert(seq![c] + s.drop_first() =~= s);
    }
}

/// The escaped form of `v`.
pub fn escape_chars(v: &Vec<char>) -> (r: Vec<char>)
    ensures
        r@ == escape_spec(v@),
{
    let mut r: Vec<char> = Vec::new();
    let mut i: usize = 0;
    while i < v.len()
        invariant
            i <= v@.len(),
            r@ == escape_spec(v@.take(i as int)),
        decreases v@.len() - i,
    {
        let c = v[i];
        if c == '\\' {
            r.push('\\');
            r.push('\\');
        } else if c == '\n' {
            r.push('\\');
            r.push('n');
        } else {
            r.push(c);
        }
        proof {
            lemma_escape_push(v@.take(i as int), v@[i as int]);
            assert(v@.take(i as int).push(v@[i as int]) =~= v@.take(i + 1 as int));
            assert(r@ =~= escape_spec(v@.take(i as int)) + escape_char(v@[i as int]));
        }
        i = i + 1;
    }
    proof {
        assert(v@.take(v@.len() as int) =~= v@);
    }
    r
}

/// Joins an already-unescaped prefix with the rest still to unescape.
pub open spec fn unescape_join(pre: Seq<char>, rest: Option<Seq<char>>) -> Option<Seq<char>> {
    match rest {
        Some(t) => Some(pre + t),
        None => None,
    }
}

/// The unescaped form of `v`, or `None` when `v` is not the escaped
/// form of anything.
pub fn unescape_chars(v: &Vec<char>) -> (r: Option<Vec<char>>)
    ensures
        match r {
            Some(out) => unescape_spec(v@) == Some(out@),
            None => unescape_spec(v@) is None,
        },
{
    let mut out: Vec<char> = Vec::new();
    let mut i: usize = 0;
    let n = v.len();
    proof {
        assert(v@.skip(0) =~= v@);
        match unescape_spec(v@) {
            Some(t) => {
                assert(out@ + t =~= t);
            },
            None => {},
        }
    }
    while i < n
        invariant
            i <= n,
            n == v@.len(),
            unescape_spec(v@) == unescape_join(out@, unescape_spec(v@.skip(i as int))),
        decreases n - i,
    {
        let c = v[i];
        let ghost s = v@.skip(i as int);
        proof {
            assert(s[0] == v@[i as int]);
        }
        if c == '\\' {
            if i + 1 < n {
                let c2 = v[i + 1];
                proof {
                    assert(s[1] == v@[i + 1]);
                }
                if c2 == '\\' || c2 == 'n' {
                    let d = if c2 == '\\' {
                        '\\'
                    } else {
                        '\n'
                    };
                    proof {
                        assert(s.skip(2) =~= v@.skip(i + 2 as int));
                        assert(unescape_spec(s) == (match unescape_spec(v@.skip(i + 2 as int)) {
                            Some(t) => Some(seq![d] + t),
                            None => None::<Seq<char>>,
                        }));
                        match unescape_spec(v@.skip(i + 2 as int)) {
                            Some(t) => {
                                assert(out@ + (seq![d] + t) =~= out@.push(d) + t);
                            },
                            None => {},
                        }
                    }
                    out.push(d);
                    i = i + 2;
                } else {
                    proof {
                        assert(unescape_spec(s) is None);
                    }
                    return None;
                }
            } else {
                proof {
                    assert(s.len() == 1);
                    assert(unescape_spec(s) is None);
                }
                return None;
            }
        } else {
            proof {
                assert(s.drop_first() =~= v@.skip(i + 1 as int));
                assert(unescape_spec(s) == (match unescape_spec(v@.skip(i + 1 as int)) {
                    Some(t) => Some(seq![s[0]] + t),
                    None => None::<Seq<char>>,
                }));
                match unescape_spec(v@.skip(i + 1 as int)) {
                    Some(t) => {
                        assert(out@ + (seq![s[0]] + t) =~= out@.push(s[0]) + t);
                    },
                    None => {},
                }
            }
            out.push(c);
            i = i + 1;
        }
    }
    proof {
        assert(v@.skip(n as int) =~= Seq::<char>::empty());
        assert(unescape_spec(v@.skip(n as int)) == Some(Seq::<char>::empty()));
        assert(out@ + Seq::<char>::empty() =~= out@);
    }
    Some(out)
}

// ------------------------------------------------------------------
// Lines
// ------------------------------------------------------------------

/// Prepends `pre` onto the first line of `ls`.
pub open spec fn cons_first(pre: Seq<char>, ls: Seq<Seq<char>>) -> Seq<Seq<char>>
    recommends
        ls.len() >= 1,
{
    seq![pre + ls[0]] + ls.drop_first()
}

/// The lines of `s`, split on newline characters. Splitting the empty
/// sequence gives one empty line, and every newline separates two
/// lines, so the result is never empty.
pub open spec fn split_lines_spec(s: Seq<char>) -> Seq<Seq<char>>
    decreases s.len(),
{
    if s.len() == 0 {
        seq![Seq::<char>::empty()]
    } else if s[0] == '\n' {
        seq![Seq::<char>::empty()] + split_lines_spec(s.drop_first())
    } else {
        cons_first(seq![s[0]], split_lines_spec(s.drop_first()))
    }
}

/// The lines joined back with newline separators.
pub open spec fn join_lines_spec(ls: Seq<Seq<char>>) -> Seq<char>
    decreases ls.len(),
{
    if ls.len() == 0 {
        Seq::empty()
    } else if ls.len() == 1 {
        ls[0]
    } else {
        ls[0] + seq!['\n'] + join_lines_spec(ls.drop_first())
    }
}

/// A sequence has at least one line.
pub proof fn lemma_split_lines_len(s: Seq<char>)
    ensures
        split_lines_spec(s).len() >= 1,
    decreases s.len(),
{
    if s.len() > 0 {
        lemma_split_lines_len(s.drop_first());
    }
}

/// Splitting after a newline-free prefix keeps that prefix on the
/// first line.
pub proof fn lemma_split_prefix(x: Seq<char>, s: Seq<char>)
    requires
        forall|i: int| 0 <= i < x.len() ==> x[i] != '\n',
    ensures
        split_lines_spec(x + s) == cons_first(x, split_lines_spec(s)),
    decreases x.len(),
{
    lemma_split_lines_len(s);
    if x.len() == 0 {
        assert(x + s =~= s);
        let ls = split_lines_spec(s);
        assert(x + ls[0] =~= ls[0]);
        assert(cons_first(x, ls) =~= ls);
    } else {
        assert((x + s)[0] == x[0]);
        assert((x + s).len() > 0);
        assert((x + s).drop_first() =~= x.drop_first() + s);
        lemma_split_prefix(x.drop_first(), s);
        let inner = split_lines_spec(s);
        lemma_split_lines_len(x.drop_first() + s);
        assert(split_lines_spec(x + s) == cons_first(
            seq![x[0]],
            cons_first(x.drop_first(), inner),
        ));
        assert(seq![x[0]] + (x.drop_first() + inner[0]) =~= x + inner[0]);
        assert(cons_first(x.drop_first(), inner).drop_first() =~= inner.drop_first());
        assert(cons_first(seq![x[0]], cons_first(x.drop_first(), inner)) =~= cons_first(x, inner));
    }
}

/// Splitting undoes joining, for a nonempty list of newline-free
/// lines.
pub proof fn lemma_split_join(ls: Seq<Seq<char>>)
    requires
        ls.len() >= 1,
        forall|i: int, j: int| 0 <= i < ls.len() && 0 <= j < ls[i].len() ==> ls[i][j] != '\n',
    ensures
        split_lines_spec(join_lines_spec(ls)) == ls,
    decreases ls.len(),
{
    if ls.len() == 1 {
        assert(join_lines_spec(ls) == ls[0]);
        assert(ls[0] + Seq::<char>::empty() =~= ls[0]);
        lemma_split_prefix(ls[0], Seq::<char>::empty());
        assert(split_lines_spec(Seq::<char>::empty()) == seq![Seq::<char>::empty()]);
        assert(cons_first(ls[0], seq![Seq::<char>::empty()]) =~= ls);
        assert(split_lines_spec(ls[0] + Seq::<char>::empty()) == split_lines_spec(
            join_lines_spec(ls),
        ));
    } else {
        let rest = ls.drop_first();
        assert(forall|i: int, j: int|
            0 <= i < rest.len() && 0 <= j < rest[i].len() ==> rest[i][j] != '\n') by {
            assert(forall|i: int| 0 <= i < rest.len() ==> rest[i] == #[trigger] ls[i + 1]);
        }
        lemma_split_join(rest);
        let tail = seq!['\n'] + join_lines_spec(rest);
        assert(ls[0] + seq!['\n'] + join_lines_spec(rest) =~= ls[0] + tail);
        lemma_split_prefix(ls[0], tail);
        assert(tail[0] == '\n');
        assert(tail.drop_first() =~= join_lines_spec(rest));
        assert(split_lines_spec(tail) == seq![Seq::<char>::empty()] + rest);
        lemma_split_lines_len(tail);
        assert((seq![Seq::<char>::empty()] + rest)[0] =~= Seq::<char>::empty());
        assert(ls[0] + (seq![Seq::<char>::empty()] + rest)[0] =~= ls[0]);
        assert((seq![Seq::<char>::empty()] + rest).drop_first() =~= rest);
        assert(cons_first(ls[0], seq![Seq::<char>::empty()] + rest) =~= ls);
    }
}

/// Appends a copy of every character of `src` to `dst`.
pub fn push_all(dst: &mut Vec<char>, src: &Vec<char>)
    ensures
        final(dst)@ == old(dst)@ + src@,
{
    let mut j: usize = 0;
    while j < src.len()
        invariant
            j <= src@.len(),
            dst@ == old(dst)@ + src@.take(j as int),
        decreases src@.len() - j,
    {
        dst.push(src[j]);
        proof {
            assert(old(dst)@ + src@.take(j as int).push(src@[j as int]) =~= old(dst)@ + src@.take(
                j + 1 as int,
            ));
        }
        j = j + 1;
    }
    proof {
        assert(old(dst)@ + src@.take(src@.len() as int) =~= old(dst)@ + src@);
    }
}

/// The view of a list of lines: each line as its character sequence.
pub open spec fn lines_view(ls: Seq<Vec<char>>) -> Seq<Seq<char>> {
    ls.map_values(|l: Vec<char>| l@)
}

/// The lines of `v`, split on newline characters.
pub fn split_lines(v: &Vec<char>) -> (r: Vec<Vec<char>>)
    ensures
        lines_view(r@) == split_lines_spec(v@),
        r@.len() >= 1,
{
    let mut done: Vec<Vec<char>> = Vec::new();
    let mut cur: Vec<char> = Vec::new();
    let mut i: usize = 0;
    let n = v.len();
    proof {
        assert(v@.skip(0) =~= v@);
        lemma_split_lines_len(v@);
        assert(cur@ + split_lines_spec(v@)[0] =~= split_lines_spec(v@)[0]);
        assert(cons_first(cur@, split_lines_spec(v@)) =~= split_lines_spec(v@));
        assert(lines_view(done@) + cons_first(cur@, split_lines_spec(v@)) =~= split_lines_spec(
            v@,
        ));
    }
    while i < n
        invariant
            i <= n,
            n == v@.len(),
            split_lines_spec(v@) == lines_view(done@) + cons_first(
                cur@,
                split_lines_spec(v@.skip(i as int)),
            ),
        decreases n - i,
    {
        let c = v[i];
        let ghost s = v@.skip(i as int);
        let ghost rest = split_lines_spec(v@.skip(i + 1 as int));
        proof {
            assert(s[0] == v@[i as int]);
            assert(s.drop_first() =~= v@.skip(i + 1 as int));
            lemma_split_lines_len(v@.skip(i + 1 as int));
        }
        if c == '\n' {
            proof {
                assert(split_lines_spec(s) == seq![Seq::<char>::empty()] + rest);
                assert(cur@ + (seq![Seq::<char>::empty()] + rest)[0] =~= cur@);
                assert((seq![Seq::<char>::empty()] + rest).drop_first() =~= rest);
                assert(cons_first(cur@, seq![Seq::<char>::empty()] + rest) =~= seq![cur@] + rest);
                assert(lines_view(done@) + (seq![cur@] + rest) =~= lines_view(done@).push(cur@)
                    + rest);
            }
            let ghost dv = lines_view(done@);
            let ghost cv = cur@;
            let finished = cur;
            done.push(finished);
            cur = Vec::new();
            proof {
                assert(lines_view(done@) =~= dv.push(cv));
            }
        } else {
            proof {
                assert(split_lines_spec(s) == cons_first(seq![s[0]], rest));
                assert(cur@ + (seq![s[0]] + rest[0]) =~= cur@.push(s[0]) + rest[0]);
                assert(cons_first(seq![s[0]], rest).drop_first() =~= rest.drop_first());
                assert(cons_first(cur@, cons_first(seq![s[0]], rest)) =~= cons_first(
                    cur@.push(s[0]),
                    rest,
                ));
            }
            cur.push(c);
        }
        i = i + 1;
    }
    proof {
        assert(v@.skip(n as int) =~= Seq::<char>::empty());
        assert(split_lines_spec(v@.skip(n as int)) == seq![Seq::<char>::empty()]);
        assert(cur@ + Seq::<char>::empty() =~= cur@);
        assert(cons_first(cur@, seq![Seq::<char>::empty()]) =~= seq![cur@]);
    }
    let ghost dv = lines_view(done@);
    let ghost cv = cur@;
    let last = cur;
    done.push(last);
    proof {
        assert(lines_view(done@) =~= dv.push(cv));
        assert(dv.push(cv) =~= dv + seq![cv]);
        assert(lines_view(done@) =~= split_lines_spec(v@));
    }
    done
}

/// The lines joined back with newline separators.
pub proof fn lemma_join_push(ls: Seq<Seq<char>>, l: Seq<char>)
    ensures
        join_lines_spec(ls.push(l)) == if ls.len() == 0 {
            l
        } else {
            join_lines_spec(ls) + seq!['\n'] + l
        },
    decreases ls.len(),
{
    if ls.len() == 0 {
        assert(ls.push(l).len() == 1);
        assert(ls.push(l)[0] == l);
    } else {
        assert(ls.push(l).drop_first() =~= ls.drop_first().push(l));
        lemma_join_push(ls.drop_first(), l);
        if ls.len() == 1 {
            assert(join_lines_spec(ls.push(l)) == ls[0] + seq!['\n'] + l);
            assert(join_lines_spec(ls) == ls[0]);
        } else {
            assert(join_lines_spec(ls.push(l)) == ls[0] + seq!['\n'] + (join_lines_spec(
                ls.drop_first(),
            ) + seq!['\n'] + l));
            assert(ls[0] + seq!['\n'] + (join_lines_spec(ls.drop_first()) + seq!['\n'] + l) =~= (
            ls[0] + seq!['\n'] + join_lines_spec(ls.drop_first())) + seq!['\n'] + l);
        }
    }
}

/// Joins lines with newline separators.
pub fn join_lines(ls: &Vec<Vec<char>>) -> (r: Vec<char>)
    ensures
        r@ == join_lines_spec(lines_view(ls@)),
{
    let mut r: Vec<char> = Vec::new();
    let mut i: usize = 0;
    let n = ls.len();
    let ghost lv = lines_view(ls@);
    while i < n
        invariant
            i <= n,
            n == ls@.len(),
            lv == lines_view(ls@),
            lv.len() == n,
            r@ == join_lines_spec(lv.take(i as int)),
        decreases n - i,
    {
        if i > 0 {
            r.push('\n');
        }
        push_all(&mut r, &ls[i]);
        proof {
            assert(lv[i as int] == ls@[i as int]@);
            lemma_join_push(lv.take(i as int), lv[i as int]);
            assert(lv.take(i as int).push(lv[i as int]) =~= lv.take(i + 1 as int));
            if i > 0 {
                assert(r@ =~= join_lines_spec(lv.take(i as int)) + seq!['\n'] + lv[i as int]);
            } else {
                assert(lv.take(0int).len() == 0);
                assert(r@ =~= lv[0]);
            }
        }
        i = i + 1;
    }
    proof {
        assert(lv.take(n as int) =~= lv);
    }
    r
}


// ------------------------------------------------------------------
// Whitespace: trimming and tokenizing
// ------------------------------------------------------------------

/// The ASCII whitespace characters, as `split_ascii_whitespace` and
/// `trim` treat them.
pub open spec fn is_ascii_ws(c: char) -> bool {
    c == ' ' || c == '\t' || c == '\n' || c == '\r' || c == '\x0c'
}

/// `s` without its leading whitespace.
pub open spec fn drop_leading_ws(s: Seq<char>) -> Seq<char>
    decreases s.len(),
{
    if s.len() > 0 && is_ascii_ws(s[0]) {
        drop_leading_ws(s.drop_first())
    } else {
        s
    }
}

/// `s` without its trailing whitespace.
pub open spec fn drop_trailing_ws(s: Seq<char>) -> Seq<char>
    decreases s.len(),
{
    if s.len() > 0 && is_ascii_ws(s.last()) {
        drop_trailing_ws(s.drop_last())
    } else {
        s
    }
}

/// `s` without leading and trailing whitespace.
pub open spec fn trim_spec(s: Seq<char>) -> Seq<char> {
    drop_trailing_ws(drop_leading_ws(s))
}

/// `v` without leading and trailing whitespace.
pub fn trim_chars(v: &Vec<char>) -> (r: Vec<char>)
    ensures
        r@ == trim_spec(v@),
{
    let n = v.len();
    let mut a: usize = 0;
    proof {
        assert(v@.skip(0) =~= v@);
    }
    while a < n && is_ws_char(v[a])
        invariant
            a <= n,
            n == v@.len(),
            drop_leading_ws(v@) == drop_leading_ws(v@.skip(a as int)),
        decreases n - a,
    {
        proof {
            assert(v@.skip(a as int)[0] == v@[a as int]);
            assert(v@.skip(a as int).drop_first() =~= v@.skip(a + 1 as int));
        }
        a = a + 1;
    }
    proof {
        if a == n {
            assert(v@.skip(a as int) =~= Seq::<char>::empty());
        } else {
            assert(v@.skip(a as int)[0] == v@[a as int]);
        }
        assert(drop_leading_ws(v@) == v@.skip(a as int));
    }
    let ghost x = v@.skip(a as int);
    let mut b: usize = n;
    proof {
        assert(x.take(n - a) =~= x);
    }
    while b > a && is_ws_char(v[b - 1])
        invariant
            a <= b <= n,
            n == v@.len(),
            x == v@.skip(a as int),
            drop_trailing_ws(x) == drop_trailing_ws(x.take(b - a)),
        decreases b,
    {
        proof {
            assert(x.take(b - a).last() == v@[b - 1]);
            assert(x.take(b - a).drop_last() =~= x.take(b - 1 - a));
        }
        b = b - 1;
    }
    proof {
        if b == a {
            assert(x.take(0) =~= Seq::<char>::empty());
        } else {
            assert(x.take(b - a).last() == v@[b - 1]);
        }
        assert(drop_trailing_ws(x) == x.take(b - a));
    }
    let mut r: Vec<char> = Vec::new();
    let mut i: usize = a;
    while i < b
        invariant
            a <= i <= b <= n,
            n == v@.len(),
            r@ == v@.subrange(a as int, i as int),
        decreases b - i,
    {
        r.push(v[i]);
        proof {
            assert(v@.subrange(a as int, i as int).push(v@[i as int]) =~= v@.subrange(
                a as int,
                i + 1 as int,
            ));
        }
        i = i + 1;
    }
    proof {
        assert(r@ =~= x.take(b - a));
    }
    r
}

/// Whether `c` is ASCII whitespace.
pub fn is_ws_char(c: char) -> (r: bool)
    ensures
        r == is_ascii_ws(c),
{
    c == ' ' || c == '\t' || c == '\n' || c == '\r' || c == '\x0c'
}

/// The maximal whitespace-free words of `s`, in order.
pub open spec fn tokenize_spec(s: Seq<char>) -> Seq<Seq<char>>
    decreases s.len(), 1int,
{
    if s.len() == 0 {
        Seq::empty()
    } else if is_ascii_ws(s[0]) {
        tokenize_spec(s.drop_first())
    } else {
        let rest = tokenize_in_tok(s.drop_first());
        seq![seq![s[0]] + rest.0] + rest.1
    }
}

/// Continues a word already begun: the rest of the word, and the words
/// after it.
pub open spec fn tokenize_in_tok(s: Seq<char>) -> (Seq<char>, Seq<Seq<char>>)
    decreases s.len(), 0int,
{
    if s.len() == 0 {
        (Seq::empty(), Seq::empty())
    } else if is_ascii_ws(s[0]) {
        (Seq::empty(), tokenize_spec(s.drop_first()))
    } else {
        let rest = tokenize_in_tok(s.drop_first());
        (seq![s[0]] + rest.0, rest.1)
    }
}

/// The view of a list of strings: each as its character sequence.
pub open spec fn strs_view(ss: Seq<String>) -> Seq<Seq<char>> {
    ss.map_values(|x: String| x@)
}

/// Splits `line` into its whitespace-separated words.
pub fn tokenize(line: &str) -> (r: Vec<String>)
    ensures
        strs_view(r@) == tokenize_spec(line@),
{
    let v = str_to_chars(line);
    let ghost s = v@;
    let n = v.len();
    let mut done: Vec<String> = Vec::new();
    let mut cur: Vec<char> = Vec::new();
    let mut i: usize = 0;
    proof {
        assert(s.skip(0) =~= s);
        assert(strs_view(done@) + tokenize_spec(s) =~= tokenize_spec(s));
    }
    while i < n
        invariant
            i <= n,
            n == s.len(),
            s == line@,
            v@ == s,
            cur@.len() == 0 ==> tokenize_spec(s) == strs_view(done@) + tokenize_spec(
                s.skip(i as int),
            ),
            cur@.len() > 0 ==> tokenize_spec(s) == strs_view(done@) + (seq![cur@ + tokenize_in_tok(
                s.skip(i as int),
            ).0] + tokenize_in_tok(s.skip(i as int)).1),
        decreases n - i,
    {
        let c = v[i];
        proof {
            assert(s.skip(i as int)[0] == s[i as int]);
            assert(s.skip(i as int).drop_first() =~= s.skip(i + 1 as int));
        }
        if cur.len() == 0 {
            if is_ws_char(c) {
                // Still between words.
            } else {
                proof {
                    let rest = tokenize_in_tok(s.skip(i + 1 as int));
                    assert(tokenize_spec(s.skip(i as int)) == seq![seq![s[i as int]] + rest.0]
                        + rest.1);
                    assert(cur@.push(c) + rest.0 =~= seq![s[i as int]] + rest.0);
                }
                cur.push(c);
            }
        } else {
            if is_ws_char(c) {
                proof {
                    let rest = tokenize_in_tok(s.skip(i as int));
                    assert(rest.0 =~= Seq::<char>::empty());
                    assert(cur@ + rest.0 =~= cur@);
                    let ghost dv = strs_view(done@);
                    assert(dv + (seq![cur@] + tokenize_spec(s.skip(i + 1 as int))) =~= dv.push(
                        cur@,
                    ) + tokenize_spec(s.skip(i + 1 as int)));
                }
                let ghost dv = strs_view(done@);
                let ghost cv = cur@;
                let word = chars_to_string(&cur);
                done.push(word);
                cur = Vec::new();
                proof {
                    assert(strs_view(done@) =~= dv.push(cv));
                }
            } else {
                proof {
                    let rest = tokenize_in_tok(s.skip(i + 1 as int));
                    assert(tokenize_in_tok(s.skip(i as int)).0 == seq![s[i as int]] + rest.0);
                    assert(tokenize_in_tok(s.skip(i as int)).1 == rest.1);
                    assert(cur@ + (seq![s[i as int]] + rest.0) =~= cur@.push(c) + rest.0);
                }
                cur.push(c);
            }
        }
        i = i + 1;
    }
    proof {
        assert(s.skip(n as int) =~= Seq::<char>::empty());
    }
    if cur.len() > 0 {
        proof {
            assert(tokenize_in_tok(s.skip(n as int)).0 =~= Seq::<char>::empty());
            assert(tokenize_in_tok(s.skip(n as int)).1 =~= Seq::<Seq<char>>::empty());
            assert(cur@ + Seq::<char>::empty() =~= cur@);
            let ghost dv = strs_view(done@);
            assert(dv + (seq![cur@] + Seq::<Seq<char>>::empty()) =~= dv.push(cur@));
        }
        let ghost dv = strs_view(done@);
        let ghost cv = cur@;
        let word = chars_to_string(&cur);
        done.push(word);
        proof {
            assert(strs_view(done@) =~= dv.push(cv));
        }
    } else {
        proof {
            assert(tokenize_spec(s.skip(n as int)) =~= Seq::<Seq<char>>::empty());
            assert(strs_view(done@) + Seq::<Seq<char>>::empty() =~= strs_view(done@));
        }
    }
    done
}


/// Whether `v` holds the same characters as `s`.
pub fn chars_eq_str(v: &Vec<char>, s: &str) -> (r: bool)
    ensures
        r == (v@ == s@),
{
    let n = s.unicode_len();
    if v.len() != n {
        return false;
    }
    let mut i: usize = 0;
    while i < n
        invariant
            i <= n,
            n == s@.len(),
            n == v@.len(),
            forall|j: int| 0 <= j < i ==> v@[j] == s@[j],
        decreases n - i,
    {
        if v[i] != s.get_char(i) {
            return false;
        }
        i = i + 1;
    }
    proof {
        assert(v@ =~= s@);
    }
    true
}

/// The index of the first occurrence of `c` in `s`, or -1.
pub open spec fn find_char(s: Seq<char>, c: char) -> int
    decreases s.len(),
{
    if s.len() == 0 {
        -1
    } else if s[0] == c {
        0
    } else {
        let r = find_char(s.drop_first(), c);
        if r == -1 {
            -1
        } else {
            r + 1
        }
    }
}

/// Characterizes `find_char` by what stands left of the found index.
pub proof fn lemma_find_char_at(s: Seq<char>, c: char, i: int)
    requires
        0 <= i <= s.len(),
        forall|j: int| 0 <= j < i ==> s[j] != c,
        i < s.len() ==> s[i] == c,
    ensures
        find_char(s, c) == if i == s.len() {
            -1int
        } else {
            i
        },
    decreases i,
{
    if s.len() == 0 {
    } else if i == 0 {
    } else {
        assert(s[0] != c);
        let t = s.drop_first();
        assert(forall|j: int| 0 <= j < i - 1 ==> t[j] == #[trigger] s[j + 1]);
        assert(i - 1 < t.len() ==> t[i - 1] == s[i]);
        lemma_find_char_at(t, c, i - 1);
    }
}

/// The index of the first `c` in `v`, when there is one.
pub fn find_char_in(v: &Vec<char>, c: char) -> (r: Option<usize>)
    ensures
        match r {
            Some(i) => find_char(v@, c) == i as int && i < v@.len(),
            None => find_char(v@, c) == -1,
        },
{
    let mut i: usize = 0;
    let n = v.len();
    while i < n
        invariant
            i <= n,
            n == v@.len(),
            forall|j: int| 0 <= j < i ==> v@[j] != c,
        decreases n - i,
    {
        if v[i] == c {
            proof {
                lemma_find_char_at(v@, c, i as int);
            }
            return Some(i);
        }
        i = i + 1;
    }
    proof {
        lemma_find_char_at(v@, c, n as int);
    }
    None
}


/// Words joined with single spaces.
pub open spec fn join_words_spec(ws: Seq<Seq<char>>) -> Seq<char>
    decreases ws.len(),
{
    if ws.len() == 0 {
        Seq::empty()
    } else if ws.len() == 1 {
        ws[0]
    } else {
        ws[0] + seq![' '] + join_words_spec(ws.drop_first())
    }
}

/// Joining distributes over appending one word.
pub proof fn lemma_join_words_push(ws: Seq<Seq<char>>, w: Seq<char>)
    ensures
        join_words_spec(ws.push(w)) == if ws.len() == 0 {
            w
        } else {
            join_words_spec(ws) + seq![' '] + w
        },
    decreases ws.len(),
{
    if ws.len() == 0 {
        assert(ws.push(w).len() == 1);
        assert(ws.push(w)[0] == w);
    } else {
        assert(ws.push(w)[0] == ws[0]);
        assert(ws.push(w).drop_first() =~= ws.drop_first().push(w));
        lemma_join_words_push(ws.drop_first(), w);
        if ws.len() == 1 {
            assert(join_words_spec(ws.push(w)) == ws[0] + seq![' '] + w);
            assert(join_words_spec(ws) == ws[0]);
        } else {
            assert(join_words_spec(ws.push(w)) == ws[0] + seq![' '] + (join_words_spec(
                ws.drop_first(),
            ) + seq![' '] + w));
            assert(ws[0] + seq![' '] + (join_words_spec(ws.drop_first()) + seq![' '] + w) =~= (
            ws[0] + seq![' '] + join_words_spec(ws.drop_first())) + seq![' '] + w);
        }
    }
}

/// Joins the words from index `from` on with single spaces.
pub fn join_words(words: &Vec<String>, from: usize) -> (r: String)
    requires
        from <= words@.len(),
    ensures
        r@ == join_words_spec(strs_view(words@).skip(from as int)),
{
    let ghost ws = strs_view(words@).skip(from as int);
    let mut out: Vec<char> = Vec::new();
    let mut i: usize = from;
    let n = words.len();
    proof {
        assert(ws.take(0) =~= Seq::<Seq<char>>::empty());
    }
    while i < n
        invariant
            from <= i <= n,
            n == words@.len(),
            ws == strs_view(words@).skip(from as int),
            out@ == join_words_spec(ws.take(i - from)),
        decreases n - i,
    {
        let ghost lv = out@;
        if i > from {
            out.push(' ');
        }
        let wchars = str_to_chars(words[i].as_str());
        push_all(&mut out, &wchars);
        proof {
            assert(ws[i - from] == words@[i as int]@);
            lemma_join_words_push(ws.take(i - from), ws[i - from]);
            assert(ws.take(i - from).push(ws[i - from]) =~= ws.take(i - from + 1));
            if i > from {
                assert(out@ =~= join_words_spec(ws.take(i - from)) + seq![' '] + ws[i - from]);
            } else {
                assert(out@ =~= ws[0]);
            }
        }
        i = i + 1;
    }
    proof {
        assert(ws.take(n - from) =~= ws);
    }
    chars_to_string(&out)
}

} // verus!
