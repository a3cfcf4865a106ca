//! Character-level text helpers shared by the parsers of the launcher.
//!
//! Strings are handled as sequences of `char`: `&str` and `String` are viewed
//! as `Seq<char>` by vstd, and the parsers work on a `Vec<char>` copy of their
//! input so that every step can be stated over that view.
use vstd::prelude::*;
use vstd::string::StringExecFns;

verus! {

broadcast use vstd::string::group_string_axioms;

/// The Unicode `White_Space` property, which `char::is_whitespace` tests:
/// U+0009..=U+000D, U+0020, U+0085, U+00A0, U+1680, U+2000..=U+200A, U+2028,
/// U+2029, U+202F, U+205F and U+3000.
pub open spec fn is_whitespace_char(c: char) -> bool {
    let u = c as u32;
    ||| (0x09 <= u && u <= 0x0D)
    ||| u == 0x20
    ||| u == 0x85
    ||| u == 0xA0
    ||| u == 0x1680
    ||| (0x2000 <= u && u <= 0x200A)
    ||| u == 0x2028
    ||| u == 0x2029
    ||| u == 0x202F
    ||| u == 0x205F
    ||| u == 0x3000
}

/// What `char::is_alphanumeric` answers for `c` (Unicode `Alphabetic` or numeric).
pub uninterp spec fn is_alphanumeric_char(c: char) -> bool;

/// What `str::to_lowercase` returns for a string with the given characters.
pub uninterp spec fn lowercase_text(s: Seq<char>) -> Seq<char>;

/// What `String::from_utf8_lossy` returns for the given bytes.
pub uninterp spec fn utf8_lossy_text(bytes: Seq<u8>) -> Seq<char>;

/// The ASCII letters and digits.
pub open spec fn is_ascii_alnum(c: char) -> bool {
    ('a' <= c && c <= 'z') || ('A' <= c && c <= 'Z') || ('0' <= c && c <= '9')
}

/// ASCII lower-casing of one character.
pub open spec fn ascii_lower(c: char) -> char {
    if 'A' <= c && c <= 'Z' {
        ((c as u32) + 32) as char
    } else {
        c
    }
}

/// Whether `c` is whitespace, as `char::is_whitespace` decides it.
pub fn char_is_whitespace(c: char) -> (r: bool)
    ensures
        r == is_whitespace_char(c),
{
    let u = c as u32;
    (0x09 <= u && u <= 0x0D) || u == 0x20 || u == 0x85 || u == 0xA0 || u == 0x1680 || (0x2000
        <= u && u <= 0x200A) || u == 0x2028 || u == 0x2029 || u == 0x202F || u == 0x205F || u
        == 0x3000
}

/// Calls `char::is_alphanumeric`. Its contract names the result and states the
/// answer on ASCII characters: exactly the letters and the digits.
#[verifier::external_body]
pub fn char_is_alphanumeric(c: char) -> (r: bool)
    ensures
        r == is_alphanumeric_char(c),
        (c as u32) < 128 ==> (r <==> is_ascii_alnum(c)),
{
    c.is_alphanumeric()
}

/// Calls `str::to_lowercase`. Its contract names the result and states that an
/// all-ASCII string is lower-cased character by character.
#[verifier::external_body]
pub fn str_to_lowercase(s: &str) -> (r: String)
    ensures
        r@ == lowercase_text(s@),
        (forall|i: int| 0 <= i < s@.len() ==> (#[trigger] s@[i] as u32) < 128) ==> r@
            == s@.map_values(|c: char| ascii_lower(c)),
{
    s.to_lowercase()
}

/// Calls `String::from_utf8_lossy` and takes the owned text. Its contract names
/// the result and states that valid UTF-8 is decoded without replacement.
#[verifier::external_body]
pub fn bytes_to_string_lossy(bytes: &[u8]) -> (r: String)
    ensures
        r@ == utf8_lossy_text(bytes@),
        vstd::utf8::valid_utf8(bytes@) ==> r@ == vstd::utf8::decode_utf8(bytes@),
{
    String::from_utf8_lossy(bytes).into_owned()
}

/// Calls `String::push`, which appends one character.
#[verifier::external_body]
pub fn push_char(s: &mut String, c: char)
    ensures
        final(s)@ == old(s)@.push(c),
{
    s.push(c);
}

/// The characters of `s`, in order.
pub fn chars_of(s: &str) -> (v: Vec<char>)
    ensures
        v@ == s@,
{
    let mut v: Vec<char> = Vec::new();
    for c in it: s.chars()
        invariant
            v@ == it.seq().take(it.index() as int),
    {
        v.push(c);
    }
    v
}

/// A `String` holding `v[lo..hi]`.
pub fn string_of_range(v: &Vec<char>, lo: usize, hi: usize) -> (s: String)
    requires
        lo <= hi <= v@.len(),
    ensures
        s@ == v@.subrange(lo as int, hi as int),
{
    let mut s = String::new();
    let mut i = lo;
    while i < hi
        invariant
            lo <= i <= hi <= v@.len(),
            s@ == v@.subrange(lo as int, i as int),
        decreases hi - i,
    {
        push_char(&mut s, v[i]);
        assert(v@.subrange(lo as int, (i + 1) as int) == v@.subrange(lo as int, i as int).push(
            v@[i as int],
        ));
        i = i + 1;
    }
    s
}

/// Whether `v[lo..hi]` holds exactly the characters of `lit`.
pub fn range_eq_str(v: &Vec<char>, lo: usize, hi: usize, lit: &str) -> (r: bool)
    requires
        lo <= hi <= v@.len(),
    ensures
        r == (v@.subrange(lo as int, hi as int) == lit@),
{
    let n = lit.unicode_len();
    if hi - lo != n {
        return false;
    }
    let mut i: usize = 0;
    while i < n
        invariant
            n == lit@.len(),
            hi - lo == n,
            lo <= hi <= v@.len(),
            i <= n,
            forall|j: int| 0 <= j < i ==> v@[lo + j] == lit@[j],
        decreases n - i,
    {
        if v[lo + i] != lit.get_char(i) {
            assert(v@.subrange(lo as int, hi as int)[i as int] != lit@[i as int]);
            return false;
        }
        i = i + 1;
    }
    assert(v@.subrange(lo as int, hi as int) =~= lit@);
    true
}

/// `s` without its leading whitespace.
pub open spec fn trim_start_seq(s: Seq<char>) -> Seq<char>
    decreases s.len(),
{
    if s.len() > 0 && is_whitespace_char(s[0]) {
        trim_start_seq(s.drop_first())
    } else {
        s
    }
}

/// `s` without its trailing whitespace.
pub open spec fn trim_end_seq(s: Seq<char>) -> Seq<char>
    decreases s.len(),
{
    if s.len() > 0 && is_whitespace_char(s.last()) {
        trim_end_seq(s.drop_last())
    } else {
        s
    }
}

/// `s` without leading and trailing whitespace, as `str::trim` gives it.
pub open spec fn trim_seq(s: Seq<char>) -> Seq<char> {
    trim_end_seq(trim_start_seq(s))
}

/// `s` without its trailing copies of `c`, as `str::trim_end_matches(c)` gives it.
pub open spec fn trim_end_char_seq(s: Seq<char>, c: char) -> Seq<char>
    decreases s.len(),
{
    if s.len() > 0 && s.last() == c {
        trim_end_char_seq(s.drop_last(), c)
    } else {
        s
    }
}

proof fn lemma_trim_start_step(v: Seq<char>, lo: int, hi: int)
    requires
        0 <= lo < hi <= v.len(),
        is_whitespace_char(v[lo]),
    ensures
        trim_start_seq(v.subrange(lo, hi)) == trim_start_seq(v.subrange(lo + 1, hi)),
{
    assert(v.subrange(lo, hi).drop_first() =~= v.subrange(lo + 1, hi));
}

proof fn lemma_trim_end_step(v: Seq<char>, lo: int, hi: int)
    requires
        0 <= lo < hi <= v.len(),
        is_whitespace_char(v[hi - 1]),
    ensures
        trim_end_seq(v.subrange(lo, hi)) == trim_end_seq(v.subrange(lo, hi - 1)),
{
    assert(v.subrange(lo, hi).drop_last() =~= v.subrange(lo, hi - 1));
}

/// The bounds of `v[lo..hi]` once leading and trailing whitespace is removed.
pub fn trim_bounds(v: &Vec<char>, lo: usize, hi: usize) -> (r: (usize, usize))
    requires
        lo <= hi <= v@.len(),
    ensures
        lo <= r.0 <= r.1 <= hi,
        v@.subrange(r.0 as int, r.1 as int) == trim_seq(v@.subrange(lo as int, hi as int)),
{
    let mut a = lo;
    while a < hi && char_is_whitespace(v[a])
        invariant
            lo <= a <= hi <= v@.len(),
            trim_start_seq(v@.subrange(lo as int, hi as int)) == trim_start_seq(
                v@.subrange(a as int, hi as int),
            ),
        decreases hi - a,
    {
        proof {
            lemma_trim_start_step(v@, a as int, hi as int);
        }
        a = a + 1;
    }
    assert(trim_start_seq(v@.subrange(a as int, hi as int)) == v@.subrange(a as int, hi as int));
    let mut b = hi;
    while b > a && char_is_whitespace(v[b - 1])
        invariant
            lo <= a <= b <= hi <= v@.len(),
            trim_end_seq(v@.subrange(a as int, hi as int)) == trim_end_seq(
                v@.subrange(a as int, b as int),
            ),
        decreases b - a,
    {
        proof {
            lemma_trim_end_step(v@, a as int, b as int);
        }
        b = b - 1;
    }
    assert(trim_end_seq(v@.subrange(a as int, b as int)) == v@.subrange(a as int, b as int));
    (a, b)
}

/// `i` is the first position of `x` in `s`.
pub open spec fn is_first_index<T>(s: Seq<T>, x: T, i: int) -> bool {
    &&& 0 <= i < s.len()
    &&& s[i] == x
    &&& forall|j: int| 0 <= j < i ==> s[j] != x
}

/// `i` is the last position of `x` in `s`.
pub open spec fn is_last_index<T>(s: Seq<T>, x: T, i: int) -> bool {
    &&& 0 <= i < s.len()
    &&& s[i] == x
    &&& forall|j: int| i < j < s.len() ==> s[j] != x
}

/// The first position of `x` in `s`, if `x` occurs there.
pub open spec fn first_index<T>(s: Seq<T>, x: T) -> Option<int> {
    if exists|i: int| is_first_index(s, x, i) {
        Some(choose|i: int| is_first_index(s, x, i))
    } else {
        None
    }
}

/// The last position of `x` in `s`, if `x` occurs there.
pub open spec fn last_index<T>(s: Seq<T>, x: T) -> Option<int> {
    if exists|i: int| is_last_index(s, x, i) {
        Some(choose|i: int| is_last_index(s, x, i))
    } else {
        None
    }
}

/// `s` cut at the first `x`, as `str::split_once` gives it.
pub open spec fn split_once_seq<T>(s: Seq<T>, x: T) -> Option<(Seq<T>, Seq<T>)> {
    match first_index(s, x) {
        Some(i) => Some((s.subrange(0, i), s.subrange(i + 1, s.len() as int))),
        None => None,
    }
}

/// `s` cut at the last `x`, as `str::rsplit_once` gives it.
pub open spec fn rsplit_once_seq<T>(s: Seq<T>, x: T) -> Option<(Seq<T>, Seq<T>)> {
    match last_index(s, x) {
        Some(i) => Some((s.subrange(0, i), s.subrange(i + 1, s.len() as int))),
        None => None,
    }
}

pub proof fn lemma_first_index_unique<T>(s: Seq<T>, x: T, i: int)
    requires
        is_first_index(s, x, i),
    ensures
        first_index(s, x) == Some(i),
{
    let k = choose|k: int| is_first_index(s, x, k);
    assert(is_first_index(s, x, k));
    if k < i {
        assert(s[k] != x);
    }
    if i < k {
        assert(s[i] != x);
    }
}

pub proof fn lemma_last_index_unique<T>(s: Seq<T>, x: T, i: int)
    requires
        is_last_index(s, x, i),
    ensures
        last_index(s, x) == Some(i),
{
    let k = choose|k: int| is_last_index(s, x, k);
    assert(is_last_index(s, x, k));
    if k < i {
        assert(s[i] != x);
    }
    if i < k {
        assert(s[k] != x);
    }
}

pub proof fn lemma_first_index_none<T>(s: Seq<T>, x: T)
    requires
        forall|j: int| 0 <= j < s.len() ==> s[j] != x,
    ensures
        first_index(s, x) is None,
{
}

pub proof fn lemma_last_index_none<T>(s: Seq<T>, x: T)
    requires
        forall|j: int| 0 <= j < s.len() ==> s[j] != x,
    ensures
        last_index(s, x) is None,
{
}

/// The first position of `c` in `v[lo..hi]`, counted from `lo`.
pub fn find_first_char(v: &Vec<char>, lo: usize, hi: usize, c: char) -> (r: Option<usize>)
    requires
        lo <= hi <= v@.len(),
    ensures
        match r {
            Some(i) => lo <= i < hi && is_first_index(
                v@.subrange(lo as int, hi as int),
                c,
                i - lo,
            ) && first_index(v@.subrange(lo as int, hi as int), c) == Some(i - lo),
            None => first_index(v@.subrange(lo as int, hi as int), c) is None && forall|j: int|
                lo <= j < hi ==> v@[j] != c,
        },
{
    let mut i = lo;
    while i < hi
        invariant
            lo <= i <= hi <= v@.len(),
            forall|j: int| lo <= j < i ==> v@[j] != c,
        decreases hi - i,
    {
        if v[i] == c {
            proof {
                let s = v@.subrange(lo as int, hi as int);
                assert(is_first_index(s, c, i - lo));
                lemma_first_index_unique(s, c, i - lo);
            }
            return Some(i);
        }
        i = i + 1;
    }
    proof {
        let s = v@.subrange(lo as int, hi as int);
        assert forall|j: int| 0 <= j < s.len() implies s[j] != c by {
            assert(s[j] == v@[lo + j]);
        }
        lemma_first_index_none(s, c);
    }
    None
}

/// The last position of `c` in `v[lo..hi]`, counted from `lo`.
pub fn find_last_char(v: &Vec<char>, lo: usize, hi: usize, c: char) -> (r: Option<usize>)
    requires
        lo <= hi <= v@.len(),
    ensures
        match r {
            Some(i) => lo <= i < hi && last_index(v@.subrange(lo as int, hi as int), c) == Some(
                i - lo,
            ),
            None => last_index(v@.subrange(lo as int, hi as int), c) is None,
        },
{
    let mut i = hi;
    while i > lo
        invariant
            lo <= i <= hi <= v@.len(),
            forall|j: int| i <= j < hi ==> v@[j] != c,
        decreases i - lo,
    {
        if v[i - 1] == c {
            proof {
                let s = v@.subrange(lo as int, hi as int);
                assert(is_last_index(s, c, i - 1 - lo));
                lemma_last_index_unique(s, c, i - 1 - lo);
            }
            return Some(i - 1);
        }
        i = i - 1;
    }
    proof {
        let s = v@.subrange(lo as int, hi as int);
        assert forall|j: int| 0 <= j < s.len() implies s[j] != c by {
            assert(s[j] == v@[lo + j]);
        }
        lemma_last_index_none(s, c);
    }
    None
}

/// Appends `v[lo..hi]` to `s`.
pub fn append_range(s: &mut String, v: &Vec<char>, lo: usize, hi: usize)
    requires
        lo <= hi <= v@.len(),
    ensures
        final(s)@ == old(s)@ + v@.subrange(lo as int, hi as int),
{
    let mut i = lo;
    while i < hi
        invariant
            lo <= i <= hi <= v@.len(),
            s@ == old(s)@ + v@.subrange(lo as int, i as int),
        decreases hi - i,
    {
        push_char(s, v[i]);
        assert(v@.subrange(lo as int, (i + 1) as int) == v@.subrange(lo as int, i as int).push(
            v@[i as int],
        ));
        assert(old(s)@ + v@.subrange(lo as int, (i + 1) as int) =~= (old(s)@ + v@.subrange(
            lo as int,
            i as int,
        )).push(v@[i as int]));
        i = i + 1;
    }
}

/// Whether `c` is one of the ASCII digits.
pub open spec fn is_digit(c: char) -> bool {
    '0' <= c && c <= '9'
}

/// The value of an ASCII digit.
pub open spec fn digit_value(c: char) -> nat {
    ((c as u32) - ('0' as u32)) as nat
}

/// The ASCII digit of a value below ten.
pub open spec fn digit_char(d: nat) -> char {
    if d == 0 {
        '0'
    } else if d == 1 {
        '1'
    } else if d == 2 {
        '2'
    } else if d == 3 {
        '3'
    } else if d == 4 {
        '4'
    } else if d == 5 {
        '5'
    } else if d == 6 {
        '6'
    } else if d == 7 {
        '7'
    } else if d == 8 {
        '8'
    } else {
        '9'
    }
}

/// Every character of `s` is an ASCII digit.
pub open spec fn all_digits(s: Seq<char>) -> bool {
    forall|i: int| 0 <= i < s.len() ==> is_digit(#[trigger] s[i])
}

/// The number that the decimal digits `s` spell.
pub open spec fn digits_value(s: Seq<char>) -> nat
    decreases s.len(),
{
    if s.len() == 0 {
        0
    } else {
        digits_value(s.drop_last()) * 10 + digit_value(s.last())
    }
}

/// What `str::parse::<usize>` gives for `s`: an optional `+`, then one or more
/// decimal digits whose value fits in a `usize`.
pub open spec fn usize_parse(s: Seq<char>) -> Option<usize> {
    let d = if s.len() > 0 && s[0] == '+' {
        s.drop_first()
    } else {
        s
    };
    if d.len() > 0 && all_digits(d) && digits_value(d) <= usize::MAX {
        Some(digits_value(d) as usize)
    } else {
        None
    }
}

/// The decimal text of `n`, as `{}` formats an unsigned integer.
pub open spec fn decimal_text(n: nat) -> Seq<char>
    decreases n,
{
    if n < 10 {
        seq![digit_char(n)]
    } else {
        decimal_text(n / 10).push(digit_char(n % 10))
    }
}

pub proof fn lemma_digit_char(d: nat)
    requires
        d < 10,
    ensures
        is_digit(digit_char(d)),
        digit_value(digit_char(d)) == d,
        !is_whitespace_char(digit_char(d)),
        digit_char(d) != ')',
        digit_char(d) != '+',
{
}

pub proof fn lemma_decimal_text(n: nat)
    ensures
        decimal_text(n).len() >= 1,
        all_digits(decimal_text(n)),
        digits_value(decimal_text(n)) == n,
        decimal_text(n)[0] != '+',
        !is_whitespace_char(decimal_text(n)[0]),
        !is_whitespace_char(decimal_text(n).last()),
        decimal_text(n).last() != ')',
    decreases n,
{
    if n < 10 {
        lemma_digit_char(n);
        assert(decimal_text(n).drop_last() =~= Seq::<char>::empty());
        assert(digits_value(Seq::<char>::empty()) == 0);
    } else {
        lemma_decimal_text(n / 10);
        lemma_digit_char(n % 10);
        let t = decimal_text(n / 10);
        assert(decimal_text(n).drop_last() =~= t);
        assert(digits_value(decimal_text(n)) == digits_value(t) * 10 + (n % 10));
        assert(n == (n / 10) * 10 + n % 10);
        assert forall|i: int| 0 <= i < decimal_text(n).len() implies is_digit(
            #[trigger] decimal_text(n)[i],
        ) by {
            if i < t.len() {
                assert(decimal_text(n)[i] == t[i]);
            }
        }
    }
}

/// Appends the decimal text of `n` to `s`.
pub fn push_decimal(s: &mut String, n: usize)
    ensures
        final(s)@ == old(s)@ + decimal_text(n as nat),
    decreases n,
{
    if n >= 10 {
        push_decimal(s, n / 10);
    }
    let d = n % 10;
    let c = if d == 0 {
        '0'
    } else if d == 1 {
        '1'
    } else if d == 2 {
        '2'
    } else if d == 3 {
        '3'
    } else if d == 4 {
        '4'
    } else if d == 5 {
        '5'
    } else if d == 6 {
        '6'
    } else if d == 7 {
        '7'
    } else if d == 8 {
        '8'
    } else {
        '9'
    };
    push_char(s, c);
    assert(c == digit_char(d as nat));
    if n >= 10 {
        assert(old(s)@ + decimal_text(n as nat) =~= (old(s)@ + decimal_text((n / 10) as nat)).push(
            c,
        ));
    } else {
        assert(old(s)@ + decimal_text(n as nat) =~= old(s)@.push(c));
    }
}

proof fn lemma_digits_value_monotonic(s: Seq<char>, k: int)
    requires
        0 <= k <= s.len(),
        all_digits(s),
    ensures
        digits_value(s.subrange(0, k)) <= digits_value(s),
    decreases s.len() - k,
{
    if k < s.len() {
        lemma_digits_value_monotonic(s, k + 1);
        assert(s.subrange(0, k + 1).drop_last() =~= s.subrange(0, k));
        assert(digits_value(s.subrange(0, k + 1)) == digits_value(s.subrange(0, k)) * 10
            + digit_value(s.subrange(0, k + 1).last()));
    } else {
        assert(s.subrange(0, k) =~= s);
    }
}

/// `str::parse::<usize>` on `v[lo..hi]`, written out: an optional `+`, then
/// decimal digits, refused when empty, when another character occurs or when
/// the value does not fit.
pub fn parse_usize_range(v: &Vec<char>, lo: usize, hi: usize) -> (r: Option<usize>)
    requires
        lo <= hi <= v@.len(),
    ensures
        r == usize_parse(v@.subrange(lo as int, hi as int)),
{
    let ghost s = v@.subrange(lo as int, hi as int);
    let mut i = lo;
    if i < hi && v[i] == '+' {
        i = i + 1;
    }
    let ghost d = v@.subrange(i as int, hi as int);
    proof {
        if lo < hi && v@[lo as int] == '+' {
            assert(s.drop_first() =~= d);
        } else {
            assert(s =~= d);
        }
    }
    assert(usize_parse(s) == (if d.len() > 0 && all_digits(d) && digits_value(d) <= usize::MAX {
        Some(digits_value(d) as usize)
    } else {
        None
    }));
    if i == hi {
        return None;
    }
    let start = i;
    let mut acc: usize = 0;
    while i < hi
        invariant
            lo <= start <= i <= hi <= v@.len(),
            d == v@.subrange(start as int, hi as int),
            usize_parse(v@.subrange(lo as int, hi as int)) == (if d.len() > 0 && all_digits(d)
                && digits_value(d) <= usize::MAX {
                Some(digits_value(d) as usize)
            } else {
                None
            }),
            all_digits(v@.subrange(start as int, i as int)),
            acc as nat == digits_value(v@.subrange(start as int, i as int)),
        decreases hi - i,
    {
        let c = v[i];
        assert(v@.subrange(start as int, (i + 1) as int).drop_last() =~= v@.subrange(
            start as int,
            i as int,
        ));
        if !('0' <= c && c <= '9') {
            assert(d[i - start] == c);
            assert(!all_digits(d));
            return None;
        }
        let dv = (c as u32 - '0' as u32) as usize;
        match acc.checked_mul(10) {
            Some(m) => match m.checked_add(dv) {
                Some(n) => {
                    acc = n;
                },
                None => {
                    proof {
                        if all_digits(d) {
                            lemma_digits_value_monotonic(d, i + 1 - start);
                            assert(d.subrange(0, i + 1 - start) =~= v@.subrange(
                                start as int,
                                (i + 1) as int,
                            ));
                        }
                    }
                    return None;
                },
            },
            None => {
                proof {
                    if all_digits(d) {
                        lemma_digits_value_monotonic(d, i + 1 - start);
                        assert(d.subrange(0, i + 1 - start) =~= v@.subrange(
                            start as int,
                            (i + 1) as int,
                        ));
                    }
                }
                return None;
            },
        }
        assert forall|j: int| 0 <= j < i + 1 - start implies is_digit(
            #[trigger] v@.subrange(start as int, (i + 1) as int)[j],
        ) by {
            if j < i - start {
                assert(v@.subrange(start as int, (i + 1) as int)[j] == v@.subrange(
                    start as int,
                    i as int,
                )[j]);
            }
        }
        i = i + 1;
    }
    assert(v@.subrange(start as int, i as int) =~= d);
    Some(acc)
}

/// The pieces of `v` that a list of ranges selects.
pub open spec fn range_pieces(v: Seq<char>, r: Seq<(usize, usize)>) -> Seq<Seq<char>> {
    r.map_values(|p: (usize, usize)| v.subrange(p.0 as int, p.1 as int))
}

/// The ranges of the pieces of `v[lo..hi]` between occurrences of `sep`.
pub fn split_ranges(v: &Vec<char>, lo: usize, hi: usize, sep: char) -> (r: Vec<(usize, usize)>)
    requires
        lo <= hi <= v@.len(),
    ensures
        range_pieces(v@, r@) == split_seq(v@.subrange(lo as int, hi as int), sep),
        forall|j: int| 0 <= j < r@.len() ==> lo <= (#[trigger] r@[j]).0 <= r@[j].1 <= hi,
{
    let mut r: Vec<(usize, usize)> = Vec::new();
    let mut start = lo;
    let mut i = lo;
    assert(v@.subrange(lo as int, lo as int) =~= Seq::<char>::empty());
    assert(range_pieces(v@, r@) =~= Seq::<Seq<char>>::empty());
    while i < hi
        invariant
            lo <= start <= i <= hi <= v@.len(),
            split_seq(v@.subrange(lo as int, i as int), sep) == range_pieces(v@, r@).push(
                v@.subrange(start as int, i as int),
            ),
            forall|j: int| 0 <= j < r@.len() ==> lo <= (#[trigger] r@[j]).0 <= r@[j].1 <= hi,
        decreases hi - i,
    {
        let ghost prev = v@.subrange(lo as int, i as int);
        let ghost t = v@.subrange(lo as int, (i + 1) as int);
        assert(t.drop_last() =~= prev);
        assert(t.last() == v@[i as int]);
        if v[i] == sep {
            let ghost old_r = r@;
            r.push((start, i));
            assert(range_pieces(v@, r@) =~= range_pieces(v@, old_r).push(
                v@.subrange(start as int, i as int),
            ));
            start = i + 1;
            assert(v@.subrange(start as int, (i + 1) as int) =~= Seq::<char>::empty());
        } else {
            assert(v@.subrange(start as int, (i + 1) as int) =~= v@.subrange(
                start as int,
                i as int,
            ).push(v@[i as int]));
            assert(split_seq(t, sep) =~= range_pieces(v@, r@).push(
                v@.subrange(start as int, (i + 1) as int),
            ));
        }
        i = i + 1;
    }
    let ghost old_r = r@;
    r.push((start, hi));
    assert(range_pieces(v@, r@) =~= range_pieces(v@, old_r).push(
        v@.subrange(start as int, hi as int),
    ));
    r
}

/// The end of `v[lo..hi]` once trailing copies of `c` are removed.
pub fn trim_end_char_bound(v: &Vec<char>, lo: usize, hi: usize, c: char) -> (r: usize)
    requires
        lo <= hi <= v@.len(),
    ensures
        lo <= r <= hi,
        v@.subrange(lo as int, r as int) == trim_end_char_seq(v@.subrange(lo as int, hi as int), c),
{
    let mut b = hi;
    while b > lo && v[b - 1] == c
        invariant
            lo <= b <= hi <= v@.len(),
            trim_end_char_seq(v@.subrange(lo as int, hi as int), c) == trim_end_char_seq(
                v@.subrange(lo as int, b as int),
                c,
            ),
        decreases b - lo,
    {
        assert(v@.subrange(lo as int, b as int).drop_last() =~= v@.subrange(
            lo as int,
            (b - 1) as int,
        ));
        b = b - 1;
    }
    b
}

/// A `String` holding `prefix`, then `v[lo..hi]`, then `suffix`.
pub fn surround_range(prefix: &str, v: &Vec<char>, lo: usize, hi: usize, suffix: &str) -> (s:
    String)
    requires
        lo <= hi <= v@.len(),
    ensures
        s@ == prefix@ + v@.subrange(lo as int, hi as int) + suffix@,
{
    let mut s = String::new();
    s.append(prefix);
    append_range(&mut s, v, lo, hi);
    s.append(suffix);
    s
}

/// A `String` holding the characters of `lit`.
pub fn string_from_literal(lit: &str) -> (s: String)
    ensures
        s@ == lit@,
{
    let mut s = String::new();
    s.append(lit);
    s
}

/// The pieces of `s` between the occurrences of `sep`, as `str::split(sep)`
/// gives them: always at least one piece, empty pieces included.
pub open spec fn split_seq<T>(s: Seq<T>, sep: T) -> Seq<Seq<T>>
    decreases s.len(),
{
    if s.len() == 0 {
        seq![Seq::empty()]
    } else {
        let rest = split_seq(s.drop_last(), sep);
        if s.last() == sep {
            rest.push(Seq::empty())
        } else {
            rest.update(rest.len() - 1, rest.last().push(s.last()))
        }
    }
}

pub proof fn lemma_split_seq_no_sep<T>(s: Seq<T>, sep: T)
    requires
        forall|j: int| 0 <= j < s.len() ==> s[j] != sep,
    ensures
        split_seq(s, sep) == seq![s],
    decreases s.len(),
{
    if s.len() > 0 {
        lemma_split_seq_no_sep(s.drop_last(), sep);
        assert(s.drop_last().push(s.last()) =~= s);
        assert(split_seq(s, sep) =~= seq![s]);
    } else {
        assert(s =~= Seq::<T>::empty());
    }
}

pub proof fn lemma_split_seq_after_sep<T>(a: Seq<T>, b: Seq<T>, sep: T)
    requires
        forall|j: int| 0 <= j < b.len() ==> b[j] != sep,
    ensures
        split_seq(a.push(sep) + b, sep) == split_seq(a, sep).push(b),
    decreases b.len(),
{
    if b.len() == 0 {
        assert(a.push(sep) + b =~= a.push(sep));
        assert(a.push(sep).drop_last() =~= a);
        assert(b =~= Seq::<T>::empty());
    } else {
        let c = a.push(sep) + b;
        lemma_split_seq_after_sep(a, b.drop_last(), sep);
        assert(c.drop_last() =~= a.push(sep) + b.drop_last());
        assert(c.last() == b.last());
        assert(b.drop_last().push(b.last()) =~= b);
        assert(split_seq(c, sep) =~= split_seq(a, sep).push(b));
    }
}

/// The pieces joined with `sep` between them.
pub open spec fn join_pieces<T>(pieces: Seq<Seq<T>>, sep: T) -> Seq<T>
    decreases pieces.len(),
{
    if pieces.len() <= 1 {
        if pieces.len() == 0 {
            Seq::empty()
        } else {
            pieces[0]
        }
    } else {
        join_pieces(pieces.drop_last(), sep).push(sep) + pieces.last()
    }
}

/// Splitting at `sep` gives pieces with no `sep` in them that, joined again
/// with `sep`, give back the whole sequence.
pub proof fn lemma_split_seq_joins<T>(s: Seq<T>, sep: T)
    ensures
        join_pieces(split_seq(s, sep), sep) == s,
        forall|j: int, i: int|
            0 <= j < split_seq(s, sep).len() && 0 <= i < split_seq(s, sep)[j].len() ==> (
            #[trigger] split_seq(s, sep)[j][i]) != sep,
    decreases s.len(),
{
    if s.len() > 0 {
        let prev = s.drop_last();
        lemma_split_seq_joins(prev, sep);
        lemma_split_seq_nonempty(prev, sep);
        let rest = split_seq(prev, sep);
        if s.last() == sep {
            assert(split_seq(s, sep) == rest.push(Seq::<T>::empty()));
            assert(rest.push(Seq::<T>::empty()).drop_last() =~= rest);
            assert(join_pieces(rest, sep).push(sep) + Seq::<T>::empty() =~= prev.push(sep));
            assert(prev.push(sep) =~= s);
            assert forall|j: int, i: int|
                0 <= j < split_seq(s, sep).len() && 0 <= i < split_seq(s, sep)[j].len() implies (
                #[trigger] split_seq(s, sep)[j][i]) != sep by {
                if j < rest.len() {
                    assert(split_seq(s, sep)[j] == rest[j]);
                }
            }
        } else {
            let n = rest.len() as int;
            let pieces = rest.update(n - 1, rest.last().push(s.last()));
            assert(split_seq(s, sep) == pieces);
            if n == 1 {
                assert(join_pieces(rest, sep) == rest[0]);
                assert(join_pieces(pieces, sep) == pieces[0]);
                assert(pieces[0] =~= prev.push(s.last()));
            } else {
                assert(pieces.drop_last() =~= rest.drop_last());
                assert(join_pieces(rest, sep) == join_pieces(rest.drop_last(), sep).push(sep)
                    + rest.last());
                assert(join_pieces(pieces, sep) =~= join_pieces(rest, sep).push(s.last()));
            }
            assert(prev.push(s.last()) =~= s);
            assert forall|j: int, i: int|
                0 <= j < split_seq(s, sep).len() && 0 <= i < split_seq(s, sep)[j].len() implies (
                #[trigger] split_seq(s, sep)[j][i]) != sep by {
                if j < n - 1 {
                    assert(split_seq(s, sep)[j] == rest[j]);
                } else if i < rest.last().len() {
                    assert(split_seq(s, sep)[j][i] == rest[n - 1][i]);
                }
            }
        }
    }
}

pub proof fn lemma_split_seq_nonempty<T>(s: Seq<T>, sep: T)
    ensures
        split_seq(s, sep).len() >= 1,
    decreases s.len(),
{
    if s.len() > 0 {
        lemma_split_seq_nonempty(s.drop_last(), sep);
    }
}

} // verus!
