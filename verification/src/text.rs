//! Character-level text utilities: trimming, ASCII case folding, substring
//! search, decimal parsing and formatting, and UTF-8 byte lengths.
use vstd::prelude::*;
use vstd::utf8::*;

verus! {

// ---------------------------------------------------------------------------
// Conversions between `str`/`String` and character vectors
// ---------------------------------------------------------------------------

/// The characters of a string slice, in order.
pub fn str_chars(s: &str) -> (res: Vec<char>)
    ensures
        res@ == s@,
{
    let mut res: Vec<char> = Vec::new();
    for c in it: s.chars()
        invariant
            res@ == it.seq().take(it.index() as int),
    {
        res.push(c);
    }
    res
}

/// Builds a `String` from characters through std's
/// `impl FromIterator<&char> for String`; the string holds exactly the given
/// characters in order.
#[verifier::external_body]
pub(crate) fn chars_to_string(v: &[char]) -> (s: String)
    ensures
        s@ == v@,
{
    String::from_iter(v)
}

/// Copies `s[from..to]` into a new vector.
pub fn copy_range(s: &[char], from: usize, to: usize) -> (res: Vec<char>)
    requires
        from <= to <= s@.len(),
    ensures
        res@ == s@.subrange(from as int, to as int),
{
    let mut res: Vec<char> = Vec::new();
    let mut i = from;
    while i < to
        invariant
            from <= i <= to <= s@.len(),
            res@ == s@.subrange(from as int, i as int),
        decreases to - i,
    {
        res.push(s[i]);
        i += 1;
        proof {
            assert(res@ =~= s@.subrange(from as int, i as int));
        }
    }
    res
}

/// Appends all of `src` to `dst`.
pub fn append_chars(dst: &mut Vec<char>, src: &[char])
    ensures
        final(dst)@ == old(dst)@ + src@,
{
    let ghost orig = dst@;
    let mut i: usize = 0;
    while i < src.len()
        invariant
            i <= src@.len(),
            dst@ == orig + src@.subrange(0, i as int),
        decreases src.len() - i,
    {
        dst.push(src[i]);
        i += 1;
        proof {
            assert(dst@ =~= orig + src@.subrange(0, i as int));
        }
    }
    proof {
        assert(src@.subrange(0, src@.len() as int) =~= src@);
    }
}

/// Concatenation of two character slices.
pub fn concat_chars(a: &[char], b: &[char]) -> (res: Vec<char>)
    ensures
        res@ == a@ + b@,
{
    let mut res = copy_range(a, 0, a.len());
    proof {
        assert(a@.subrange(0, a@.len() as int) =~= a@);
    }
    append_chars(&mut res, b);
    res
}

// ---------------------------------------------------------------------------
// Whitespace and trimming (std's `char::is_whitespace` / `str::trim`)
// ---------------------------------------------------------------------------

/// The Unicode `White_Space` property, as used by `char::is_whitespace`.
pub open spec fn is_space(c: char) -> bool {
    let u = c as u32;
    ||| 0x09 <= u <= 0x0D
    ||| u == 0x20
    ||| u == 0x85
    ||| u == 0xA0
    ||| u == 0x1680
    ||| 0x2000 <= u <= 0x200A
    ||| u == 0x2028
    ||| u == 0x2029
    ||| u == 0x202F
    ||| u == 0x205F
    ||| u == 0x3000
}

/// Whether `c` is Unicode white space.
pub fn is_whitespace(c: char) -> (b: bool)
    ensures
        b == is_space(c),
{
    let u = c as u32;
    (0x09 <= u && u <= 0x0D) || u == 0x20 || u == 0x85 || u == 0xA0 || u == 0x1680 || (0x2000
        <= u && u <= 0x200A) || u == 0x2028 || u == 0x2029 || u == 0x202F || u == 0x205F || u
        == 0x3000
}

/// `s` without its leading white space.
pub open spec fn trim_start(s: Seq<char>) -> Seq<char>
    decreases s.len(),
{
    if s.len() > 0 && is_space(s[0]) {
        trim_start(s.drop_first())
    } else {
        s
    }
}

/// `s` without its trailing white space.
pub open spec fn trim_end(s: Seq<char>) -> Seq<char>
    decreases s.len(),
{
    if s.len() > 0 && is_space(s.last()) {
        trim_end(s.drop_last())
    } else {
        s
    }
}

/// `s` without leading and trailing white space.
pub open spec fn trim(s: Seq<char>) -> Seq<char> {
    trim_end(trim_start(s))
}

/// Position where the leading white space of `s[from..to]` ends.
fn skip_leading_space(s: &[char], from: usize, to: usize) -> (start: usize)
    requires
        from <= to <= s@.len(),
    ensures
        from <= start <= to,
        trim_start(s@.subrange(from as int, to as int)) == s@.subrange(start as int, to as int),
{
    let mut start = from;
    while start < to && is_whitespace(s[start])
        invariant
            from <= start <= to <= s@.len(),
            trim_start(s@.subrange(from as int, to as int)) == trim_start(
                s@.subrange(start as int, to as int),
            ),
        decreases to - start,
    {
        proof {
            assert(s@.subrange(start + 1, to as int) =~= s@.subrange(
                start as int,
                to as int,
            ).drop_first());
        }
        start += 1;
    }
    start
}

/// Position where the trailing white space of `s[from..to]` starts.
fn skip_trailing_space(s: &[char], from: usize, to: usize) -> (end: usize)
    requires
        from <= to <= s@.len(),
    ensures
        from <= end <= to,
        trim_end(s@.subrange(from as int, to as int)) == s@.subrange(from as int, end as int),
{
    let mut end = to;
    while end > from && is_whitespace(s[end - 1])
        invariant
            from <= end <= to <= s@.len(),
            trim_end(s@.subrange(from as int, to as int)) == trim_end(
                s@.subrange(from as int, end as int),
            ),
        decreases end - from,
    {
        proof {
            assert(s@.subrange(from as int, end - 1) =~= s@.subrange(
                from as int,
                end as int,
            ).drop_last());
        }
        end -= 1;
    }
    end
}

/// `s` without leading and trailing white space (std's `str::trim`).
pub fn trim_chars(s: &[char]) -> (res: Vec<char>)
    ensures
        res@ == trim(s@),
{
    proof {
        assert(s@.subrange(0, s@.len() as int) =~= s@);
    }
    let start = skip_leading_space(s, 0, s.len());
    let end = skip_trailing_space(s, start, s.len());
    copy_range(s, start, end)
}

/// `s` without trailing white space (std's `str::trim_end`).
pub fn trim_end_chars(s: &[char]) -> (res: Vec<char>)
    ensures
        res@ == trim_end(s@),
{
    proof {
        assert(s@.subrange(0, s@.len() as int) =~= s@);
    }
    let end = skip_trailing_space(s, 0, s.len());
    copy_range(s, 0, end)
}

// ---------------------------------------------------------------------------
// ASCII case folding
// ---------------------------------------------------------------------------

/// `c` with ASCII upper-case letters mapped to lower case.
pub open spec fn lower_char(c: char) -> char {
    if 'A' <= c && c <= 'Z' {
        ((c as u32) + 32) as char
    } else {
        c
    }
}

/// `s` with every ASCII upper-case letter mapped to lower case; other
/// characters unchanged (std's `str::to_ascii_lowercase`).
pub open spec fn ascii_lower(s: Seq<char>) -> Seq<char> {
    s.map_values(|c: char| lower_char(c))
}

/// ASCII lower case of one character.
pub fn lower_ascii_char(c: char) -> (r: char)
    ensures
        r == lower_char(c),
{
    if 'A' <= c && c <= 'Z' {
        let b: u8 = c as u8;
        (b + 32) as char
    } else {
        c
    }
}

/// ASCII lower case of a character slice.
pub fn to_ascii_lower(s: &[char]) -> (res: Vec<char>)
    ensures
        res@ == ascii_lower(s@),
{
    let mut res: Vec<char> = Vec::new();
    let mut i: usize = 0;
    while i < s.len()
        invariant
            i <= s@.len(),
            res@ == ascii_lower(s@.subrange(0, i as int)),
        decreases s.len() - i,
    {
        res.push(lower_ascii_char(s[i]));
        i += 1;
        proof {
            assert(res@ =~= ascii_lower(s@.subrange(0, i as int)));
        }
    }
    proof {
        assert(s@.subrange(0, s@.len() as int) =~= s@);
    }
    res
}

// ---------------------------------------------------------------------------
// Substring search
// ---------------------------------------------------------------------------

/// `pat` occurs in `s` starting at index `i`.
pub open spec fn match_at(s: Seq<char>, pat: Seq<char>, i: int) -> bool {
    &&& 0 <= i
    &&& i + pat.len() <= s.len()
    &&& forall|j: int| 0 <= j < pat.len() ==> #[trigger] s[i + j] == pat[j]
}

/// `pat` occurs somewhere in `s`.
pub open spec fn contains_seq(s: Seq<char>, pat: Seq<char>) -> bool {
    exists|i: int| match_at(s, pat, i)
}

/// `s` begins with `pat`.
pub open spec fn starts_with(s: Seq<char>, pat: Seq<char>) -> bool {
    match_at(s, pat, 0)
}

/// The first index `>= i` at which `pat` occurs in `s`.
pub open spec fn find_from(s: Seq<char>, pat: Seq<char>, i: int) -> Option<int>
    decreases s.len() - i,
{
    if i < 0 || i + pat.len() > s.len() {
        None
    } else if match_at(s, pat, i) {
        Some(i)
    } else if i >= s.len() {
        None
    } else {
        find_from(s, pat, i + 1)
    }
}

/// Whether `pat` occurs in `s` at `i`.
pub fn matches_at(s: &[char], pat: &[char], i: usize) -> (b: bool)
    ensures
        b == match_at(s@, pat@, i as int),
{
    if i > s.len() || pat.len() > s.len() - i {
        return false;
    }
    let mut j: usize = 0;
    while j < pat.len()
        invariant
            i + pat@.len() <= s@.len(),
            s@.len() == s.len(),
            j <= pat@.len(),
            forall|k: int| 0 <= k < j ==> #[trigger] s@[i + k] == pat@[k],
        decreases pat.len() - j,
    {
        if s[i + j] != pat[j] {
            return false;
        }
        j += 1;
    }
    true
}

/// Whether `s` begins with `pat` (std's `str::starts_with`).
pub fn has_prefix(s: &[char], pat: &[char]) -> (b: bool)
    ensures
        b == starts_with(s@, pat@),
{
    matches_at(s, pat, 0)
}

/// The first occurrence of `pat` in `s` at or after `from`.
pub fn find_chars(s: &[char], pat: &[char], from: usize) -> (res: Option<usize>)
    ensures
        match res {
            Some(k) => find_from(s@, pat@, from as int) == Some(k as int),
            None => find_from(s@, pat@, from as int) is None,
        },
{
    let mut i = from;
    loop
        invariant
            from <= i,
            find_from(s@, pat@, from as int) == find_from(s@, pat@, i as int),
        decreases s@.len() + 1 - i,
    {
        if i > s.len() || pat.len() > s.len() - i {
            return None;
        }
        if matches_at(s, pat, i) {
            return Some(i);
        }
        if i >= s.len() {
            return None;
        }
        i += 1;
    }
}

/// Lemma: `find_from` returns an occurrence, and no earlier one.
pub proof fn lemma_find_from(s: Seq<char>, pat: Seq<char>, i: int)
    ensures
        find_from(s, pat, i) matches Some(k) ==> i <= k && match_at(s, pat, k) && forall|m: int|
            i <= m < k ==> !match_at(s, pat, m),
        find_from(s, pat, i) is None && 0 <= i ==> forall|m: int|
            i <= m ==> !match_at(s, pat, m),
    decreases s.len() - i,
{
    if i < 0 || i + pat.len() > s.len() {
    } else if match_at(s, pat, i) {
    } else if i >= s.len() {
        assert forall|m: int| i <= m implies !match_at(s, pat, m) by {
            if match_at(s, pat, m) && m == i {
            }
        }
    } else {
        lemma_find_from(s, pat, i + 1);
    }
}

/// Lemma: the first occurrence at or after `i` is what `find_from` finds.
pub proof fn lemma_find_from_first(s: Seq<char>, pat: Seq<char>, i: int, k: int)
    requires
        0 <= i <= k,
        match_at(s, pat, k),
        forall|j: int| i <= j < k ==> !match_at(s, pat, j),
    ensures
        find_from(s, pat, i) == Some(k),
    decreases k - i,
{
    if i < k {
        assert(!match_at(s, pat, i));
        lemma_find_from_first(s, pat, i + 1, k);
    }
}

/// Whether `pat` occurs anywhere in `s` (std's `str::contains`).
pub fn contains_chars(s: &[char], pat: &[char]) -> (b: bool)
    ensures
        b == contains_seq(s@, pat@),
{
    let r = find_chars(s, pat, 0);
    proof {
        lemma_find_from(s@, pat@, 0);
    }
    match r {
        Some(_) => true,
        None => {
            assert forall|i: int| !match_at(s@, pat@, i) by {
                if i >= 0 {
                }
            }
            false
        },
    }
}

// ---------------------------------------------------------------------------
// Decimal numbers
// ---------------------------------------------------------------------------

/// An ASCII decimal digit.
pub open spec fn is_digit(c: char) -> bool {
    '0' <= c && c <= '9'
}

/// Every character of `s` is an ASCII decimal digit.
pub open spec fn all_digits(s: Seq<char>) -> bool {
    forall|i: int| 0 <= i < s.len() ==> #[trigger] is_digit(s[i])
}

/// The value of an ASCII digit.
pub open spec fn digit_value(c: char) -> nat {
    ((c as u32) - 48) as nat
}

/// The value of a string of decimal digits (0 for the empty string).
pub open spec fn digits_value(s: Seq<char>) -> nat
    decreases s.len(),
{
    if s.len() == 0 {
        0
    } else {
        digits_value(s.drop_last()) * 10 + digit_value(s.last())
    }
}

/// What std's `i64::from_str` returns for `s`: an optional sign, then one or
/// more ASCII digits, and a value within the range of `i64`.
pub open spec fn spec_parse_i64(s: Seq<char>) -> Option<i64> {
    let signed = s.len() > 0 && (s[0] == '+' || s[0] == '-');
    let digits = if signed {
        s.drop_first()
    } else {
        s
    };
    if digits.len() == 0 || !all_digits(digits) {
        None
    } else {
        let v: int = if signed && s[0] == '-' {
            -digits_value(digits)
        } else {
            digits_value(digits) as int
        };
        if i64::MIN <= v <= i64::MAX {
            Some(v as i64)
        } else {
            None
        }
    }
}

/// Lemma: the value of a prefix of a digit string is no larger than the value
/// of the whole string.
pub proof fn lemma_digits_value_prefix(s: Seq<char>, k: int)
    requires
        0 <= k <= s.len(),
    ensures
        digits_value(s.subrange(0, k)) <= digits_value(s),
    decreases s.len(),
{
    if k == s.len() {
        assert(s.subrange(0, k) =~= s);
    } else {
        lemma_digits_value_prefix(s.drop_last(), k);
        assert(s.drop_last().subrange(0, k) =~= s.subrange(0, k));
    }
}

/// Whether `c` is an ASCII digit.
pub fn is_ascii_digit(c: char) -> (b: bool)
    ensures
        b == is_digit(c),
{
    '0' <= c && c <= '9'
}

/// Parses `s` as std's `i64::from_str` does.
pub fn parse_i64(s: &[char]) -> (res: Option<i64>)
    ensures
        res == spec_parse_i64(s@),
{
    let n = s.len();
    let signed = n > 0 && (s[0] == '+' || s[0] == '-');
    let negative = n > 0 && s[0] == '-';
    let start: usize = if signed {
        1
    } else {
        0
    };
    let ghost digits = if signed {
        s@.drop_first()
    } else {
        s@
    };
    proof {
        assert(digits =~= s@.subrange(start as int, n as int));
    }
    if start == n {
        return None;
    }
    let mut acc: u128 = 0;
    let mut i = start;
    while i < n
        invariant
            start <= i <= n == s@.len(),
            digits == s@.subrange(start as int, n as int),
            digits == (if s@.len() > 0 && (s@[0] == '+' || s@[0] == '-') {
                s@.drop_first()
            } else {
                s@
            }),
            digits.len() > 0,
            all_digits(s@.subrange(start as int, i as int)),
            acc == digits_value(s@.subrange(start as int, i as int)),
            acc <= 0x8000_0000_0000_0000,
        decreases n - i,
    {
        let c = s[i];
        if !is_ascii_digit(c) {
            proof {
                assert(!is_digit(digits[i - start]));
                assert(!all_digits(digits));
            }
            return None;
        }
        let d = (c as u32 - 48) as u128;
        proof {
            assert(s@.subrange(start as int, i + 1).drop_last() =~= s@.subrange(
                start as int,
                i as int,
            ));
        }
        acc = acc * 10 + d;
        i += 1;
        assert(acc == digits_value(s@.subrange(start as int, i as int)));
        assert(all_digits(s@.subrange(start as int, i as int))) by {
            assert forall|j: int| 0 <= j < i - start implies #[trigger] is_digit(
                s@.subrange(start as int, i as int)[j],
            ) by {
                if j < i - 1 - start {
                    assert(s@.subrange(start as int, i as int)[j] == s@.subrange(
                        start as int,
                        i - 1,
                    )[j]);
                }
            }
        }
        if acc > 0x8000_0000_0000_0000 {
            proof {
                lemma_digits_value_prefix(digits, i - start);
                assert(digits.subrange(0, i - start) =~= s@.subrange(start as int, i as int));
                if all_digits(digits) {
                }
            }
            return None;
        }
    }
    proof {
        assert(s@.subrange(start as int, n as int) =~= digits);
    }
    if negative {
        let v: i128 = -(acc as i128);
        if v < i64::MIN as i128 {
            None
        } else {
            Some(v as i64)
        }
    } else {
        if acc > i64::MAX as u128 {
            None
        } else {
            Some(acc as i64)
        }
    }
}

/// The character of decimal digit `d`.
pub open spec fn digit_char(d: nat) -> char {
    ((48 + d) as u32) as char
}

/// Decimal representation of `n`, without leading zeros.
pub open spec fn decimal(n: nat) -> Seq<char>
    decreases n,
{
    if n < 10 {
        seq![digit_char(n)]
    } else {
        decimal(n / 10).push(digit_char(n % 10))
    }
}

/// Decimal representation of a signed integer, as `format!("{}")` writes it.
pub open spec fn signed_decimal(n: int) -> Seq<char> {
    if n < 0 {
        seq!['-'] + decimal((-n) as nat)
    } else {
        decimal(n as nat)
    }
}

/// `s` padded on the left with `'0'` to at least `width` characters, as
/// `format!("{:0width$}")` pads a non-negative number.
pub open spec fn zero_pad(s: Seq<char>, width: nat) -> Seq<char> {
    if s.len() < width {
        Seq::new((width - s.len()) as nat, |i: int| '0') + s
    } else {
        s
    }
}

/// The character of decimal digit `d`.
pub fn digit_to_char(d: u64) -> (c: char)
    requires
        d < 10,
    ensures
        c == digit_char(d as nat),
{
    let b: u8 = d as u8;
    (48u8 + b) as char
}

/// Decimal representation of an unsigned integer.
pub fn u64_decimal(n: u64) -> (res: Vec<char>)
    ensures
        res@ == decimal(n as nat),
    decreases n,
{
    if n < 10 {
        let mut v: Vec<char> = Vec::new();
        v.push(digit_to_char(n));
        proof {
            assert(v@ =~= seq![digit_char(n as nat)]);
        }
        v
    } else {
        let mut v = u64_decimal(n / 10);
        v.push(digit_to_char(n % 10));
        v
    }
}

/// Decimal representation of a signed integer.
pub fn i64_decimal(n: i64) -> (res: Vec<char>)
    ensures
        res@ == signed_decimal(n as int),
{
    if n < 0 {
        let m: u64 = (-(n as i128)) as u64;
        let digits = u64_decimal(m);
        let mut v: Vec<char> = Vec::new();
        v.push('-');
        append_chars(&mut v, &digits);
        proof {
            assert(v@ =~= seq!['-'] + decimal((-n) as nat));
        }
        v
    } else {
        u64_decimal(n as u64)
    }
}

/// Decimal representation of `n` left-padded with zeros to `width`.
pub fn padded_decimal(n: u64, width: usize) -> (res: Vec<char>)
    ensures
        res@ == zero_pad(decimal(n as nat), width as nat),
{
    let digits = u64_decimal(n);
    if digits.len() < width {
        let mut v: Vec<char> = Vec::new();
        let pad = width - digits.len();
        let mut i: usize = 0;
        while i < pad
            invariant
                i <= pad,
                v@ == Seq::new(i as nat, |k: int| '0'),
            decreases pad - i,
        {
            v.push('0');
            i += 1;
            proof {
                assert(v@ =~= Seq::new(i as nat, |k: int| '0'));
            }
        }
        append_chars(&mut v, &digits);
        v
    } else {
        digits
    }
}

// ---------------------------------------------------------------------------
// UTF-8 byte lengths
// ---------------------------------------------------------------------------

/// Number of bytes in the UTF-8 encoding of `c`.
pub open spec fn char_width(c: char) -> nat {
    encode_scalar(c as u32).len()
}

/// Number of bytes in the UTF-8 encoding of `s` (what std's `str::len` returns).
pub open spec fn byte_len(s: Seq<char>) -> nat {
    encode_utf8(s).len()
}

/// Number of bytes in the UTF-8 encoding of `c` (std's `char::len_utf8`).
pub fn utf8_width(c: char) -> (w: usize)
    ensures
        w == char_width(c),
        1 <= w <= 4,
{
    proof {
        char_is_scalar(c);
    }
    let u = c as u32;
    if u <= 0x7F {
        1
    } else if u <= 0x7FF {
        2
    } else if u <= 0xFFFF {
        3
    } else {
        4
    }
}

/// Lemma: UTF-8 encoding distributes over concatenation.
pub proof fn lemma_encode_utf8_concat(a: Seq<char>, b: Seq<char>)
    ensures
        encode_utf8(a + b) == encode_utf8(a) + encode_utf8(b),
    decreases a.len(),
{
    if a.len() == 0 {
        assert(a + b =~= b);
        assert(encode_utf8(a) =~= Seq::<u8>::empty());
        assert(encode_utf8(a) + encode_utf8(b) =~= encode_utf8(b));
    } else {
        lemma_encode_utf8_concat(a.drop_first(), b);
        assert((a + b).drop_first() =~= a.drop_first() + b);
        assert((a + b)[0] == a[0]);
        assert(encode_utf8(a + b) =~= encode_scalar(a[0] as u32) + encode_utf8(a.drop_first() + b));
        assert(encode_utf8(a) + encode_utf8(b) =~= encode_scalar(a[0] as u32) + (encode_utf8(
            a.drop_first(),
        ) + encode_utf8(b)));
    }
}

/// Lemma: the byte length of `s` plus one character.
pub proof fn lemma_byte_len_push(s: Seq<char>, c: char)
    ensures
        byte_len(s.push(c)) == byte_len(s) + char_width(c),
{
    lemma_encode_utf8_concat(s, seq![c]);
    assert(s.push(c) =~= s + seq![c]);
    assert(seq![c].drop_first() =~= Seq::<char>::empty());
    assert(encode_utf8(seq![c]) =~= encode_scalar(c as u32) + encode_utf8(
        Seq::<char>::empty(),
    ));
}

/// Lemma: a prefix is no longer in bytes than the whole.
pub proof fn lemma_byte_len_prefix(s: Seq<char>, k: int)
    requires
        0 <= k <= s.len(),
    ensures
        byte_len(s.subrange(0, k)) <= byte_len(s),
{
    lemma_encode_utf8_concat(s.subrange(0, k), s.subrange(k, s.len() as int));
    assert(s.subrange(0, k) + s.subrange(k, s.len() as int) =~= s);
}

/// Number of bytes in the UTF-8 encoding of `s`.
pub fn utf8_len(s: &[char]) -> (n: usize)
    requires
        byte_len(s@) <= usize::MAX,
    ensures
        n == byte_len(s@),
{
    let mut n: usize = 0;
    let mut i: usize = 0;
    while i < s.len()
        invariant
            i <= s@.len(),
            n == byte_len(s@.subrange(0, i as int)),
            byte_len(s@) <= usize::MAX,
        decreases s.len() - i,
    {
        proof {
            lemma_byte_len_push(s@.subrange(0, i as int), s@[i as int]);
            assert(s@.subrange(0, i as int).push(s@[i as int]) =~= s@.subrange(0, i + 1));
            lemma_byte_len_prefix(s@, i + 1);
        }
        n = n + utf8_width(s[i]);
        i += 1;
    }
    proof {
        assert(s@.subrange(0, s@.len() as int) =~= s@);
    }
    n
}

// ---------------------------------------------------------------------------
// Character-by-character equality and file-name sanitising
// ---------------------------------------------------------------------------

/// Whether two character slices are equal.
pub fn eq_chars(a: &[char], b: &[char]) -> (r: bool)
    ensures
        r == (a@ == b@),
{
    if a.len() != b.len() {
        return false;
    }
    let mut i: usize = 0;
    while i < a.len()
        invariant
            i <= a@.len() == b@.len(),
            forall|k: int| 0 <= k < i ==> a@[k] == b@[k],
        decreases a.len() - i,
    {
        if a[i] != b[i] {
            return false;
        }
        i += 1;
    }
    assert(a@ =~= b@);
    true
}

/// A character that file systems refuse in a file name.
pub open spec fn is_reserved_filename_char(c: char) -> bool {
    c == '\\' || c == '/' || c == ':' || c == '*' || c == '?' || c == '"' || c == '<' || c
        == '>' || c == '|'
}

/// The replacement of one character in a file name: reserved characters become
/// a space or a full-width look-alike, other characters stay.
pub open spec fn filename_char(c: char) -> char {
    if c == '\\' || c == '/' {
        ' '
    } else if c == ':' {
        '\u{FF1A}'
    } else if c == '*' {
        '\u{2B50}'
    } else if c == '?' {
        '\u{FF1F}'
    } else if c == '"' {
        '\''
    } else if c == '<' {
        '\u{300A}'
    } else if c == '>' {
        '\u{300B}'
    } else if c == '|' {
        '\u{4E28}'
    } else {
        c
    }
}

/// `s` made safe as a file name: every character replaced by
/// [`filename_char`], then leading and trailing white space removed.
pub open spec fn spec_filename_filter(s: Seq<char>) -> Seq<char> {
    trim(s.map_values(|c: char| filename_char(c)))
}

/// One character of a file name made safe.
pub fn filter_filename_char(c: char) -> (r: char)
    ensures
        r == filename_char(c),
        !is_reserved_filename_char(r),
{
    if c == '\\' || c == '/' {
        ' '
    } else if c == ':' {
        '\u{FF1A}'
    } else if c == '*' {
        '\u{2B50}'
    } else if c == '?' {
        '\u{FF1F}'
    } else if c == '"' {
        '\''
    } else if c == '<' {
        '\u{300A}'
    } else if c == '>' {
        '\u{300B}'
    } else if c == '|' {
        '\u{4E28}'
    } else {
        c
    }
}

/// Lemma: trimming keeps a contiguous part of the sequence.
pub proof fn lemma_trim_is_subrange(s: Seq<char>)
    ensures
        exists|a: int, b: int| 0 <= a <= b <= s.len() && #[trigger] trim(s) == s.subrange(a, b),
{
    let start = lemma_trim_start_subrange(s);
    let t = s.subrange(start, s.len() as int);
    let end = lemma_trim_end_subrange(t);
    assert(t.subrange(0, end) =~= s.subrange(start, start + end));
}

/// Lemma: `trim_start(s)` is a suffix of `s`.
pub proof fn lemma_trim_start_subrange(s: Seq<char>) -> (start: int)
    ensures
        0 <= start <= s.len(),
        trim_start(s) == s.subrange(start, s.len() as int),
    decreases s.len(),
{
    if s.len() > 0 && is_space(s[0]) {
        let k = lemma_trim_start_subrange(s.drop_first());
        assert(s.drop_first().subrange(k, s.drop_first().len() as int) =~= s.subrange(
            k + 1,
            s.len() as int,
        ));
        k + 1
    } else {
        assert(s.subrange(0, s.len() as int) =~= s);
        0
    }
}

/// Lemma: `trim_end(s)` is a prefix of `s`.
pub proof fn lemma_trim_end_subrange(s: Seq<char>) -> (end: int)
    ensures
        0 <= end <= s.len(),
        trim_end(s) == s.subrange(0, end),
    decreases s.len(),
{
    if s.len() > 0 && is_space(s.last()) {
        let k = lemma_trim_end_subrange(s.drop_last());
        assert(s.drop_last().subrange(0, k) =~= s.subrange(0, k));
        k
    } else {
        assert(s.subrange(0, s.len() as int) =~= s);
        s.len() as int
    }
}

/// A file name made safe (what the downloader writes for titles): reserved
/// characters replaced, surrounding white space removed.
pub fn filename_filter(s: &[char]) -> (res: Vec<char>)
    ensures
        res@ == spec_filename_filter(s@),
        forall|i: int| 0 <= i < res@.len() ==> !is_reserved_filename_char(#[trigger] res@[i]),
{
    let mut mapped: Vec<char> = Vec::new();
    let mut i: usize = 0;
    while i < s.len()
        invariant
            i <= s@.len(),
            mapped@ == s@.subrange(0, i as int).map_values(|c: char| filename_char(c)),
        decreases s.len() - i,
    {
        mapped.push(filter_filename_char(s[i]));
        i += 1;
        proof {
            assert(mapped@ =~= s@.subrange(0, i as int).map_values(|c: char| filename_char(c)));
        }
    }
    proof {
        assert(s@.subrange(0, s@.len() as int) =~= s@);
        lemma_trim_is_subrange(mapped@);
    }
    let res = trim_chars(&mapped);
    proof {
        let (a, b) = choose|a: int, b: int|
            0 <= a <= b <= mapped@.len() && #[trigger] trim(mapped@) == mapped@.subrange(a, b);
        assert forall|i: int| 0 <= i < res@.len() implies !is_reserved_filename_char(
            #[trigger] res@[i],
        ) by {
            assert(res@[i] == mapped@[a + i]);
            assert(mapped@[a + i] == filename_char(s@[a + i]));
        }
    }
    res
}

} // verus!
