//! Character-level helpers for the small grammars of attribute values.
use vstd::prelude::*;

verus! {

/// Characters with the Unicode `White_Space` property.
pub open spec fn is_white(c: char) -> bool {
    let u = c as u32;
    (9 <= u <= 13) || u == 32 || u == 0x85 || u == 0xa0 || u == 0x1680 || (0x2000 <= u
        <= 0x200a) || u == 0x2028 || u == 0x2029 || u == 0x202f || u == 0x205f || u == 0x3000
}

/// The sequence without its leading white space.
pub open spec fn trim_start(s: Seq<char>) -> Seq<char>
    decreases s.len(),
{
    if s.len() > 0 && is_white(s[0]) {
        trim_start(s.drop_first())
    } else {
        s
    }
}

/// The sequence without its trailing white space.
pub open spec fn trim_end(s: Seq<char>) -> Seq<char>
    decreases s.len(),
{
    if s.len() > 0 && is_white(s.last()) {
        trim_end(s.drop_last())
    } else {
        s
    }
}

/// The sequence without leading and trailing white space.
pub open spec fn spec_trim(s: Seq<char>) -> Seq<char> {
    trim_end(trim_start(s))
}

/// How often `sep` occurs in `s`.
pub open spec fn count_of(s: Seq<char>, sep: char) -> nat
    decreases s.len(),
{
    if s.len() == 0 {
        0
    } else {
        count_of(s.drop_last(), sep) + if s.last() == sep {
            1nat
        } else {
            0nat
        }
    }
}

/// The position of the first `sep` in `s` (its length when there is none).
pub open spec fn first_index_of(s: Seq<char>, sep: char) -> int
    decreases s.len(),
{
    if s.len() == 0 {
        0
    } else if s[0] == sep {
        0
    } else {
        1 + first_index_of(s.drop_first(), sep)
    }
}

/// The two sides of the only `sep` in `s`, or nothing when `s` holds no
/// `sep` or more than one.
pub open spec fn split_pair(s: Seq<char>, sep: char) -> Option<(Seq<char>, Seq<char>)> {
    if count_of(s, sep) == 1 {
        let k = first_index_of(s, sep);
        Some((s.take(k), s.skip(k + 1)))
    } else {
        None
    }
}

/// A decimal digit.
pub open spec fn is_digit(c: char) -> bool {
    '0' <= c <= '9'
}

/// The value of a string of decimal digits.
pub open spec fn digits_value(s: Seq<char>) -> int
    decreases s.len(),
{
    if s.len() == 0 {
        0
    } else {
        digits_value(s.drop_last()) * 10 + (s.last() as int - '0' as int)
    }
}

/// The unsigned integer that std reads from `s`: an optional `+` followed
/// by at least one decimal digit and nothing else, with a value of at most
/// `max`.
pub open spec fn spec_parse_unsigned(s: Seq<char>, max: int) -> Option<int> {
    let d = if s.len() > 0 && s[0] == '+' {
        s.drop_first()
    } else {
        s
    };
    if d.len() > 0 && (forall|i: int| 0 <= i < d.len() ==> is_digit(#[trigger] d[i]))
        && digits_value(d) <= max {
        Some(digits_value(d))
    } else {
        None
    }
}

/// Collects the characters of a string slice into a vector.
pub fn to_chars(s: &str) -> (r: Vec<char>)
    ensures
        r@ == s@,
{
    let mut r: Vec<char> = Vec::new();
    for c in it: s.chars()
        invariant
            r@ == it.seq().take(it.index() as int),
            it.seq() == s@,
    {
        r.push(c);
    }
    r
}

/// Builds a string from characters: `FromIterator<char>` for `String`
/// appends each character in order, so the string holds exactly them.
#[verifier::external_body]
pub fn chars_to_string(v: &[char]) -> (r: String)
    ensures
        r@ == v@,
{
    v.iter().collect()
}

/// Whether two string slices hold the same characters.
pub fn str_eq(a: &str, b: &str) -> (r: bool)
    ensures
        r == (a@ == b@),
{
    a.to_owned() == b.to_owned()
}

/// What `str::parse::<u8>` gives for a text (its error depends on the
/// text alone).
pub uninterp spec fn std_parse_u8(s: Seq<char>) -> Result<u8, std::num::ParseIntError>;

/// What `str::parse::<u16>` gives for a text (its error depends on the
/// text alone).
pub uninterp spec fn std_parse_u16(s: Seq<char>) -> Result<u16, std::num::ParseIntError>;

/// Reads a `u8` with `str::parse`: as its documentation says, it accepts
/// an optional `+` followed by decimal digits only, and fails when the
/// value does not fit. Which `ParseIntError` comes back is only named.
#[verifier::external_body]
pub fn parse_u8(s: &str) -> (r: Result<u8, std::num::ParseIntError>)
    ensures
        r == std_parse_u8(s@),
        r is Ok <==> spec_parse_unsigned(s@, 255) is Some,
        r matches Ok(v) ==> v == spec_parse_unsigned(s@, 255)->0,
{
    s.parse::<u8>()
}

/// Reads a `u16` with `str::parse`, under the same rules as [`parse_u8`].
/// Which `ParseIntError` comes back is only named.
#[verifier::external_body]
pub fn parse_u16(s: &str) -> (r: Result<u16, std::num::ParseIntError>)
    ensures
        r == std_parse_u16(s@),
        r is Ok <==> spec_parse_unsigned(s@, 65535) is Some,
        r matches Ok(v) ==> v == spec_parse_unsigned(s@, 65535)->0,
{
    s.parse::<u16>()
}

/// The characters of `v` from `from` up to `to`.
pub fn sub_chars(v: &[char], from: usize, to: usize) -> (r: Vec<char>)
    requires
        from <= to <= v@.len(),
    ensures
        r@ == v@.subrange(from as int, to as int),
{
    let mut r: Vec<char> = Vec::new();
    let mut k: usize = from;
    while k < to
        invariant
            from <= k <= to <= v@.len(),
            r@ == v@.subrange(from as int, k as int),
        decreases to - k,
    {
        r.push(v[k]);
        k = k + 1;
    }
    r
}

/// Tells whether a character is white space.
pub fn is_whitespace(c: char) -> (r: bool)
    ensures
        r == is_white(c),
{
    let u = c as u32;
    (9 <= u && u <= 13) || u == 32 || u == 0x85 || u == 0xa0 || u == 0x1680 || (0x2000 <= u
        && u <= 0x200a) || u == 0x2028 || u == 0x2029 || u == 0x202f || u == 0x205f || u
        == 0x3000
}

proof fn lemma_trim_start_skip(s: Seq<char>, i: int)
    requires
        0 <= i <= s.len(),
        forall|j: int| 0 <= j < i ==> is_white(#[trigger] s[j]),
    ensures
        trim_start(s) == trim_start(s.skip(i)),
    decreases i,
{
    if i > 0 {
        assert(s.skip(1) =~= s.drop_first());
        lemma_trim_start_skip(s.drop_first(), i - 1);
        assert(s.drop_first().skip(i - 1) =~= s.skip(i));
    } else {
        assert(s.skip(0) =~= s);
    }
}

proof fn lemma_trim_end_take(s: Seq<char>, j: int)
    requires
        0 <= j <= s.len(),
        forall|k: int| j <= k < s.len() ==> is_white(#[trigger] s[k]),
    ensures
        trim_end(s) == trim_end(s.take(j)),
    decreases s.len() - j,
{
    if j < s.len() {
        assert(s.drop_last() =~= s.take(s.len() - 1));
        lemma_trim_end_take(s.drop_last(), j);
        assert(s.drop_last().take(j) =~= s.take(j));
    } else {
        assert(s.take(j) =~= s);
    }
}

/// Removes leading and trailing white space.
pub fn trim(v: &[char]) -> (r: Vec<char>)
    ensures
        r@ == spec_trim(v@),
{
    let n = v.len();
    let mut i: usize = 0;
    while i < n && is_whitespace(v[i])
        invariant
            0 <= i <= n,
            n == v@.len(),
            forall|j: int| 0 <= j < i ==> is_white(#[trigger] v@[j]),
        decreases n - i,
    {
        i = i + 1;
    }
    proof {
        lemma_trim_start_skip(v@, i as int);
    }
    let ghost rest = v@.skip(i as int);
    let mut j: usize = n;
    while j > i && is_whitespace(v[j - 1])
        invariant
            i <= j <= n,
            n == v@.len(),
            rest == v@.skip(i as int),
            forall|k: int| j <= k < n ==> is_white(#[trigger] v@[k]),
        decreases j,
    {
        j = j - 1;
    }
    proof {
        assert forall|k: int| (j - i) <= k < rest.len() implies is_white(#[trigger] rest[k]) by {
            assert(rest[k] == v@[k + i]);
        }
        lemma_trim_end_take(rest, j - i);
        if i < n && j == i {
            // the first non-white character would end the second loop
        }
        assert(!(rest.len() > 0 && is_white(rest[0])) || i == n);
    }
    let mut r: Vec<char> = Vec::new();
    let mut k: usize = i;
    while k < j
        invariant
            i <= k <= j <= n,
            n == v@.len(),
            r@ == v@.subrange(i as int, k as int),
        decreases j - k,
    {
        r.push(v[k]);
        k = k + 1;
    }
    proof {
        assert(rest.take(j - i) =~= v@.subrange(i as int, j as int));
        let t = rest.take(j - i);
        // trim_start(rest) == rest, because rest starts with a non-white character
        assert(trim_start(v@) == rest);
        if t.len() > 0 {
            assert(!is_white(t.last()));
        }
        assert(trim_end(t) == t);
    }
    r
}

proof fn lemma_count_first_step(s: Seq<char>, i: int, sep: char)
    requires
        0 <= i < s.len(),
    ensures
        count_of(s.take(i + 1), sep) == count_of(s.take(i), sep) + if s[i] == sep {
            1nat
        } else {
            0nat
        },
{
    assert(s.take(i + 1).drop_last() =~= s.take(i));
}

proof fn lemma_first_index_prefix(s: Seq<char>, i: int, sep: char)
    requires
        0 <= i <= s.len(),
        forall|j: int| 0 <= j < i ==> #[trigger] s[j] != sep,
    ensures
        i < s.len() && s[i] == sep ==> first_index_of(s, sep) == i,
        i == s.len() ==> first_index_of(s, sep) == s.len(),
    decreases i,
{
    if i > 0 {
        lemma_first_index_prefix(s.drop_first(), i - 1, sep);
    } else if s.len() > 0 {
    }
}

proof fn lemma_count_zero(s: Seq<char>, sep: char)
    requires
        forall|j: int| 0 <= j < s.len() ==> #[trigger] s[j] != sep,
    ensures
        count_of(s, sep) == 0,
    decreases s.len(),
{
    if s.len() > 0 {
        lemma_count_zero(s.drop_last(), sep);
    }
}

/// Splits around the only `sep` in `v`; nothing when `v` holds no `sep` or
/// more than one.
pub fn split_once_exact(v: &[char], sep: char) -> (r: Option<(Vec<char>, Vec<char>)>)
    ensures
        match r {
            Some((a, b)) => split_pair(v@, sep) == Some((a@, b@)),
            None => split_pair(v@, sep) is None,
        },
{
    let n = v.len();
    let mut count: usize = 0;
    let mut first: usize = n;
    let mut i: usize = 0;
    while i < n
        invariant
            0 <= i <= n,
            n == v@.len(),
            count == count_of(v@.take(i as int), sep),
            count <= i,
            count == 0 ==> first == n && forall|j: int| 0 <= j < i ==> #[trigger] v@[j] != sep,
            count > 0 ==> first < i && v@[first as int] == sep && forall|j: int|
                0 <= j < first ==> #[trigger] v@[j] != sep,
        decreases n - i,
    {
        proof {
            lemma_count_first_step(v@, i as int, sep);
        }
        if v[i] == sep {
            if count == 0 {
                first = i;
            }
            count = count + 1;
        }
        i = i + 1;
    }
    assert(v@.take(n as int) =~= v@);
    if count != 1 {
        return None;
    }
    proof {
        lemma_first_index_prefix(v@, first as int, sep);
    }
    let mut a: Vec<char> = Vec::new();
    let mut k: usize = 0;
    while k < first
        invariant
            0 <= k <= first < n,
            n == v@.len(),
            a@ == v@.take(k as int),
        decreases first - k,
    {
        a.push(v[k]);
        k = k + 1;
        assert(v@.take(k as int) =~= v@.take(k - 1).push(v@[k - 1]));
    }
    let mut b: Vec<char> = Vec::new();
    let mut k: usize = first + 1;
    while k < n
        invariant
            first < k <= n,
            n == v@.len(),
            b@ == v@.subrange(first + 1, k as int),
        decreases n - k,
    {
        b.push(v[k]);
        k = k + 1;
    }
    assert(b@ =~= v@.skip(first + 1));
    Some((a, b))
}

/// The character of a decimal digit.
pub open spec fn digit_char(d: nat) -> char {
    if d == 0 {
        '0'
    } else if d == 1 {
        '1'
    } else if d == 2 {
        '2'
    } else if d == 3 {
        '3'
    } else if d == 4 {
        '4'
    } else if d == 5 {
        '5'
    } else if d == 6 {
        '6'
    } else if d == 7 {
        '7'
    } else if d == 8 {
        '8'
    } else {
        '9'
    }
}

/// A number written in decimal, without leading zeros.
pub open spec fn decimal(n: nat) -> Seq<char>
    decreases n,
{
    if n < 10 {
        seq![digit_char(n)]
    } else {
        decimal(n / 10) + seq![digit_char(n % 10)]
    }
}

fn digit(d: usize) -> (c: char)
    requires
        d < 10,
    ensures
        c == digit_char(d as nat),
{
    match d {
        0 => '0',
        1 => '1',
        2 => '2',
        3 => '3',
        4 => '4',
        5 => '5',
        6 => '6',
        7 => '7',
        8 => '8',
        _ => '9',
    }
}

fn push_decimal(out: &mut Vec<char>, n: usize)
    ensures
        final(out)@ == old(out)@ + decimal(n as nat),
    decreases n,
{
    if n >= 10 {
        push_decimal(out, n / 10);
    }
    out.push(digit(n % 10));
    assert(out@ =~= old(out)@ + decimal(n as nat));
}

/// A number written in decimal.
pub fn decimal_string(n: usize) -> (r: String)
    ensures
        r@ == decimal(n as nat),
{
    let mut digits: Vec<char> = Vec::new();
    push_decimal(&mut digits, n);
    assert(digits@ =~= decimal(n as nat));
    chars_to_string(digits.as_slice())
}

/// Each character of a decimal number is a digit, and its digits have the
/// number's value.
pub proof fn lemma_decimal_digits(n: nat)
    ensures
        decimal(n).len() > 0,
        forall|i: int| 0 <= i < decimal(n).len() ==> is_digit(#[trigger] decimal(n)[i]),
        digits_value(decimal(n)) == n,
    decreases n,
{
    lemma_digit_value(n % 10);
    if n < 10 {
        let d = decimal(n);
        assert(d.drop_last() =~= Seq::<char>::empty());
        assert(digits_value(Seq::<char>::empty()) == 0);
    } else {
        lemma_decimal_digits(n / 10);
        let d = decimal(n);
        assert(d.drop_last() =~= decimal(n / 10));
        assert forall|i: int| 0 <= i < d.len() implies is_digit(#[trigger] d[i]) by {
            if i < d.len() - 1 {
                assert(d[i] == decimal(n / 10)[i]);
            }
        }
    }
}

/// The character of a digit is a digit and has the digit's value.
proof fn lemma_digit_value(k: nat)
    requires
        k < 10,
    ensures
        is_digit(digit_char(k)),
        digit_char(k) as int - '0' as int == k,
{
}

/// A digit is neither white space nor a separator nor a sign.
proof fn lemma_digit_kind(c: char)
    requires
        is_digit(c),
    ensures
        !is_white(c),
        c != '.',
        c != '+',
{
}

/// Trimming leaves a decimal number as it is.
pub proof fn lemma_decimal_trim(n: nat)
    ensures
        spec_trim(decimal(n)) == decimal(n),
{
    lemma_decimal_digits(n);
    let d = decimal(n);
    lemma_digit_kind(d[0]);
    lemma_digit_kind(d.last());
    assert(trim_start(d) == d);
}

/// The number that `str::parse` reads from a decimal number is the number.
pub proof fn lemma_decimal_parse(n: nat, max: int)
    requires
        n <= max,
    ensures
        spec_parse_unsigned(decimal(n), max) == Some(n as int),
{
    lemma_decimal_digits(n);
    lemma_digit_kind(decimal(n)[0]);
}

/// A decimal number holds no separator.
pub proof fn lemma_decimal_no_sep(n: nat, sep: char)
    requires
        !is_digit(sep),
    ensures
        forall|j: int| 0 <= j < decimal(n).len() ==> #[trigger] decimal(n)[j] != sep,
{
    lemma_decimal_digits(n);
}

/// Two numbers joined by one separator split back into the two numbers.
pub proof fn lemma_decimal_split(a: nat, b: nat, sep: char)
    requires
        !is_digit(sep),
    ensures
        split_pair(decimal(a) + seq![sep] + decimal(b), sep) == Some((decimal(a), decimal(b))),
{
    let x = decimal(a);
    let y = decimal(b);
    let s = x + seq![sep] + y;
    lemma_decimal_no_sep(a, sep);
    lemma_decimal_no_sep(b, sep);
    assert forall|j: int| 0 <= j < x.len() implies #[trigger] s[j] != sep by {
        assert(s[j] == x[j]);
    }
    lemma_first_index_prefix(s, x.len() as int, sep);
    assert(s[x.len() as int] == sep);
    lemma_count_concat(x + seq![sep], y, sep);
    lemma_count_concat(x, seq![sep], sep);
    lemma_count_zero(x, sep);
    lemma_count_zero(y, sep);
    assert(seq![sep].drop_last() =~= Seq::<char>::empty());
    assert(count_of(Seq::<char>::empty(), sep) == 0);
    assert(seq![sep].last() == sep);
    assert(count_of(seq![sep], sep) == 1);
    assert(s.take(x.len() as int) =~= x);
    assert(s.skip(x.len() + 1int) =~= y);
}

/// Counting in two parts.
proof fn lemma_count_concat(x: Seq<char>, y: Seq<char>, sep: char)
    ensures
        count_of(x + y, sep) == count_of(x, sep) + count_of(y, sep),
    decreases y.len(),
{
    if y.len() > 0 {
        lemma_count_concat(x, y.drop_last(), sep);
        assert((x + y).drop_last() =~= x + y.drop_last());
    } else {
        assert(x + y =~= x);
    }
}

} // verus!
