//! Character-level text handling: the pieces of `str`'s behaviour that the
//! library's parsers and formatters rely on, each stated as a spec function
//! over `Seq<char>` and implemented by a verified loop.
use vstd::prelude::*;

verus! {

// ---------------------------------------------------------------------------
// Strings and character vectors
// ---------------------------------------------------------------------------

/// `String::push`: appends one character to the end of the string.
#[verifier::external_body]
pub fn string_push(s: &mut String, c: char)
    ensures
        final(s)@ == old(s)@.push(c),
{
    s.push(c);
}

/// The characters of `s`, in order.
pub fn chars_of(s: &str) -> (v: Vec<char>)
    ensures
        v@ == s@,
{
    let mut v: Vec<char> = Vec::new();
    for c in it: s.chars()
        invariant
            v@ == it.seq().take(it.index() as int),
            it.seq() == s@,
    {
        v.push(c);
    }
    v
}

/// Appends every character of `v` to `s`.
pub fn push_chars(s: &mut String, v: &[char])
    ensures
        final(s)@ == old(s)@ + v@,
{
    let n = v.len();
    for i in 0..n
        invariant
            n == v@.len(),
            s@ == old(s)@ + v@.take(i as int),
    {
        string_push(s, v[i]);
        assert(v@.take(i + 1) =~= v@.take(i as int).push(v@[i as int]));
    }
    assert(v@.take(n as int) =~= v@);
}

/// A `String` holding exactly the characters of `v`.
pub fn string_of(v: &[char]) -> (s: String)
    ensures
        s@ == v@,
{
    let mut s = String::new();
    push_chars(&mut s, v);
    s
}

// ---------------------------------------------------------------------------
// Character classes
// ---------------------------------------------------------------------------

/// Unicode `White_Space`, the property that `char::is_whitespace` tests.
pub open spec fn is_white(c: char) -> bool {
    ||| '\u{9}' <= c <= '\u{d}'
    ||| c == ' '
    ||| c == '\u{85}'
    ||| c == '\u{a0}'
    ||| c == '\u{1680}'
    ||| '\u{2000}' <= c <= '\u{200a}'
    ||| c == '\u{2028}'
    ||| c == '\u{2029}'
    ||| c == '\u{202f}'
    ||| c == '\u{205f}'
    ||| c == '\u{3000}'
}

pub fn is_white_char(c: char) -> (b: bool)
    ensures
        b == is_white(c),
{
    ('\u{9}' <= c && c <= '\u{d}') || c == ' ' || c == '\u{85}' || c == '\u{a0}' || c == '\u{1680}'
        || ('\u{2000}' <= c && c <= '\u{200a}') || c == '\u{2028}' || c == '\u{2029}' || c
        == '\u{202f}' || c == '\u{205f}' || c == '\u{3000}'
}

/// The characters that a trim removes.
#[derive(Clone, Copy, PartialEq, Eq)]
pub enum TrimClass {
    /// What `str::trim` removes.
    Whitespace,
    /// What `str::trim_matches('"')` removes.
    Quote,
}

pub open spec fn in_class(k: TrimClass, c: char) -> bool {
    match k {
        TrimClass::Whitespace => is_white(c),
        TrimClass::Quote => c == '"',
    }
}

fn in_class_exec(k: TrimClass, c: char) -> (b: bool)
    ensures
        b == in_class(k, c),
{
    match k {
        TrimClass::Whitespace => is_white_char(c),
        TrimClass::Quote => c == '"',
    }
}

// ---------------------------------------------------------------------------
// Trimming
// ---------------------------------------------------------------------------

/// `s` without its leading characters of class `k`.
pub open spec fn trim_start(s: Seq<char>, k: TrimClass) -> Seq<char>
    decreases s.len(),
{
    if s.len() > 0 && in_class(k, s[0]) {
        trim_start(s.skip(1), k)
    } else {
        s
    }
}

/// `s` without its trailing characters of class `k`.
pub open spec fn trim_end(s: Seq<char>, k: TrimClass) -> Seq<char>
    decreases s.len(),
{
    if s.len() > 0 && in_class(k, s.last()) {
        trim_end(s.drop_last(), k)
    } else {
        s
    }
}

/// `s` without leading and trailing characters of class `k`.
pub open spec fn trim(s: Seq<char>, k: TrimClass) -> Seq<char> {
    trim_end(trim_start(s, k), k)
}

/// What `str::trim` gives for a string with characters `s`.
pub open spec fn trim_ws(s: Seq<char>) -> Seq<char> {
    trim(s, TrimClass::Whitespace)
}

proof fn lemma_trim_start_skip(s: Seq<char>, k: TrimClass, i: int)
    requires
        0 <= i <= s.len(),
        forall|j: int| 0 <= j < i ==> in_class(k, #[trigger] s[j]),
    ensures
        trim_start(s, k) == trim_start(s.skip(i), k),
    decreases i,
{
    if i > 0 {
        assert(in_class(k, s[0]));
        lemma_trim_start_skip(s.skip(1), k, i - 1);
        assert(s.skip(1).skip(i - 1) =~= s.skip(i));
    } else {
        assert(s.skip(0) =~= s);
    }
}

proof fn lemma_trim_end_take(s: Seq<char>, k: TrimClass, j: int)
    requires
        0 <= j <= s.len(),
        forall|m: int| j <= m < s.len() ==> in_class(k, #[trigger] s[m]),
    ensures
        trim_end(s, k) == trim_end(s.take(j), k),
    decreases s.len() - j,
{
    if j < s.len() {
        assert(in_class(k, s.last()));
        lemma_trim_end_take(s.drop_last(), k, j);
        assert(s.drop_last().take(j) =~= s.take(j));
    } else {
        assert(s.take(j) =~= s);
    }
}

/// The characters of `v` without leading and trailing characters of class `k`.
pub fn trim_chars(v: &[char], k: TrimClass) -> (r: Vec<char>)
    ensures
        r@ == trim(v@, k),
{
    let n = v.len();
    let mut i: usize = 0;
    while i < n && in_class_exec(k, v[i])
        invariant
            n == v@.len(),
            i <= n,
            forall|j: int| 0 <= j < i ==> in_class(k, #[trigger] v@[j]),
        decreases n - i,
    {
        i = i + 1;
    }
    proof {
        lemma_trim_start_skip(v@, k, i as int);
        if i < n {
            assert(!in_class(k, v@.skip(i as int)[0]));
        }
        assert(trim_start(v@.skip(i as int), k) == v@.skip(i as int));
    }
    let mut j: usize = n;
    while j > i && in_class_exec(k, v[j - 1])
        invariant
            n == v@.len(),
            i <= j <= n,
            forall|m: int| j <= m < n ==> in_class(k, #[trigger] v@[m]),
        decreases j,
    {
        j = j - 1;
    }
    let ghost t = v@.skip(i as int);
    proof {
        assert forall|m: int| j - i <= m < t.len() implies in_class(k, #[trigger] t[m]) by {
            assert(t[m] == v@[m + i]);
        }
        lemma_trim_end_take(t, k, j - i);
        let u = t.take(j - i);
        if j > i {
            assert(u.last() == v@[j - 1]);
        }
        assert(trim_end(u, k) == u);
    }
    let mut r: Vec<char> = Vec::new();
    let mut p = i;
    while p < j
        invariant
            n == v@.len(),
            i <= p <= j <= n,
            r@ == v@.subrange(i as int, p as int),
        decreases j - p,
    {
        r.push(v[p]);
        assert(v@.subrange(i as int, p + 1) =~= v@.subrange(i as int, p as int).push(v@[p as int]));
        p = p + 1;
    }
    assert(r@ =~= t.take(j - i));
    r
}

// ---------------------------------------------------------------------------
// Decimal numbers
// ---------------------------------------------------------------------------

/// The ASCII digit for `d`, for `d < 10`.
pub open spec fn digit_char(d: nat) -> char {
    if d == 0 { '0' }
    else if d == 1 { '1' }
    else if d == 2 { '2' }
    else if d == 3 { '3' }
    else if d == 4 { '4' }
    else if d == 5 { '5' }
    else if d == 6 { '6' }
    else if d == 7 { '7' }
    else if d == 8 { '8' }
    else { '9' }
}

/// The value of an ASCII digit.
pub open spec fn digit_value(c: char) -> nat {
    (c as nat - '0' as nat) as nat
}

pub open spec fn is_digit(c: char) -> bool {
    '0' <= c <= '9'
}

/// How `{}` writes a non-negative integer: its decimal digits, without
/// leading zeros.
pub open spec fn decimal(n: nat) -> Seq<char>
    decreases n,
{
    if n < 10 {
        seq![digit_char(n)]
    } else {
        decimal(n / 10).push(digit_char(n % 10))
    }
}

/// `n` written with at least `width` digits, padded with zeros on the left
/// (the format `{:0width$}`).
pub open spec fn zero_padded(n: nat, width: nat) -> Seq<char> {
    let d = decimal(n);
    if d.len() < width {
        Seq::new((width - d.len()) as nat, |i: int| '0') + d
    } else {
        d
    }
}

/// The value of a sequence of ASCII digits.
pub open spec fn digits_value(s: Seq<char>) -> nat
    decreases s.len(),
{
    if s.len() == 0 {
        0
    } else {
        digits_value(s.drop_last()) * 10 + digit_value(s.last())
    }
}

pub open spec fn all_digits(s: Seq<char>) -> bool {
    forall|i: int| 0 <= i < s.len() ==> is_digit(#[trigger] s[i])
}

/// What `str::parse::<usize>` gives: an optional `+`, then one or more ASCII
/// digits whose value fits in a `usize`.
pub open spec fn parse_usize_spec(s: Seq<char>) -> Option<usize> {
    let d = if s.len() > 0 && s[0] == '+' { s.skip(1) } else { s };
    if d.len() > 0 && all_digits(d) && digits_value(d) <= usize::MAX {
        Some(digits_value(d) as usize)
    } else {
        None
    }
}

fn digit_of(d: u64) -> (c: char)
    requires
        d < 10,
    ensures
        c == digit_char(d as nat),
{
    if d == 0 { '0' }
    else if d == 1 { '1' }
    else if d == 2 { '2' }
    else if d == 3 { '3' }
    else if d == 4 { '4' }
    else if d == 5 { '5' }
    else if d == 6 { '6' }
    else if d == 7 { '7' }
    else if d == 8 { '8' }
    else { '9' }
}

/// Appends the decimal digits of `n` to `s`.
pub fn push_decimal(s: &mut String, n: u64)
    ensures
        final(s)@ == old(s)@ + decimal(n as nat),
    decreases n,
{
    if n >= 10 {
        push_decimal(s, n / 10);
    }
    string_push(s, digit_of(n % 10));
}

/// Appends `n` padded with zeros on the left to at least `width` digits.
pub fn push_zero_padded(s: &mut String, n: u64, width: usize)
    ensures
        final(s)@ == old(s)@ + zero_padded(n as nat, width as nat),
{
    let mut digits = String::new();
    push_decimal(&mut digits, n);
    let d = chars_of(digits.as_str());
    let len = d.len();
    if len < width {
        let mut k: usize = 0;
        while k < width - len
            invariant
                len < width,
                k <= width - len,
                s@ == old(s)@ + Seq::new(k as nat, |i: int| '0'),
            decreases width - len - k,
        {
            string_push(s, '0');
            assert(Seq::new((k + 1) as nat, |i: int| '0') =~= Seq::new(k as nat, |i: int| '0').push('0'));
            k = k + 1;
        }
    }
    push_chars(s, d.as_slice());
    assert(s@ =~= old(s)@ + zero_padded(n as nat, width as nat));
}

/// `n` in decimal, as `n.to_string()` writes it.
pub fn usize_to_string(n: usize) -> (s: String)
    ensures
        s@ == decimal(n as nat),
{
    let mut s = String::new();
    push_decimal(&mut s, n as u64);
    assert(s@ =~= decimal(n as nat));
    s
}

proof fn lemma_digit_char(d: nat)
    requires
        d < 10,
    ensures
        is_digit(digit_char(d)),
        digit_value(digit_char(d)) == d,
        digit_char(d) != ',',
        digit_char(d) != '+',
{
}

/// The decimal form of `n` is made of digits that read back as `n`.
pub proof fn lemma_decimal(n: nat)
    ensures
        decimal(n).len() > 0,
        all_digits(decimal(n)),
        digits_value(decimal(n)) == n,
        decimal(n)[0] != '+',
        !decimal(n).contains(','),
    decreases n,
{
    if n < 10 {
        lemma_digit_char(n);
        assert(decimal(n).drop_last() =~= Seq::<char>::empty());
        assert(digits_value(Seq::<char>::empty()) == 0);
    } else {
        lemma_decimal(n / 10);
        lemma_digit_char(n % 10);
        let d = decimal(n);
        assert(d.drop_last() =~= decimal(n / 10));
        assert(d.last() == digit_char(n % 10));
        assert(digits_value(d) == digits_value(decimal(n / 10)) * 10 + digit_value(d.last()));
        assert(n == (n / 10) * 10 + n % 10);
        assert forall|i: int| 0 <= i < d.len() implies is_digit(#[trigger] d[i]) by {
            if i < d.len() - 1 {
                assert(d[i] == decimal(n / 10)[i]);
            }
        }
        assert(d[0] == decimal(n / 10)[0]);
        assert forall|i: int| 0 <= i < d.len() implies d[i] != ',' by {
            if i < d.len() - 1 {
                assert(d[i] == decimal(n / 10)[i]);
            }
        }
    }
}

/// `str::parse::<usize>` reads back what `{}` wrote.
pub proof fn lemma_parse_decimal(n: usize)
    ensures
        parse_usize_spec(decimal(n as nat)) == Some(n),
{
    lemma_decimal(n as nat);
}

proof fn lemma_digits_value_push(s: Seq<char>, c: char)
    ensures
        digits_value(s.push(c)) == digits_value(s) * 10 + digit_value(c),
{
    assert(s.push(c).drop_last() =~= s);
}

/// Reads a `usize` as `str::parse::<usize>` does.
pub fn parse_usize(v: &[char]) -> (r: Option<usize>)
    ensures
        r == parse_usize_spec(v@),
{
    let n = v.len();
    let start: usize = if n > 0 && v[0] == '+' { 1 } else { 0 };
    let ghost d = if v@.len() > 0 && v@[0] == '+' { v@.skip(1) } else { v@ };
    assert(d =~= v@.skip(start as int));
    if start == n {
        return None;
    }
    let mut value: usize = 0;
    let mut i = start;
    while i < n
        invariant
            start <= i <= n,
            start < n,
            n == v@.len(),
            d == v@.skip(start as int),
            d == (if v@.len() > 0 && v@[0] == '+' { v@.skip(1) } else { v@ }),
            all_digits(d.take(i - start)),
            value as nat == digits_value(d.take(i - start)),
        decreases n - i,
    {
        let c = v[i];
        if !('0' <= c && c <= '9') {
            proof {
                assert(d[i - start] == c);
                assert(!all_digits(d));
            }
            return None;
        }
        let dv = (c as u32 - '0' as u32) as usize;
        assert(dv == digit_value(c));
        assert(d[i - start] == c);
        assert(d.take(i + 1 - start) =~= d.take(i - start).push(c));
        proof {
            lemma_digits_value_push(d.take(i - start), c);
        }
        if value > (usize::MAX - dv) / 10 {
            proof {
                assert(value * 10 + dv > usize::MAX) by (nonlinear_arith)
                    requires
                        value > (usize::MAX - dv) / 10,
                        dv < 10,
                ;
                lemma_digits_prefix_bound(d, (i + 1 - start) as int);
            }
            return None;
        }
        assert(value * 10 + dv <= usize::MAX) by (nonlinear_arith)
            requires
                value <= (usize::MAX - dv) / 10,
                dv < 10,
        ;
        value = value * 10 + dv;
        i = i + 1;
    }
    assert(d.take(n - start) =~= d);
    Some(value)
}

/// The value of a digit string is at least the value of any of its prefixes.
proof fn lemma_digits_prefix_bound(d: Seq<char>, k: int)
    requires
        0 <= k <= d.len(),
        all_digits(d.take(k)),
    ensures
        all_digits(d) ==> digits_value(d) >= digits_value(d.take(k)),
    decreases d.len() - k,
{
    if k < d.len() && all_digits(d) {
        assert(all_digits(d.take(k + 1)));
        lemma_digits_prefix_bound(d, k + 1);
        assert(d.take(k + 1).drop_last() =~= d.take(k));
    } else if k == d.len() {
        assert(d.take(k) =~= d);
    }
}

/// The character sequences held by a vector of character vectors.
pub open spec fn char_rows(r: Seq<Vec<char>>) -> Seq<Seq<char>> {
    r.map_values(|v: Vec<char>| v@)
}

// ---------------------------------------------------------------------------
// Splitting
// ---------------------------------------------------------------------------

/// The index of the first `c` in `s`, if any.
pub open spec fn first_index(s: Seq<char>, c: char) -> Option<nat>
    decreases s.len(),
{
    if s.len() == 0 {
        None
    } else if s[0] == c {
        Some(0)
    } else {
        match first_index(s.skip(1), c) {
            Some(i) => Some(i + 1),
            None => None,
        }
    }
}

pub proof fn lemma_first_index(s: Seq<char>, c: char)
    ensures
        match first_index(s, c) {
            Some(i) => i < s.len() && s[i as int] == c && forall|j: int|
                0 <= j < i ==> #[trigger] s[j] != c,
            None => forall|j: int| 0 <= j < s.len() ==> #[trigger] s[j] != c,
        },
    decreases s.len(),
{
    if s.len() > 0 && s[0] != c {
        lemma_first_index(s.skip(1), c);
        assert forall|j: int| 1 <= j < s.len() implies #[trigger] s[j] == s.skip(1)[j - 1] by {}
    }
}

/// Finds the first `c` in `v`.
pub fn find_char(v: &[char], c: char) -> (r: Option<usize>)
    ensures
        r matches Some(i) ==> first_index(v@, c) == Some(i as nat),
        r is None ==> first_index(v@, c) is None,
{
    let n = v.len();
    for i in 0..n
        invariant
            n == v@.len(),
            forall|j: int| 0 <= j < i ==> v@[j] != c,
    {
        if v[i] == c {
            proof {
                lemma_first_index(v@, c);
                match first_index(v@, c) {
                    Some(k) => {
                        if k < i {
                            assert(v@[k as int] == c);
                        } else if k > i {
                            assert(v@[i as int] == c);
                        }
                    },
                    None => {
                        assert(v@[i as int] == c);
                    },
                }
            }
            return Some(i);
        }
    }
    proof {
        lemma_first_index(v@, c);
        match first_index(v@, c) {
            Some(k) => {
                assert(v@[k as int] == c);
            },
            None => {},
        }
    }
    None
}

/// What `str::splitn(n, sep)` yields: at most `n` pieces, all but the last
/// ending at a separator, the last holding the rest.
pub open spec fn splitn(s: Seq<char>, n: nat, sep: char) -> Seq<Seq<char>>
    decreases n,
{
    if n == 0 {
        seq![]
    } else if n == 1 {
        seq![s]
    } else {
        match first_index(s, sep) {
            None => seq![s],
            Some(i) => seq![s.take(i as int)] + splitn(s.skip((i + 1) as int), (n - 1) as nat, sep),
        }
    }
}

/// Splits `v` at the separator as `str::splitn(n, sep)` does.
pub fn splitn_chars(v: &[char], n: usize, sep: char) -> (r: Vec<Vec<char>>)
    ensures
        char_rows(r@) == splitn(v@, n as nat, sep),
    decreases n,
{
    if n == 0 {
        let r: Vec<Vec<char>> = Vec::new();
        assert(splitn(v@, n as nat, sep) == Seq::<Seq<char>>::empty());
        assert(char_rows(r@).len() == 0);
        assert(char_rows(r@) =~= splitn(v@, n as nat, sep));
        return r;
    }
    if n == 1 {
        let mut r: Vec<Vec<char>> = Vec::new();
        r.push(slice_prefix(v, v.len()));
        assert(v@.take(v@.len() as int) =~= v@);
        assert(char_rows(r@) =~= splitn(v@, n as nat, sep));
        return r;
    }
    proof {
        lemma_first_index(v@, sep);
    }
    match find_char(v, sep) {
        None => {
            let mut r: Vec<Vec<char>> = Vec::new();
            r.push(slice_prefix(v, v.len()));
            assert(v@.take(v@.len() as int) =~= v@);
            assert(char_rows(r@) =~= splitn(v@, n as nat, sep));
            r
        },
        Some(i) => {
            let len = v.len();
            assert(i < len);
            let head = slice_prefix(v, i);
            let tail = slice_suffix(v, i + 1);
            let rest = splitn_chars(tail.as_slice(), n - 1, sep);
            let mut r: Vec<Vec<char>> = Vec::new();
            r.push(head);
            let m = rest.len();
            for j in 0..m
                invariant
                    m == char_rows(rest@).len(),
                    char_rows(r@) == seq![v@.take(i as int)] + char_rows(rest@).take(j as int),
            {
                let row = slice_prefix(rest[j].as_slice(), rest[j].len());
                assert(rest@[j as int]@.take(rest@[j as int]@.len() as int) =~= rest@[j as int]@);
                let ghost old_r = r@;
                assert(char_rows(old_r).len() == 1 + j);
                r.push(row);
                assert(r@ == old_r.push(row));
                assert forall|k: int| 0 <= k < r@.len() implies #[trigger] char_rows(r@)[k] == (seq![v@.take(i as int)] + char_rows(rest@).take(j + 1))[k] by {
                    if k < r@.len() - 1 {
                        assert(r@[k] == old_r[k]);
                        assert(char_rows(old_r)[k] == old_r[k]@);
                    } else {
                        assert(r@[k]@ == rest@[j as int]@);
                        assert(char_rows(rest@)[j as int] == rest@[j as int]@);
                    }
                }
                assert(char_rows(rest@).take(j + 1) =~= char_rows(rest@).take(j as int).push(
                    char_rows(rest@)[j as int],
                ));
                assert(char_rows(r@) =~= seq![v@.take(i as int)] + char_rows(rest@).take(j + 1));
            }
            assert(char_rows(rest@).take(m as int) =~= char_rows(rest@));
            r
        },
    }
}

/// The first `i` characters of `v`.
pub fn slice_prefix(v: &[char], i: usize) -> (r: Vec<char>)
    requires
        i <= v@.len(),
    ensures
        r@ == v@.take(i as int),
{
    let mut r: Vec<char> = Vec::new();
    for j in 0..i
        invariant
            i <= v@.len(),
            r@ == v@.take(j as int),
    {
        r.push(v[j]);
        assert(v@.take(j + 1) =~= v@.take(j as int).push(v@[j as int]));
    }
    r
}

/// The characters of `v` from index `i` on.
pub fn slice_suffix(v: &[char], i: usize) -> (r: Vec<char>)
    requires
        i <= v@.len(),
    ensures
        r@ == v@.skip(i as int),
{
    let n = v.len();
    let mut r: Vec<char> = Vec::new();
    for j in i..n
        invariant
            i <= j <= n,
            n == v@.len(),
            r@ == v@.subrange(i as int, j as int),
    {
        r.push(v[j]);
        assert(v@.subrange(i as int, j + 1) =~= v@.subrange(i as int, j as int).push(
            v@[j as int],
        ));
    }
    assert(v@.subrange(i as int, n as int) =~= v@.skip(i as int));
    r
}

// ---------------------------------------------------------------------------
// Lines
// ---------------------------------------------------------------------------

/// The pieces of `s` between newlines (like `str::split('\n')`): always at
/// least one piece.
pub open spec fn split_newlines(s: Seq<char>) -> Seq<Seq<char>>
    decreases s.len(),
{
    if s.len() == 0 {
        seq![Seq::<char>::empty()]
    } else {
        let rest = split_newlines(s.drop_last());
        if s.last() == '\n' {
            rest.push(Seq::<char>::empty())
        } else {
            rest.update(rest.len() - 1, rest.last().push(s.last()))
        }
    }
}

/// `l` without one trailing carriage return.
pub open spec fn strip_cr(l: Seq<char>) -> Seq<char> {
    if l.len() > 0 && l.last() == '\r' {
        l.drop_last()
    } else {
        l
    }
}

/// What `str::lines` yields: lines end at `\n` or `\r\n`, and the final line
/// ending is optional.
pub open spec fn lines(s: Seq<char>) -> Seq<Seq<char>> {
    let p = split_newlines(s);
    let ended = p.drop_last().map_values(|l: Seq<char>| strip_cr(l));
    if p.last().len() == 0 {
        ended
    } else {
        ended.push(p.last())
    }
}

proof fn lemma_split_newlines_len(s: Seq<char>)
    ensures
        split_newlines(s).len() >= 1,
    decreases s.len(),
{
    if s.len() > 0 {
        lemma_split_newlines_len(s.drop_last());
    }
}

fn strip_cr_vec(l: Vec<char>) -> (r: Vec<char>)
    ensures
        r@ == strip_cr(l@),
{
    let mut l = l;
    let n = l.len();
    if n > 0 && l[n - 1] == '\r' {
        l.pop();
    }
    l
}

/// Splits `v` into lines as `str::lines` does.
pub fn split_lines(v: &[char]) -> (r: Vec<Vec<char>>)
    ensures
        char_rows(r@) == lines(v@),
{
    let n = v.len();
    let mut done: Vec<Vec<char>> = Vec::new();
    let mut cur: Vec<char> = Vec::new();
    for i in 0..n
        invariant
            n == v@.len(),
            split_newlines(v@.take(i as int)).len() >= 1,
            char_rows(done@) == split_newlines(v@.take(i as int)).drop_last().map_values(
                |l: Seq<char>| strip_cr(l),
            ),
            cur@ == split_newlines(v@.take(i as int)).last(),
    {
        let ghost pre = v@.take(i as int);
        proof {
            lemma_split_newlines_len(pre);
            assert(v@.take(i + 1).drop_last() =~= pre);
        }
        let c = v[i];
        let ghost old_done = done@;
        if c == '\n' {
            let mut line: Vec<char> = Vec::new();
            std::mem::swap(&mut line, &mut cur);
            let ghost line_v = line@;
            let stripped = strip_cr_vec(line);
            done.push(stripped);
            proof {
                let p = split_newlines(v@.take(i + 1));
                assert(p =~= split_newlines(pre).push(Seq::<char>::empty()));
                let q = split_newlines(pre);
                assert(p.drop_last() =~= q);
                assert(char_rows(old_done).len() == q.len() - 1);
                assert(old_done.len() == q.len() - 1);
                assert(done@ == old_done.push(stripped));
                assert forall|k: int| 0 <= k < q.len() implies #[trigger] char_rows(done@)[k] == strip_cr(q[k]) by {
                    if k < q.len() - 1 {
                        assert(char_rows(old_done).len() == q.len() - 1);
                        assert(old_done.len() == q.len() - 1);
                        assert(done@ == old_done.push(done@.last()));
                        assert(done@[k] == old_done[k]);
                        assert(char_rows(done@)[k] == done@[k]@);
                        assert(char_rows(old_done)[k] == old_done[k]@);
                        assert(q.drop_last()[k] == q[k]);
                    } else {
                        assert(line_v == q.last());
                        assert(done@[k] == stripped);
                    }
                }
                assert(char_rows(done@) =~= p.drop_last().map_values(|l: Seq<char>| strip_cr(l)));
            }
        } else {
            cur.push(c);
            proof {
                let q = split_newlines(pre);
                let p = split_newlines(v@.take(i + 1));
                assert(p =~= q.update(q.len() - 1, q.last().push(c)));
                assert(p.drop_last() =~= q.drop_last());
            }
        }
    }
    assert(v@.take(n as int) =~= v@);
    if cur.len() > 0 {
        done.push(cur);
    }
    proof {
        let p = split_newlines(v@);
        assert(char_rows(done@) =~= lines(v@));
    }
    done
}

} // verus!
