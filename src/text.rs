//! Character-level helpers: decimal digits, file names and extensions.

use vstd::prelude::*;

verus! {

pub open spec fn is_digit(c: char) -> bool {
    '0' <= c && c <= '9'
}

pub open spec fn digit_value(c: char) -> int {
    c as int - '0' as int
}

/// The decimal value of a run of ASCII digits.
pub open spec fn decimal_value(s: Seq<char>) -> int
    decreases s.len(),
{
    if s.len() == 0 {
        0
    } else {
        decimal_value(s.drop_last()) * 10 + digit_value(s.last())
    }
}

pub open spec fn digit_char(d: int) -> char {
    seq!['0', '1', '2', '3', '4', '5', '6', '7', '8', '9'][d]
}

/// `n` written in decimal with exactly `width` digits (the low `width` digits
/// of `n`, zero-padded on the left).
pub open spec fn padded_decimal(n: nat, width: nat) -> Seq<char>
    decreases width,
{
    if width == 0 {
        Seq::empty()
    } else {
        padded_decimal(n / 10, (width - 1) as nat).push(digit_char((n % 10) as int))
    }
}

/// Number of decimal digits of `n` written without leading zeros (one for zero).
pub open spec fn decimal_width(n: nat) -> nat
    decreases n,
{
    if n < 10 {
        1
    } else {
        1 + decimal_width(n / 10)
    }
}

/// `n` in decimal without leading zeros.
pub open spec fn decimal(n: nat) -> Seq<char> {
    padded_decimal(n, decimal_width(n))
}

/// Index of the last occurrence of `c` in `s`, or -1.
pub open spec fn last_index_of(s: Seq<char>, c: char) -> int
    decreases s.len(),
{
    if s.len() == 0 {
        -1
    } else if s.last() == c {
        s.len() - 1
    } else {
        last_index_of(s.drop_last(), c)
    }
}

/// The part of `p` after its last `/`.
pub open spec fn last_segment(p: Seq<char>) -> Seq<char> {
    p.subrange(last_index_of(p, '/') + 1, p.len() as int)
}

/// The final component of a `/`-separated path: trailing separators and `.`
/// components are passed over; a path that ends in `..`, or has no component,
/// has none.
pub open spec fn file_name_of(p: Seq<char>) -> Option<Seq<char>>
    decreases p.len(),
{
    if p.len() == 0 {
        None
    } else if p.last() == '/' {
        file_name_of(p.drop_last())
    } else if last_segment(p) == seq!['.'] {
        file_name_of(p.drop_last())
    } else if last_segment(p) == seq!['.', '.'] {
        None
    } else {
        Some(last_segment(p))
    }
}

/// The extension of a file name: what follows its last `.`, where something
/// precedes that dot.
pub open spec fn extension_of(f: Seq<char>) -> Option<Seq<char>> {
    let i = last_index_of(f, '.');
    if i <= 0 || f == seq!['.', '.'] {
        None
    } else {
        Some(f.subrange(i + 1, f.len() as int))
    }
}

/// A file name without its extension.
pub open spec fn stem_of(f: Seq<char>) -> Seq<char> {
    let i = last_index_of(f, '.');
    if i <= 0 || f == seq!['.', '.'] {
        f
    } else {
        f.subrange(0, i)
    }
}

/// What `str::to_lowercase` makes of a text.
pub uninterp spec fn lower_of(s: Seq<char>) -> Seq<char>;

/// Relies on `str::to_lowercase`: Unicode lower-casing, which depends on the
/// characters alone.
#[verifier::external_body]
pub(crate) fn lowercase(s: &str) -> (r: String)
    ensures
        r@ == lower_of(s@),
{
    s.to_lowercase()
}

/// Relies on `String`'s `FromIterator<char>`: the characters in order.
#[verifier::external_body]
pub(crate) fn string_of(v: &Vec<char>) -> (r: String)
    ensures
        r@ == v@,
{
    v.iter().collect()
}

pub fn chars_of(s: &str) -> (r: Vec<char>)
    ensures
        r@ == s@,
{
    let n = s.unicode_len();
    let mut r: Vec<char> = Vec::new();
    let mut i: usize = 0;
    while i < n
        invariant
            n == s@.len(),
            i <= n,
            r@ == s@.subrange(0, i as int),
        decreases n - i,
    {
        r.push(s.get_char(i));
        i = i + 1;
    }
    assert(r@ == s@);
    r
}

/// Index of the last `c` among the first `end` characters of `s`.
pub fn last_index(s: &Vec<char>, end: usize, c: char) -> (r: Option<usize>)
    requires
        end <= s@.len(),
    ensures
        r is None <==> last_index_of(s@.subrange(0, end as int), c) == -1,
        r matches Some(i) ==> i as int == last_index_of(s@.subrange(0, end as int), c),
        -1 <= last_index_of(s@.subrange(0, end as int), c) < end,
{
    let ghost t = s@.subrange(0, end as int);
    let mut i: usize = end;
    assert(t.subrange(0, i as int) == t);
    proof { lemma_last_index_bounds(t, c); }
    while i > 0
        invariant
            i <= end <= s@.len(),
            t == s@.subrange(0, end as int),
            last_index_of(t, c) == last_index_of(t.subrange(0, i as int), c),
        decreases i,
    {
        proof {
            assert(t.subrange(0, i as int).drop_last() == t.subrange(0, i - 1));
        }
        if s[i - 1] == c {
            return Some(i - 1);
        }
        i = i - 1;
    }
    assert(t.subrange(0, 0) == Seq::<char>::empty());
    None
}

/// The characters of `s` from `from` up to `to`.
pub fn slice_chars(s: &Vec<char>, from: usize, to: usize) -> (r: Vec<char>)
    requires
        from <= to <= s@.len(),
    ensures
        r@ == s@.subrange(from as int, to as int),
{
    let mut r: Vec<char> = Vec::new();
    let mut i: usize = from;
    while i < to
        invariant
            from <= i <= to <= s@.len(),
            r@ == s@.subrange(from as int, i as int),
        decreases to - i,
    {
        r.push(s[i]);
        i = i + 1;
    }
    r
}

/// The final component of a `/`-separated path.
pub fn file_name(p: &Vec<char>) -> (r: Option<Vec<char>>)
    ensures
        r is None <==> file_name_of(p@) is None,
        r matches Some(f) ==> file_name_of(p@) == Some(f@),
{
    let mut end: usize = p.len();
    assert(p@.subrange(0, end as int) == p@);
    while end > 0
        invariant
            end <= p@.len(),
            file_name_of(p@) == file_name_of(p@.subrange(0, end as int)),
        decreases end,
    {
        let ghost q = p@.subrange(0, end as int);
        assert(q.drop_last() == p@.subrange(0, end - 1));
        if p[end - 1] == '/' {
            end = end - 1;
        } else {
            let start: usize = match last_index(p, end, '/') {
                Some(k) => k + 1,
                None => 0,
            };
            let seg = slice_chars(p, start, end);
            assert(seg@ == last_segment(q));
            if seg.len() == 1 && seg[0] == '.' {
                assert(seg@ == seq!['.']);
                end = end - 1;
            } else if seg.len() == 2 && seg[0] == '.' && seg[1] == '.' {
                assert(seg@ == seq!['.', '.']);
                return None;
            } else {
                assert(seg@ != seq!['.']);
                assert(seg@ != seq!['.', '.']);
                return Some(seg);
            }
        }
    }
    None
}

/// The extension of a file name, as `extension_of` gives it.
pub fn extension(f: &Vec<char>) -> (r: Option<Vec<char>>)
    ensures
        r is None <==> extension_of(f@) is None,
        r matches Some(e) ==> extension_of(f@) == Some(e@),
{
    assert(f@.subrange(0, f@.len() as int) == f@);
    let is_parent = f.len() == 2 && f[0] == '.' && f[1] == '.';
    assert(is_parent <==> f@ =~= seq!['.', '.']);
    match last_index(f, f.len(), '.') {
        Some(i) => {
            if i == 0 || is_parent {
                None
            } else {
                Some(slice_chars(f, i + 1, f.len()))
            }
        },
        None => None,
    }
}

/// A file name without its extension, as `stem_of` gives it.
pub fn stem(f: &Vec<char>) -> (r: Vec<char>)
    ensures
        r@ == stem_of(f@),
{
    assert(f@.subrange(0, f@.len() as int) == f@);
    let is_parent = f.len() == 2 && f[0] == '.' && f[1] == '.';
    assert(is_parent <==> f@ =~= seq!['.', '.']);
    match last_index(f, f.len(), '.') {
        Some(i) => {
            if i == 0 || is_parent {
                slice_chars(f, 0, f.len())
            } else {
                slice_chars(f, 0, i)
            }
        },
        None => slice_chars(f, 0, f.len()),
    }
}

fn digit_to_char(d: u64) -> (r: char)
    requires
        d < 10,
    ensures
        r == digit_char(d as int),
{
    if d == 0 { '0' } else if d == 1 { '1' } else if d == 2 { '2' } else if d == 3 { '3' }
    else if d == 4 { '4' } else if d == 5 { '5' } else if d == 6 { '6' } else if d == 7 { '7' }
    else if d == 8 { '8' } else { '9' }
}

/// `n` written with exactly `width` decimal digits.
pub fn padded_digits(n: u64, width: usize) -> (r: Vec<char>)
    ensures
        r@ == padded_decimal(n as nat, width as nat),
{
    let mut r: Vec<char> = Vec::new();
    let mut v: u64 = n;
    let mut k: usize = 0;
    while k < width
        invariant
            k <= width,
            padded_decimal(n as nat, width as nat) == padded_decimal(v as nat, (width - k) as nat) + r@,
        decreases width - k,
    {
        let ghost before = r@;
        r.insert(0, digit_to_char(v % 10));
        assert(padded_decimal(v as nat, (width - k) as nat) == padded_decimal((v / 10) as nat, (width - k - 1) as nat).push(digit_char((v % 10) as int)));
        assert(padded_decimal((v / 10) as nat, (width - k - 1) as nat).push(digit_char((v % 10) as int)) + before
            =~= padded_decimal((v / 10) as nat, (width - k - 1) as nat) + r@);
        v = v / 10;
        k = k + 1;
    }
    assert(padded_decimal(v as nat, 0) + r@ =~= r@);
    r
}

/// `n` in decimal, without leading zeros.
pub fn decimal_digits(n: u64) -> (r: Vec<char>)
    ensures
        r@ == decimal(n as nat),
{
    let mut width: usize = 1;
    let mut v: u64 = n;
    proof { lemma_u64_decimal_width(n); }
    while v >= 10
        invariant
            1 <= width,
            decimal_width(n as nat) <= 20,
            decimal_width(n as nat) == width - 1 + decimal_width(v as nat),
        decreases v,
    {
        proof { lemma_u64_decimal_width(v / 10); }
        v = v / 10;
        width = width + 1;
    }
    padded_digits(n, width)
}

pub open spec fn pow10(n: nat) -> int
    decreases n,
{
    if n == 0 {
        1
    } else {
        10 * pow10((n - 1) as nat)
    }
}

proof fn lemma_decimal_width_le(n: nat, k: nat)
    requires
        k >= 1,
        n < pow10(k),
    ensures
        1 <= decimal_width(n) <= k,
    decreases n,
{
    if n >= 10 {
        assert(k >= 2) by {
            if k == 1 {
                reveal_with_fuel(pow10, 2);
            }
        }
        assert(pow10(k) == 10 * pow10((k - 1) as nat));
        assert(n / 10 < pow10((k - 1) as nat));
        lemma_decimal_width_le(n / 10, (k - 1) as nat);
    }
}

proof fn lemma_u64_decimal_width(n: u64)
    ensures
        1 <= decimal_width(n as nat) <= 20,
{
    reveal_with_fuel(pow10, 21);
    assert(pow10(20) == 100000000000000000000);
    lemma_decimal_width_le(n as nat, 20);
}

proof fn lemma_digit_value_of_char(d: int)
    requires
        0 <= d < 10,
    ensures
        digit_value(digit_char(d)) == d,
        is_digit(digit_char(d)),
{
    let t = seq!['0', '1', '2', '3', '4', '5', '6', '7', '8', '9'];
    assert(digit_char(d) == t[d]);
    if d == 0 { assert(t[0] == '0'); } else if d == 1 { assert(t[1] == '1'); } else if d == 2 { assert(t[2] == '2'); }
    else if d == 3 { assert(t[3] == '3'); } else if d == 4 { assert(t[4] == '4'); } else if d == 5 { assert(t[5] == '5'); }
    else if d == 6 { assert(t[6] == '6'); } else if d == 7 { assert(t[7] == '7'); } else if d == 8 { assert(t[8] == '8'); }
    else { assert(t[9] == '9'); }
}

pub proof fn lemma_padded_len(n: nat, w: nat)
    ensures
        padded_decimal(n, w).len() == w,
    decreases w,
{
    if w > 0 {
        lemma_padded_len(n / 10, (w - 1) as nat);
    }
}

/// Reading back the digits of a number that fits gives the number.
pub proof fn lemma_padded_value(n: nat, w: nat)
    requires
        n < pow10(w),
    ensures
        decimal_value(padded_decimal(n, w)) == n,
    decreases w,
{
    if w == 0 {
        assert(pow10(0) == 1);
    } else {
        let s = padded_decimal((n / 10) as nat, (w - 1) as nat);
        assert(pow10(w) == 10 * pow10((w - 1) as nat));
        lemma_padded_value((n / 10) as nat, (w - 1) as nat);
        lemma_digit_value_of_char((n % 10) as int);
        let t = s.push(digit_char((n % 10) as int));
        assert(t.drop_last() =~= s);
    }
}

pub proof fn lemma_decimal_width_fits(n: nat)
    ensures
        n < pow10(decimal_width(n)),
        decimal_width(n) >= 1,
    decreases n,
{
    reveal_with_fuel(pow10, 2);
    if n >= 10 {
        lemma_decimal_width_fits(n / 10);
        assert(pow10(decimal_width(n)) == 10 * pow10(decimal_width(n / 10)));
    }
}

/// Distinct numbers are written differently.
pub proof fn lemma_decimal_injective(a: nat, b: nat)
    requires
        decimal(a) == decimal(b),
    ensures
        a == b,
{
    lemma_decimal_width_fits(a);
    lemma_decimal_width_fits(b);
    lemma_padded_value(a, decimal_width(a));
    lemma_padded_value(b, decimal_width(b));
}

/// A file name with an extension is its stem, a dot and the extension.
pub proof fn lemma_stem_extension_len(f: Seq<char>)
    requires
        extension_of(f) is Some,
    ensures
        f.len() == stem_of(f).len() + 1 + extension_of(f)->0.len(),
{
    lemma_last_index_bounds(f, '.');
}

pub proof fn lemma_last_index_bounds(s: Seq<char>, c: char)
    ensures
        -1 <= last_index_of(s, c) < s.len(),
        last_index_of(s, c) >= 0 ==> s[last_index_of(s, c)] == c,
        forall|j: int| last_index_of(s, c) < j < s.len() ==> s[j] != c,
    decreases s.len(),
{
    if s.len() > 0 && s.last() != c {
        lemma_last_index_bounds(s.drop_last(), c);
        assert forall|j: int| last_index_of(s, c) < j < s.len() implies s[j] != c by {
            if j < s.len() - 1 {
                assert(s[j] == s.drop_last()[j]);
            }
        }
    }
}

} // verus!
