//! Character-level helpers used by the parsers and printers of the library.
use vstd::prelude::*;

verus! {

/// The characters of `s`, in order.
pub fn str_to_chars(s: &str) -> (v: Vec<char>)
    ensures
        v@ == s@,
{
    broadcast use vstd::string::group_string_axioms;

    let mut out: Vec<char> = Vec::new();
    for c in it: s.chars()
        invariant
            it.seq() == s@,
            out@ == s@.take(it.index() as int),
    {
        proof {
            assert(s@.take(it.index() + 1) =~= s@.take(it.index() as int).push(c));
        }
        out.push(c);
    }
    proof {
        assert(s@.take(s@.len() as int) =~= s@);
    }
    out
}

/// `String::push`: appends one character. The contract claims that the
/// characters afterwards are those before, with `c` at the end.
#[verifier::external_body]
pub(crate) fn string_push(s: &mut String, c: char)
    ensures
        final(s)@ == old(s)@.push(c),
{
    s.push(c);
}

/// The string made of the given characters.
pub fn chars_to_string(v: &Vec<char>) -> (s: String)
    ensures
        s@ == v@,
{
    let mut out = String::new();
    let mut i: usize = 0;
    while i < v.len()
        invariant
            i <= v@.len(),
            out@ == v@.take(i as int),
        decreases v@.len() - i,
    {
        proof {
            assert(v@.take(i + 1) =~= v@.take(i as int).push(v@[i as int]));
        }
        string_push(&mut out, v[i]);
        i += 1;
    }
    proof {
        assert(v@.take(v@.len() as int) =~= v@);
    }
    out
}

/// Whether two strings hold the same characters.
pub fn str_eq(a: &str, b: &str) -> (r: bool)
    ensures
        r == (a@ == b@),
{
    let va = str_to_chars(a);
    let vb = str_to_chars(b);
    chars_eq(&va, &vb)
}

/// Whether two character vectors are equal.
pub fn chars_eq(a: &Vec<char>, b: &Vec<char>) -> (r: bool)
    ensures
        r == (a@ == b@),
{
    if a.len() != b.len() {
        return false;
    }
    let mut i: usize = 0;
    while i < a.len()
        invariant
            a@.len() == b@.len(),
            i <= a@.len(),
            forall|j: int| 0 <= j < i ==> a@[j] == b@[j],
        decreases a@.len() - i,
    {
        if a[i] != b[i] {
            return false;
        }
        i += 1;
    }
    proof {
        assert(a@ =~= b@);
    }
    true
}

/// `sub` occurs in `s` starting at index `i`.
pub open spec fn occurs_at(s: Seq<char>, sub: Seq<char>, i: int) -> bool {
    0 <= i && i + sub.len() <= s.len() && s.subrange(i, i + sub.len()) == sub
}

/// `sub` occurs somewhere in `s` (`str::contains`).
pub open spec fn seq_contains_sub(s: Seq<char>, sub: Seq<char>) -> bool {
    exists|i: int| occurs_at(s, sub, i)
}

/// Whether `sub` occurs in `s`.
pub fn chars_contain(s: &Vec<char>, sub: &Vec<char>) -> (r: bool)
    ensures
        r == seq_contains_sub(s@, sub@),
{
    if sub.len() > s.len() {
        proof {
            assert forall|i: int| !occurs_at(s@, sub@, i) by {}
        }
        return false;
    }
    let mut i: usize = 0;
    while i <= s.len() - sub.len()
        invariant
            sub@.len() <= s@.len(),
            i <= s@.len() - sub@.len() + 1,
            forall|k: int| 0 <= k < i ==> !occurs_at(s@, sub@, k),
        decreases s@.len() - i,
    {
        let mut j: usize = 0;
        let mut same = true;
        while j < sub.len()
            invariant
                i + sub@.len() <= s@.len(),
                s@.len() <= usize::MAX,
                j <= sub@.len(),
                same == (forall|m: int| 0 <= m < j ==> s@[i + m] == sub@[m]),
            decreases sub@.len() - j,
        {
            if s[i + j] != sub[j] {
                same = false;
            }
            j += 1;
        }
        if same {
            proof {
                assert(s@.subrange(i as int, i + sub@.len()) =~= sub@);
                assert(occurs_at(s@, sub@, i as int));
            }
            return true;
        }
        proof {
            if occurs_at(s@, sub@, i as int) {
                let m = choose|m: int| 0 <= m < sub@.len() && s@[i + m] != sub@[m];
                assert(s@.subrange(i as int, i + sub@.len())[m] == s@[i + m]);
            }
        }
        i += 1;
    }
    proof {
        assert forall|k: int| !occurs_at(s@, sub@, k) by {
            if occurs_at(s@, sub@, k) {
                assert(k < i);
            }
        }
    }
    false
}

} // verus!

verus! {

/// The pieces of `s` between occurrences of `sep` (`str::split` with a
/// one-character pattern): always at least one piece.
pub open spec fn split_on(s: Seq<char>, sep: char) -> Seq<Seq<char>>
    decreases s.len(),
{
    if s.len() == 0 {
        seq![Seq::<char>::empty()]
    } else {
        let p = split_on(s.drop_last(), sep);
        if s.last() == sep {
            p.push(Seq::<char>::empty())
        } else {
            p.update(p.len() - 1, p.last().push(s.last()))
        }
    }
}

pub proof fn lemma_split_on_len(s: Seq<char>, sep: char)
    ensures
        split_on(s, sep).len() >= 1,
    decreases s.len(),
{
    if s.len() > 0 {
        lemma_split_on_len(s.drop_last(), sep);
    }
}

/// Text without the separator is a single piece.
pub proof fn lemma_split_on_no_sep(s: Seq<char>, sep: char)
    requires
        forall|i: int| 0 <= i < s.len() ==> s[i] != sep,
    ensures
        split_on(s, sep) == seq![s],
    decreases s.len(),
{
    if s.len() > 0 {
        lemma_split_on_no_sep(s.drop_last(), sep);
        assert(s.drop_last().push(s.last()) =~= s);
        assert(split_on(s, sep) =~= seq![s]);
    } else {
        assert(s =~= Seq::<char>::empty());
    }
}

/// Splitting around a separator splits each side.
pub proof fn lemma_split_on_concat(a: Seq<char>, b: Seq<char>, sep: char)
    ensures
        split_on(a + seq![sep] + b, sep) == split_on(a, sep) + split_on(b, sep),
    decreases b.len(),
{
    lemma_split_on_len(a, sep);
    lemma_split_on_len(b, sep);
    if b.len() == 0 {
        assert(a + seq![sep] + b =~= (a + seq![sep]));
        assert((a + seq![sep]).drop_last() =~= a);
        assert(split_on(a + seq![sep] + b, sep) =~= split_on(a, sep) + split_on(b, sep));
    } else {
        let b0 = b.drop_last();
        lemma_split_on_concat(a, b0, sep);
        lemma_split_on_len(b0, sep);
        let s = a + seq![sep] + b;
        assert(s.drop_last() =~= a + seq![sep] + b0);
        assert(s.last() == b.last());
        assert(split_on(s, sep) =~= split_on(a, sep) + split_on(b, sep));
    }
}

/// The pieces of `s` around `sep`.
pub fn split_chars(s: &Vec<char>, sep: char) -> (r: Vec<Vec<char>>)
    ensures
        r@.map_values(|v: Vec<char>| v@) == split_on(s@, sep),
{
    let mut pieces: Vec<Vec<char>> = Vec::new();
    let mut cur: Vec<char> = Vec::new();
    let mut i: usize = 0;
    while i < s.len()
        invariant
            i <= s@.len(),
            pieces@.map_values(|v: Vec<char>| v@).push(cur@) == split_on(s@.take(i as int), sep),
        decreases s@.len() - i,
    {
        let c = s[i];
        proof {
            assert(s@.take(i + 1).drop_last() =~= s@.take(i as int));
            assert(s@.take(i + 1).last() == c);
        }
        if c == sep {
            let done = cur;
            cur = Vec::new();
            let ghost before = pieces@.map_values(|v: Vec<char>| v@);
            pieces.push(done);
            proof {
                assert(pieces@.map_values(|v: Vec<char>| v@) =~= before.push(done@));
                assert(pieces@.map_values(|v: Vec<char>| v@).push(cur@) =~= split_on(
                    s@.take(i + 1),
                    sep,
                ));
            }
        } else {
            cur.push(c);
            proof {
                assert(pieces@.map_values(|v: Vec<char>| v@).push(cur@) =~= split_on(
                    s@.take(i + 1),
                    sep,
                ));
            }
        }
        i += 1;
    }
    let ghost before = pieces@.map_values(|v: Vec<char>| v@);
    pieces.push(cur);
    proof {
        assert(s@.take(s@.len() as int) =~= s@);
        assert(pieces@.map_values(|v: Vec<char>| v@) =~= before.push(cur@));
    }
    pieces
}

/// `char::is_whitespace`: the characters with the Unicode `White_Space` property.
pub open spec fn is_white_space(c: char) -> bool {
    let v = c as u32;
    (0x9 <= v <= 0xD) || v == 0x20 || v == 0x85 || v == 0xA0 || v == 0x1680 || (0x2000 <= v
        <= 0x200A) || v == 0x2028 || v == 0x2029 || v == 0x202F || v == 0x205F || v == 0x3000
}

pub fn is_white_space_exec(c: char) -> (r: bool)
    ensures
        r == is_white_space(c),
{
    let v = c as u32;
    (0x9 <= v && v <= 0xD) || v == 0x20 || v == 0x85 || v == 0xA0 || v == 0x1680 || (0x2000 <= v
        && v <= 0x200A) || v == 0x2028 || v == 0x2029 || v == 0x202F || v == 0x205F || v == 0x3000
}

pub open spec fn trim_start(s: Seq<char>) -> Seq<char>
    decreases s.len(),
{
    if s.len() > 0 && is_white_space(s[0]) {
        trim_start(s.drop_first())
    } else {
        s
    }
}

pub open spec fn trim_end(s: Seq<char>) -> Seq<char>
    decreases s.len(),
{
    if s.len() > 0 && is_white_space(s.last()) {
        trim_end(s.drop_last())
    } else {
        s
    }
}

/// `str::trim`: without leading and trailing white space.
pub open spec fn trim(s: Seq<char>) -> Seq<char> {
    trim_end(trim_start(s))
}

pub fn trim_chars(s: &Vec<char>) -> (r: Vec<char>)
    ensures
        r@ == trim(s@),
{
    let mut i: usize = 0;
    proof {
        assert(s@.skip(0) =~= s@);
    }
    while i < s.len() && is_white_space_exec(s[i])
        invariant
            i <= s@.len(),
            trim_start(s@) == trim_start(s@.skip(i as int)),
        decreases s@.len() - i,
    {
        proof {
            assert(s@.skip(i as int).drop_first() =~= s@.skip(i + 1));
        }
        i += 1;
    }
    let mut j: usize = s.len();
    while j > i && is_white_space_exec(s[j - 1])
        invariant
            i <= j <= s@.len(),
            trim_start(s@) == s@.subrange(i as int, s@.len() as int),
            trim(s@) == trim_end(s@.subrange(i as int, j as int)),
        decreases j,
    {
        proof {
            assert(s@.subrange(i as int, j as int).drop_last() =~= s@.subrange(i as int, j - 1));
        }
        j -= 1;
    }
    let mut out: Vec<char> = Vec::new();
    let mut k = i;
    while k < j
        invariant
            i <= k <= j <= s@.len(),
            out@ == s@.subrange(i as int, k as int),
        decreases j - k,
    {
        out.push(s[k]);
        k += 1;
    }
    out
}

pub open spec fn is_ascii_digit(c: char) -> bool {
    '0' <= c <= '9'
}

pub open spec fn digit_value(c: char) -> int {
    c as int - '0' as int
}

/// The number that a run of decimal digits writes.
pub open spec fn digits_value(d: Seq<char>) -> int
    decreases d.len(),
{
    if d.len() == 0 {
        0
    } else {
        digits_value(d.drop_last()) * 10 + digit_value(d.last())
    }
}

/// `u8::from_str`: an optional `+` followed by one or more decimal digits,
/// whose value fits in a `u8`.
pub open spec fn parse_u8(t: Seq<char>) -> Option<u8> {
    parse_digits_u8(strip_plus(t))
}

pub open spec fn strip_plus(t: Seq<char>) -> Seq<char> {
    if t.len() > 0 && t[0] == '+' {
        t.drop_first()
    } else {
        t
    }
}

pub open spec fn parse_digits_u8(d: Seq<char>) -> Option<u8> {
    if d.len() > 0 && (forall|i: int| 0 <= i < d.len() ==> is_ascii_digit(#[trigger] d[i]))
        && digits_value(d) <= 255 {
        Some(digits_value(d) as u8)
    } else {
        None
    }
}

proof fn lemma_digits_value_nonneg(d: Seq<char>)
    requires
        forall|i: int| 0 <= i < d.len() ==> is_ascii_digit(#[trigger] d[i]),
    ensures
        digits_value(d) >= 0,
    decreases d.len(),
{
    if d.len() > 0 {
        lemma_digits_value_nonneg(d.drop_last());
    }
}

proof fn lemma_digits_value_monotone(d: Seq<char>, k: int)
    requires
        0 <= k <= d.len(),
        forall|i: int| 0 <= i < d.len() ==> is_ascii_digit(#[trigger] d[i]),
    ensures
        digits_value(d.take(k)) <= digits_value(d),
    decreases d.len() - k,
{
    if k < d.len() {
        lemma_digits_value_monotone(d, k + 1);
        assert(d.take(k + 1).drop_last() =~= d.take(k));
        lemma_digits_value_nonneg(d.take(k));
    } else {
        assert(d.take(k) =~= d);
    }
}

pub fn parse_u8_chars(t: &Vec<char>) -> (r: Option<u8>)
    ensures
        r == parse_u8(t@),
{
    let mut start: usize = 0;
    if t.len() > 0 && t[0] == '+' {
        start = 1;
    }
    let ghost d = strip_plus(t@);
    proof {
        assert(d =~= t@.skip(start as int));
    }
    if start >= t.len() {
        return None;
    }
    let mut i = start;
    while i < t.len()
        invariant
            start <= i <= t@.len(),
            d =~= t@.skip(start as int),
            d == strip_plus(t@),
            forall|k: int| start <= k < i ==> is_ascii_digit(#[trigger] t@[k]),
        decreases t@.len() - i,
    {
        if !('0' <= t[i] && t[i] <= '9') {
            proof {
                assert(!is_ascii_digit(d[i - start]));
                assert(!(forall|k: int| 0 <= k < d.len() ==> is_ascii_digit(#[trigger] d[k])));
            }
            return None;
        }
        i += 1;
    }
    assert(forall|k: int| 0 <= k < d.len() ==> is_ascii_digit(#[trigger] d[k])) by {
        assert forall|k: int| 0 <= k < d.len() implies is_ascii_digit(#[trigger] d[k]) by {
            assert(d[k] == t@[k + start]);
        }
    }
    let mut value: u32 = 0;
    let mut j = start;
    while j < t.len()
        invariant
            start <= j <= t@.len(),
            d =~= t@.skip(start as int),
            d == strip_plus(t@),
            forall|k: int| 0 <= k < d.len() ==> is_ascii_digit(#[trigger] d[k]),
            value == digits_value(d.take(j - start)),
            value <= 255,
        decreases t@.len() - j,
    {
        proof {
            assert(d.take(j - start + 1).drop_last() =~= d.take(j - start));
            assert(d[j - start] == t@[j as int]);
            assert(is_ascii_digit(d[j - start]));
        }
        let digit = (t[j] as u32) - ('0' as u32);
        let next = value * 10 + digit;
        if next > 255 {
            proof {
                lemma_digits_value_monotone(d, j - start + 1);
                assert(digits_value(d.take(j - start + 1)) == value * 10 + digit_value(d[j - start]));
                assert(digits_value(d) > 255);
            }
            return None;
        }
        value = next;
        j += 1;
    }
    proof {
        assert(d.take(j - start) =~= d);
    }
    Some(value as u8)
}

/// Decimal digits of `n`, without leading zeros.
pub open spec fn decimal(n: nat) -> Seq<char>
    decreases n,
{
    if n < 10 {
        seq![(n + '0' as nat) as char]
    } else {
        decimal(n / 10).push(((n % 10) + '0' as nat) as char)
    }
}

pub fn u8_to_decimal(n: u8) -> (r: Vec<char>)
    ensures
        r@ == decimal(n as nat),
{
    let mut v: Vec<char> = Vec::new();
    if n >= 100 {
        v.push(((n / 100) + 48) as char);
    }
    if n >= 10 {
        v.push((((n / 10) % 10) + 48) as char);
    }
    v.push(((n % 10) + 48) as char);
    proof {
        let m = n as nat;
        if m >= 100 {
            assert(decimal(m / 100) == seq![((m / 100) + '0' as nat) as char]);
            assert(decimal(m / 10) =~= decimal((m / 10) / 10).push((((m / 10) % 10) + '0' as nat) as char));
            assert((m / 10) / 10 == m / 100);
        } else if m >= 10 {
            assert(decimal(m / 10) == seq![((m / 10) + '0' as nat) as char]);
            assert((m / 10) % 10 == m / 10);
        }
    }
    v
}


/// The decimal digits of `n` are one or more digits that write `n`.
pub proof fn lemma_decimal(n: nat)
    ensures
        decimal(n).len() >= 1,
        forall|i: int| 0 <= i < decimal(n).len() ==> is_ascii_digit(#[trigger] decimal(n)[i]),
        digits_value(decimal(n)) == n,
    decreases n,
{
    if n < 10 {
        let d = decimal(n);
        assert(d.drop_last() =~= Seq::<char>::empty());
        assert(digit_value(d.last()) == n);
        assert(digits_value(d) == digits_value(d.drop_last()) * 10 + digit_value(d.last()));
    } else {
        lemma_decimal(n / 10);
        let d = decimal(n);
        assert(d.drop_last() =~= decimal(n / 10));
        assert(digit_value(d.last()) == n % 10);
        assert(digits_value(d) == digits_value(decimal(n / 10)) * 10 + n % 10);
        vstd::arithmetic::div_mod::lemma_fundamental_div_mod(n as int, 10);
    }
}

/// Digits are not white space.
pub proof fn lemma_digit_not_white_space(c: char)
    requires
        is_ascii_digit(c),
    ensures
        !is_white_space(c),
{
}

/// Trimming leaves digits as they are, and drops one space before them.
pub proof fn lemma_trim_digits(d: Seq<char>)
    requires
        d.len() >= 1,
        forall|i: int| 0 <= i < d.len() ==> is_ascii_digit(#[trigger] d[i]),
    ensures
        trim(d) == d,
        trim(seq![' '] + d) == d,
{
    assert(is_ascii_digit(d[0]));
    assert(is_ascii_digit(d.last()));
    lemma_digit_not_white_space(d[0]);
    lemma_digit_not_white_space(d.last());
    assert(trim_start(d) == d);
    assert(trim_end(d) == d);
    let s = seq![' '] + d;
    assert(is_white_space(s[0]));
    assert(s.drop_first() =~= d);
    assert(trim_start(s) == trim_start(d));
}

/// The decimal digits of a byte read back as that byte.
pub proof fn lemma_parse_decimal(n: u8)
    ensures
        parse_u8(decimal(n as nat)) == Some(n),
{
    lemma_decimal(n as nat);
    let d = decimal(n as nat);
    assert(is_ascii_digit(d[0]));
    assert(strip_plus(d) == d);
}

} // verus!
