use std::ops::Range;
use vstd::prelude::*;

verus! {

/// The UTF-16 code units of one `char`.
pub open spec fn utf16_encode_char(c: char) -> Seq<u16> {
    let v = c as u32;
    if v < 0x10000 {
        seq![v as u16]
    } else {
        let w = (v - 0x10000) as u32;
        seq![(0xD800 + w / 0x400) as u16, (0xDC00 + w % 0x400) as u16]
    }
}

/// The UTF-16 encoding of a sequence of `char`s.
pub open spec fn utf16_encode(s: Seq<char>) -> Seq<u16>
    decreases s.len(),
{
    if s.len() == 0 {
        Seq::empty()
    } else {
        utf16_encode_char(s[0]) + utf16_encode(s.drop_first())
    }
}

pub open spec fn is_high_surrogate(u: u16) -> bool {
    0xD800 <= u <= 0xDBFF
}

pub open spec fn is_low_surrogate(u: u16) -> bool {
    0xDC00 <= u <= 0xDFFF
}

/// The `char`s that a UTF-16 sequence decodes to, or `None` where it holds an
/// unpaired surrogate.
pub open spec fn utf16_decode(v: Seq<u16>) -> Option<Seq<char>>
    decreases v.len(),
{
    if v.len() == 0 {
        Some(Seq::empty())
    } else if !is_high_surrogate(v[0]) && !is_low_surrogate(v[0]) {
        match utf16_decode(v.drop_first()) {
            Some(rest) => Some(seq![(v[0] as u32) as char] + rest),
            None => None,
        }
    } else if is_high_surrogate(v[0]) && v.len() >= 2 && is_low_surrogate(v[1]) {
        match utf16_decode(v.subrange(2, v.len() as int)) {
            Some(rest) => Some(
                seq![(((v[0] - 0xD800) * 0x400 + (v[1] - 0xDC00) + 0x10000) as u32) as char]
                    + rest,
            ),
            None => None,
        }
    } else {
        None
    }
}

pub proof fn lemma_utf16_encode_append(a: Seq<char>, b: Seq<char>)
    ensures
        utf16_encode(a + b) == utf16_encode(a) + utf16_encode(b),
    decreases a.len(),
{
    if a.len() == 0 {
        assert(a + b =~= b);
    } else {
        assert((a + b).drop_first() =~= a.drop_first() + b);
        lemma_utf16_encode_append(a.drop_first(), b);
    }
}

/// Decoding the UTF-16 encoding of any text gives the text back.
pub proof fn lemma_utf16_round_trip(s: Seq<char>)
    ensures
        utf16_decode(utf16_encode(s)) == Some(s),
    decreases s.len(),
{
    broadcast use {vstd::utf8::char_is_scalar, vstd::utf8::char_u32_cast};

    if s.len() > 0 {
        let c = s[0];
        let rest = s.drop_first();
        lemma_utf16_round_trip(rest);
        let e = utf16_encode(s);
        let v = c as u32;
        vstd::utf8::char_is_scalar(c);
        vstd::utf8::char_u32_cast(c, v);
        assert(e == utf16_encode_char(c) + utf16_encode(rest));
        if v < 0x10000 {
            assert(e.drop_first() =~= utf16_encode(rest));
            assert(e[0] == v as u16);
            assert(((v as u16) as u32) == v);
            assert((((v as u16) as u32) as char) == c);
            assert(seq![c] + rest =~= s);
        } else {
            let w = (v - 0x10000) as u32;
            assert(vstd::utf8::is_scalar(v));
            assert(w <= 0xFFFFF);
            assert(e.subrange(2, e.len() as int) =~= utf16_encode(rest));
            assert(w / 0x400 < 0x400 && w % 0x400 < 0x400) by (nonlinear_arith)
                requires w <= 0xFFFFF;
            assert((w / 0x400) * 0x400 + w % 0x400 == w) by (nonlinear_arith);
            let hi = (0xD800 + w / 0x400) as u16;
            let lo = (0xDC00 + w % 0x400) as u16;
            assert(e[0] == hi && e[1] == lo);
            assert((hi - 0xD800) * 0x400 + (lo - 0xDC00) + 0x10000 == v);
            assert((((hi - 0xD800) * 0x400 + (lo - 0xDC00) + 0x10000) as u32) as char == c);
            assert(seq![c] + rest =~= s);
        }
    }
}

/// Encoding the text that well-formed UTF-16 decodes to gives the units
/// back.
pub proof fn lemma_utf16_decode_round_trip(v: Seq<u16>)
    requires
        utf16_decode(v) is Some,
    ensures
        utf16_encode(utf16_decode(v)->0) == v,
    decreases v.len(),
{
    if v.len() > 0 {
        let s = utf16_decode(v)->0;
        if !is_high_surrogate(v[0]) && !is_low_surrogate(v[0]) {
            let rest = v.drop_first();
            lemma_utf16_decode_round_trip(rest);
            let c = (v[0] as u32) as char;
            assert((c as u32) == v[0] as u32);
            assert(s == seq![c] + utf16_decode(rest)->0);
            lemma_utf16_encode_append(seq![c], utf16_decode(rest)->0);
            assert(utf16_encode(seq![c]) == utf16_encode_char(c)) by {
                assert(seq![c].drop_first() =~= Seq::<char>::empty());
                assert(seq![c][0] == c);
                assert(utf16_encode(Seq::<char>::empty()) == Seq::<u16>::empty());
                assert(utf16_encode_char(c) + Seq::<u16>::empty() =~= utf16_encode_char(c));
            }
            assert(utf16_encode_char(c) =~= seq![v[0]]);
            assert(v =~= seq![v[0]] + rest);
        } else {
            let rest = v.subrange(2, v.len() as int);
            lemma_utf16_decode_round_trip(rest);
            let hi = v[0];
            let lo = v[1];
            let u = ((hi - 0xD800) * 0x400 + (lo - 0xDC00) + 0x10000) as u32;
            let c = u as char;
            assert(0x10000 <= (hi - 0xD800) * 0x400 + (lo - 0xDC00) + 0x10000 <= 0x10FFFF) by (nonlinear_arith)
                requires
                    0xD800 <= hi <= 0xDBFF,
                    0xDC00 <= lo <= 0xDFFF;
            assert((c as u32) == u);
            let w = (u - 0x10000) as u32;
            assert(w == (hi - 0xD800) * 0x400 + (lo - 0xDC00));
            assert(w / 0x400 == hi - 0xD800 && w % 0x400 == lo - 0xDC00) by (nonlinear_arith)
                requires
                    w == (hi - 0xD800) * 0x400 + (lo - 0xDC00),
                    0xD800 <= hi <= 0xDBFF,
                    0xDC00 <= lo <= 0xDFFF;
            assert(s == seq![c] + utf16_decode(rest)->0);
            lemma_utf16_encode_append(seq![c], utf16_decode(rest)->0);
            assert(utf16_encode(seq![c]) == utf16_encode_char(c)) by {
                assert(seq![c].drop_first() =~= Seq::<char>::empty());
                assert(seq![c][0] == c);
                assert(utf16_encode(Seq::<char>::empty()) == Seq::<u16>::empty());
                assert(utf16_encode_char(c) + Seq::<u16>::empty() =~= utf16_encode_char(c));
            }
            assert(utf16_encode_char(c) =~= seq![hi, lo]);
            assert(v =~= seq![hi, lo] + rest);
        }
    }
}

#[derive(Debug, PartialEq, Clone)]
pub struct TextBlock(pub StringUTF16);

#[derive(Debug, PartialEq, Clone)]
pub struct StringUTF16(pub Vec<u16>);

impl View for StringUTF16 {
    type V = Seq<u16>;

    open spec fn view(&self) -> Seq<u16> {
        self.0@
    }
}

impl StringUTF16 {
    pub fn new() -> (s: Self)
        ensures
            s@ == Seq::<u16>::empty(),
    {
        Self(Vec::new())
    }

    /// A copy of the code units.
    pub fn copy(&self) -> (s: Self)
        ensures
            s@ == self@,
    {
        self.slice(0..self.len())
    }

    pub fn from_str(str: &str) -> (s: Self)
        ensures
            s@ == utf16_encode(str@),
    {
        broadcast use vstd::string::group_string_axioms;
        let mut out: Vec<u16> = Vec::new();
        let ghost chars = str@;
        for c in it: str.chars()
            invariant
                it.seq() == chars,
                out@ == utf16_encode(chars.take(it.index() as int)),
        {
            let ghost i = it.index();
            proof {
                assert(chars.take(i + 1) =~= chars.take(i as int) + seq![c]);
                lemma_utf16_encode_append(chars.take(i as int), seq![c]);
                assert(seq![c].drop_first() =~= Seq::<char>::empty());
                assert(utf16_encode(Seq::<char>::empty()) =~= Seq::<u16>::empty());
                assert(utf16_encode(seq![c]) =~= utf16_encode_char(c) + utf16_encode(Seq::<char>::empty()));
                assert(utf16_encode(seq![c]) =~= utf16_encode_char(c));
            }
            let v: u32 = c as u32;
            if v < 0x10000 {
                out.push(v as u16);
            } else {
                let w: u32 = v - 0x10000;
                out.push((0xD800 + w / 0x400) as u16);
                out.push((0xDC00 + w % 0x400) as u16);
            }
        }
        proof {
            assert(chars.take(chars.len() as int) =~= chars);
        }
        Self(out)
    }

    /// Decodes the code units; they must be valid UTF-16.
    pub fn to_string(self) -> (s: String)
        requires
            utf16_decode(self@) is Some,
        ensures
            s@ == utf16_decode(self@)->0,
    {
        string_from_utf16(&self.0)
    }

    pub fn splice(&mut self, range: Range<usize>, slice: Self)
        requires
            range.start <= range.end <= old(self)@.len(),
        ensures
            final(self)@ == old(self)@.take(range.start as int) + slice@ + old(self)@.skip(
                range.end as int,
            ),
    {
        let mut ins = slice.0;
        let mut tail = self.0.split_off(range.end);
        self.0.truncate(range.start);
        self.0.append(&mut ins);
        self.0.append(&mut tail);
    }

    pub fn slice(&self, range: Range<usize>) -> (s: Self)
        requires
            range.start <= range.end <= self@.len(),
        ensures
            s@ == self@.subrange(range.start as int, range.end as int),
    {
        let mut out: Vec<u16> = Vec::new();
        let mut i = range.start;
        while i < range.end
            invariant
                range.start <= i <= range.end <= self@.len(),
                out@ == self@.subrange(range.start as int, i as int),
            decreases range.end - i,
        {
            out.push(self.0[i]);
            i += 1;
        }
        Self(out)
    }

    pub fn split(&self, index: usize) -> (halves: (Self, Self))
        requires
            index <= self@.len(),
        ensures
            halves.0@ == self@.take(index as int),
            halves.1@ == self@.skip(index as int),
    {
        (self.slice(0..index), self.slice(index..self.len()))
    }

    /// The text before `from`, between `from` and `to`, and after `to`.
    pub fn split_before_middle_after(&self, from: usize, to: usize) -> (parts: (Self, Self, Self))
        requires
            from <= to <= self@.len(),
        ensures
            parts.0@ == self@.take(from as int),
            parts.1@ == self@.subrange(from as int, to as int),
            parts.2@ == self@.skip(to as int),
    {
        (self.slice(0..from), self.slice(from..to), self.slice(to..self.len()))
    }

    pub fn len(&self) -> (n: usize)
        ensures
            n == self@.len(),
    {
        self.0.len()
    }

    pub fn concat(self, add: Self) -> (s: Self)
        ensures
            s@ == self@ + add@,
    {
        let mut v = self.0;
        let mut a = add.0;
        v.append(&mut a);
        Self(v)
    }
}

/// `String::from_utf16`: decodes UTF-16 code units, failing on an unpaired
/// surrogate. The contract claims that, on units without an unpaired
/// surrogate, the characters returned are their decoding as the
/// documentation of UTF-16 gives it (`utf16_decode`); the call is only made
/// on such units, so its `unwrap` does not fail.
#[verifier::external_body]
fn string_from_utf16(v: &Vec<u16>) -> (s: String)
    requires
        utf16_decode(v@) is Some,
    ensures
        s@ == utf16_decode(v@)->0,
{
    String::from_utf16(v).unwrap()
}

} // verus!
