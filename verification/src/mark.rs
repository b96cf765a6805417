use vstd::prelude::*;

use crate::steps_generator::{StepError, step_error};
use crate::text::{
    chars_contain, chars_eq, chars_to_string, decimal, is_ascii_digit, lemma_decimal, lemma_parse_decimal,
    lemma_split_on_concat, lemma_split_on_len, lemma_split_on_no_sep, lemma_trim_digits, occurs_at, parse_u8,
    parse_u8_chars, seq_contains_sub, split_chars, split_on, str_to_chars, trim, trim_chars, u8_to_decimal,
};

verus! {

#[derive(Debug, PartialEq, Eq, Clone, Copy, Structural)]
pub enum Mark {
    Bold,
    Italic,
    Underline,
    Strikethrough,
    ForeColor(Color),
    BackColor(Color),
}

#[derive(Debug, PartialEq, Eq, Clone, Copy, Structural)]
pub struct Color(pub u8, pub u8, pub u8, pub u8);

/// `"(r, g, b, a)"` with each component in decimal.
pub open spec fn color_chars(c: Color) -> Seq<char> {
    seq!['('] + decimal(c.0 as nat) + seq![',', ' '] + decimal(c.1 as nat) + seq![',', ' ']
        + decimal(c.2 as nat) + seq![',', ' '] + decimal(c.3 as nat) + seq![')']
}

/// The text form of a mark.
pub open spec fn mark_chars(m: Mark) -> Seq<char> {
    match m {
        Mark::Bold => "bold"@,
        Mark::Italic => "italic"@,
        Mark::Underline => "underline"@,
        Mark::Strikethrough => "strikethrough"@,
        Mark::ForeColor(c) => "fore_color"@ + color_chars(c),
        Mark::BackColor(c) => "back_color"@ + color_chars(c),
    }
}

/// The four numbers between the last `(` and the next `)`, separated by
/// commas, each trimmed and read as a `u8`.
pub open spec fn spec_parse_color(s: Seq<char>) -> Option<Color> {
    let after = split_on(s, '(').last();
    let inner = split_on(after, ')')[0];
    let parts = split_on(inner, ',');
    if parts.len() == 4 && (forall|i: int|
        0 <= i < 4 ==> (#[trigger] parse_u8(trim(parts[i]))) is Some) {
        Some(
            Color(
                parse_u8(trim(parts[0]))->0,
                parse_u8(trim(parts[1]))->0,
                parse_u8(trim(parts[2]))->0,
                parse_u8(trim(parts[3]))->0,
            ),
        )
    } else {
        None
    }
}

/// What `Mark::color_mark_from_str` reads from `s`.
pub open spec fn spec_color_mark_from_str(s: Seq<char>) -> Option<Mark> {
    match spec_parse_color(s) {
        Some(c) => if seq_contains_sub(s, "fore_color"@) {
            Some(Mark::ForeColor(c))
        } else if seq_contains_sub(s, "back_color"@) {
            Some(Mark::BackColor(c))
        } else {
            None
        },
        None => None,
    }
}

/// What `Mark::from_str` reads from `s`.
pub open spec fn spec_mark_from_str(s: Seq<char>) -> Option<Mark> {
    if s == "bold"@ {
        Some(Mark::Bold)
    } else if s == "italic"@ {
        Some(Mark::Italic)
    } else if s == "underline"@ {
        Some(Mark::Underline)
    } else if s == "strikethrough"@ {
        Some(Mark::Strikethrough)
    } else if seq_contains_sub(s, "fore_color"@) || seq_contains_sub(s, "back_color"@) {
        spec_color_mark_from_str(s)
    } else {
        None
    }
}

/// Two marks are of the same type when both are fore colors, both are back
/// colors, or they are equal.
pub open spec fn spec_same_type(a: Mark, b: Mark) -> bool {
    match a {
        Mark::ForeColor(_) => b is ForeColor,
        Mark::BackColor(_) => b is BackColor,
        _ => a == b,
    }
}

impl Mark {
    pub fn from_str(mark: &str) -> (r: Result<Self, StepError>)
        ensures
            r matches Ok(m) ==> spec_mark_from_str(mark@) == Some(m),
            r is Err <==> spec_mark_from_str(mark@) is None,
            !(seq_contains_sub(mark@, "fore_color"@) || seq_contains_sub(mark@, "back_color"@)) && r is Err
                ==> r->Err_0.0@ == "Invalid Mark: "@ + mark@,
    {
        let chars = str_to_chars(mark);
        if chars_eq(&chars, &str_to_chars("bold")) {
            Ok(Mark::Bold)
        } else if chars_eq(&chars, &str_to_chars("italic")) {
            Ok(Mark::Italic)
        } else if chars_eq(&chars, &str_to_chars("underline")) {
            Ok(Mark::Underline)
        } else if chars_eq(&chars, &str_to_chars("strikethrough")) {
            Ok(Mark::Strikethrough)
        } else if chars_contain(&chars, &str_to_chars("fore_color")) || chars_contain(
            &chars,
            &str_to_chars("back_color"),
        ) {
            Mark::color_mark_from_str(mark)
        } else {
            Err(step_error("Invalid Mark: ", mark))
        }
    }

    pub fn to_string(&self) -> (s: String)
        ensures
            s@ == mark_chars(*self),
    {
        match self {
            Mark::Bold => String::from_str("bold"),
            Mark::Italic => String::from_str("italic"),
            Mark::Underline => String::from_str("underline"),
            Mark::Strikethrough => String::from_str("strikethrough"),
            Mark::ForeColor(color) => {
                let mut s = String::from_str("fore_color");
                s.append(color.to_string().as_str());
                s
            },
            Mark::BackColor(color) => {
                let mut s = String::from_str("back_color");
                s.append(color.to_string().as_str());
                s
            },
        }
    }

    /// eg: "fore_color(0, 0, 0, 1) || back_color(0, 0, 0, 1)"
    pub fn color_mark_from_str(mark: &str) -> (r: Result<Mark, StepError>)
        ensures
            r matches Ok(m) ==> spec_color_mark_from_str(mark@) == Some(m),
            r is Err <==> spec_color_mark_from_str(mark@) is None,
            ({
                let parts = split_on(split_on(split_on(mark@, '(').last(), ')')[0], ',');
                let all_numbers = forall|k: int| 0 <= k < parts.len() ==> parse_u8(trim(#[trigger] parts[k])) is Some;
                &&& !all_numbers ==> (r is Err && r->Err_0.0@ == "Invalid Mark: "@ + mark@)
                &&& all_numbers && parts.len() != 4 ==> (r is Err && r->Err_0.0@ == "Color should have 4 numbers. Got: "@ + mark@)
                &&& all_numbers && parts.len() == 4 && r is Err ==> (r is Err && r->Err_0.0@ == "Invalid Mark: "@ + mark@)
            }),
    {
        let chars = str_to_chars(mark);
        let by_open = split_chars(&chars, '(');
        proof {
            lemma_split_on_len(chars@, '(');
            assert(by_open@.len() >= 1);
        }
        let after = &by_open[by_open.len() - 1];
        let by_close = split_chars(after, ')');
        proof {
            lemma_split_on_len(after@, ')');
            assert(by_close@.len() >= 1);
        }
        let inner = &by_close[0];
        let parts = split_chars(inner, ',');
        let ghost sparts = split_on(split_on(split_on(mark@, '(').last(), ')')[0], ',');
        proof {
            assert(after@ == split_on(chars@, '(').last());
            assert(inner@ == split_on(after@, ')')[0]);
            assert(sparts == split_on(inner@, ','));
            assert(parts@.len() == sparts.len());
            assert(forall|i: int| 0 <= i < parts@.len() ==> parts@[i]@ == #[trigger] sparts[i]);
        }
        let mut nums: Vec<u8> = Vec::new();
        let mut i: usize = 0;
        while i < parts.len()
            invariant
                i <= parts@.len(),
                sparts == split_on(split_on(split_on(mark@, '(').last(), ')')[0], ','),
                parts@.len() == sparts.len(),
                forall|k: int| 0 <= k < parts@.len() ==> parts@[k]@ == #[trigger] sparts[k],
                nums@.len() == i,
                forall|k: int|
                    0 <= k < i ==> parse_u8(trim(#[trigger] sparts[k])) == Some(nums@[k]),
            decreases parts@.len() - i,
        {
            let t = trim_chars(&parts[i]);
            match parse_u8_chars(&t) {
                Some(n) => nums.push(n),
                None => {
                    proof {
                        assert(parse_u8(trim(sparts[i as int])) is None);
                        if sparts.len() == 4 {
                            assert(spec_parse_color(mark@) is None);
                        }
                    }
                    return Err(step_error("Invalid Mark: ", mark));
                },
            }
            i += 1;
        }
        if nums.len() != 4 {
            return Err(step_error("Color should have 4 numbers. Got: ", mark));
        }
        let color = Color::from(nums[0], nums[1], nums[2], nums[3]);
        proof {
            assert(parse_u8(trim(sparts[0])) == Some(nums@[0]));
            assert(parse_u8(trim(sparts[1])) == Some(nums@[1]));
            assert(parse_u8(trim(sparts[2])) == Some(nums@[2]));
            assert(parse_u8(trim(sparts[3])) == Some(nums@[3]));
            assert(spec_parse_color(chars@) == Some(color));
        }
        if chars_contain(&chars, &str_to_chars("fore_color")) {
            Ok(Mark::ForeColor(color))
        } else if chars_contain(&chars, &str_to_chars("back_color")) {
            Ok(Mark::BackColor(color))
        } else {
            Err(step_error("Invalid Mark: ", mark))
        }
    }

    pub fn is_same_type(&self, other_mark: &Mark) -> (r: bool)
        ensures
            r == spec_same_type(*self, *other_mark),
    {
        match self {
            Mark::ForeColor(_) => match other_mark {
                Mark::ForeColor(_) => true,
                _ => false,
            },
            Mark::BackColor(_) => match other_mark {
                Mark::BackColor(_) => true,
                _ => false,
            },
            _ => *self == *other_mark,
        }
    }
}

impl Color {
    pub fn from(r: u8, g: u8, b: u8, a: u8) -> (c: Self)
        ensures
            c == Color(r, g, b, a),
    {
        Self(r, g, b, a)
    }

    pub fn to_string(&self) -> (s: String)
        ensures
            s@ == color_chars(*self),
    {
        let mut v: Vec<char> = Vec::new();
        v.push('(');
        let mut d = u8_to_decimal(self.0);
        v.append(&mut d);
        v.push(',');
        v.push(' ');
        let mut d = u8_to_decimal(self.1);
        v.append(&mut d);
        v.push(',');
        v.push(' ');
        let mut d = u8_to_decimal(self.2);
        v.append(&mut d);
        v.push(',');
        v.push(' ');
        let mut d = u8_to_decimal(self.3);
        v.append(&mut d);
        v.push(')');
        proof {
            assert(v@ =~= color_chars(*self));
        }
        chars_to_string(&v)
    }
}


/// The text between the brackets of a color: the four numbers, separated
/// by a comma and a space.
pub open spec fn color_inner(c: Color) -> Seq<char> {
    decimal(c.0 as nat) + seq![','] + (seq![' '] + decimal(c.1 as nat) + seq![','] + (seq![' '] + decimal(c.2 as nat)
        + seq![','] + (seq![' '] + decimal(c.3 as nat))))
}

/// A character that the text form of a color may hold.
pub open spec fn color_char(ch: char) -> bool {
    ch == '(' || ch == ')' || ch == ',' || ch == ' ' || is_ascii_digit(ch)
}

proof fn lemma_color_chars(c: Color)
    ensures
        color_chars(c) == seq!['('] + color_inner(c) + seq![')'],
        forall|i: int| 0 <= i < color_inner(c).len() ==> #[trigger] color_inner(c)[i] != '(' && color_inner(c)[i] != ')'
            && color_char(color_inner(c)[i]),
        forall|i: int| 0 <= i < color_chars(c).len() ==> color_char(#[trigger] color_chars(c)[i]),
{
    lemma_decimal(c.0 as nat);
    lemma_decimal(c.1 as nat);
    lemma_decimal(c.2 as nat);
    lemma_decimal(c.3 as nat);
    assert(color_chars(c) =~= seq!['('] + color_inner(c) + seq![')']);
}

/// The text form of a color, after a prefix without brackets, reads back
/// as that color.
proof fn lemma_parse_color(prefix: Seq<char>, c: Color)
    requires
        forall|i: int| 0 <= i < prefix.len() ==> #[trigger] prefix[i] != '(' && prefix[i] != ')',
    ensures
        spec_parse_color(prefix + color_chars(c)) == Some(c),
{
    lemma_color_chars(c);
    let inner = color_inner(c);
    let s = prefix + color_chars(c);
    let closed = inner + seq![')'];
    assert(s =~= prefix + seq!['('] + closed);
    lemma_split_on_concat(prefix, closed, '(');
    lemma_split_on_no_sep(prefix, '(');
    assert forall|i: int| 0 <= i < closed.len() implies closed[i] != '(' by {
        if i < inner.len() {
            assert(closed[i] == inner[i]);
        }
    }
    lemma_split_on_no_sep(closed, '(');
    assert(split_on(s, '(') =~= seq![prefix, closed]);
    assert(split_on(s, '(').last() == closed);
    assert(closed =~= inner + seq![')'] + Seq::<char>::empty());
    lemma_split_on_concat(inner, Seq::<char>::empty(), ')');
    lemma_split_on_no_sep(inner, ')');
    assert(split_on(Seq::<char>::empty(), ')') =~= seq![Seq::<char>::empty()]);
    assert(split_on(closed, ')')[0] == inner);
    let d0 = decimal(c.0 as nat);
    let d1 = decimal(c.1 as nat);
    let d2 = decimal(c.2 as nat);
    let d3 = decimal(c.3 as nat);
    lemma_decimal(c.0 as nat);
    lemma_decimal(c.1 as nat);
    lemma_decimal(c.2 as nat);
    lemma_decimal(c.3 as nat);
    let p1 = seq![' '] + d1;
    let p2 = seq![' '] + d2;
    let p3 = seq![' '] + d3;
    let r2 = p2 + seq![','] + p3;
    let r1 = p1 + seq![','] + r2;
    assert(inner =~= d0 + seq![','] + r1);
    lemma_split_on_concat(d0, r1, ',');
    lemma_split_on_concat(p1, r2, ',');
    lemma_split_on_concat(p2, p3, ',');
    assert forall|i: int| 0 <= i < d0.len() implies d0[i] != ',' by {
        assert(is_ascii_digit(d0[i]));
    }
    assert forall|i: int| 0 <= i < p1.len() implies p1[i] != ',' by {
        if i > 0 {
            assert(p1[i] == d1[i - 1]);
            assert(is_ascii_digit(d1[i - 1]));
        }
    }
    assert forall|i: int| 0 <= i < p2.len() implies p2[i] != ',' by {
        if i > 0 {
            assert(p2[i] == d2[i - 1]);
            assert(is_ascii_digit(d2[i - 1]));
        }
    }
    assert forall|i: int| 0 <= i < p3.len() implies p3[i] != ',' by {
        if i > 0 {
            assert(p3[i] == d3[i - 1]);
            assert(is_ascii_digit(d3[i - 1]));
        }
    }
    lemma_split_on_no_sep(d0, ',');
    lemma_split_on_no_sep(p1, ',');
    lemma_split_on_no_sep(p2, ',');
    lemma_split_on_no_sep(p3, ',');
    let parts = split_on(inner, ',');
    assert(parts =~= seq![d0, p1, p2, p3]);
    lemma_trim_digits(d0);
    lemma_trim_digits(d1);
    lemma_trim_digits(d2);
    lemma_trim_digits(d3);
    lemma_parse_decimal(c.0);
    lemma_parse_decimal(c.1);
    lemma_parse_decimal(c.2);
    lemma_parse_decimal(c.3);
    assert(parse_u8(trim(parts[0])) == Some(c.0));
    assert(parse_u8(trim(parts[1])) == Some(c.1));
    assert(parse_u8(trim(parts[2])) == Some(c.2));
    assert(parse_u8(trim(parts[3])) == Some(c.3));
}

/// A mark read back from its text form is the same mark: the text form is
/// what blocks store and send.
pub proof fn lemma_mark_round_trip(m: Mark)
    ensures
        spec_mark_from_str(mark_chars(m)) == Some(m),
{
    reveal_strlit("bold");
    reveal_strlit("italic");
    reveal_strlit("underline");
    reveal_strlit("strikethrough");
    reveal_strlit("fore_color");
    reveal_strlit("back_color");
    match m {
        Mark::ForeColor(c) | Mark::BackColor(c) => {
            let prefix = if m is ForeColor { "fore_color"@ } else { "back_color"@ };
            let s = mark_chars(m);
            assert(s == prefix + color_chars(c));
            lemma_color_chars(c);
            lemma_decimal(c.0 as nat);
            lemma_decimal(c.1 as nat);
            lemma_decimal(c.2 as nat);
            lemma_decimal(c.3 as nat);
            assert(s.len() > 13);
            lemma_parse_color(prefix, c);
            assert(s.subrange(0, 10) =~= prefix);
            assert(occurs_at(s, prefix, 0));
            if m is BackColor {
                assert forall|i: int| !occurs_at(s, "fore_color"@, i) by {
                    if occurs_at(s, "fore_color"@, i) {
                        assert(s.subrange(i, i + 10)[0] == 'f');
                        assert(s[i] == 'f');
                        if i >= 10 {
                            assert(s[i] == color_chars(c)[i - 10]);
                            assert(color_char(color_chars(c)[i - 10]));
                        }
                    }
                }
            }
        },
        _ => {},
    }
}

} // verus!
