//! How kept responses are written out.

use vstd::prelude::*;
use crate::text::{append_chars, chars_of, push_char};

verus! {

pub open spec fn digit_char(d: nat) -> char
    recommends
        d < 10,
{
    (('0' as u32) + d) as char
}

/// The decimal digits of `n`, without leading zeros.
pub open spec fn decimal(n: nat) -> Seq<char>
    decreases n,
{
    if n < 10 {
        seq![digit_char(n)]
    } else {
        decimal(n / 10).push(digit_char(n % 10))
    }
}

fn digit(d: u64) -> (c: char)
    requires
        d < 10,
    ensures
        c == digit_char(d as nat),
{
    let v: u8 = 48 + d as u8;
    v as char
}

/// Appends the decimal digits of `n`.
pub fn push_decimal(s: &mut String, n: u64)
    ensures
        final(s)@ == old(s)@ + decimal(n as nat),
    decreases n,
{
    if n >= 10 {
        push_decimal(s, n / 10);
    }
    push_char(s, digit(n % 10));
    assert(final(s)@ =~= old(s)@ + decimal(n as nat)) by {
        if n >= 10 {
            assert(decimal(n as nat) == decimal((n / 10) as nat).push(digit_char((n % 10) as nat)));
        }
    }
}

pub open spec fn spaces(n: nat) -> Seq<char> {
    Seq::new(n, |i: int| ' ')
}

/// `text` followed by spaces up to `width` characters.
pub open spec fn pad_right(text: Seq<char>, width: nat) -> Seq<char> {
    if text.len() >= width {
        text
    } else {
        text + spaces((width - text.len()) as nat)
    }
}

/// Spaces up to `width` characters, then `text`.
pub open spec fn pad_left(text: Seq<char>, width: nat) -> Seq<char> {
    if text.len() >= width {
        text
    } else {
        spaces((width - text.len()) as nat) + text
    }
}

fn push_spaces(s: &mut String, n: usize)
    ensures
        final(s)@ == old(s)@ + spaces(n as nat),
{
    let mut i: usize = 0;
    while i < n
        invariant
            i <= n,
            s@ == old(s)@ + spaces(i as nat),
        decreases n - i,
    {
        push_char(s, ' ');
        assert(spaces((i + 1) as nat) =~= spaces(i as nat).push(' '));
        i = i + 1;
    }
}

fn decimal_string(n: u64) -> (r: Vec<char>)
    ensures
        r@ == decimal(n as nat),
{
    let mut s = String::new();
    push_decimal(&mut s, n);
    assert(Seq::<char>::empty() + decimal(n as nat) =~= decimal(n as nat));
    chars_of(s.as_str())
}

/// The status field of a result line: the code, padded to four characters.
pub fn status_field(code: u16) -> (r: String)
    ensures
        r@ == pad_right(decimal(code as nat), 4),
{
    let d = decimal_string(code as u64);
    let mut r = String::new();
    append_chars(&mut r, &d);
    if d.len() < 4 {
        push_spaces(&mut r, 4 - d.len());
    }
    assert(Seq::<char>::empty() + d@ =~= d@);
    r
}

/// One result line, after its status field:
/// `<status> - <size>B - <url>`, and ` -> <location>` when there is one.
pub open spec fn result_line(status: Seq<char>, length: nat, url: Seq<char>, location: Seq<char>) -> Seq<char> {
    status + line_rest(length, url, location)
}

/// What follows the status field in a result line.
pub open spec fn line_rest(length: nat, url: Seq<char>, location: Seq<char>) -> Seq<char> {
    " - "@ + pad_left(decimal(length), 7) + "B - "@ + url + if location.len() == 0 {
        Seq::empty()
    } else {
        " -> "@ + location
    }
}

/// Lays out one result line around an already rendered status field.
pub fn render_line(status: &str, length: usize, url: &str, location: &str) -> (r: String)
    ensures
        r@ == result_line(status@, length as nat, url@, location@),
{
    let mut r = String::new();
    r.append(status);
    r.append(" - ");
    let d = decimal_string(length as u64);
    if d.len() < 7 {
        push_spaces(&mut r, 7 - d.len());
    }
    append_chars(&mut r, &d);
    r.append("B - ");
    r.append(url);
    let loc = chars_of(location);
    if loc.len() > 0 {
        r.append(" -> ");
        r.append(location);
    }
    assert(r@ =~= result_line(status@, length as nat, url@, location@));
    r
}

/// The colour of a status code, by its leading digit.
#[derive(Debug, Clone, Copy, PartialEq, Eq)]
pub enum StatusColor {
    Green,
    Blue,
    Yellow,
    Red,
    White,
}

pub open spec fn color_of_digit(c: char) -> StatusColor {
    if c == '2' {
        StatusColor::Green
    } else if c == '3' {
        StatusColor::Blue
    } else if c == '4' {
        StatusColor::Yellow
    } else if c == '5' {
        StatusColor::Red
    } else {
        StatusColor::White
    }
}

/// 2xx green, 3xx blue, 4xx yellow, 5xx red, anything else white.
pub fn status_color(code: u16) -> (r: StatusColor)
    ensures
        r == color_of_digit(decimal(code as nat)[0]),
{
    let d = decimal_string(code as u64);
    proof { lemma_decimal_nonempty(code as nat); }
    let c = d[0];
    if c == '2' {
        StatusColor::Green
    } else if c == '3' {
        StatusColor::Blue
    } else if c == '4' {
        StatusColor::Yellow
    } else if c == '5' {
        StatusColor::Red
    } else {
        StatusColor::White
    }
}

proof fn lemma_decimal_nonempty(n: nat)
    ensures
        decimal(n).len() >= 1,
    decreases n,
{
    if n >= 10 {
        lemma_decimal_nonempty(n / 10);
    }
}


/// The unit after `k` divisions by 1024.
pub open spec fn unit_text(k: nat) -> Seq<char> {
    if k == 0 {
        "B "@
    } else if k == 1 {
        "KB"@
    } else if k == 2 {
        "MB"@
    } else if k == 3 {
        "GB"@
    } else {
        "TB"@
    }
}

/// A magnitude divided by 1024 while it is 1024 or more, four times at most;
/// with the number of divisions.
pub open spec fn scaled(m: nat, k: nat) -> (nat, nat)
    decreases 4 - k,
{
    if k < 4 && m >= 1024 {
        scaled(m / 1024, k + 1)
    } else {
        (m, k)
    }
}

pub open spec fn abs(n: int) -> nat {
    if n < 0 {
        (-n) as nat
    } else {
        n as nat
    }
}

/// A byte count in the largest unit (B, KB, MB, GB, TB) that keeps it under
/// 1024, divided with truncation and keeping its sign.
pub open spec fn human_size_spec(size: int) -> Seq<char> {
    let (m, k) = scaled(abs(size), 0);
    (if size < 0 {
        "-"@
    } else {
        Seq::empty()
    }) + decimal(m) + unit_text(k)
}

fn unit_string(k: u64) -> (r: String)
    ensures
        r@ == unit_text(k as nat),
{
    if k == 0 {
        String::from_str("B ")
    } else if k == 1 {
        String::from_str("KB")
    } else if k == 2 {
        String::from_str("MB")
    } else if k == 3 {
        String::from_str("GB")
    } else {
        String::from_str("TB")
    }
}

/// Renders a byte count for people: `512B `, `3KB`, `-2MB`.
pub fn human_size(size: i64) -> (r: String)
    ensures
        r@ == human_size_spec(size as int),
{
    let mut m: u64 = if size >= 0 {
        size as u64
    } else {
        ((-(size + 1)) as u64) + 1
    };
    assert(m as nat == abs(size as int));
    let mut k: u64 = 0;
    while k < 4 && m >= 1024
        invariant
            k <= 4,
            scaled(m as nat, k as nat) == scaled(abs(size as int), 0),
        decreases 4 - k,
    {
        m = m / 1024;
        k = k + 1;
    }
    let mut r = String::new();
    if size < 0 {
        r.append("-");
    }
    push_decimal(&mut r, m);
    let u = unit_string(k);
    r.append(u.as_str());
    assert(r@ =~= human_size_spec(size as int));
    r
}

} // verus!
