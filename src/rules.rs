//! Match and exclude rules on status codes and response sizes, and their
//! textual forms.

use vstd::prelude::*;
use crate::output::{decimal, digit_char};
use crate::text::{
    append_chars, chars_of, digit_value, is_digit, lemma_split_on_concat, lemma_split_on_no_sep,
    lemma_split_on_nonempty, parse_uint, parse_uint_spec, scan_digits, split_chars, split_on, views,
    IntErrorKind,
};

verus! {

/// The verdict of one decider, or of the whole chain.
#[derive(Debug, Clone, Copy, PartialEq, Eq)]
pub enum Action {
    Keep,
    Discard,
}

pub open spec fn keep_if(b: bool) -> Action {
    if b {
        Action::Keep
    } else {
        Action::Discard
    }
}

/// A status-code rule: every code, or the codes of a list (an empty list
/// names none).
#[derive(Debug, Clone, PartialEq, Eq)]
pub enum StatusCodes {
    All,
    Codes(Vec<u16>),
}

impl StatusCodes {
    pub open spec fn matches_spec(&self, code: u16) -> bool {
        match self {
            StatusCodes::All => true,
            StatusCodes::Codes(v) => v@.contains(code),
        }
    }

    /// Whether the rule names `code`.
    pub fn matches(&self, code: u16) -> (r: bool)
        ensures
            r == self.matches_spec(code),
    {
        match self {
            StatusCodes::All => true,
            StatusCodes::Codes(v) => contains_code(v, code),
        }
    }
}

fn contains_code(v: &Vec<u16>, code: u16) -> (r: bool)
    ensures
        r == v@.contains(code),
{
    let mut i: usize = 0;
    while i < v.len()
        invariant
            i <= v@.len(),
            forall|j: int| 0 <= j < i ==> v@[j] != code,
        decreases v@.len() - i,
    {
        if v[i] == code {
            assert(v@[i as int] == code);
            return true;
        }
        i = i + 1;
    }
    false
}

/// A size rule: one exact size, or an inclusive range.
#[derive(Debug, Clone, Copy, PartialEq, Eq)]
pub enum Size {
    Single(usize),
    Range(usize, usize),
}

impl Size {
    pub open spec fn matches_spec(self, len: usize) -> bool {
        match self {
            Size::Single(n) => len == n,
            Size::Range(lo, hi) => lo <= len && len <= hi,
        }
    }

    /// Whether a response of `len` bytes falls under the rule.
    pub fn matches(&self, len: usize) -> (r: bool)
        ensures
            r == self.matches_spec(len),
    {
        match *self {
            Size::Single(n) => len == n,
            Size::Range(lo, hi) => lo <= len && len <= hi,
        }
    }
}

pub open spec fn any_size_matches(sizes: Seq<Size>, len: usize) -> bool {
    exists|i: int| 0 <= i < sizes.len() && #[trigger] sizes[i].matches_spec(len)
}

/// Whether any rule of `sizes` takes in `len`.
pub fn sizes_match(sizes: &Vec<Size>, len: usize) -> (r: bool)
    ensures
        r == any_size_matches(sizes@, len),
{
    let mut i: usize = 0;
    while i < sizes.len()
        invariant
            i <= sizes@.len(),
            forall|j: int| 0 <= j < i ==> !(#[trigger] sizes@[j]).matches_spec(len),
        decreases sizes@.len() - i,
    {
        if sizes[i].matches(len) {
            return true;
        }
        i = i + 1;
    }
    false
}

/// Keeps when the rule's verdict on `code` agrees with `m`: a match rule
/// (`m` true) keeps the codes it names, an exclude rule (`m` false) the others.
pub fn filter(codes: &StatusCodes, code: u16, m: bool) -> (r: Action)
    ensures
        r == keep_if(codes.matches_spec(code) == m),
{
    if codes.matches(code) == m {
        Action::Keep
    } else {
        Action::Discard
    }
}

/// As `filter`, for a list of size rules and a response length.
pub fn filter_size(sizes: &Vec<Size>, len: usize, m: bool) -> (r: Action)
    ensures
        r == keep_if(any_size_matches(sizes@, len) == m),
{
    if sizes_match(sizes, len) == m {
        Action::Keep
    } else {
        Action::Discard
    }
}


pub open spec fn is_all_word(s: Seq<char>) -> bool {
    s == seq!['a', 'l', 'l']
}

/// What one comma-separated piece of a code list reads as.
pub open spec fn code_of(p: Seq<char>) -> Result<nat, IntErrorKind> {
    parse_uint_spec(p, 65535)
}

pub open spec fn all_codes_valid(pieces: Seq<Seq<char>>) -> bool {
    forall|i: int| 0 <= i < pieces.len() ==> (#[trigger] code_of(pieces[i])) is Ok
}

pub open spec fn first_bad_code(pieces: Seq<Seq<char>>, i: int) -> bool {
    &&& 0 <= i < pieces.len()
    &&& code_of(pieces[i]) is Err
    &&& forall|j: int| 0 <= j < i ==> (#[trigger] code_of(pieces[j])) is Ok
}

/// What reading `s` as a status-code rule gives: `All` for the word `all`;
/// else the list of its comma-separated codes when every piece is a code,
/// and otherwise an error naming the first piece that is not.
pub open spec fn status_codes_parsed(s: Seq<char>, r: Result<StatusCodes, String>) -> bool {
    &&& (r is Ok <==> (is_all_word(s) || all_codes_valid(split_on(s, ','))))
    &&& (is_all_word(s) ==> r == Ok::<StatusCodes, String>(StatusCodes::All))
    &&& (!is_all_word(s) ==> match r {
        Ok(StatusCodes::Codes(v)) => {
            &&& v@.len() == split_on(s, ',').len()
            &&& forall|i: int|
                0 <= i < v@.len() ==> code_of(split_on(s, ',')[i]) == Ok::<nat, IntErrorKind>(
                    v@[i] as nat,
                )
        },
        Ok(StatusCodes::All) => false,
        Err(m) => exists|i: int|
            first_bad_code(split_on(s, ','), i) && m@ == "Invalid code: "@ + split_on(s, ',')[i],
    })
}

/// Reads a status-code rule: the word `all`, or a comma-separated list of
/// codes; the first piece that is no code is named in the error.
pub fn parse_status_codes(s: &str) -> (r: Result<StatusCodes, String>)
    ensures
        status_codes_parsed(s@, r),
{
    let cs = chars_of(s);
    if cs.len() == 3 && cs[0] == 'a' && cs[1] == 'l' && cs[2] == 'l' {
        assert(cs@ =~= seq!['a', 'l', 'l']);
        return Ok(StatusCodes::All);
    }
    let pieces = split_chars(&cs, ',');
    let ghost ps = split_on(s@, ',');
    assert(views(pieces@) == ps);
    let mut codes: Vec<u16> = Vec::new();
    let mut i: usize = 0;
    while i < pieces.len()
        invariant
            i <= pieces@.len(),
            ps == split_on(s@, ','),
            views(pieces@) == ps,
            !is_all_word(s@),
            codes@.len() == i,
            forall|j: int| 0 <= j < i ==> code_of(ps[j]) == Ok::<nat, IntErrorKind>(codes@[j] as nat),
        decreases pieces@.len() - i,
    {
        assert(ps[i as int] == pieces@[i as int]@);
        let parsed = parse_uint(&pieces[i], 65535);
        if parsed.is_err() {
            let mut m = String::from_str("Invalid code: ");
            append_chars(&mut m, &pieces[i]);
            assert(first_bad_code(ps, i as int));
            return Err(m);
        }
        codes.push(parsed.unwrap() as u16);
        i = i + 1;
    }
    assert(all_codes_valid(ps));
    Ok(StatusCodes::Codes(codes))
}


/// The text of a `core::num::ParseIntError` of kind `k`.
pub open spec fn int_error_text(k: IntErrorKind) -> Seq<char> {
    match k {
        IntErrorKind::Empty => "cannot parse integer from empty string"@,
        IntErrorKind::InvalidDigit => "invalid digit found in string"@,
        IntErrorKind::PosOverflow => "number too large to fit in target type"@,
    }
}

fn int_error_message(k: IntErrorKind) -> (r: String)
    ensures
        r@ == int_error_text(k),
{
    match k {
        IntErrorKind::Empty => String::from_str("cannot parse integer from empty string"),
        IntErrorKind::InvalidDigit => String::from_str("invalid digit found in string"),
        IntErrorKind::PosOverflow => String::from_str("number too large to fit in target type"),
    }
}

/// What one bound of a size rule reads as.
pub open spec fn bound_of(p: Seq<char>) -> Result<nat, IntErrorKind> {
    parse_uint_spec(p, usize::MAX as nat)
}

/// A size rule is `n` or `lo-hi`; the first bound that is no number decides
/// the error, and more than one `-` is refused.
pub open spec fn parse_size_spec(s: Seq<char>) -> Result<Size, Seq<char>> {
    let parts = split_on(s, '-');
    if parts.len() == 1 {
        match bound_of(parts[0]) {
            Ok(n) => Ok(Size::Single(n as usize)),
            Err(k) => Err(int_error_text(k)),
        }
    } else if parts.len() == 2 {
        match bound_of(parts[0]) {
            Err(k) => Err(int_error_text(k)),
            Ok(lo) => match bound_of(parts[1]) {
                Err(k) => Err(int_error_text(k)),
                Ok(hi) => Ok(Size::Range(lo as usize, hi as usize)),
            },
        }
    } else {
        Err("Invalid filter size format"@)
    }
}

/// The result of reading `s` as a size rule agrees with `parse_size_spec`.
pub open spec fn size_parsed(s: Seq<char>, r: Result<Size, String>) -> bool {
    match r {
        Ok(z) => parse_size_spec(s) == Ok::<Size, Seq<char>>(z),
        Err(m) => parse_size_spec(s) == Err::<Size, Seq<char>>(m@),
    }
}

/// Reads a size rule.
pub fn parse_size(s: &str) -> (r: Result<Size, String>)
    ensures
        size_parsed(s@, r),
{
    let cs = chars_of(s);
    let parts = split_chars(&cs, '-');
    proof { lemma_split_on_nonempty(s@, '-'); }
    assert(views(parts@)[0] == parts@[0]@);
    if parts.len() == 1 {
        match parse_uint(&parts[0], usize::MAX) {
            Ok(n) => Ok(Size::Single(n)),
            Err(k) => Err(int_error_message(k)),
        }
    } else if parts.len() == 2 {
        assert(views(parts@)[1] == parts@[1]@);
        match parse_uint(&parts[0], usize::MAX) {
            Err(k) => Err(int_error_message(k)),
            Ok(lo) => match parse_uint(&parts[1], usize::MAX) {
                Err(k) => Err(int_error_message(k)),
                Ok(hi) => Ok(Size::Range(lo, hi)),
            },
        }
    } else {
        Err(String::from_str("Invalid filter size format"))
    }
}

impl std::str::FromStr for StatusCodes {
    type Err = String;

    /// Reads a status-code rule, as `parse_status_codes` does.
    fn from_str(s: &str) -> (r: Result<StatusCodes, String>)
        ensures
            status_codes_parsed(s@, r),
    {
        parse_status_codes(s)
    }
}

impl std::str::FromStr for Size {
    type Err = String;

    /// Reads a size rule, as `parse_size` does.
    fn from_str(s: &str) -> (r: Result<Size, String>)
        ensures
            size_parsed(s@, r),
    {
        parse_size(s)
    }
}


/// The codes that the match rule keeps unless told otherwise.
pub fn default_match_codes() -> (r: StatusCodes)
    ensures
        r matches StatusCodes::Codes(v) && v@ == seq![200u16, 204, 301, 302, 307, 401, 403, 405],
{
    let v: Vec<u16> = vec![200, 204, 301, 302, 307, 401, 403, 405];
    StatusCodes::Codes(v)
}

/// A code written in decimal reads back as itself.
proof fn lemma_decimal_scans(n: nat, max: nat)
    requires
        n <= max,
    ensures
        scan_digits(decimal(n), max) == Ok::<nat, IntErrorKind>(n),
        decimal(n).len() >= 1,
        forall|i: int| 0 <= i < decimal(n).len() ==> is_digit(#[trigger] decimal(n)[i]),
    decreases n,
{
    let d = n % 10;
    assert(is_digit(digit_char(d)) && digit_value(digit_char(d)) == d);
    if n >= 10 {
        lemma_decimal_scans(n / 10, max);
        let init = decimal(n / 10);
        assert(decimal(n).drop_last() =~= init);
        assert(decimal(n).last() == digit_char(d));
        assert((n / 10) * 10 + d == n);
        assert(n / 10 <= max);
        assert forall|i: int| 0 <= i < decimal(n).len() implies is_digit(#[trigger] decimal(n)[i]) by {
            if i < init.len() {
                assert(decimal(n)[i] == init[i]);
            }
        }
    } else {
        assert(n % 10 == n);
        assert(decimal(n).drop_last() =~= Seq::<char>::empty());
        assert(scan_digits(Seq::<char>::empty(), max) == Ok::<nat, IntErrorKind>(0));
    }
}

proof fn lemma_decimal_parses(n: nat, max: nat)
    requires
        n <= max,
    ensures
        parse_uint_spec(decimal(n), max) == Ok::<nat, IntErrorKind>(n),
        decimal(n).len() >= 1,
        forall|i: int| 0 <= i < decimal(n).len() ==> is_digit(#[trigger] decimal(n)[i]),
        !decimal(n).contains('-'),
        !decimal(n).contains(','),
{
    lemma_decimal_scans(n, max);
    assert(decimal(n)[0] != '+');
    assert(!decimal(n).contains('-')) by {
        if decimal(n).contains('-') {
            let i = choose|i: int| 0 <= i < decimal(n).len() && decimal(n)[i] == '-';
            assert(is_digit(decimal(n)[i]));
        }
    }
    assert(!decimal(n).contains(',')) by {
        if decimal(n).contains(',') {
            let i = choose|i: int| 0 <= i < decimal(n).len() && decimal(n)[i] == ',';
            assert(is_digit(decimal(n)[i]));
        }
    }
}

/// A size written in decimal reads back as itself.
pub proof fn lemma_size_single_round_trip(n: usize)
    ensures
        parse_size_spec(decimal(n as nat)) == Ok::<Size, Seq<char>>(Size::Single(n)),
{
    lemma_decimal_parses(n as nat, usize::MAX as nat);
    lemma_split_on_no_sep(decimal(n as nat), '-');
}

/// A range written `lo-hi` in decimal reads back as itself.
pub proof fn lemma_size_range_round_trip(lo: usize, hi: usize)
    ensures
        parse_size_spec(decimal(lo as nat) + seq!['-'] + decimal(hi as nat)) == Ok::<Size, Seq<char>>(
            Size::Range(lo, hi),
        ),
{
    let a = decimal(lo as nat);
    let b = decimal(hi as nat);
    lemma_decimal_parses(lo as nat, usize::MAX as nat);
    lemma_decimal_parses(hi as nat, usize::MAX as nat);
    lemma_split_on_no_sep(a, '-');
    lemma_split_on_no_sep(b, '-');
    let dash = seq!['-'];
    assert(split_on(dash, '-') =~= seq![Seq::<char>::empty(), Seq::<char>::empty()]) by {
        assert(dash.drop_last() =~= Seq::<char>::empty());
        assert(split_on(Seq::<char>::empty(), '-') =~= seq![Seq::<char>::empty()]);
    }
    lemma_split_on_concat(a, dash, '-');
    assert(a + Seq::<char>::empty() =~= a);
    assert(split_on(a + dash, '-') =~= seq![a, Seq::<char>::empty()]);
    lemma_split_on_concat(a + dash, b, '-');
    assert(Seq::<char>::empty() + b =~= b);
    assert(split_on(a + dash + b, '-') =~= seq![a, b]);
}

/// Codes written in decimal and joined with commas.
pub open spec fn joined_codes(cs: Seq<u16>) -> Seq<char>
    decreases cs.len(),
{
    if cs.len() <= 1 {
        if cs.len() == 0 {
            Seq::empty()
        } else {
            decimal(cs[0] as nat)
        }
    } else {
        joined_codes(cs.drop_last()) + seq![','] + decimal(cs.last() as nat)
    }
}

proof fn lemma_joined_split(cs: Seq<u16>)
    requires
        cs.len() >= 1,
    ensures
        split_on(joined_codes(cs), ',') == cs.map_values(|c: u16| decimal(c as nat)),
        joined_codes(cs)[0] == decimal(cs[0] as nat)[0],
        joined_codes(cs).len() >= 1,
    decreases cs.len(),
{
    let last = decimal(cs.last() as nat);
    lemma_decimal_parses(cs.last() as nat, 65535);
    lemma_split_on_no_sep(last, ',');
    if cs.len() == 1 {
        assert(cs.map_values(|c: u16| decimal(c as nat)) =~= seq![decimal(cs[0] as nat)]);
    } else {
        let init = joined_codes(cs.drop_last());
        lemma_joined_split(cs.drop_last());
        let comma = seq![','];
        assert(split_on(comma, ',') =~= seq![Seq::<char>::empty(), Seq::<char>::empty()]) by {
            assert(comma.drop_last() =~= Seq::<char>::empty());
            assert(split_on(Seq::<char>::empty(), ',') =~= seq![Seq::<char>::empty()]);
        }
        let si = split_on(init, ',');
        lemma_split_on_concat(init, comma, ',');
        assert(si.last() + Seq::<char>::empty() =~= si.last());
        assert(si.drop_last() + seq![si.last()] =~= si);
        assert(split_on(init + comma, ',') =~= si.push(Seq::<char>::empty()));
        lemma_split_on_concat(init + comma, last, ',');
        assert(Seq::<char>::empty() + last =~= last);
        assert(split_on(init + comma + last, ',') =~= si.push(last));
        assert(cs.map_values(|c: u16| decimal(c as nat)) =~= cs.drop_last().map_values(
            |c: u16| decimal(c as nat),
        ).push(last));
        assert((init + comma + last)[0] == init[0]);
    }
}

/// A non-empty list of codes, written in decimal and joined with commas,
/// reads back as the same list, order and repetitions kept.
pub proof fn lemma_codes_round_trip(cs: Seq<u16>, r: Result<StatusCodes, String>)
    requires
        cs.len() >= 1,
        status_codes_parsed(joined_codes(cs), r),
    ensures
        r matches Ok(StatusCodes::Codes(v)) && v@ == cs,
{
    lemma_joined_split(cs);
    let s = joined_codes(cs);
    let ps = split_on(s, ',');
    lemma_decimal_parses(cs[0] as nat, 65535);
    assert(is_digit(decimal(cs[0] as nat)[0]));
    assert(!is_all_word(s));
    assert forall|i: int| 0 <= i < ps.len() implies (#[trigger] code_of(ps[i])) == Ok::<nat, IntErrorKind>(
        cs[i] as nat,
    ) by {
        lemma_decimal_parses(cs[i] as nat, 65535);
    }
    assert(all_codes_valid(ps));
    match r {
        Ok(StatusCodes::Codes(v)) => {
            assert forall|i: int| 0 <= i < cs.len() implies v@[i] == cs[i] by {
                assert(code_of(ps[i]) == Ok::<nat, IntErrorKind>(v@[i] as nat));
            }
            assert(v@ =~= cs);
        },
        _ => {},
    }
}

} // verus!
