//! Character-level helpers over strings, stated on `Seq<char>` views.

use vstd::prelude::*;

verus! {

/// Relies on `String::push`: appends one character at the end.
#[verifier::external_body]
pub(crate) fn push_char(s: &mut String, c: char)
    ensures
        final(s)@ == old(s)@.push(c),
{
    s.push(c)
}

/// The characters of `s`, in order.
pub fn chars_of(s: &str) -> (r: Vec<char>)
    ensures
        r@ == s@,
{
    let mut r: Vec<char> = Vec::new();
    for c in it: s.chars()
        invariant
            r@ == it.seq().take(it.index() as int),
    {
        r.push(c);
    }
    r
}

/// A string holding exactly the characters `s[lo..hi]`.
pub fn string_of(s: &Vec<char>, lo: usize, hi: usize) -> (r: String)
    requires
        lo <= hi <= s@.len(),
    ensures
        r@ == s@.subrange(lo as int, hi as int),
{
    let mut r = String::new();
    let mut i: usize = lo;
    while i < hi
        invariant
            lo <= i <= hi <= s@.len(),
            r@ == s@.subrange(lo as int, i as int),
        decreases hi - i,
    {
        push_char(&mut r, s[i]);
        assert(s@.subrange(lo as int, i + 1) == s@.subrange(lo as int, i as int).push(s@[i as int]));
        i = i + 1;
    }
    r
}


/// The views of a sequence of character vectors.
pub open spec fn views(v: Seq<Vec<char>>) -> Seq<Seq<char>> {
    v.map_values(|x: Vec<char>| x@)
}

/// The pieces of `s` between occurrences of `sep`, as `str::split` yields
/// them: `n` separators give `n + 1` pieces, empty ones included.
pub open spec fn split_on(s: Seq<char>, sep: char) -> Seq<Seq<char>>
    decreases s.len(),
{
    if s.len() == 0 {
        seq![Seq::<char>::empty()]
    } else {
        let init = split_on(s.drop_last(), sep);
        if s.last() == sep {
            init.push(Seq::<char>::empty())
        } else {
            init.update(init.len() - 1, init.last().push(s.last()))
        }
    }
}

pub proof fn lemma_split_on_nonempty(s: Seq<char>, sep: char)
    ensures
        split_on(s, sep).len() >= 1,
    decreases s.len(),
{
    if s.len() > 0 {
        lemma_split_on_nonempty(s.drop_last(), sep);
    }
}

/// Splits `s` at every `sep`.
pub fn split_chars(s: &Vec<char>, sep: char) -> (r: Vec<Vec<char>>)
    ensures
        views(r@) == split_on(s@, sep),
{
    let mut out: Vec<Vec<char>> = Vec::new();
    let mut cur: Vec<char> = Vec::new();
    let mut i: usize = 0;
    while i < s.len()
        invariant
            i <= s@.len(),
            views(out@).push(cur@) == split_on(s@.take(i as int), sep),
        decreases s@.len() - i,
    {
        let c = s[i];
        proof {
            assert(s@.take(i + 1).drop_last() == s@.take(i as int));
            assert(s@.take(i + 1).last() == c);
            lemma_split_on_nonempty(s@.take(i as int), sep);
        }
        let ghost prev_out = out@;
        let ghost prev_cur = cur@;
        if c == sep {
            out.push(cur);
            cur = Vec::new();
            assert(views(out@) =~= views(prev_out).push(prev_cur));
            assert(views(out@).push(cur@) =~= views(prev_out).push(prev_cur).push(Seq::<char>::empty()));
        } else {
            cur.push(c);
            assert(views(out@).push(cur@) =~= views(prev_out).push(prev_cur).update(
                prev_out.len() as int,
                prev_cur.push(c),
            ));
        }
        i = i + 1;
    }
    assert(s@.take(s@.len() as int) == s@);
    let ghost prev_out = out@;
    let ghost prev_cur = cur@;
    out.push(cur);
    assert(views(out@) =~= views(prev_out).push(prev_cur));
    out
}


/// Why a decimal integer failed to parse; the kinds of `core::num::IntErrorKind`
/// that an unsigned parse can give.
#[derive(Debug, Clone, Copy, PartialEq, Eq)]
pub enum IntErrorKind {
    Empty,
    InvalidDigit,
    PosOverflow,
}

pub open spec fn is_digit(c: char) -> bool {
    '0' <= c && c <= '9'
}

pub open spec fn digit_value(c: char) -> nat {
    ((c as u32) as int - ('0' as u32) as int) as nat
}

/// Reads the digits of `d` from the left; the first character that is no
/// digit, or the first digit that takes the value past `max`, decides the error.
pub open spec fn scan_digits(d: Seq<char>, max: nat) -> Result<nat, IntErrorKind>
    decreases d.len(),
{
    if d.len() == 0 {
        Ok(0)
    } else {
        match scan_digits(d.drop_last(), max) {
            Err(e) => Err(e),
            Ok(v) => if !is_digit(d.last()) {
                Err(IntErrorKind::InvalidDigit)
            } else if v * 10 + digit_value(d.last()) > max {
                Err(IntErrorKind::PosOverflow)
            } else {
                Ok(v * 10 + digit_value(d.last()))
            },
        }
    }
}

/// An unsigned decimal with an optional leading `+`, at most `max`.
pub open spec fn parse_uint_spec(p: Seq<char>, max: nat) -> Result<nat, IntErrorKind> {
    if p.len() == 0 {
        Err(IntErrorKind::Empty)
    } else if p[0] == '+' {
        if p.len() == 1 {
            Err(IntErrorKind::InvalidDigit)
        } else {
            scan_digits(p.drop_first(), max)
        }
    } else {
        scan_digits(p, max)
    }
}

proof fn lemma_scan_err_extends(d: Seq<char>, k: int, max: nat)
    requires
        0 <= k <= d.len(),
        scan_digits(d.take(k), max) is Err,
    ensures
        scan_digits(d, max) == scan_digits(d.take(k), max),
    decreases d.len(),
{
    if k < d.len() {
        assert(d.drop_last().take(k) == d.take(k));
        lemma_scan_err_extends(d.drop_last(), k, max);
    } else {
        assert(d.take(k) == d);
    }
}

/// Parses `p` as an unsigned decimal no greater than `max`.
pub fn parse_uint(p: &Vec<char>, max: usize) -> (r: Result<usize, IntErrorKind>)
    ensures
        match r {
            Ok(v) => parse_uint_spec(p@, max as nat) == Ok::<nat, IntErrorKind>(v as nat),
            Err(e) => parse_uint_spec(p@, max as nat) == Err::<nat, IntErrorKind>(e),
        },
{
    if p.len() == 0 {
        return Err(IntErrorKind::Empty);
    }
    let st: usize = if p[0] == '+' { 1 } else { 0 };
    if st == 1 && p.len() == 1 {
        return Err(IntErrorKind::InvalidDigit);
    }
    let ghost d = p@.subrange(st as int, p@.len() as int);
    assert(st == 1 ==> d == p@.drop_first());
    assert(st == 0 ==> d == p@);
    let mut v: usize = 0;
    let mut i: usize = st;
    while i < p.len()
        invariant
            st <= i <= p@.len(),
            d == p@.subrange(st as int, p@.len() as int),
            parse_uint_spec(p@, max as nat) == scan_digits(d, max as nat),
            v <= max,
            scan_digits(d.take(i - st), max as nat) == Ok::<nat, IntErrorKind>(v as nat),
        decreases p@.len() - i,
    {
        let c = p[i];
        let ghost k = i - st + 1;
        assert(d.take(k).drop_last() == d.take(k - 1));
        assert(d.take(k).last() == c);
        if c < '0' || c > '9' {
            assert(scan_digits(d.take(k), max as nat) == Err::<nat, IntErrorKind>(IntErrorKind::InvalidDigit));
            proof { lemma_scan_err_extends(d, k, max as nat); }
            return Err(IntErrorKind::InvalidDigit);
        }
        let dv: usize = (c as u32 - '0' as u32) as usize;
        assert(dv as nat == digit_value(c));
        let m = v.checked_mul(10);
        if m.is_none() {
            assert(scan_digits(d.take(k), max as nat) == Err::<nat, IntErrorKind>(IntErrorKind::PosOverflow));
            proof { lemma_scan_err_extends(d, k, max as nat); }
            return Err(IntErrorKind::PosOverflow);
        }
        let n = m.unwrap().checked_add(dv);
        if n.is_none() || n.unwrap() > max {
            assert(scan_digits(d.take(k), max as nat) == Err::<nat, IntErrorKind>(IntErrorKind::PosOverflow));
            proof { lemma_scan_err_extends(d, k, max as nat); }
            return Err(IntErrorKind::PosOverflow);
        }
        v = n.unwrap();
        i = i + 1;
    }
    assert(d.take(p@.len() - st) == d);
    Ok(v)
}


/// Appends the characters of `c` to `s`.
pub fn append_chars(s: &mut String, c: &Vec<char>)
    ensures
        final(s)@ == old(s)@ + c@,
{
    let mut i: usize = 0;
    while i < c.len()
        invariant
            i <= c@.len(),
            s@ == old(s)@ + c@.take(i as int),
        decreases c@.len() - i,
    {
        push_char(s, c[i]);
        assert(c@.take(i + 1) == c@.take(i as int).push(c@[i as int]));
        i = i + 1;
    }
    assert(c@.take(c@.len() as int) == c@);
}


/// Splitting a concatenation joins the last piece of the left side to the
/// first piece of the right side.
pub proof fn lemma_split_on_concat(a: Seq<char>, b: Seq<char>, sep: char)
    ensures
        split_on(a + b, sep) == split_on(a, sep).drop_last() + seq![
            split_on(a, sep).last() + split_on(b, sep)[0],
        ] + split_on(b, sep).drop_first(),
    decreases b.len(),
{
    lemma_split_on_nonempty(a, sep);
    lemma_split_on_nonempty(b, sep);
    let sa = split_on(a, sep);
    if b.len() == 0 {
        assert(a + b =~= a);
        assert(split_on(b, sep) =~= seq![Seq::<char>::empty()]);
        assert(sa.last() + Seq::<char>::empty() =~= sa.last());
        assert(sa.drop_last() + seq![sa.last()] =~= sa);
    } else {
        let b0 = b.drop_last();
        let c = b.last();
        lemma_split_on_concat(a, b0, sep);
        lemma_split_on_nonempty(b0, sep);
        assert((a + b).drop_last() =~= a + b0);
        assert((a + b).last() == c);
        let sb0 = split_on(b0, sep);
        let sab0 = split_on(a + b0, sep);
        if c == sep {
            assert(split_on(b, sep) == sb0.push(Seq::<char>::empty()));
            if sb0.len() == 1 {
                assert(split_on(b, sep)[0] == sb0[0]);
                assert(split_on(b, sep).drop_first() =~= seq![Seq::<char>::empty()]);
                assert(sb0.drop_first() =~= Seq::<Seq<char>>::empty());
            } else {
                assert(split_on(b, sep)[0] == sb0[0]);
                assert(split_on(b, sep).drop_first() =~= sb0.drop_first().push(Seq::<char>::empty()));
            }
            assert(split_on(a + b, sep) =~= sa.drop_last() + seq![sa.last() + split_on(b, sep)[0]]
                + split_on(b, sep).drop_first());
        } else {
            assert(split_on(b, sep) == sb0.update(sb0.len() - 1, sb0.last().push(c)));
            if sb0.len() == 1 {
                assert(split_on(b, sep)[0] == sb0[0].push(c));
                assert(split_on(b, sep).drop_first() =~= Seq::<Seq<char>>::empty());
                assert(sb0.drop_first() =~= Seq::<Seq<char>>::empty());
                assert(sa.last() + sb0[0].push(c) =~= (sa.last() + sb0[0]).push(c));
            } else {
                assert(split_on(b, sep)[0] == sb0[0]);
                assert(split_on(b, sep).drop_first() =~= sb0.drop_first().update(
                    sb0.len() - 2,
                    sb0.last().push(c),
                ));
            }
            assert(split_on(a + b, sep) =~= sa.drop_last() + seq![sa.last() + split_on(b, sep)[0]]
                + split_on(b, sep).drop_first());
        }
    }
}


/// Text without the separator is one piece.
pub proof fn lemma_split_on_no_sep(s: Seq<char>, sep: char)
    requires
        !s.contains(sep),
    ensures
        split_on(s, sep) == seq![s],
    decreases s.len(),
{
    if s.len() > 0 {
        assert(!s.drop_last().contains(sep)) by {
            if s.drop_last().contains(sep) {
                let i = choose|i: int| 0 <= i < s.drop_last().len() && s.drop_last()[i] == sep;
                assert(s[i] == sep);
            }
        }
        lemma_split_on_no_sep(s.drop_last(), sep);
        assert(s.last() != sep) by {
            assert(s[s.len() - 1] == s.last());
        }
        assert(s.drop_last().push(s.last()) =~= s);
        assert(split_on(s, sep) =~= seq![s]);
    } else {
        assert(s =~= Seq::<char>::empty());
        assert(split_on(s, sep) =~= seq![s]);
    }
}


/// No piece holds the separator.
pub proof fn lemma_split_on_pieces(s: Seq<char>, sep: char)
    ensures
        forall|i: int| 0 <= i < split_on(s, sep).len() ==> !(#[trigger] split_on(s, sep)[i]).contains(sep),
    decreases s.len(),
{
    if s.len() > 0 {
        lemma_split_on_pieces(s.drop_last(), sep);
        lemma_split_on_nonempty(s.drop_last(), sep);
        let init = split_on(s.drop_last(), sep);
        if s.last() != sep {
            let l = init.last();
            assert(!l.contains(sep)) by {
                assert(init[init.len() - 1] == l);
            }
            assert(!l.push(s.last()).contains(sep)) by {
                if l.push(s.last()).contains(sep) {
                    let k = choose|k: int| 0 <= k < l.push(s.last()).len() && l.push(s.last())[k] == sep;
                    assert(k < l.len());
                    assert(l[k] == sep);
                }
            }
        }
        assert forall|i: int| 0 <= i < split_on(s, sep).len() implies !(#[trigger] split_on(s, sep)[i]).contains(sep) by {
            if i < init.len() - 1 || (s.last() == sep && i < init.len()) {
                assert(split_on(s, sep)[i] == init[i]);
            } else if s.last() == sep {
                assert(split_on(s, sep)[i] =~= Seq::<char>::empty());
            }
        }
    }
}

} // verus!
