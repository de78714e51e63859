//! Decimal text for request ids and integer command arguments, and the
//! small string utilities the codec is built on.

use vstd::prelude::*;

verus! {

/// Relies on `String::push` from std: appends exactly the given character.
pub assume_specification[ String::push ](s: &mut String, c: char)
    ensures
        final(s)@ == old(s)@.push(c),
;

/// The character for one decimal digit.
pub open spec fn digit_char(d: int) -> char {
    if d == 0 {
        '0'
    } else if d == 1 {
        '1'
    } else if d == 2 {
        '2'
    } else if d == 3 {
        '3'
    } else if d == 4 {
        '4'
    } else if d == 5 {
        '5'
    } else if d == 6 {
        '6'
    } else if d == 7 {
        '7'
    } else if d == 8 {
        '8'
    } else {
        '9'
    }
}

pub open spec fn is_digit(c: char) -> bool {
    '0' <= c <= '9'
}

/// The value of one decimal digit character.
pub open spec fn digit_val(c: char) -> int {
    c as int - '0' as int
}

/// The canonical decimal form of a natural number: no sign, no leading
/// zeros (except for zero itself).
pub open spec fn dec_digits(n: nat) -> Seq<char>
    decreases n,
{
    if n < 10 {
        seq![digit_char(n as int)]
    } else {
        dec_digits(n / 10).push(digit_char((n % 10) as int))
    }
}

/// The number denoted by a sequence of decimal digit characters.
pub open spec fn digits_val(s: Seq<char>) -> nat
    decreases s.len(),
{
    if s.len() == 0 {
        0
    } else {
        digits_val(s.drop_last()) * 10 + digit_val(s.last()) as nat
    }
}

pub open spec fn all_digits(s: Seq<char>) -> bool {
    forall|i: int| 0 <= i < s.len() ==> is_digit(#[trigger] s[i])
}

pub proof fn lemma_dec_digits_wf(n: nat)
    ensures
        dec_digits(n).len() >= 1,
        all_digits(dec_digits(n)),
        is_digit(dec_digits(n)[0]),
    decreases n,
{
    if n >= 10 {
        lemma_dec_digits_wf(n / 10);
        assert forall|i: int| 0 <= i < dec_digits(n).len() implies is_digit(
            #[trigger] dec_digits(n)[i],
        ) by {
            if i < dec_digits(n / 10).len() {
                assert(dec_digits(n)[i] == dec_digits(n / 10)[i]);
            }
        }
    }
}

/// Reading the canonical decimal form back gives the number it was made
/// from.
pub proof fn lemma_digits_roundtrip(n: nat)
    ensures
        digits_val(dec_digits(n)) == n,
    decreases n,
{
    if n < 10 {
        let s = dec_digits(n);
        assert(s =~= seq![digit_char(n as int)]);
        assert(s.drop_last() =~= Seq::<char>::empty());
        assert(digit_val(digit_char(n as int)) == n);
        assert(digits_val(s) == digits_val(s.drop_last()) * 10 + digit_val(s.last()) as nat);
    } else {
        lemma_digits_roundtrip(n / 10);
        let s = dec_digits(n);
        assert(s.drop_last() =~= dec_digits(n / 10));
        assert(s.last() == digit_char((n % 10) as int));
        assert(digit_val(digit_char((n % 10) as int)) == n % 10);
        assert(digits_val(s) == digits_val(s.drop_last()) * 10 + digit_val(s.last()) as nat);
        assert(digits_val(s) == (n / 10) * 10 + n % 10);
    }
}

/// Extending a digit string on the right never shrinks its value.
pub proof fn lemma_digits_val_extend(s: Seq<char>, t: Seq<char>)
    ensures
        digits_val(s + t) >= digits_val(s),
    decreases t.len(),
{
    if t.len() == 0 {
        assert(s + t =~= s);
    } else {
        lemma_digits_val_extend(s, t.drop_last());
        let u = s + t;
        assert(u.drop_last() =~= s + t.drop_last());
        assert(digits_val(u) == digits_val(u.drop_last()) * 10 + digit_val(u.last()) as nat);
        assert(digits_val(u) >= digits_val(u.drop_last()));
    }
}

/// The decimal digits of `n`, canonical form.
pub fn fmt_u64(n: u64) -> (r: Vec<char>)
    ensures
        r@ == dec_digits(n as nat),
{
    let mut r: Vec<char> = Vec::new();
    fmt_u64_into(n, &mut r);
    proof {
        assert(r@ =~= Seq::<char>::empty() + dec_digits(n as nat));
    }
    r
}

fn fmt_u64_into(n: u64, out: &mut Vec<char>)
    ensures
        final(out)@ == old(out)@ + dec_digits(n as nat),
    decreases n,
{
    if n >= 10 {
        fmt_u64_into(n / 10, out);
    }
    let d: u64 = n % 10;
    let c: char = digit_of(d);
    out.push(c);
    proof {
        if n < 10 {
            assert(final(out)@ =~= old(out)@ + dec_digits(n as nat));
        } else {
            assert(final(out)@ =~= old(out)@ + dec_digits(n as nat));
        }
    }
}

fn digit_of(d: u64) -> (c: char)
    requires
        d < 10,
    ensures
        c == digit_char(d as int),
{
    if d == 0 {
        '0'
    } else if d == 1 {
        '1'
    } else if d == 2 {
        '2'
    } else if d == 3 {
        '3'
    } else if d == 4 {
        '4'
    } else if d == 5 {
        '5'
    } else if d == 6 {
        '6'
    } else if d == 7 {
        '7'
    } else if d == 8 {
        '8'
    } else {
        '9'
    }
}

/// The decimal value of one digit character.
fn digit_value(c: char) -> (d: u8)
    requires
        is_digit(c),
    ensures
        d == digit_val(c),
{
    (c as u8) - ('0' as u8)
}

pub fn is_digit_exec(c: char) -> (r: bool)
    ensures
        r == is_digit(c),
{
    '0' <= c && c <= '9'
}

/// Reads `s[from..to]` as an unsigned decimal number. Returns `None`
/// exactly when the range is empty, holds a non-digit, or denotes a value
/// that does not fit in a `u64`.
pub fn parse_u64(s: &Vec<char>, from: usize, to: usize) -> (r: Option<u64>)
    requires
        from <= to <= s@.len(),
    ensures
        ({
            let d = s@.subrange(from as int, to as int);
            match r {
                Some(x) => d.len() > 0 && all_digits(d) && digits_val(d) == x,
                None => d.len() == 0 || !all_digits(d) || digits_val(d) > u64::MAX,
            }
        }),
{
    let ghost d = s@.subrange(from as int, to as int);
    if from == to {
        return None;
    }
    let mut acc: u64 = 0;
    let mut i: usize = from;
    while i < to
        invariant
            from <= i <= to <= s@.len(),
            d == s@.subrange(from as int, to as int),
            all_digits(d.subrange(0, i - from)),
            acc == digits_val(d.subrange(0, i - from)),
        decreases to - i,
    {
        let c = s[i];
        proof {
            assert(d[i - from] == s@[i as int]);
        }
        if !is_digit_exec(c) {
            proof {
                assert(!is_digit(d[i - from]));
            }
            return None;
        }
        let dv: u8 = digit_value(c);
        let ghost pre = d.subrange(0, i - from);
        let ghost ext = d.subrange(0, i + 1 - from);
        proof {
            assert(ext.drop_last() =~= pre);
            assert(ext.last() == d[i - from]);
            assert(digits_val(ext) == digits_val(pre) * 10 + digit_val(c));
        }
        if acc > (u64::MAX - (dv as u64)) / 10 {
            proof {
                assert(digits_val(ext) > u64::MAX);
                assert(ext + d.subrange(i + 1 - from, d.len() as int) =~= d);
                lemma_digits_val_extend(ext, d.subrange(i + 1 - from, d.len() as int));
            }
            return None;
        }
        acc = acc * 10 + (dv as u64);
        i = i + 1;
        proof {
            assert forall|j: int| 0 <= j < ext.len() implies is_digit(#[trigger] ext[j]) by {
                if j < pre.len() {
                    assert(ext[j] == pre[j]);
                }
            }
        }
    }
    proof {
        assert(d.subrange(0, to - from) =~= d);
    }
    Some(acc)
}

/// The characters of a string slice, in order.
pub fn str_chars(s: &str) -> (r: Vec<char>)
    ensures
        r@ == s@,
{
    let n = s.unicode_len();
    let mut r: Vec<char> = Vec::new();
    let mut i: usize = 0;
    while i < n
        invariant
            i <= n,
            n == s@.len(),
            r@ == s@.subrange(0, i as int),
        decreases n - i,
    {
        r.push(s.get_char(i));
        proof {
            assert(r@ =~= s@.subrange(0, i + 1));
        }
        i = i + 1;
    }
    proof {
        assert(s@.subrange(0, n as int) =~= s@);
    }
    r
}

/// A string holding exactly the given characters.
pub fn chars_to_string(v: &Vec<char>, from: usize, to: usize) -> (r: String)
    requires
        from <= to <= v@.len(),
    ensures
        r@ == v@.subrange(from as int, to as int),
{
    let mut r = String::new();
    let mut i: usize = from;
    while i < to
        invariant
            from <= i <= to <= v@.len(),
            r@ == v@.subrange(from as int, to as int).subrange(0, i - from),
        decreases to - i,
    {
        r.push(v[i]);
        proof {
            assert(r@ =~= v@.subrange(from as int, to as int).subrange(0, i + 1 - from));
        }
        i = i + 1;
    }
    proof {
        let d = v@.subrange(from as int, to as int);
        assert(d.subrange(0, to - from) =~= d);
    }
    r
}

} // verus!
