//! Character-level text operations: whitespace trimming, decimal rendering and
//! substring replacement, with the meaning the standard library gives them.

use vstd::prelude::*;
use vstd::string::*;
use vstd::utf8::*;

verus! {

/// `String::push` appends one character.
pub assume_specification[ String::push ](s: &mut String, ch: char)
    ensures
        final(s)@ == old(s)@.push(ch),
;

/// The Unicode `White_Space` property, which `char::is_whitespace` and `str::trim` use.
pub open spec fn is_white_space(c: char) -> bool {
    let u = c as u32;
    ||| 9 <= u <= 13
    ||| u == 32
    ||| u == 0x85
    ||| u == 0xA0
    ||| u == 0x1680
    ||| 0x2000 <= u <= 0x200A
    ||| u == 0x2028
    ||| u == 0x2029
    ||| u == 0x202F
    ||| u == 0x205F
    ||| u == 0x3000
}

/// `s` without its leading white space.
pub open spec fn trim_start(s: Seq<char>) -> Seq<char>
    decreases s.len(),
{
    if s.len() > 0 && is_white_space(s[0]) {
        trim_start(s.drop_first())
    } else {
        s
    }
}

/// `s` without its trailing white space.
pub open spec fn trim_end(s: Seq<char>) -> Seq<char>
    decreases s.len(),
{
    if s.len() > 0 && is_white_space(s.last()) {
        trim_end(s.drop_last())
    } else {
        s
    }
}

/// `str::trim`: `s` without leading and trailing white space.
pub open spec fn trim(s: Seq<char>) -> Seq<char> {
    trim_end(trim_start(s))
}

pub fn char_is_white_space(c: char) -> (r: bool)
    ensures
        r == is_white_space(c),
{
    let u = c as u32;
    (9 <= u && u <= 13) || u == 32 || u == 0x85 || u == 0xA0 || u == 0x1680 || (0x2000 <= u && u
        <= 0x200A) || u == 0x2028 || u == 0x2029 || u == 0x202F || u == 0x205F || u == 0x3000
}

/// The characters of `s`, in order.
pub fn chars_of(s: &str) -> (r: Vec<char>)
    ensures
        r@ == s@,
{
    let n = s.unicode_len();
    let mut v: Vec<char> = Vec::new();
    let mut i: usize = 0;
    while i < n
        invariant
            n == s@.len(),
            i <= n,
            v@ == s@.subrange(0, i as int),
        decreases n - i,
    {
        v.push(s.get_char(i));
        i = i + 1;
        assert(v@ =~= s@.subrange(0, i as int));
    }
    assert(v@ =~= s@);
    v
}

/// A `String` holding the characters `c[from..to]`.
pub fn string_from_chars(c: &Vec<char>, from: usize, to: usize) -> (r: String)
    requires
        from <= to <= c@.len(),
    ensures
        r@ == c@.subrange(from as int, to as int),
{
    let mut s = String::new();
    let mut i = from;
    while i < to
        invariant
            from <= i <= to <= c@.len(),
            s@ == c@.subrange(from as int, i as int),
        decreases to - i,
    {
        s.push(c[i]);
        i = i + 1;
        assert(s@ =~= c@.subrange(from as int, i as int));
    }
    s
}

proof fn lemma_trim_start_skip(s: Seq<char>, i: int)
    requires
        0 <= i <= s.len(),
        forall|j: int| 0 <= j < i ==> is_white_space(#[trigger] s[j]),
    ensures
        trim_start(s) == trim_start(s.subrange(i, s.len() as int)),
    decreases i,
{
    if i > 0 {
        assert(is_white_space(s[0]));
        let t = s.drop_first();
        assert forall|j: int| 0 <= j < i - 1 implies is_white_space(#[trigger] t[j]) by {
            assert(t[j] == s[j + 1]);
        }
        lemma_trim_start_skip(t, i - 1);
        assert(t.subrange(i - 1, t.len() as int) =~= s.subrange(i, s.len() as int));
    } else {
        assert(s.subrange(0, s.len() as int) =~= s);
    }
}

proof fn lemma_trim_end_cut(s: Seq<char>, k: int)
    requires
        0 <= k <= s.len(),
        forall|j: int| k <= j < s.len() ==> is_white_space(#[trigger] s[j]),
    ensures
        trim_end(s) == trim_end(s.subrange(0, k)),
    decreases s.len() - k,
{
    if k < s.len() {
        let t = s.drop_last();
        assert forall|j: int| k <= j < t.len() implies is_white_space(#[trigger] t[j]) by {
            assert(t[j] == s[j]);
        }
        assert(is_white_space(s[s.len() - 1]));
        lemma_trim_end_cut(t, k);
        assert(t.subrange(0, k) =~= s.subrange(0, k));
    } else {
        assert(s.subrange(0, k) =~= s);
    }
}

/// The bounds `(lo, hi)` of `trim(s)` inside `s`.
pub fn trim_bounds(c: &Vec<char>) -> (r: (usize, usize))
    ensures
        r.0 <= r.1 <= c@.len(),
        c@.subrange(r.0 as int, r.1 as int) == trim(c@),
{
    let n = c.len();
    let mut lo: usize = 0;
    while lo < n && char_is_white_space(c[lo])
        invariant
            lo <= n == c@.len(),
            forall|j: int| 0 <= j < lo ==> is_white_space(#[trigger] c@[j]),
        decreases n - lo,
    {
        lo = lo + 1;
    }
    proof {
        lemma_trim_start_skip(c@, lo as int);
    }
    let ghost rest = c@.subrange(lo as int, n as int);
    assert(trim_start(rest) == rest);
    let mut hi: usize = n;
    while hi > lo && char_is_white_space(c[hi - 1])
        invariant
            lo <= hi <= n == c@.len(),
            rest == c@.subrange(lo as int, n as int),
            forall|j: int| hi <= j < n ==> is_white_space(#[trigger] c@[j]),
        decreases hi - lo,
    {
        hi = hi - 1;
    }
    proof {
        assert forall|j: int| hi - lo <= j < rest.len() implies is_white_space(#[trigger] rest[j]) by {
            assert(rest[j] == c@[lo + j]);
        }
        lemma_trim_end_cut(rest, hi - lo);
        let cut = rest.subrange(0, hi - lo);
        assert(cut =~= c@.subrange(lo as int, hi as int));
        assert(trim_end(cut) == cut);
    }
    (lo, hi)
}

/// The ASCII character of decimal digit `d` (0..=9).
pub open spec fn digit_char(d: int) -> char {
    (48 + d) as char
}

/// The decimal representation of `n`, without leading zeros.
pub open spec fn decimal(n: nat) -> Seq<char>
    decreases n,
{
    if n < 10 {
        seq![digit_char(n as int)]
    } else {
        decimal(n / 10).push(digit_char((n % 10) as int))
    }
}

/// `s` with `'0'` characters in front up to width `w`, as the `{:0w}` format does.
pub open spec fn zero_pad(s: Seq<char>, w: nat) -> Seq<char> {
    if s.len() >= w {
        s
    } else {
        Seq::new((w - s.len()) as nat, |i: int| '0') + s
    }
}

/// `n` in decimal, zero-padded to at least `w` digits.
pub open spec fn padded(n: nat, w: nat) -> Seq<char> {
    zero_pad(decimal(n), w)
}

/// A year as chrono's `%Y` writes it: four zero-padded digits for years 0..=9999,
/// otherwise a sign followed by at least four zero-padded digits.
pub open spec fn year_text(y: int) -> Seq<char> {
    if 0 <= y <= 9999 {
        padded(y as nat, 4)
    } else if y > 9999 {
        seq!['+'] + padded(y as nat, 4)
    } else {
        seq!['-'] + padded((-y) as nat, 4)
    }
}

pub proof fn lemma_decimal_len(n: nat)
    ensures
        1 <= decimal(n).len(),
        n < 10 ==> decimal(n).len() == 1,
        n >= 10 ==> decimal(n).len() >= 2,
    decreases n,
{
    if n >= 10 {
        lemma_decimal_len(n / 10);
    }
}

pub proof fn lemma_decimal_len_le(n: nat, k: nat)
    requires
        k >= 1,
        n < crate::numeric::pow10(k),
    ensures
        decimal(n).len() <= k,
    decreases k,
{
    if n >= 10 {
        assert(k >= 2) by {
            if k == 1 {
                assert(crate::numeric::pow10(1) == 10 * crate::numeric::pow10(0));
            }
        }
        assert(crate::numeric::pow10(k) == 10 * crate::numeric::pow10((k - 1) as nat));
        lemma_decimal_len_le(n / 10, (k - 1) as nat);
    }
}

/// The ASCII character of the decimal digit `d`.
pub fn digit_to_char(d: u8) -> (c: char)
    requires
        d < 10,
    ensures
        c == digit_char(d as int),
{
    let c = (48u8 + d) as char;
    c
}

pub fn push_decimal(out: &mut String, n: u64)
    ensures
        final(out)@ == old(out)@ + decimal(n as nat),
    decreases n,
{
    if n >= 10 {
        push_decimal(out, n / 10);
    }
    let c = digit_to_char((n % 10) as u8);
    proof {
        assert(decimal(n as nat) == (if n >= 10 { decimal((n / 10) as nat) } else { seq![] }).push(
            digit_char((n % 10) as int),
        )) by {
            if n < 10 {
                assert(seq![digit_char(n as int)] =~= Seq::<char>::empty().push(digit_char((n % 10) as int)));
            }
        }
    }
    out.push(c);
    assert(final(out)@ =~= old(out)@ + decimal(n as nat)) by {
        if n < 10 {
            assert(decimal(n as nat) =~= seq![c]);
        }
    }
}

fn decimal_len(n: u64) -> (r: usize)
    ensures
        r == decimal(n as nat).len(),
    decreases n,
{
    proof {
        lemma_decimal_len(n as nat);
    }
    if n >= 10 {
        let k = decimal_len(n / 10);
        proof {
            crate::numeric::lemma_pow10_values();
            lemma_decimal_len_le((n / 10) as nat, 19);
        }
        k + 1
    } else {
        1
    }
}

/// Appends `n` in decimal, zero-padded to at least `w` digits.
pub fn push_padded(out: &mut String, n: u64, w: usize)
    ensures
        final(out)@ == old(out)@ + padded(n as nat, w as nat),
{
    let k = decimal_len(n);
    let mut i = k;
    let ghost start = out@;
    while i < w
        invariant
            k <= i,
            i == k || i <= w,
            k == decimal(n as nat).len(),
            out@ == start + Seq::new((i - k) as nat, |j: int| '0'),
        decreases w - i,
    {
        out.push('0');
        i = i + 1;
        assert(out@ =~= start + Seq::new((i - k) as nat, |j: int| '0'));
    }
    push_decimal(out, n);
    proof {
        if k >= w {
            assert(i == k);
            assert(Seq::new((i - k) as nat, |j: int| '0') =~= Seq::<char>::empty());
            assert(padded(n as nat, w as nat) == decimal(n as nat));
            assert(final(out)@ =~= old(out)@ + padded(n as nat, w as nat));
        } else {
            assert(i == w);
            assert(final(out)@ =~= old(out)@ + padded(n as nat, w as nat));
        }
    }
}

} // verus!

verus! {

/// The bytes of ASCII characters, one per character.
pub open spec fn ascii_of(s: Seq<char>) -> Seq<u8> {
    Seq::new(s.len(), |i: int| s[i] as u8)
}

/// `i` is where a character starts in the UTF-8 bytes `b`, or the end of `b`
/// (what `str::is_char_boundary` tests).
pub open spec fn on_char_boundary(b: Seq<u8>, i: int) -> bool {
    ||| i == 0
    ||| i == b.len()
    ||| (0 < i < b.len() && !(128 <= b[i] <= 191))
}

pub proof fn lemma_digit_char(d: int)
    requires
        0 <= d < 10,
    ensures
        digit_char(d) as u8 == 48 + d,
        digit_char(d) as u32 == 48 + d,
        '0' <= digit_char(d) <= '9',
{
}

pub proof fn lemma_decimal_digits(n: nat)
    ensures
        crate::numeric::all_digits(ascii_of(decimal(n))),
        crate::numeric::digits_value(ascii_of(decimal(n))) == n,
        is_ascii_chars(decimal(n)),
    decreases n,
{
    let b = ascii_of(decimal(n));
    lemma_digit_char((n % 10) as int);
    if n < 10 {
        assert(b.drop_last() =~= Seq::<u8>::empty());
        assert(crate::numeric::digits_value(Seq::<u8>::empty()) == 0);
        assert(crate::numeric::is_digit(b[0]));
    } else {
        lemma_decimal_digits(n / 10);
        let p = ascii_of(decimal(n / 10));
        assert(b.drop_last() =~= p);
        assert(b.last() == 48 + n % 10);
        assert forall|i: int| 0 <= i < b.len() implies crate::numeric::is_digit(#[trigger] b[i]) by {
            if i < b.len() - 1 {
                assert(b[i] == p[i]);
            }
        }
    }
}

pub proof fn lemma_zeros_prefix(k: nat, s: Seq<u8>)
    requires
        crate::numeric::all_digits(s),
    ensures
        crate::numeric::all_digits(Seq::new(k, |i: int| 48u8) + s),
        crate::numeric::digits_value(Seq::new(k, |i: int| 48u8) + s) == crate::numeric::digits_value(s),
    decreases s.len() + k,
{
    let z = Seq::new(k, |i: int| 48u8);
    let t = z + s;
    if s.len() > 0 {
        let sp = s.drop_last();
        assert(crate::numeric::all_digits(sp)) by {
            assert forall|i: int| 0 <= i < sp.len() implies crate::numeric::is_digit(#[trigger] sp[i]) by {
                assert(sp[i] == s[i]);
            }
        }
        lemma_zeros_prefix(k, sp);
        assert(t.drop_last() =~= z + sp);
    } else if k > 0 {
        let z1 = Seq::new((k - 1) as nat, |i: int| 48u8);
        lemma_zeros_prefix((k - 1) as nat, s);
        assert(t.drop_last() =~= z1 + s);
    } else {
        assert(t =~= s);
    }
}

pub proof fn lemma_padded_digits(n: nat, w: nat)
    ensures
        crate::numeric::all_digits(ascii_of(padded(n, w))),
        crate::numeric::digits_value(ascii_of(padded(n, w))) == n,
        is_ascii_chars(padded(n, w)),
        padded(n, w).len() >= w,
        n < 10000 && w == 4 ==> padded(n, w).len() == 4,
        n < 100 && w == 2 ==> padded(n, w).len() == 2,
        padded(n, w).len() >= 1,
        padded(n, w)[0] != '+' && padded(n, w)[0] != '-',
{
    lemma_decimal_digits(n);
    lemma_decimal_len(n);
    let d = decimal(n);
    if n < 10000 {
        crate::numeric::lemma_pow10_values();
        lemma_decimal_len_le(n, 4);
    }
    if n < 100 {
        assert(crate::numeric::pow10(2) == 100) by {
            reveal_with_fuel(crate::numeric::pow10, 3);
        }
        lemma_decimal_len_le(n, 2);
    }
    if d.len() < w {
        let zc = Seq::new((w - d.len()) as nat, |i: int| '0');
        lemma_zeros_prefix((w - d.len()) as nat, ascii_of(d));
        assert(ascii_of(zc + d) =~= Seq::new((w - d.len()) as nat, |i: int| 48u8) + ascii_of(d));
    }
    assert(crate::numeric::is_digit(ascii_of(padded(n, w))[0]));
}

} // verus!

verus! {

/// `str::replace`: every non-overlapping occurrence of `pat`, found left to right,
/// replaced by `rep` (`pat` non-empty).
pub open spec fn replace_all(s: Seq<char>, pat: Seq<char>, rep: Seq<char>) -> Seq<char>
    decreases s.len(),
{
    if pat.len() == 0 || s.len() < pat.len() {
        s
    } else if s.subrange(0, pat.len() as int) == pat {
        rep + replace_all(s.subrange(pat.len() as int, s.len() as int), pat, rep)
    } else {
        seq![s[0]] + replace_all(s.drop_first(), pat, rep)
    }
}

/// Text without the first character of `pat` is left unchanged by replacing `pat`.
pub proof fn lemma_replace_absent(s: Seq<char>, pat: Seq<char>, rep: Seq<char>)
    requires
        pat.len() > 0,
        !s.contains(pat[0]),
    ensures
        replace_all(s, pat, rep) == s,
    decreases s.len(),
{
    if s.len() >= pat.len() {
        assert(s.subrange(0, pat.len() as int)[0] == s[0]);
        assert(s.subrange(0, pat.len() as int) != pat);
        let t = s.drop_first();
        assert(!t.contains(pat[0])) by {
            if t.contains(pat[0]) {
                let k = choose|k: int| 0 <= k < t.len() && t[k] == pat[0];
                assert(s[k + 1] == pat[0]);
            }
        }
        lemma_replace_absent(t, pat, rep);
        assert(seq![s[0]] + t =~= s);
    }
}

proof fn lemma_replace_step(s: Seq<char>, i: int, pat: Seq<char>, rep: Seq<char>)
    requires
        pat.len() > 0,
        0 <= i < s.len(),
    ensures
        ({
            let rest = s.subrange(i, s.len() as int);
            &&& (i + pat.len() <= s.len() && s.subrange(i, i + pat.len()) == pat) ==> replace_all(rest, pat, rep)
                == rep + replace_all(s.subrange(i + pat.len(), s.len() as int), pat, rep)
            &&& !(i + pat.len() <= s.len() && s.subrange(i, i + pat.len()) == pat) ==> replace_all(rest, pat, rep)
                == seq![s[i]] + replace_all(s.subrange(i + 1, s.len() as int), pat, rep)
        }),
{
    let rest = s.subrange(i, s.len() as int);
    if i + pat.len() <= s.len() {
        assert(rest.subrange(0, pat.len() as int) =~= s.subrange(i, i + pat.len()));
        assert(rest.subrange(pat.len() as int, rest.len() as int) =~= s.subrange(i + pat.len(), s.len() as int));
    }
    assert(rest.drop_first() =~= s.subrange(i + 1, s.len() as int));
}

fn matches_at(s: &Vec<char>, i: usize, pat: &Vec<char>) -> (r: bool)
    requires
        i <= s@.len(),
    ensures
        r == (i + pat@.len() <= s@.len() && s@.subrange(i as int, i + pat@.len()) == pat@),
{
    if s.len() - i < pat.len() {
        return false;
    }
    let mut k: usize = 0;
    while k < pat.len()
        invariant
            i + pat@.len() <= s@.len(),
            s@.len() == s.len(),
            k <= pat@.len(),
            forall|j: int| 0 <= j < k ==> s@[i + j] == pat@[j],
        decreases pat@.len() - k,
    {
        if s[i + k] != pat[k] {
            assert(s@.subrange(i as int, i + pat@.len())[k as int] != pat@[k as int]);
            return false;
        }
        k = k + 1;
    }
    assert(s@.subrange(i as int, i + pat@.len()) =~= pat@);
    true
}

/// `str::replace` on character sequences.
pub fn replace_chars(s: &Vec<char>, pat: &Vec<char>, rep: &Vec<char>) -> (r: Vec<char>)
    requires
        pat@.len() > 0,
    ensures
        r@ == replace_all(s@, pat@, rep@),
{
    let mut out: Vec<char> = Vec::new();
    let mut i: usize = 0;
    let n = s.len();
    assert(s@.subrange(0, n as int) =~= s@);
    while i < n
        invariant
            n == s@.len(),
            i <= n,
            pat@.len() > 0,
            out@ + replace_all(s@.subrange(i as int, n as int), pat@, rep@) == replace_all(s@, pat@, rep@),
        decreases n - i,
    {
        proof {
            lemma_replace_step(s@, i as int, pat@, rep@);
        }
        if matches_at(s, i, pat) {
            let mut k: usize = 0;
            let ghost before = out@;
            while k < rep.len()
                invariant
                    k <= rep@.len(),
                    out@ == before + rep@.take(k as int),
                decreases rep@.len() - k,
            {
                out.push(rep[k]);
                k = k + 1;
                assert(out@ =~= before + rep@.take(k as int));
            }
            assert(rep@.take(rep@.len() as int) =~= rep@);
            i = i + pat.len();
            assert(out@ + replace_all(s@.subrange(i as int, n as int), pat@, rep@) =~= replace_all(
                s@,
                pat@,
                rep@,
            ));
        } else {
            let ghost before = out@;
            out.push(s[i]);
            i = i + 1;
            assert(out@ + replace_all(s@.subrange(i as int, n as int), pat@, rep@) =~= replace_all(
                s@,
                pat@,
                rep@,
            ));
        }
    }
    assert(s@.subrange(n as int, n as int).len() == 0);
    assert(replace_all(s@.subrange(n as int, n as int), pat@, rep@) == s@.subrange(n as int, n as int));
    assert(out@ =~= replace_all(s@, pat@, rep@));
    out
}

} // verus!
