//! Text utilities for the notation formats: splitting a source text into
//! lines, splitting a line into whitespace-separated tokens, and reading
//! decimal numbers. Fractional numbers are carried as integers in
//! thousandths (milli-units): `1.5` reads as `1500`. A number may carry
//! a leading `+` and an exponent (`1e3`, `2.5E-2`); values at or beyond
//! a million whole units do not fit the milli-unit grid and are
//! refused, and fractional digits of the mantissa beyond the third are
//! read but do not contribute (they are below the grid).
use vstd::arithmetic::div_mod::{lemma_basic_div, lemma_div_nonincreasing};
use vstd::prelude::*;

verus! {

/// Whitespace that separates tokens within a line.
pub open spec fn is_space(c: char) -> bool {
    c == ' ' || c == '\t' || c == '\r'
}

pub open spec fn is_digit(c: char) -> bool {
    48 <= c as u32 <= 57
}

pub open spec fn digit_of(c: char) -> int {
    c as u32 - 48
}

/// Value of a digit string, most significant first.
pub open spec fn digits_val(s: Seq<char>) -> int
    decreases s.len(),
{
    if s.len() == 0 {
        0
    } else {
        digits_val(s.drop_last()) * 10 + digit_of(s.last())
    }
}

pub open spec fn all_digits(s: Seq<char>) -> bool {
    forall|i: int| 0 <= i < s.len() ==> is_digit(#[trigger] s[i])
}

pub open spec fn pow10(n: nat) -> int
    decreases n,
{
    if n == 0 {
        1
    } else {
        10 * pow10((n - 1) as nat)
    }
}

pub proof fn lemma_digits_val_bound(s: Seq<char>)
    requires
        all_digits(s),
    ensures
        0 <= digits_val(s) < pow10(s.len()),
    decreases s.len(),
{
    if s.len() > 0 {
        assert(all_digits(s.drop_last())) by {
            assert(forall|i: int|
                0 <= i < s.len() - 1 ==> s.drop_last()[i] == #[trigger] s[i]);
        }
        lemma_digits_val_bound(s.drop_last());
        assert(is_digit(s.last()));
    }
}

/// Index of the first `.` in `s`, or `s.len()` if there is none.
pub open spec fn dot_pos(s: Seq<char>) -> int
    decreases s.len(),
{
    if s.len() == 0 {
        0
    } else if s[0] == '.' {
        0
    } else {
        1 + dot_pos(s.subrange(1, s.len() as int))
    }
}

pub proof fn lemma_dot_pos(s: Seq<char>)
    ensures
        0 <= dot_pos(s) <= s.len(),
        dot_pos(s) < s.len() ==> s[dot_pos(s)] == '.',
        forall|j: int| 0 <= j < dot_pos(s) ==> s[j] != '.',
    decreases s.len(),
{
    if s.len() > 0 && s[0] != '.' {
        let sub = s.subrange(1, s.len() as int);
        lemma_dot_pos(sub);
        assert forall|j: int| 0 <= j < dot_pos(s) implies s[j] != '.' by {
            if j > 0 {
                assert(s[j] == sub[j - 1]);
            }
        }
    }
}

/// A position that looks like the first dot is the first dot.
pub proof fn lemma_dot_pos_unique(s: Seq<char>, k: int)
    requires
        0 <= k <= s.len(),
        k < s.len() ==> s[k] == '.',
        k == s.len() || s[k] == '.',
        forall|j: int| 0 <= j < k ==> s[j] != '.',
    ensures
        k == dot_pos(s),
{
    lemma_dot_pos(s);
    if k < dot_pos(s) {
        assert(s[k] == '.');
    } else if dot_pos(s) < k {
        assert(s[dot_pos(s)] == '.');
    }
}

/// The fractional digits of a milli-unit number: the first three
/// fractional digits, padded with zeros.
pub open spec fn frac3(s: Seq<char>) -> int {
    frac_digit(s, 0) * 100 + frac_digit(s, 1) * 10 + frac_digit(s, 2)
}

pub open spec fn frac_digit(s: Seq<char>, i: int) -> int {
    if i < s.len() {
        digit_of(s[i])
    } else {
        0
    }
}

/// Reads the mantissa of a decimal number into milli-units: digits, an
/// optional dot, fractional digits. `None` when the text is not such a
/// mantissa or its integer part has more than six digits (a value at or
/// beyond a million whole units does not fit the milli-unit grid).
pub open spec fn spec_parse_mantissa(s: Seq<char>) -> Option<int> {
    let d = dot_pos(s);
    let ip = s.subrange(0, d);
    let fp = if d < s.len() {
        s.subrange(d + 1, s.len() as int)
    } else {
        Seq::<char>::empty()
    };
    if s.len() > 0 && ip.len() <= 6 && all_digits(ip) && all_digits(fp) && ip.len() + fp.len()
        >= 1 {
        Some(digits_val(ip) * 1000 + frac3(fp))
    } else {
        None
    }
}

/// Index of the first exponent marker (`e` or `E`) in `s`, or `s.len()`
/// if there is none.
pub open spec fn e_pos(s: Seq<char>) -> int
    decreases s.len(),
{
    if s.len() == 0 {
        0
    } else if s[0] == 'e' || s[0] == 'E' {
        0
    } else {
        1 + e_pos(s.subrange(1, s.len() as int))
    }
}

pub proof fn lemma_e_pos(s: Seq<char>)
    ensures
        0 <= e_pos(s) <= s.len(),
        e_pos(s) < s.len() ==> (s[e_pos(s)] == 'e' || s[e_pos(s)] == 'E'),
        forall|j: int| 0 <= j < e_pos(s) ==> (s[j] != 'e' && s[j] != 'E'),
    decreases s.len(),
{
    if s.len() > 0 && s[0] != 'e' && s[0] != 'E' {
        let sub = s.subrange(1, s.len() as int);
        lemma_e_pos(sub);
        assert forall|j: int| 0 <= j < e_pos(s) implies (s[j] != 'e' && s[j] != 'E') by {
            if j > 0 {
                assert(s[j] == sub[j - 1]);
            }
        }
    }
}

/// A position that looks like the first exponent marker is the first.
pub proof fn lemma_e_pos_unique(s: Seq<char>, k: int)
    requires
        0 <= k <= s.len(),
        k < s.len() ==> (s[k] == 'e' || s[k] == 'E'),
        forall|j: int| 0 <= j < k ==> (s[j] != 'e' && s[j] != 'E'),
    ensures
        k == e_pos(s),
{
    lemma_e_pos(s);
    if k < e_pos(s) {
        assert(s[k] == 'e' || s[k] == 'E');
    } else if e_pos(s) < k {
        assert(s[e_pos(s)] == 'e' || s[e_pos(s)] == 'E');
    }
}

/// Reads an exponent: an optional sign and at most three digits.
pub open spec fn spec_parse_exp(s: Seq<char>) -> Option<int> {
    if s.len() == 0 {
        None
    } else {
        let neg = s[0] == '-';
        let d = if s[0] == '+' || s[0] == '-' {
            s.subrange(1, s.len() as int)
        } else {
            s
        };
        if 1 <= d.len() <= 3 && all_digits(d) {
            if neg {
                Some(-digits_val(d))
            } else {
                Some(digits_val(d))
            }
        } else {
            None
        }
    }
}

/// Reads a nonnegative decimal number into milli-units: an optional
/// leading `+`, a mantissa, and an optional exponent part that shifts
/// the mantissa's milli-unit value by the matching power of ten
/// (truncating toward zero). Values at or beyond a million whole units
/// do not fit the grid and are refused; negative spellings are refused,
/// since no quantity of the notation admits them (volumes lie in the
/// unit interval, frequencies, spreads and reverb times are positive).
pub open spec fn spec_parse_milli(s: Seq<char>) -> Option<int> {
    let s1 = if s.len() >= 1 && s[0] == '+' {
        s.subrange(1, s.len() as int)
    } else {
        s
    };
    let ep = e_pos(s1);
    let mant = s1.subrange(0, ep);
    if ep == s1.len() {
        spec_parse_mantissa(mant)
    } else {
        let ex = s1.subrange(ep + 1, s1.len() as int);
        match (spec_parse_mantissa(mant), spec_parse_exp(ex)) {
            (Some(b), Some(e)) => {
                if e >= 0 {
                    if b * pow10(e as nat) < 1000000000 {
                        Some(b * pow10(e as nat))
                    } else {
                        None
                    }
                } else {
                    Some(b / pow10((-e) as nat))
                }
            },
            _ => None,
        }
    }
}

/// Reads a nonnegative decimal integer on the `u32` range: an optional
/// leading `+` and at most ten digits, refused beyond the range's top.
pub open spec fn spec_parse_int(s: Seq<char>) -> Option<int> {
    let d = if s.len() >= 1 && s[0] == '+' {
        s.subrange(1, s.len() as int)
    } else {
        s
    };
    if 1 <= d.len() <= 10 && all_digits(d) && digits_val(d) <= 4294967295 {
        Some(digits_val(d))
    } else {
        None
    }
}

/// The lines of `s`: split at `'\n'`, with a `'\r'` dropped from the end
/// of each line, and no final empty line after a trailing newline.
pub open spec fn spec_lines(s: Seq<char>) -> Seq<Seq<char>> {
    lines_from(s, 0, Seq::empty(), Seq::empty())
}

pub open spec fn strip_cr(s: Seq<char>) -> Seq<char> {
    if s.len() > 0 && s.last() == '\r' {
        s.drop_last()
    } else {
        s
    }
}

pub open spec fn lines_from(s: Seq<char>, i: int, done: Seq<Seq<char>>, cur: Seq<char>) -> Seq<
    Seq<char>,
>
    decreases s.len() - i,
{
    if i < 0 || i >= s.len() {
        if cur.len() == 0 {
            done
        } else {
            done.push(strip_cr(cur))
        }
    } else if s[i] == '\n' {
        lines_from(s, i + 1, done.push(strip_cr(cur)), Seq::empty())
    } else {
        lines_from(s, i + 1, done, cur.push(s[i]))
    }
}

/// The whitespace-separated tokens of a line.
pub open spec fn spec_tokens(s: Seq<char>) -> Seq<Seq<char>> {
    tokens_from(s, 0, Seq::empty(), Seq::empty())
}

pub open spec fn tokens_from(s: Seq<char>, i: int, done: Seq<Seq<char>>, cur: Seq<char>) -> Seq<
    Seq<char>,
>
    decreases s.len() - i,
{
    if i < 0 || i >= s.len() {
        if cur.len() == 0 {
            done
        } else {
            done.push(cur)
        }
    } else if is_space(s[i]) {
        if cur.len() == 0 {
            tokens_from(s, i + 1, done, cur)
        } else {
            tokens_from(s, i + 1, done.push(cur), Seq::empty())
        }
    } else {
        tokens_from(s, i + 1, done, cur.push(s[i]))
    }
}

/// The views of a sequence of character vectors.
pub open spec fn views_of(v: Seq<Vec<char>>) -> Seq<Seq<char>> {
    v.map_values(|l: Vec<char>| l@)
}

fn strip_last_cr(v: Vec<char>) -> (r: Vec<char>)
    ensures
        r@ == strip_cr(v@),
{
    let mut v = v;
    if v.len() > 0 && v[v.len() - 1] == '\r' {
        v.pop();
    }
    v
}

/// Splits a source text into its lines.
pub fn split_lines(s: &str) -> (r: Vec<Vec<char>>)
    ensures
        views_of(r@) == spec_lines(s@),
{
    let n = s.unicode_len();
    let mut done: Vec<Vec<char>> = Vec::new();
    let mut cur: Vec<char> = Vec::new();
    proof {
        assert(views_of(done@) =~= Seq::<Seq<char>>::empty());
    }
    let mut i: usize = 0;
    while i < n
        invariant
            0 <= i <= n,
            n == s@.len(),
            lines_from(s@, i as int, views_of(done@), cur@) == spec_lines(s@),
        decreases n - i,
    {
        let c = s.get_char(i);
        if c == '\n' {
            let ghost prev_done = views_of(done@);
            let stripped = strip_last_cr(cur);
            done.push(stripped);
            cur = Vec::new();
            proof {
                assert(views_of(done@) =~= prev_done.push(stripped@));
            }
        } else {
            cur.push(c);
        }
        i = i + 1;
    }
    if cur.len() > 0 {
        let ghost prev_done = views_of(done@);
        let stripped = strip_last_cr(cur);
        done.push(stripped);
        proof {
            assert(views_of(done@) =~= prev_done.push(stripped@));
        }
    }
    done
}

/// Splits a line into its whitespace-separated tokens.
pub fn tokenize(line: &Vec<char>) -> (r: Vec<Vec<char>>)
    ensures
        views_of(r@) == spec_tokens(line@),
{
    let n = line.len();
    let mut done: Vec<Vec<char>> = Vec::new();
    let mut cur: Vec<char> = Vec::new();
    proof {
        assert(views_of(done@) =~= Seq::<Seq<char>>::empty());
    }
    let mut i: usize = 0;
    while i < n
        invariant
            0 <= i <= n,
            n == line@.len(),
            tokens_from(line@, i as int, views_of(done@), cur@) == spec_tokens(line@),
        decreases n - i,
    {
        let c = line[i];
        if c == ' ' || c == '\t' || c == '\r' {
            if cur.len() > 0 {
                let ghost prev_done = views_of(done@);
                let ghost prev_cur = cur@;
                done.push(cur);
                cur = Vec::new();
                proof {
                    assert(views_of(done@) =~= prev_done.push(prev_cur));
                }
            }
        } else {
            cur.push(c);
        }
        i = i + 1;
    }
    if cur.len() > 0 {
        let ghost prev_done = views_of(done@);
        let ghost prev_cur = cur@;
        done.push(cur);
        proof {
            assert(views_of(done@) =~= prev_done.push(prev_cur));
        }
    }
    done
}

/// True when the token spells the same characters as `lit`.
pub fn chars_eq_str(v: &Vec<char>, lit: &str) -> (r: bool)
    ensures
        r == (v@ == lit@),
{
    let n = lit.unicode_len();
    if v.len() != n {
        proof {
            assert(v@.len() != lit@.len());
        }
        return false;
    }
    let mut i: usize = 0;
    while i < n
        invariant
            0 <= i <= n,
            n == lit@.len(),
            v@.len() == n,
            forall|j: int| 0 <= j < i ==> v@[j] == lit@[j],
        decreases n - i,
    {
        if v[i] != lit.get_char(i) {
            return false;
        }
        i = i + 1;
    }
    proof {
        assert(v@ =~= lit@);
    }
    true
}

/// Relies on String::push: it appends exactly the one character to the
/// end of the string.
#[verifier::external_body]
fn push_char(s: &mut String, c: char)
    ensures
        final(s)@ == old(s)@.push(c),
{
    s.push(c)
}

/// Builds the string that spells the given characters.
pub fn chars_to_string(v: &Vec<char>) -> (r: String)
    ensures
        r@ == v@,
{
    let mut s = String::from_str("");
    proof {
        reveal_strlit("");
        assert(s@ =~= v@.subrange(0, 0));
    }
    let n = v.len();
    let mut i: usize = 0;
    while i < n
        invariant
            0 <= i <= n,
            n == v@.len(),
            s@ == v@.subrange(0, i as int),
        decreases n - i,
    {
        push_char(&mut s, v[i]);
        proof {
            assert(s@ =~= v@.subrange(0, i as int + 1));
        }
        i = i + 1;
    }
    proof {
        assert(v@.subrange(0, n as int) =~= v@);
    }
    s
}

pub open spec fn spec_digit_char(d: int) -> char {
    ((48 + d) as u8) as char
}

/// The decimal spelling of a nonnegative number, most significant digit
/// first.
pub open spec fn spec_u64_chars(n: int) -> Seq<char>
    decreases n,
{
    if n < 10 {
        seq![spec_digit_char(n)]
    } else {
        spec_u64_chars(n / 10).push(spec_digit_char(n % 10))
    }
}

/// The decimal spelling of `n`.
pub fn u64_string(n: u64) -> (r: String)
    ensures
        r@ == spec_u64_chars(n as int),
    decreases n,
{
    if n < 10 {
        let mut s = String::from_str("");
        proof {
            reveal_strlit("");
        }
        push_char(&mut s, ((48 + n) as u8) as char);
        proof {
            assert(s@ =~= seq![spec_digit_char(n as int)]);
        }
        s
    } else {
        let mut s = u64_string(n / 10);
        push_char(&mut s, ((48 + n % 10) as u8) as char);
        s
    }
}

/// True when the characters of `v` from position `from` on spell `lit`.
pub fn chars_suffix_eq_str(v: &Vec<char>, from: usize, lit: &str) -> (r: bool)
    requires
        from <= v@.len(),
    ensures
        r == (v@.subrange(from as int, v@.len() as int) == lit@),
{
    let n = lit.unicode_len();
    let vlen = v.len();
    let ghost suffix = v@.subrange(from as int, v@.len() as int);
    if vlen - from != n {
        proof {
            assert(suffix.len() != lit@.len());
        }
        return false;
    }
    let mut i: usize = 0;
    while i < n
        invariant
            0 <= i <= n,
            n == lit@.len(),
            vlen == v@.len(),
            from + n == vlen,
            suffix == v@.subrange(from as int, v@.len() as int),
            forall|j: int| 0 <= j < i ==> suffix[j] == lit@[j],
        decreases n - i,
    {
        if v[from + i] != lit.get_char(i) {
            proof {
                assert(suffix[i as int] == v@[from + i]);
            }
            return false;
        }
        proof {
            assert(suffix[i as int] == v@[from + i]);
        }
        i = i + 1;
    }
    proof {
        assert(suffix =~= lit@);
    }
    true
}

/// True when the two strings spell the same characters.
pub fn str_eq(a: &str, b: &str) -> (r: bool)
    ensures
        r == (a@ == b@),
{
    let n = a.unicode_len();
    if b.unicode_len() != n {
        return false;
    }
    let mut i: usize = 0;
    while i < n
        invariant
            0 <= i <= n,
            n == a@.len(),
            b@.len() == n,
            forall|j: int| 0 <= j < i ==> a@[j] == b@[j],
        decreases n - i,
    {
        if a.get_char(i) != b.get_char(i) {
            return false;
        }
        i = i + 1;
    }
    proof {
        assert(a@ =~= b@);
    }
    true
}

/// Reads a token as a milli-unit decimal mantissa.
fn parse_mantissa(tok: &Vec<char>) -> (r: Option<u64>)
    ensures
        match r {
            Some(v) => spec_parse_mantissa(tok@) == Some(v as int) && v < 1000000000,
            None => spec_parse_mantissa(tok@) is None,
        },
{
    let n = tok.len();
    let mut d: usize = 0;
    while d < n && tok[d] != '.'
        invariant
            0 <= d <= n,
            n == tok@.len(),
            forall|j: int| 0 <= j < d ==> tok@[j] != '.',
        decreases n - d,
    {
        d = d + 1;
    }
    proof {
        lemma_dot_pos_unique(tok@, d as int);
    }
    let ghost ip = tok@.subrange(0, d as int);
    let ghost fp = if (d as int) < tok@.len() {
        tok@.subrange(d as int + 1, tok@.len() as int)
    } else {
        Seq::<char>::empty()
    };
    if n == 0 || d > 6 {
        return None;
    }
    // check integer digits
    let mut j: usize = 0;
    let mut v: u64 = 0;
    while j < d
        invariant
            0 <= j <= d <= 6,
            d <= n,
            n == tok@.len(),
            n >= 1,
            d as int == dot_pos(tok@),
            ip == tok@.subrange(0, d as int),
            all_digits(ip.subrange(0, j as int)),
            v == digits_val(ip.subrange(0, j as int)),
            v < pow10(j as nat),
            pow10(j as nat) <= 1000000,
        decreases d - j,
    {
        let c = tok[j];
        let cu = c as u32;
        if !(48 <= cu && cu <= 57) {
            proof {
                assert(ip[j as int] == c);
                assert(!is_digit(ip[j as int]));
            }
            return None;
        }
        proof {
            assert(ip.subrange(0, j as int + 1).drop_last() =~= ip.subrange(0, j as int));
            assert(ip.subrange(0, j as int + 1).last() == ip[j as int]);
            assert(ip[j as int] == tok@[j as int]);
            assert(pow10(j as nat + 1) == 10 * pow10(j as nat));
            lemma_pow10_mono(j as nat + 1, 6);
            assert(pow10(6) == 1000000) by {
                reveal_with_fuel(pow10, 7);
            }
        }
        v = v * 10 + (cu - 48) as u64;
        j = j + 1;
    }
    proof {
        assert(ip.subrange(0, d as int) =~= ip);
    }
    // check fractional digits and take the first three
    let mut f: u64 = 0;
    if d < n {
        let mut k: usize = d + 1;
        while k < n
            invariant
                d + 1 <= k <= n,
                d <= 6,
                n == tok@.len(),
                d as int == dot_pos(tok@),
                fp == tok@.subrange(d as int + 1, tok@.len() as int),
                ip == tok@.subrange(0, d as int),
                all_digits(fp.subrange(0, k - d - 1)),
                f == frac3(fp.subrange(0, k - d - 1)),
                f <= 999,
            decreases n - k,
        {
            let c = tok[k];
            let ghost sub_old = fp.subrange(0, k - d - 1);
            let ghost sub_new = fp.subrange(0, k - d);
            proof {
                assert(fp[k - d - 1] == tok@[k as int]);
                assert(sub_new =~= sub_old.push(fp[k - d - 1]));
            }
            let cu = c as u32;
            if !(48 <= cu && cu <= 57) {
                proof {
                    assert(!is_digit(fp[k - d - 1]));
                }
                return None;
            }
            let pos = k - d - 1;
            if pos == 0 {
                f = f + ((cu - 48) as u64) * 100;
            } else if pos == 1 {
                f = f + ((cu - 48) as u64) * 10;
            } else if pos == 2 {
                f = f + (cu - 48) as u64;
            }
            proof {
                assert(sub_new.len() == sub_old.len() + 1);
                assert(forall|t: int|
                    0 <= t < sub_old.len() ==> sub_new[t] == #[trigger] sub_old[t]);
                assert(f == frac3(sub_new));
            }
            k = k + 1;
        }
        proof {
            assert(fp.subrange(0, n - d - 1) =~= fp);
        }
    }
    if d == 0 && n == 1 {
        // the token was a lone dot: no digit at all
        return None;
    }
    proof {
        assert(ip.len() + fp.len() >= 1);
        lemma_digits_val_bound(ip);
        lemma_pow10_mono(ip.len() as nat, 6);
        assert(pow10(6) == 1000000) by {
            reveal_with_fuel(pow10, 7);
        }
    }
    Some(v * 1000 + f)
}

pub proof fn lemma_pow10_pos(n: nat)
    ensures
        pow10(n) >= 1,
    decreases n,
{
    if n > 0 {
        lemma_pow10_pos((n - 1) as nat);
    }
}

pub proof fn lemma_pow10_mono(a: nat, b: nat)
    requires
        a <= b,
    ensures
        pow10(a) <= pow10(b),
        pow10(b) >= 1,
    decreases b,
{
    lemma_pow10_pos(b);
    if a < b {
        lemma_pow10_mono(a, (b - 1) as nat);
        lemma_pow10_pos((b - 1) as nat);
        assert(pow10(b) == 10 * pow10((b - 1) as nat));
    }
}

fn copy_range(v: &Vec<char>, lo: usize, hi: usize) -> (r: Vec<char>)
    requires
        lo <= hi <= v@.len(),
    ensures
        r@ == v@.subrange(lo as int, hi as int),
{
    let mut r: Vec<char> = Vec::new();
    proof {
        assert(r@ =~= v@.subrange(lo as int, lo as int));
    }
    let mut i: usize = lo;
    while i < hi
        invariant
            lo <= i <= hi <= v@.len(),
            r@ == v@.subrange(lo as int, i as int),
        decreases hi - i,
    {
        r.push(v[i]);
        proof {
            assert(r@ =~= v@.subrange(lo as int, i as int + 1));
        }
        i = i + 1;
    }
    r
}

/// The value of a string of at most ten digits.
fn digits_value(tok: &Vec<char>) -> (r: Option<u64>)
    requires
        tok@.len() <= 10,
    ensures
        match r {
            Some(v) => all_digits(tok@) && tok@.len() >= 1 && v == digits_val(tok@) && v
                < pow10(tok@.len() as nat),
            None => !(all_digits(tok@) && tok@.len() >= 1),
        },
{
    let n = tok.len();
    if n < 1 {
        return None;
    }
    let mut j: usize = 0;
    let mut v: u64 = 0;
    while j < n
        invariant
            0 <= j <= n <= 10,
            n == tok@.len(),
            all_digits(tok@.subrange(0, j as int)),
            v == digits_val(tok@.subrange(0, j as int)),
            v < pow10(j as nat),
            pow10(j as nat) <= 10000000000,
        decreases n - j,
    {
        let c = tok[j];
        let cu = c as u32;
        if !(48 <= cu && cu <= 57) {
            proof {
                assert(!is_digit(tok@[j as int]));
            }
            return None;
        }
        proof {
            assert(tok@.subrange(0, j as int + 1).drop_last() =~= tok@.subrange(0, j as int));
            assert(tok@.subrange(0, j as int + 1).last() == tok@[j as int]);
            assert(pow10(j as nat + 1) == 10 * pow10(j as nat));
            lemma_pow10_mono(j as nat + 1, 10);
            assert(pow10(10) == 10000000000) by {
                reveal_with_fuel(pow10, 11);
            }
        }
        v = v * 10 + (cu - 48) as u64;
        j = j + 1;
    }
    proof {
        assert(tok@.subrange(0, n as int) =~= tok@);
    }
    Some(v)
}

fn pow10_u64(e: u64) -> (r: u64)
    requires
        e <= 9,
    ensures
        r as int == pow10(e as nat),
        r <= 1000000000,
{
    let mut r: u64 = 1;
    let mut k: u64 = 0;
    while k < e
        invariant
            0 <= k <= e <= 9,
            r as int == pow10(k as nat),
            r <= 1000000000,
        decreases e - k,
    {
        proof {
            assert(pow10(k as nat + 1) == 10 * pow10(k as nat));
            lemma_pow10_mono(k as nat + 1, 9);
            assert(pow10(9) == 1000000000) by {
                reveal_with_fuel(pow10, 10);
            }
        }
        r = r * 10;
        k = k + 1;
    }
    r
}

/// Reads an exponent part: an optional sign and at most three digits,
/// as a sign flag and a magnitude.
fn parse_exp(tok: &Vec<char>) -> (r: Option<(bool, u64)>)
    ensures
        match r {
            Some(p) => spec_parse_exp(tok@) == Some(
                if p.0 {
                    -(p.1 as int)
                } else {
                    p.1 as int
                },
            ) && p.1 <= 999,
            None => spec_parse_exp(tok@) is None,
        },
{
    let n = tok.len();
    if n == 0 {
        return None;
    }
    let neg = tok[0] == '-';
    let start: usize = if tok[0] == '+' || tok[0] == '-' {
        1
    } else {
        0
    };
    let ghost d = if tok@[0] == '+' || tok@[0] == '-' {
        tok@.subrange(1, tok@.len() as int)
    } else {
        tok@
    };
    proof {
        assert(d =~= tok@.subrange(start as int, n as int));
    }
    let m = n - start;
    if m < 1 || m > 3 {
        return None;
    }
    let digits = copy_range(tok, start, n);
    match digits_value(&digits) {
        Some(v) => {
            proof {
                lemma_pow10_mono(d.len() as nat, 3);
                assert(pow10(3) == 1000) by {
                    reveal_with_fuel(pow10, 4);
                }
            }
            Some((neg, v))
        },
        None => None,
    }
}

/// Reads a token as a milli-unit decimal number: an optional leading
/// `+`, a mantissa, and an optional exponent shifting the value by a
/// power of ten, truncating toward zero and refusing values beyond the
/// grid.
pub fn parse_milli(tok: &Vec<char>) -> (r: Option<u64>)
    ensures
        match r {
            Some(v) => spec_parse_milli(tok@) == Some(v as int) && v < 1000000000,
            None => spec_parse_milli(tok@) is None,
        },
{
    let n = tok.len();
    let start: usize = if n >= 1 && tok[0] == '+' {
        1
    } else {
        0
    };
    let ghost s1 = if tok@.len() >= 1 && tok@[0] == '+' {
        tok@.subrange(1, tok@.len() as int)
    } else {
        tok@
    };
    proof {
        assert(s1 =~= tok@.subrange(start as int, n as int));
    }
    let mut ep: usize = start;
    while ep < n && tok[ep] != 'e' && tok[ep] != 'E'
        invariant
            start <= ep <= n,
            n == tok@.len(),
            start <= 1,
            s1 == tok@.subrange(start as int, n as int),
            forall|j: int| start <= j < ep ==> (tok@[j] != 'e' && tok@[j] != 'E'),
        decreases n - ep,
    {
        ep = ep + 1;
    }
    proof {
        assert forall|k: int| 0 <= k < ep - start implies (s1[k] != 'e' && s1[k] != 'E') by {
            assert(s1[k] == tok@[start + k]);
        }
        if ep < n {
            assert(s1[ep - start] == tok@[ep as int]);
        }
        lemma_e_pos_unique(s1, ep - start);
    }
    let mant = copy_range(tok, start, ep);
    proof {
        assert(mant@ =~= s1.subrange(0, ep - start));
    }
    let base_opt = parse_mantissa(&mant);
    if ep == n {
        return base_opt;
    }
    let base: u64 = match base_opt {
        Some(b) => b,
        None => {
            return None;
        },
    };
    let exv = copy_range(tok, ep + 1, n);
    proof {
        assert(exv@ =~= s1.subrange(ep - start + 1, s1.len() as int));
    }
    let (neg, mag) = match parse_exp(&exv) {
        Some(p) => p,
        None => {
            return None;
        },
    };
    if !neg {
        if base == 0 {
            proof {
                lemma_pow10_pos(mag as nat);
            }
            return Some(0);
        }
        if mag > 9 {
            proof {
                lemma_pow10_mono(10, mag as nat);
                assert(pow10(10) == 10000000000) by {
                    reveal_with_fuel(pow10, 11);
                }
                assert(base * pow10(mag as nat) >= pow10(mag as nat)) by (nonlinear_arith)
                    requires
                        base >= 1 && pow10(mag as nat) >= 0,
                ;
            }
            return None;
        }
        let p = pow10_u64(mag);
        proof {
            assert(base * p <= 999999999 * 1000000000) by (nonlinear_arith)
                requires
                    0 <= base <= 999999999 && 0 <= p <= 1000000000,
            ;
        }
        let v = base * p;
        if v < 1000000000 {
            Some(v)
        } else {
            None
        }
    } else {
        if mag > 9 {
            proof {
                lemma_pow10_mono(10, mag as nat);
                assert(pow10(10) == 10000000000) by {
                    reveal_with_fuel(pow10, 11);
                }
                lemma_basic_div(base as int, pow10(mag as nat));
            }
            return Some(0);
        }
        let p = pow10_u64(mag);
        proof {
            lemma_pow10_pos(mag as nat);
            lemma_div_nonincreasing(base as int, p as int);
        }
        Some(base / p)
    }
}

/// Reads a token as a nonnegative decimal integer on the `u32` range:
/// an optional leading `+` and at most ten digits.
pub fn parse_int(tok: &Vec<char>) -> (r: Option<u64>)
    ensures
        match r {
            Some(v) => spec_parse_int(tok@) == Some(v as int) && v <= 4294967295,
            None => spec_parse_int(tok@) is None,
        },
{
    let n = tok.len();
    let start: usize = if n >= 1 && tok[0] == '+' {
        1
    } else {
        0
    };
    let ghost d = if tok@.len() >= 1 && tok@[0] == '+' {
        tok@.subrange(1, tok@.len() as int)
    } else {
        tok@
    };
    proof {
        assert(d =~= tok@.subrange(start as int, n as int));
    }
    let m = n - start;
    if m < 1 || m > 10 {
        return None;
    }
    let digits = copy_range(tok, start, n);
    match digits_value(&digits) {
        Some(v) => {
            if v <= 4294967295 {
                Some(v)
            } else {
                None
            }
        },
        None => None,
    }
}

} // verus!
