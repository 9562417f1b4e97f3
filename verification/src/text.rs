//! Character-level text utilities: conversions between `&str` and
//! `Vec<char>`, whitespace trimming, integer parsing and formatting,
//! substring search, replacement, and splitting.

use vstd::prelude::*;
use vstd::string::*;

verus! {

/// Relies on `String::push`: appends the character to the end of the string.
pub assume_specification[ String::push ](s: &mut String, c: char)
    ensures
        final(s)@ == old(s)@.push(c),
;

pub fn copy_string(s: &String) -> (r: String)
    ensures
        r@ == s@,
{
    s.as_str().to_owned()
}

pub fn chars_of(s: &str) -> (r: Vec<char>)
    ensures
        r@ == s@,
{
    let n = s.unicode_len();
    let mut r: Vec<char> = Vec::new();
    let mut i: usize = 0;
    while i < n
        invariant
            n == s@.len(),
            i <= n,
            r@ == s@.take(i as int),
        decreases n - i,
    {
        r.push(s.get_char(i));
        proof {
            assert(s@.take(i as int).push(s@[i as int]) =~= s@.take(i as int + 1));
        }
        i += 1;
    }
    proof {
        assert(s@.take(n as int) =~= s@);
    }
    r
}

pub fn string_from_chars(v: &Vec<char>) -> (r: String)
    ensures
        r@ == v@,
{
    let mut r = String::new();
    let mut i: usize = 0;
    while i < v.len()
        invariant
            i <= v.len(),
            r@ == v@.take(i as int),
        decreases v.len() - i,
    {
        r.push(v[i]);
        proof {
            assert(v@.take(i as int).push(v@[i as int]) =~= v@.take(i as int + 1));
        }
        i += 1;
    }
    proof {
        assert(v@.take(v.len() as int) =~= v@);
    }
    r
}

/// The characters with the Unicode `White_Space` property, the set that
/// `str::trim` removes.
pub open spec fn is_space_char(c: char) -> bool {
    c == ' ' || c == '\t' || c == '\n' || c == '\u{0B}' || c == '\u{0C}' || c == '\r'
        || c == '\u{85}' || c == '\u{A0}' || c == '\u{1680}' || c == '\u{2000}'
        || c == '\u{2001}' || c == '\u{2002}' || c == '\u{2003}' || c == '\u{2004}'
        || c == '\u{2005}' || c == '\u{2006}' || c == '\u{2007}' || c == '\u{2008}'
        || c == '\u{2009}' || c == '\u{200A}' || c == '\u{2028}' || c == '\u{2029}'
        || c == '\u{202F}' || c == '\u{205F}' || c == '\u{3000}'
}

pub fn is_space(c: char) -> (b: bool)
    ensures
        b == is_space_char(c),
{
    c == ' ' || c == '\t' || c == '\n' || c == '\u{0B}' || c == '\u{0C}' || c == '\r'
        || c == '\u{85}' || c == '\u{A0}' || c == '\u{1680}' || c == '\u{2000}'
        || c == '\u{2001}' || c == '\u{2002}' || c == '\u{2003}' || c == '\u{2004}'
        || c == '\u{2005}' || c == '\u{2006}' || c == '\u{2007}' || c == '\u{2008}'
        || c == '\u{2009}' || c == '\u{200A}' || c == '\u{2028}' || c == '\u{2029}'
        || c == '\u{202F}' || c == '\u{205F}' || c == '\u{3000}'
}

pub open spec fn trim_start_spec(s: Seq<char>) -> Seq<char>
    decreases s.len(),
{
    if s.len() > 0 && is_space_char(s[0]) {
        trim_start_spec(s.skip(1))
    } else {
        s
    }
}

pub open spec fn trim_end_spec(s: Seq<char>) -> Seq<char>
    decreases s.len(),
{
    if s.len() > 0 && is_space_char(s[s.len() - 1]) {
        trim_end_spec(s.take(s.len() - 1))
    } else {
        s
    }
}

/// The sequence with leading and trailing white space removed, as
/// `str::trim` leaves it.
pub open spec fn trim_spec(s: Seq<char>) -> Seq<char> {
    trim_end_spec(trim_start_spec(s))
}

pub fn trim_chars(v: &Vec<char>) -> (r: Vec<char>)
    ensures
        r@ == trim_spec(v@),
{
    let mut lo: usize = 0;
    proof {
        assert(v@.skip(0) =~= v@);
    }
    while lo < v.len() && is_space(v[lo])
        invariant
            lo <= v.len(),
            trim_start_spec(v@) == trim_start_spec(v@.skip(lo as int)),
        decreases v.len() - lo,
    {
        proof {
            assert(v@.skip(lo as int)[0] == v@[lo as int]);
            assert(v@.skip(lo as int).skip(1) =~= v@.skip(lo as int + 1));
        }
        lo += 1;
    }
    proof {
        if lo == v.len() {
            assert(v@.skip(lo as int) =~= Seq::<char>::empty());
        }
        assert(trim_start_spec(v@) == v@.skip(lo as int));
    }
    let mut hi: usize = v.len();
    while hi > lo && is_space(v[hi - 1])
        invariant
            lo <= hi <= v.len(),
            trim_end_spec(v@.skip(lo as int)) == trim_end_spec(v@.subrange(lo as int, hi as int)),
        decreases hi,
    {
        proof {
            let cur = v@.subrange(lo as int, hi as int);
            assert(cur[cur.len() - 1] == v@[hi - 1]);
            assert(cur.take(cur.len() - 1) =~= v@.subrange(lo as int, hi as int - 1));
        }
        hi -= 1;
    }
    proof {
        assert(v@.skip(lo as int) =~= v@.subrange(lo as int, v.len() as int));
        let cur = v@.subrange(lo as int, hi as int);
        assert(trim_end_spec(cur) == cur);
    }
    let mut r: Vec<char> = Vec::new();
    let mut i: usize = lo;
    while i < hi
        invariant
            lo <= i <= hi <= v.len(),
            r@ == v@.subrange(lo as int, i as int),
        decreases hi - i,
    {
        r.push(v[i]);
        proof {
            assert(v@.subrange(lo as int, i as int).push(v@[i as int]) =~= v@.subrange(
                lo as int,
                i as int + 1,
            ));
        }
        i += 1;
    }
    r
}

pub open spec fn is_digit_char(c: char) -> bool {
    c == '0' || c == '1' || c == '2' || c == '3' || c == '4' || c == '5' || c == '6' || c == '7'
        || c == '8' || c == '9'
}

pub open spec fn digit_val(c: char) -> nat {
    if c == '1' {
        1
    } else if c == '2' {
        2
    } else if c == '3' {
        3
    } else if c == '4' {
        4
    } else if c == '5' {
        5
    } else if c == '6' {
        6
    } else if c == '7' {
        7
    } else if c == '8' {
        8
    } else if c == '9' {
        9
    } else {
        0
    }
}

pub open spec fn all_digits(s: Seq<char>) -> bool {
    forall|i: int| 0 <= i < s.len() ==> is_digit_char(#[trigger] s[i])
}

/// The value of a string of decimal digits, most significant first.
pub open spec fn digits_val(s: Seq<char>) -> nat
    decreases s.len(),
{
    if s.len() == 0 {
        0
    } else {
        digits_val(s.take(s.len() - 1)) * 10 + digit_val(s[s.len() - 1])
    }
}

pub open spec fn pow10(n: nat) -> nat
    decreases n,
{
    if n == 0 {
        1
    } else {
        10 * pow10((n - 1) as nat)
    }
}

proof fn lemma_digits_leading_zeros(s: Seq<char>, k: int)
    requires
        0 <= k <= s.len(),
        forall|i: int| 0 <= i < k ==> s[i] == '0',
    ensures
        digits_val(s) == digits_val(s.skip(k)),
    decreases s.len(),
{
    if k == 0 {
        assert(s.skip(0) =~= s);
    } else if s.len() == k {
        assert(s.skip(k) =~= Seq::<char>::empty());
        lemma_digits_leading_zeros(s.take(s.len() - 1), k - 1);
        assert(s.take(s.len() - 1).skip(k - 1) =~= Seq::<char>::empty());
        assert(digit_val(s[s.len() - 1]) == 0);
    } else {
        let t = s.take(s.len() - 1);
        lemma_digits_leading_zeros(t, k);
        assert(t.skip(k) =~= s.skip(k).take(s.skip(k).len() - 1));
        assert(s.skip(k)[s.skip(k).len() - 1] == s[s.len() - 1]);
    }
}

proof fn lemma_digits_upper(s: Seq<char>)
    requires
        all_digits(s),
    ensures
        digits_val(s) < pow10(s.len() as nat),
    decreases s.len(),
{
    if s.len() > 0 {
        let t = s.take(s.len() - 1);
        assert(all_digits(t));
        lemma_digits_upper(t);
        assert(digit_val(s[s.len() - 1]) <= 9);
    }
}

proof fn lemma_digits_lower(s: Seq<char>)
    requires
        all_digits(s),
        s.len() >= 1,
        s[0] != '0',
    ensures
        digits_val(s) >= pow10((s.len() - 1) as nat),
    decreases s.len(),
{
    if s.len() == 1 {
        assert(digit_val(s[0]) >= 1);
    } else {
        let t = s.take(s.len() - 1);
        assert(all_digits(t));
        assert(t[0] == s[0]);
        lemma_digits_lower(t);
    }
}

/// `s` parses as `str::parse::<i32>` accepts it: an optional sign, then
/// one or more decimal digits, with the value in `i32` range.
pub open spec fn int_operand_ok(s: Seq<char>) -> bool {
    let body = if s.len() > 0 && (s[0] == '+' || s[0] == '-') {
        s.skip(1)
    } else {
        s
    };
    s.len() > 0 && body.len() > 0 && all_digits(body) && (if s[0] == '-' {
        digits_val(body) <= 2147483648
    } else {
        digits_val(body) <= 2147483647
    })
}

pub open spec fn int_operand_val(s: Seq<char>) -> int {
    if s.len() > 0 && s[0] == '-' {
        -(digits_val(s.skip(1)) as int)
    } else if s.len() > 0 && s[0] == '+' {
        digits_val(s.skip(1)) as int
    } else {
        digits_val(s) as int
    }
}

/// Parses a decimal integer as `str::parse::<i32>` would, returning the
/// value widened to `i64`, or `None` where `str::parse::<i32>` fails.
pub fn parse_i32_chars(v: &Vec<char>) -> (r: Option<i64>)
    ensures
        int_operand_ok(v@) ==> r == Some(int_operand_val(v@) as i64),
        !int_operand_ok(v@) ==> r is None,
{
    if v.len() == 0 {
        return None;
    }
    let negative: bool = v[0] == '-';
    let start: usize = if v[0] == '-' || v[0] == '+' {
        1
    } else {
        0
    };
    let ghost body = v@.skip(start as int);
    if v.len() == start {
        return None;
    }
    let mut z: usize = start;
    while z < v.len() && v[z] == '0'
        invariant
            start <= z <= v.len(),
            forall|i: int| start <= i < z ==> v@[i] == '0',
        decreases v.len() - z,
    {
        z += 1;
    }
    let mut i: usize = z;
    let mut acc: u64 = 0;
    proof {
        assert(pow10(10) == 10000000000) by {
            reveal_with_fuel(pow10, 11);
        }
        assert(v@.subrange(z as int, z as int) =~= Seq::<char>::empty());
    }
    while i < v.len()
        invariant
            v@.len() > 0,
            start == (if v@[0] == '-' || v@[0] == '+' {
                1int
            } else {
                0int
            }),
            start <= z <= i <= v.len(),
            body == v@.skip(start as int),
            z < v@.len() ==> v@[z as int] != '0',
            forall|j: int| start <= j < z ==> v@[j] == '0',
            forall|j: int| z <= j < i ==> is_digit_char(#[trigger] v@[j]),
            i - z <= 10,
            acc == digits_val(v@.subrange(z as int, i as int)),
            acc < pow10(10),
            pow10(10) == 10000000000,
        decreases v.len() - i,
    {
        let c = v[i];
        let d: u64 = match c {
            '0' => 0,
            '1' => 1,
            '2' => 2,
            '3' => 3,
            '4' => 4,
            '5' => 5,
            '6' => 6,
            '7' => 7,
            '8' => 8,
            '9' => 9,
            _ => {
                proof {
                    if start == 0 {
                        assert(body =~= v@);
                    }
                    assert(body[i - start] == v@[i as int]);
                    assert(!all_digits(body));
                }
                return None
            },
        };
        if i - z == 10 {
            proof {
                let w = v@.subrange(z as int, v@.len() as int);
                assert(body =~= v@.subrange(start as int, v@.len() as int));
                if start == 0 {
                    assert(body =~= v@);
                }
                if all_digits(body) {
                    lemma_digits_leading_zeros(body, z - start);
                    assert(body.skip(z - start) =~= w);
                    assert(w[0] == v@[z as int]);
                    assert(w[0] != '0');
                    assert(all_digits(w)) by {
                        assert(forall|j: int|
                            0 <= j < w.len() ==> w[j] == body[j + (z - start)]);
                    }
                    lemma_digits_lower(w);
                    assert(w.len() >= 11);
                    assert(pow10((w.len() - 1) as nat) >= pow10(10)) by {
                        lemma_pow10_mono(10, (w.len() - 1) as nat);
                    }
                }
            }
            return None;
        }
        proof {
            assert(digit_val(c) == d);
            let pre = v@.subrange(z as int, i as int);
            assert(pre.push(c) =~= v@.subrange(z as int, i as int + 1));
            assert(v@.subrange(z as int, i as int + 1).take(i - z) =~= pre);
            lemma_digits_upper(v@.subrange(z as int, i as int + 1));
            lemma_pow10_mono((i + 1 - z) as nat, 10);
        }
        acc = acc * 10 + d;
        i += 1;
    }
    proof {
        assert(body =~= v@.subrange(start as int, v@.len() as int));
        assert(v@.subrange(z as int, i as int) =~= body.skip(z - start));
        assert forall|j: int| 0 <= j < body.len() implies is_digit_char(#[trigger] body[j]) by {
            assert(body[j] == v@[j + start]);
            if j + start < z {
                assert(v@[j + start] == '0');
            }
        }
        lemma_digits_leading_zeros(body, z - start);
        assert(acc == digits_val(body));
        if start == 1 {
            assert(body == v@.skip(1));
        } else {
            assert(body =~= v@);
        }
    }
    if negative {
        if acc > 2147483648 {
            return None;
        }
        Some(-(acc as i64))
    } else {
        if acc > 2147483647 {
            return None;
        }
        Some(acc as i64)
    }
}

proof fn lemma_pow10_mono(a: nat, b: nat)
    requires
        a <= b,
    ensures
        pow10(a) <= pow10(b),
    decreases b,
{
    if a < b {
        lemma_pow10_mono(a, (b - 1) as nat);
    }
}

pub open spec fn digit_char(d: nat) -> char {
    if d == 1 {
        '1'
    } else if d == 2 {
        '2'
    } else if d == 3 {
        '3'
    } else if d == 4 {
        '4'
    } else if d == 5 {
        '5'
    } else if d == 6 {
        '6'
    } else if d == 7 {
        '7'
    } else if d == 8 {
        '8'
    } else if d == 9 {
        '9'
    } else {
        '0'
    }
}

/// The decimal digits of `n`, most significant first.
pub open spec fn dec_digits(n: nat) -> Seq<char>
    decreases n,
{
    if n < 10 {
        seq![digit_char(n)]
    } else {
        dec_digits(n / 10).push(digit_char(n % 10))
    }
}

/// The decimal text of `n`, with a leading minus sign when negative.
pub open spec fn dec_int(n: int) -> Seq<char> {
    if n < 0 {
        seq!['-'] + dec_digits((-n) as nat)
    } else {
        dec_digits(n as nat)
    }
}

fn dec_digit_char(d: u64) -> (c: char)
    requires
        d < 10,
    ensures
        c == digit_char(d as nat),
{
    match d {
        0 => '0',
        1 => '1',
        2 => '2',
        3 => '3',
        4 => '4',
        5 => '5',
        6 => '6',
        7 => '7',
        8 => '8',
        _ => '9',
    }
}

pub fn u64_to_dec(n: u64) -> (r: Vec<char>)
    ensures
        r@ == dec_digits(n as nat),
    decreases n,
{
    if n < 10 {
        let mut r: Vec<char> = Vec::new();
        r.push(dec_digit_char(n));
        proof {
            assert(r@ =~= seq![digit_char(n as nat)]);
        }
        r
    } else {
        let mut r = u64_to_dec(n / 10);
        r.push(dec_digit_char(n % 10));
        r
    }
}

pub fn i64_to_dec(n: i64) -> (r: Vec<char>)
    requires
        n > i64::MIN,
    ensures
        r@ == dec_int(n as int),
{
    if n < 0 {
        let mut r: Vec<char> = Vec::new();
        r.push('-');
        let mut d = u64_to_dec((-n) as u64);
        r.append(&mut d);
        proof {
            assert(r@ =~= seq!['-'] + dec_digits((-(n as int)) as nat));
        }
        r
    } else {
        u64_to_dec(n as u64)
    }
}

/// The pattern `pat` stands at position `i` of `s`.
pub open spec fn occurs_at(s: Seq<char>, pat: Seq<char>, i: int) -> bool {
    0 <= i && i + pat.len() <= s.len() && s.subrange(i, i + pat.len()) == pat
}

pub open spec fn contains_seq(s: Seq<char>, pat: Seq<char>) -> bool {
    exists|i: int| occurs_at(s, pat, i)
}

pub fn match_at(v: &Vec<char>, pat: &Vec<char>, at: usize) -> (b: bool)
    requires
        at <= v.len(),
    ensures
        b == occurs_at(v@, pat@, at as int),
{
    if pat.len() > v.len() - at {
        proof {
            assert(!occurs_at(v@, pat@, at as int));
        }
        return false;
    }
    let mut j: usize = 0;
    while j < pat.len()
        invariant
            at + pat.len() <= v.len(),
            j <= pat.len(),
            forall|k: int| 0 <= k < j ==> v@[at + k] == pat@[k],
        decreases pat.len() - j,
    {
        if v[at + j] != pat[j] {
            proof {
                assert(v@.subrange(at as int, at + pat@.len())[j as int] != pat@[j as int]);
            }
            return false;
        }
        j += 1;
    }
    proof {
        assert(v@.subrange(at as int, at + pat@.len()) =~= pat@);
    }
    true
}

/// Finds the first occurrence of `pat` at a position `>= from`.
pub fn find_from(v: &Vec<char>, pat: &Vec<char>, from: usize) -> (r: Option<usize>)
    requires
        pat.len() >= 1,
        from <= v.len(),
    ensures
        match r {
            Some(i) => from <= i && occurs_at(v@, pat@, i as int) && forall|j: int|
                from <= j < i ==> !occurs_at(v@, pat@, j),
            None => forall|j: int| j >= from ==> !occurs_at(v@, pat@, j),
        },
{
    let mut i: usize = from;
    while i < v.len()
        invariant
            from <= i,
            i <= v.len(),
            pat@.len() >= 1,
            forall|j: int| from <= j < i ==> !occurs_at(v@, pat@, j),
        decreases v.len() - i,
    {
        if match_at(v, pat, i) {
            return Some(i);
        }
        i += 1;
    }
    proof {
        assert(forall|j: int| j >= v@.len() ==> !occurs_at(v@, pat@, j));
    }
    None
}

pub fn contains_chars(v: &Vec<char>, pat: &Vec<char>) -> (b: bool)
    requires
        pat.len() >= 1,
    ensures
        b == contains_seq(v@, pat@),
{
    let r = find_from(v, pat, 0);
    proof {
        if r is None {
            assert(forall|j: int| !occurs_at(v@, pat@, j) || j >= 0);
        }
    }
    r.is_some()
}

/// Every occurrence of `pat` replaced by `rep`, scanning from the left,
/// as `str::replace` does.
pub open spec fn replace_all_spec(s: Seq<char>, pat: Seq<char>, rep: Seq<char>) -> Seq<char>
    decreases s.len(),
    when pat.len() >= 1
{
    if s.len() == 0 {
        Seq::<char>::empty()
    } else if occurs_at(s, pat, 0) {
        rep + replace_all_spec(s.skip(pat.len() as int), pat, rep)
    } else {
        seq![s[0]] + replace_all_spec(s.skip(1), pat, rep)
    }
}

pub fn replace_all_chars(v: &Vec<char>, pat: &Vec<char>, rep: &Vec<char>) -> (r: Vec<char>)
    requires
        pat.len() >= 1,
    ensures
        r@ == replace_all_spec(v@, pat@, rep@),
{
    let mut r: Vec<char> = Vec::new();
    let mut i: usize = 0;
    proof {
        assert(v@.skip(0) =~= v@);
    }
    while i < v.len()
        invariant
            i <= v.len(),
            pat@.len() >= 1,
            r@ + replace_all_spec(v@.skip(i as int), pat@, rep@) == replace_all_spec(
                v@,
                pat@,
                rep@,
            ),
        decreases v.len() - i,
    {
        let ghost rest = v@.skip(i as int);
        if match_at(v, pat, i) {
            proof {
                assert(rest.subrange(0, pat@.len() as int) =~= v@.subrange(
                    i as int,
                    i + pat@.len(),
                ));
                assert(occurs_at(rest, pat@, 0));
                assert(rest.skip(pat@.len() as int) =~= v@.skip(i + pat@.len()));
            }
            let mut rc = Vec::new();
            rc.extend_from_slice(rep.as_slice());
            proof {
                assert(rc@ =~= rep@);
            }
            r.append(&mut rc);
            i += pat.len();
        } else {
            proof {
                assert(rest.subrange(0, pat@.len() as int) =~= v@.subrange(
                    i as int,
                    i + pat@.len(),
                ) || rest.len() < pat@.len());
                assert(!occurs_at(rest, pat@, 0));
                assert(rest[0] == v@[i as int]);
                assert(rest.skip(1) =~= v@.skip(i as int + 1));
                assert(r@.push(v@[i as int]) + replace_all_spec(v@.skip(i as int + 1), pat@, rep@)
                    =~= r@ + (seq![rest[0]] + replace_all_spec(rest.skip(1), pat@, rep@)));
            }
            r.push(v[i]);
            i += 1;
        }
    }
    proof {
        assert(v@.skip(v@.len() as int) =~= Seq::<char>::empty());
        assert(r@ + Seq::<char>::empty() =~= r@);
    }
    r
}

/// The segments of `s` between occurrences of `sep`, as `str::split`
/// yields them: the empty string splits into one empty segment.
pub open spec fn split_spec(s: Seq<char>, sep: char) -> Seq<Seq<char>>
    decreases s.len(),
{
    if s.len() == 0 {
        seq![Seq::<char>::empty()]
    } else if s[0] == sep {
        seq![Seq::<char>::empty()] + split_spec(s.skip(1), sep)
    } else {
        let rest = split_spec(s.skip(1), sep);
        seq![seq![s[0]] + rest[0]] + rest.skip(1)
    }
}

proof fn lemma_split_len(s: Seq<char>, sep: char)
    ensures
        split_spec(s, sep).len() >= 1,
    decreases s.len(),
{
    if s.len() > 0 {
        lemma_split_len(s.skip(1), sep);
    }
}

spec fn prepend_first(p: Seq<char>, ss: Seq<Seq<char>>) -> Seq<Seq<char>> {
    seq![p + ss[0]] + ss.skip(1)
}

pub fn split_on_char(v: &Vec<char>, sep: char) -> (r: Vec<Vec<char>>)
    ensures
        r.deep_view() == split_spec(v@, sep),
{
    let mut out: Vec<Vec<char>> = Vec::new();
    let mut cur: Vec<char> = Vec::new();
    let mut i: usize = 0;
    proof {
        assert(v@.skip(0) =~= v@);
        lemma_split_len(v@, sep);
        assert(out.deep_view() + prepend_first(cur.deep_view(), split_spec(v@, sep)) =~~= split_spec(
            v@,
            sep,
        ));
    }
    while i < v.len()
        invariant
            i <= v.len(),
            out.deep_view() + prepend_first(cur.deep_view(), split_spec(v@.skip(i as int), sep))
                == split_spec(v@, sep),
        decreases v.len() - i,
    {
        let ghost rest = v@.skip(i as int);
        let ghost rest1 = v@.skip(i as int + 1);
        let ghost old_out = out.deep_view();
        let ghost old_cur = cur.deep_view();
        proof {
            assert(rest[0] == v@[i as int]);
            assert(rest.skip(1) =~= rest1);
            lemma_split_len(rest1, sep);
        }
        if v[i] == sep {
            out.push(cur);
            cur = Vec::new();
            proof {
                assert(split_spec(rest, sep) == seq![Seq::<char>::empty()] + split_spec(
                    rest1,
                    sep,
                ));
                assert(out.deep_view() =~~= old_out.push(old_cur));
                assert(out.deep_view() + prepend_first(cur.deep_view(), split_spec(rest1, sep))
                    =~~= old_out + prepend_first(old_cur, split_spec(rest, sep)));
            }
        } else {
            cur.push(v[i]);
            proof {
                assert(split_spec(rest, sep) == seq![seq![rest[0]] + split_spec(rest1, sep)[0]]
                    + split_spec(rest1, sep).skip(1));
                assert(cur.deep_view() =~~= old_cur.push(v@[i as int]));
                assert(out.deep_view() + prepend_first(cur.deep_view(), split_spec(rest1, sep))
                    =~~= old_out + prepend_first(old_cur, split_spec(rest, sep)));
            }
        }
        i += 1;
    }
    let ghost old_out = out.deep_view();
    let ghost old_cur = cur.deep_view();
    out.push(cur);
    proof {
        assert(v@.skip(v@.len() as int) =~= Seq::<char>::empty());
        assert(out.deep_view() =~~= old_out.push(old_cur));
        assert(out.deep_view() =~~= split_spec(v@, sep));
    }
    out
}

} // verus!
