//! Recognition of the text of a floating-point number, by the grammar that
//! Rust's standard parser documents (letters in any case):
//! `Sign? ( 'inf' | 'infinity' | 'nan' | Number )`, where
//! `Number ::= ( Digit+ | Digit+ '.' Digit* | Digit* '.' Digit+ ) Exp?` and
//! `Exp ::= 'e' Sign? Digit+`.
use vstd::prelude::*;
use vstd::string::StrSliceExecFns;

verus! {

pub open spec fn is_sign(c: char) -> bool {
    c == '+' || c == '-'
}

pub open spec fn is_exp_mark(c: char) -> bool {
    c == 'e' || c == 'E'
}

pub open spec fn is_digit(c: char) -> bool {
    '0' <= c && c <= '9'
}

/// `c` is the lower-case letter `l` in either case.
pub open spec fn same_letter(c: char, l: char) -> bool {
    c == l || ('A' <= c && c <= 'Z' && (c as u32) + 32 == l as u32)
}

/// `b` spells the lower-case word `w`, each letter in either case.
pub open spec fn spells(b: Seq<char>, w: Seq<char>) -> bool {
    b.len() == w.len() && forall|i: int| 0 <= i < b.len() ==> same_letter(#[trigger] b[i], w[i])
}

/// Digits and at most one `.`, with at least one digit.
pub open spec fn mantissa_ok(m: Seq<char>) -> bool {
    &&& forall|i: int| 0 <= i < m.len() ==> is_digit(#[trigger] m[i]) || m[i] == '.'
    &&& forall|i: int, j: int| 0 <= i < j < m.len() && m[i] == '.' ==> m[j] != '.'
    &&& exists|i: int| 0 <= i < m.len() && is_digit(#[trigger] m[i])
}

/// One or more digits and nothing else.
pub open spec fn digits_only(x: Seq<char>) -> bool {
    x.len() > 0 && forall|i: int| 0 <= i < x.len() ==> is_digit(#[trigger] x[i])
}

/// An optional sign followed by one or more digits.
pub open spec fn exponent_ok(x: Seq<char>) -> bool {
    digits_only(x) || (x.len() > 0 && is_sign(x[0]) && digits_only(x.drop_first()))
}

/// The position of the first `e` or `E`, or the length where there is none.
pub open spec fn exp_mark_at(b: Seq<char>) -> int
    decreases b.len(),
{
    if b.len() == 0 {
        0
    } else if is_exp_mark(b[0]) {
        0
    } else {
        1 + exp_mark_at(b.drop_first())
    }
}

/// A mantissa, then an exponent where an `e` or `E` follows it.
pub open spec fn number_ok(b: Seq<char>) -> bool {
    let k = exp_mark_at(b);
    mantissa_ok(b.subrange(0, k)) && (k == b.len() || exponent_ok(b.subrange(k + 1, b.len() as int)))
}

/// The text without a leading sign.
pub open spec fn unsigned_part(s: Seq<char>) -> Seq<char> {
    if s.len() > 0 && is_sign(s[0]) {
        s.drop_first()
    } else {
        s
    }
}

/// The text of a floating-point number.
pub open spec fn float_text(s: Seq<char>) -> bool {
    let b = unsigned_part(s);
    spells(b, seq!['i', 'n', 'f']) || spells(b, seq!['i', 'n', 'f', 'i', 'n', 'i', 't', 'y'])
        || spells(b, seq!['n', 'a', 'n']) || number_ok(b)
}

proof fn lemma_exp_mark_at(b: Seq<char>, k: int)
    requires
        0 <= k <= b.len(),
        forall|j: int| 0 <= j < k ==> !is_exp_mark(#[trigger] b[j]),
        k == b.len() || is_exp_mark(b[k]),
    ensures
        exp_mark_at(b) == k,
    decreases k,
{
    if k > 0 {
        assert(!is_exp_mark(b[0]));
        let t = b.drop_first();
        assert forall|j: int| 0 <= j < k - 1 implies !is_exp_mark(#[trigger] t[j]) by {
            assert(t[j] == b[j + 1]);
        }
        lemma_exp_mark_at(t, k - 1);
    }
}

/// Every character of the grammar is ASCII.
proof fn lemma_float_text_ascii(s: Seq<char>)
    requires
        float_text(s),
    ensures
        forall|i: int| 0 <= i < s.len() ==> '\0' <= #[trigger] s[i] && s[i] <= '\u{7f}',
{
    let b = unsigned_part(s);
    assert forall|i: int| 0 <= i < b.len() implies '\0' <= #[trigger] b[i] && b[i] <= '\u{7f}' by {
        if spells(b, seq!['i', 'n', 'f']) {
            assert(same_letter(b[i], seq!['i', 'n', 'f'][i]));
        } else if spells(b, seq!['i', 'n', 'f', 'i', 'n', 'i', 't', 'y']) {
            assert(same_letter(b[i], seq!['i', 'n', 'f', 'i', 'n', 'i', 't', 'y'][i]));
        } else if spells(b, seq!['n', 'a', 'n']) {
            assert(same_letter(b[i], seq!['n', 'a', 'n'][i]));
        } else {
            let k = exp_mark_at(b);
            lemma_exp_mark_bound(b);
            if i < k {
                assert(b.subrange(0, k)[i] == b[i]);
            } else if i > k {
                let x = b.subrange(k + 1, b.len() as int);
                assert(x[i - k - 1] == b[i]);
                if !digits_only(x) && i - k - 1 > 0 {
                    assert(x.drop_first()[i - k - 2] == x[i - k - 1]);
                }
            } else {
                lemma_exp_mark_is_mark(b);
            }
        }
    }
    assert forall|i: int| 0 <= i < s.len() implies '\0' <= #[trigger] s[i] && s[i] <= '\u{7f}' by {
        if s.len() > 0 && is_sign(s[0]) {
            if i > 0 {
                assert(s[i] == b[i - 1]);
            }
        } else {
            assert(s[i] == b[i]);
        }
    }
}

proof fn lemma_exp_mark_bound(b: Seq<char>)
    ensures
        0 <= exp_mark_at(b) <= b.len(),
    decreases b.len(),
{
    if b.len() > 0 && !is_exp_mark(b[0]) {
        lemma_exp_mark_bound(b.drop_first());
    }
}

proof fn lemma_exp_mark_is_mark(b: Seq<char>)
    ensures
        exp_mark_at(b) < b.len() ==> is_exp_mark(b[exp_mark_at(b)]),
    decreases b.len(),
{
    if b.len() > 0 && !is_exp_mark(b[0]) {
        lemma_exp_mark_is_mark(b.drop_first());
        let t = b.drop_first();
        lemma_exp_mark_bound(t);
        if exp_mark_at(t) < t.len() {
            assert(t[exp_mark_at(t)] == b[exp_mark_at(t) + 1]);
        }
    }
}

fn char_at(s: &str, i: usize) -> (c: char)
    requires
        s.is_ascii(),
        i < s@.len(),
    ensures
        c == s@[i as int],
{
    let b = s.get_ascii(i);
    assert(s@[i as int] <= '\u{7f}');
    b as char
}

/// Whether the characters of `s` from `start` on spell the word `w`.
fn spells_from(s: &str, start: usize, w: &Vec<char>) -> (r: bool)
    requires
        s.is_ascii(),
        start <= s@.len(),
    ensures
        r == spells(s@.subrange(start as int, s@.len() as int), w@),
{
    let ghost b = s@.subrange(start as int, s@.len() as int);
    let n = s.unicode_len();
    if n - start != w.len() {
        return false;
    }
    let mut i: usize = 0;
    while i < w.len()
        invariant
            n == s@.len(),
            start <= n,
            b == s@.subrange(start as int, s@.len() as int),
            b.len() == w@.len(),
            s.is_ascii(),
            i <= w@.len(),
            forall|j: int| 0 <= j < i ==> same_letter(#[trigger] b[j], w@[j]),
        decreases w@.len() - i,
    {
        let c = char_at(s, start + i);
        let l = w[i];
        assert(b[i as int] == c);
        if !(c == l || ('A' <= c && c <= 'Z' && (c as u32) + 32 == l as u32)) {
            return false;
        }
        i = i + 1;
    }
    true
}

/// Whether the text is that of a floating-point number.
pub fn is_float_text(s: &str) -> (r: bool)
    ensures
        r == float_text(s@),
{
    if !s.is_ascii() {
        proof {
            if float_text(s@) {
                lemma_float_text_ascii(s@);
                assert(vstd::utf8::is_ascii_chars(s@));
            }
        }
        return false;
    }
    let n = s.unicode_len();
    let mut start: usize = 0;
    if n > 0 {
        let c0 = char_at(s, 0);
        if c0 == '+' || c0 == '-' {
            start = 1;
        }
    }
    let ghost b = unsigned_part(s@);
    assert(b =~= s@.subrange(start as int, n as int));
    if spells_from(s, start, &vec!['i', 'n', 'f']) || spells_from(
        s,
        start,
        &vec!['i', 'n', 'f', 'i', 'n', 'i', 't', 'y'],
    ) || spells_from(s, start, &vec!['n', 'a', 'n']) {
        return true;
    }
    assert(!spells(b, seq!['i', 'n', 'f']));
    assert(!spells(b, seq!['i', 'n', 'f', 'i', 'n', 'i', 't', 'y']));
    assert(!spells(b, seq!['n', 'a', 'n']));
    // the exponent mark, or the end
    let mut k: usize = start;
    let mut found = false;
    while k < n && !found
        invariant
            n == s@.len(),
            s.is_ascii(),
            start <= k <= n,
            forall|j: int| start <= j < k ==> !is_exp_mark(#[trigger] s@[j]),
            found ==> k < n && is_exp_mark(s@[k as int]),
        decreases n - k + (if found { 0int } else { 1int }),
    {
        let c = char_at(s, k);
        if c == 'e' || c == 'E' {
            found = true;
        } else {
            k = k + 1;
        }
    }
    proof {
        assert forall|j: int| 0 <= j < k - start implies !is_exp_mark(#[trigger] b[j]) by {
            assert(b[j] == s@[start + j]);
        }
        lemma_exp_mark_at(b, k - start);
    }
    let ghost m = b.subrange(0, k - start);
    // the mantissa
    let mut i: usize = start;
    let mut seen_dot = false;
    let mut seen_digit = false;
    while i < k
        invariant
            n == s@.len(),
            s.is_ascii(),
            start <= i <= k <= n,
            m == s@.subrange(start as int, k as int),
            b == s@.subrange(start as int, n as int),
            b == unsigned_part(s@),
            m == b.subrange(0, k - start),
            exp_mark_at(b) == k - start,
            !spells(b, seq!['i', 'n', 'f']),
            !spells(b, seq!['i', 'n', 'f', 'i', 'n', 'i', 't', 'y']),
            !spells(b, seq!['n', 'a', 'n']),
            forall|j: int| start <= j < i ==> is_digit(#[trigger] s@[j]) || s@[j] == '.',
            forall|j: int, l: int| start <= j < l < i && s@[j] == '.' ==> s@[l] != '.',
            seen_dot <==> exists|j: int| start <= j < i && #[trigger] s@[j] == '.',
            seen_digit <==> exists|j: int| start <= j < i && is_digit(#[trigger] s@[j]),
        decreases k - i,
    {
        let c = char_at(s, i);
        if '0' <= c && c <= '9' {
            seen_digit = true;
        } else if c == '.' {
            if seen_dot {
                proof {
                    let j = choose|j: int| start <= j < i && #[trigger] s@[j] == '.';
                    assert(m[j - start] == '.' && m[i - start] == '.');
                }
                return false;
            }
            seen_dot = true;
        } else {
            assert(m[i - start] == c);
            return false;
        }
        i = i + 1;
    }
    if !seen_digit {
        proof {
            if exists|j: int| 0 <= j < m.len() && is_digit(#[trigger] m[j]) {
                let j = choose|j: int| 0 <= j < m.len() && is_digit(#[trigger] m[j]);
                assert(m[j] == s@[start + j]);
            }
        }
        return false;
    }
    proof {
        let j = choose|j: int| start <= j < i && is_digit(#[trigger] s@[j]);
        assert(m[j - start] == s@[j]);
        assert forall|a: int| 0 <= a < m.len() implies is_digit(#[trigger] m[a]) || m[a] == '.' by {
            assert(m[a] == s@[start + a]);
        }
        assert forall|a: int, c: int| 0 <= a < c < m.len() && m[a] == '.' implies m[c] != '.' by {
            assert(m[a] == s@[start + a]);
            assert(m[c] == s@[start + c]);
        }
        assert(mantissa_ok(m));
    }
    if k == n {
        return true;
    }
    // the exponent
    let ghost x = b.subrange(k - start + 1, b.len() as int);
    assert(x =~= s@.subrange(k + 1, n as int));
    let mut d: usize = k + 1;
    if d < n {
        let c = char_at(s, d);
        if c == '+' || c == '-' {
            d = d + 1;
        }
    }
    if d == n {
        if k + 1 < n {
            assert(x[0] == s@[k + 1]);
        }
        assert(x.len() == 0 || (x.len() == 1 && is_sign(x[0])));
        assert(!digits_only(x));
        assert(x.len() > 0 ==> x.drop_first().len() == 0);
        return false;
    }
    let ghost digits = s@.subrange(d as int, n as int);
    let ok = digits_from(s, d);
    proof {
        if d == k + 2 {
            assert(x[0] == s@[k + 1]);
            assert(x.drop_first() =~= digits);
            assert(!is_digit(x[0]));
        } else {
            assert(x =~= digits);
            assert(x[0] == s@[k + 1]);
        }
    }
    ok
}

/// Whether the characters of `s` from `d` on are one or more digits.
fn digits_from(s: &str, d: usize) -> (r: bool)
    requires
        s.is_ascii(),
        d <= s@.len(),
    ensures
        r == digits_only(s@.subrange(d as int, s@.len() as int)),
{
    let n = s.unicode_len();
    let ghost t = s@.subrange(d as int, n as int);
    if d == n {
        return false;
    }
    let mut e: usize = d;
    while e < n
        invariant
            n == s@.len(),
            s.is_ascii(),
            d <= e <= n,
            t == s@.subrange(d as int, n as int),
            forall|j: int| 0 <= j < e - d ==> is_digit(#[trigger] t[j]),
        decreases n - e,
    {
        let c = char_at(s, e);
        assert(t[e - d] == c);
        if !('0' <= c && c <= '9') {
            return false;
        }
        e = e + 1;
    }
    true
}

} // verus!
