//! Character and string helpers: whitespace trimming, prefix and equality
//! tests, decimal parsing and printing. All of it is verified; the one
//! trusted item is the wrapper around `String::push`.
use vstd::prelude::*;

verus! {

/// The characters with the Unicode `White_Space` property, the set that
/// `str::trim` removes at both ends of a string.
pub open spec fn is_space_char(c: char) -> bool {
    ||| c == '\u{9}'
    ||| c == '\u{a}'
    ||| c == '\u{b}'
    ||| c == '\u{c}'
    ||| c == '\u{d}'
    ||| c == ' '
    ||| c == '\u{85}'
    ||| c == '\u{a0}'
    ||| c == '\u{1680}'
    ||| ('\u{2000}' <= c && c <= '\u{200a}')
    ||| c == '\u{2028}'
    ||| c == '\u{2029}'
    ||| c == '\u{202f}'
    ||| c == '\u{205f}'
    ||| c == '\u{3000}'
}

/// What is left of `s` after removing leading and trailing whitespace.
pub open spec fn trim_spec(s: Seq<char>) -> Seq<char>
    decreases s.len(),
{
    if s.len() == 0 {
        s
    } else if is_space_char(s[0]) {
        trim_spec(s.drop_first())
    } else if is_space_char(s.last()) {
        trim_spec(s.drop_last())
    } else {
        s
    }
}

pub fn is_space(c: char) -> (r: bool)
    ensures
        r == is_space_char(c),
{
    c == '\u{9}' || c == '\u{a}' || c == '\u{b}' || c == '\u{c}' || c == '\u{d}' || c == ' '
        || c == '\u{85}' || c == '\u{a0}' || c == '\u{1680}' || ('\u{2000}' <= c && c
        <= '\u{200a}') || c == '\u{2028}' || c == '\u{2029}' || c == '\u{202f}' || c == '\u{205f}'
        || c == '\u{3000}'
}

/// Removes leading and trailing whitespace, as `str::trim` does.
pub fn trim(s: &str) -> (r: &str)
    ensures
        r@ == trim_spec(s@),
    decreases s@.len(),
{
    let n = s.unicode_len();
    if n == 0 {
        s
    } else if is_space(s.get_char(0)) {
        let rest = s.substring_char(1, n);
        assert(rest@ =~= s@.drop_first());
        trim(rest)
    } else if is_space(s.get_char(n - 1)) {
        let rest = s.substring_char(0, n - 1);
        assert(rest@ =~= s@.drop_last());
        trim(rest)
    } else {
        s
    }
}

/// `p` is a prefix of `s`.
pub open spec fn starts_with_spec(s: Seq<char>, p: Seq<char>) -> bool {
    p.len() <= s.len() && s.subrange(0, p.len() as int) == p
}

pub fn str_starts_with(s: &str, p: &str) -> (r: bool)
    ensures
        r == starts_with_spec(s@, p@),
{
    let sn = s.unicode_len();
    let pn = p.unicode_len();
    if pn > sn {
        assert(!starts_with_spec(s@, p@));
        return false;
    }
    let mut i: usize = 0;
    while i < pn
        invariant
            0 <= i <= pn <= sn,
            sn == s@.len(),
            pn == p@.len(),
            forall|j: int| 0 <= j < i ==> s@[j] == p@[j],
        decreases pn - i,
    {
        if s.get_char(i) != p.get_char(i) {
            assert(s@.subrange(0, pn as int)[i as int] != p@[i as int]);
            return false;
        }
        i += 1;
    }
    assert(s@.subrange(0, pn as int) =~= p@);
    true
}

pub fn str_eq(s: &str, t: &str) -> (r: bool)
    ensures
        r == (s@ == t@),
{
    let sn = s.unicode_len();
    let tn = t.unicode_len();
    if sn != tn {
        return false;
    }
    let mut i: usize = 0;
    while i < sn
        invariant
            0 <= i <= sn,
            sn == s@.len(),
            sn == t@.len(),
            forall|j: int| 0 <= j < i ==> s@[j] == t@[j],
        decreases sn - i,
    {
        if s.get_char(i) != t.get_char(i) {
            return false;
        }
        i += 1;
    }
    assert(s@ =~= t@);
    true
}

/// The index of the last space character of `s`, if it has one.
pub fn last_space_index(s: &str) -> (r: Option<usize>)
    ensures
        match r {
            Some(j) => j < s@.len() && s@[j as int] == ' ' && (forall|k: int|
                j < k < s@.len() ==> s@[k] != ' '),
            None => forall|k: int| 0 <= k < s@.len() ==> s@[k] != ' ',
        },
{
    let n = s.unicode_len();
    let mut i: usize = n;
    while i > 0
        invariant
            0 <= i <= n,
            n == s@.len(),
            forall|k: int| i <= k < s@.len() ==> s@[k] != ' ',
        decreases i,
    {
        i -= 1;
        if s.get_char(i) == ' ' {
            return Some(i);
        }
    }
    None
}

/// Relies on `alloc::string::String::push`: appends one character.
#[verifier::external_body]
pub fn push_char(s: &mut String, c: char)
    ensures
        final(s)@ == old(s)@.push(c),
{
    s.push(c)
}

pub open spec fn is_digit_char(c: char) -> bool {
    '0' <= c && c <= '9'
}

pub open spec fn digit_val(c: char) -> int {
    c as u32 - '0' as u32
}

/// The value of a sequence of decimal digits, most significant first.
pub open spec fn dec_val(s: Seq<char>) -> int
    decreases s.len(),
{
    if s.len() == 0 {
        0
    } else {
        dec_val(s.drop_last()) * 10 + digit_val(s.last())
    }
}

pub open spec fn all_digits(s: Seq<char>) -> bool {
    forall|i: int| 0 <= i < s.len() ==> is_digit_char(s[i])
}

/// How `str::parse::<usize>` reads a number: an optional leading `+`, then
/// one or more decimal digits whose value fits in `usize`.
pub open spec fn parse_usize_spec(s: Seq<char>) -> Option<usize> {
    let body = if s.len() > 0 && s[0] == '+' {
        s.drop_first()
    } else {
        s
    };
    if body.len() > 0 && all_digits(body) && dec_val(body) <= usize::MAX {
        Some(dec_val(body) as usize)
    } else {
        None
    }
}

proof fn lemma_dec_val_nonneg(s: Seq<char>)
    requires
        all_digits(s),
    ensures
        dec_val(s) >= 0,
    decreases s.len(),
{
    if s.len() > 0 {
        assert(all_digits(s.drop_last()));
        lemma_dec_val_nonneg(s.drop_last());
    }
}

/// A prefix of a digit string never has a larger value than the whole.
proof fn lemma_dec_val_prefix_le(s: Seq<char>, i: int)
    requires
        all_digits(s),
        0 <= i <= s.len(),
    ensures
        dec_val(s.subrange(0, i)) <= dec_val(s),
    decreases s.len() - i,
{
    if i < s.len() {
        let t = s.subrange(0, i + 1);
        assert(t.drop_last() =~= s.subrange(0, i));
        assert(all_digits(s.subrange(0, i)));
        lemma_dec_val_nonneg(s.subrange(0, i));
        assert(dec_val(t) == dec_val(s.subrange(0, i)) * 10 + digit_val(s[i]));
        lemma_dec_val_prefix_le(s, i + 1);
        assert(s.subrange(0, s.len() as int) =~= s);
    } else {
        assert(s.subrange(0, i) =~= s);
    }
}

fn digit_of(c: char) -> (d: usize)
    requires
        is_digit_char(c),
    ensures
        d == digit_val(c),
        d < 10,
{
    (c as u32 - '0' as u32) as usize
}

/// Reads a non-negative integer the way `str::parse::<usize>` does.
pub fn parse_usize(s: &str) -> (r: Option<usize>)
    ensures
        r == parse_usize_spec(s@),
{
    let n = s.unicode_len();
    let start: usize = if n > 0 && s.get_char(0) == '+' {
        1
    } else {
        0
    };
    let ghost body = if s@.len() > 0 && s@[0] == '+' {
        s@.drop_first()
    } else {
        s@
    };
    assert(body =~= s@.subrange(start as int, n as int));
    if start == n {
        return None;
    }
    let mut acc: usize = 0;
    let mut i: usize = start;
    while i < n
        invariant
            start <= i <= n,
            n == s@.len(),
            start == 1 ==> n > 0 && s@[0] == '+',
            start == 0 || start == 1,
            body == (if s@.len() > 0 && s@[0] == '+' {
                s@.drop_first()
            } else {
                s@
            }),
            body == s@.subrange(start as int, n as int),
            all_digits(body.subrange(0, i - start)),
            acc == dec_val(body.subrange(0, i - start)),
        decreases n - i,
    {
        let c = s.get_char(i);
        if !(c >= '0' && c <= '9') {
            assert(body[i - start] == s@[i as int]);
            assert(!all_digits(body)) by {
                assert(!is_digit_char(body[i - start]));
            }
            return None;
        }
        let d = digit_of(c);
        let ghost pre = body.subrange(0, i - start);
        let ghost pre1 = body.subrange(0, i + 1 - start);
        assert(pre1.drop_last() =~= pre);
        assert(pre1.last() == s@[i as int]);
        assert(all_digits(pre1));
        if acc > (usize::MAX - d) / 10 {
            // The value so far already overflows, so the full string does too.
            assert(dec_val(pre1) == acc * 10 + d);
            assert(dec_val(pre1) > usize::MAX) by {
                assert(acc >= (usize::MAX - d) / 10 + 1);
                assert(((usize::MAX - d) / 10 + 1) * 10 + d > usize::MAX) by (nonlinear_arith)
                    requires
                        0 <= d < 10,
                ;
                assert(acc * 10 >= ((usize::MAX - d) / 10 + 1) * 10) by (nonlinear_arith)
                    requires
                        acc >= (usize::MAX - d) / 10 + 1,
                ;
            }
            proof {
                if all_digits(body) {
                    lemma_dec_val_prefix_le(body, i + 1 - start);
                    assert(dec_val(body) >= dec_val(pre1));
                    assert(dec_val(body) > usize::MAX);
                }
                assert(parse_usize_spec(s@) is None);
            }
            return None;
        }
        assert(acc * 10 + d <= usize::MAX) by {
            assert(acc <= (usize::MAX - d) / 10);
            assert(((usize::MAX - d) / 10) * 10 <= usize::MAX - d) by (nonlinear_arith);
            assert(acc * 10 <= ((usize::MAX - d) / 10) * 10) by (nonlinear_arith)
                requires
                    0 <= acc <= (usize::MAX - d) / 10,
            ;
        }
        acc = acc * 10 + d;
        i += 1;
        assert(acc == dec_val(body.subrange(0, i - start)));
    }
    assert(body.subrange(0, n - start) =~= body);
    Some(acc)
}

pub open spec fn digit_char(d: int) -> char {
    if d == 0 {
        '0'
    } else if d == 1 {
        '1'
    } else if d == 2 {
        '2'
    } else if d == 3 {
        '3'
    } else if d == 4 {
        '4'
    } else if d == 5 {
        '5'
    } else if d == 6 {
        '6'
    } else if d == 7 {
        '7'
    } else if d == 8 {
        '8'
    } else {
        '9'
    }
}

/// The decimal spelling of a natural number, without sign or padding.
pub open spec fn dec_str_of(n: int) -> Seq<char>
    decreases n,
{
    if n < 10 {
        seq![digit_char(n)]
    } else {
        dec_str_of(n / 10).push(digit_char(n % 10))
    }
}

fn digit_char_of(d: usize) -> (c: char)
    requires
        d < 10,
    ensures
        c == digit_char(d as int),
{
    if d == 0 {
        '0'
    } else if d == 1 {
        '1'
    } else if d == 2 {
        '2'
    } else if d == 3 {
        '3'
    } else if d == 4 {
        '4'
    } else if d == 5 {
        '5'
    } else if d == 6 {
        '6'
    } else if d == 7 {
        '7'
    } else if d == 8 {
        '8'
    } else {
        '9'
    }
}

/// Writes a number in decimal, as the display positions of the task list
/// are written.
pub fn usize_to_string(n: usize) -> (r: String)
    ensures
        r@ == dec_str_of(n as int),
    decreases n,
{
    if n < 10 {
        let mut s = String::new();
        push_char(&mut s, digit_char_of(n));
        assert(s@ =~= dec_str_of(n as int));
        s
    } else {
        let mut s = usize_to_string(n / 10);
        push_char(&mut s, digit_char_of(n % 10));
        s
    }
}

} // verus!
