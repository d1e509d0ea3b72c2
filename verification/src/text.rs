//! Text helpers: case folding, substring search and display truncation.
use vstd::prelude::*;

verus! {

/// The lower-case form of a string, as `str::to_lowercase` computes it.
pub uninterp spec fn lowercase(s: Seq<char>) -> Seq<char>;

/// Calls `str::to_lowercase`; its result is named by `lowercase`, a
/// function of the input alone (Unicode's fixed case tables).
#[verifier::external_body]
pub(crate) fn to_lowercase(s: &str) -> (r: String)
    ensures
        r@ == lowercase(s@),
{
    s.to_lowercase()
}

/// Calls `String::push`, which appends one character.
#[verifier::external_body]
pub(crate) fn push_char(s: &mut String, c: char)
    ensures
        final(s)@ == old(s)@.push(c),
{
    s.push(c)
}

/// The characters of a string, in order.
pub fn chars_of(s: &str) -> (v: Vec<char>)
    ensures
        v@ == s@,
{
    let mut v: Vec<char> = Vec::new();
    for c in it: s.chars()
        invariant
            v@ == it.seq().take(it.index() as int),
            it.seq() == s@,
    {
        v.push(c);
    }
    v
}

/// `needle` occurs in `hay` at position `i`.
pub open spec fn occurs_at(hay: Seq<char>, needle: Seq<char>, i: int) -> bool {
    0 <= i && i + needle.len() <= hay.len() && hay.subrange(i, i + needle.len()) == needle
}

/// `needle` occurs somewhere in `hay` (the empty string occurs everywhere).
pub open spec fn is_substring(needle: Seq<char>, hay: Seq<char>) -> bool {
    exists|i: int| #[trigger] occurs_at(hay, needle, i)
}

fn occurs_at_exec(hay: &Vec<char>, needle: &Vec<char>, i: usize) -> (r: bool)
    requires
        i + needle.len() <= hay.len(),
    ensures
        r == occurs_at(hay@, needle@, i as int),
{
    let mut j: usize = 0;
    while j < needle.len()
        invariant
            j <= needle.len(),
            i + needle.len() <= hay.len(),
            forall|t: int| 0 <= t < j ==> hay@[i + t] == needle@[t],
        decreases needle.len() - j,
    {
        if hay[i + j] != needle[j] {
            proof {
                if occurs_at(hay@, needle@, i as int) {
                    assert(hay@.subrange(i as int, i + needle.len())[j as int] == hay@[i + j]);
                }
            }
            return false;
        }
        j = j + 1;
    }
    assert(hay@.subrange(i as int, i + needle.len()) =~= needle@);
    true
}

/// Whether `needle` occurs in `hay`.
pub fn contains_chars(hay: &Vec<char>, needle: &Vec<char>) -> (r: bool)
    ensures
        r == is_substring(needle@, hay@),
{
    if needle.len() > hay.len() {
        proof {
            assert forall|i: int| !#[trigger] occurs_at(hay@, needle@, i) by {}
        }
        return false;
    }
    let last = hay.len() - needle.len();
    let mut i: usize = 0;
    loop
        invariant
            last == hay.len() - needle.len(),
            i <= last,
            forall|t: int| 0 <= t < i ==> !#[trigger] occurs_at(hay@, needle@, t),
        ensures
            forall|t: int| 0 <= t <= last ==> !#[trigger] occurs_at(hay@, needle@, t),
        decreases last - i,
    {
        if occurs_at_exec(hay, needle, i) {
            return true;
        }
        if i == last {
            break;
        }
        i = i + 1;
    }
    proof {
        assert forall|t: int| !#[trigger] occurs_at(hay@, needle@, t) by {
            if 0 <= t <= last {
            }
        }
    }
    false
}

/// The number of bytes in the UTF-8 encoding of one character.
pub open spec fn utf8_width(c: char) -> nat {
    if (c as u32) < 0x80 {
        1
    } else if (c as u32) < 0x800 {
        2
    } else if (c as u32) < 0x10000 {
        3
    } else {
        4
    }
}

/// The number of bytes in the UTF-8 encoding of a character sequence.
pub open spec fn utf8_len(s: Seq<char>) -> nat
    decreases s.len(),
{
    if s.len() == 0 {
        0
    } else {
        utf8_len(s.drop_last()) + utf8_width(s.last())
    }
}

fn utf8_width_exec(c: char) -> (w: usize)
    ensures
        w == utf8_width(c),
{
    let u = c as u32;
    if u < 0x80 {
        1
    } else if u < 0x800 {
        2
    } else if u < 0x10000 {
        3
    } else {
        4
    }
}

/// The result of cutting `s` down to `max` bytes: unchanged when it fits;
/// otherwise the longest character prefix that fits in `max` bytes,
/// followed by `...`.
pub open spec fn truncated(s: Seq<char>, max: nat, r: Seq<char>) -> bool {
    if utf8_len(s) <= max {
        r == s
    } else {
        exists|c: int|
            0 <= c < s.len() && utf8_len(s.take(c)) <= max && utf8_len(s.take(c + 1)) > max && r == s.take(c)
                + "..."@
    }
}

/// The result of cutting `s` down to `max` bytes (see `truncated`).
pub open spec fn truncation(s: Seq<char>, max: nat) -> Seq<char> {
    choose|r: Seq<char>| truncated(s, max, r)
}

proof fn lemma_truncation_is(s: Seq<char>, max: nat, r: Seq<char>)
    requires
        truncated(s, max, r),
    ensures
        truncation(s, max) == r,
{
    law_truncation_is_unique(s, max, r, truncation(s, max));
}

/// Truncates a string to at most `max` bytes (on a character boundary),
/// appending `...` when anything was cut.
pub fn truncate_str(s: &str, max: usize) -> (r: String)
    ensures
        truncated(s@, max as nat, r@),
        r@ == truncation(s@, max as nat),
{
    let cs = chars_of(s);
    let mut acc: usize = 0;
    let mut k: usize = 0;
    let mut prefix = String::new();
    while k < cs.len()
        invariant
            k <= cs.len(),
            cs@ == s@,
            acc == utf8_len(s@.take(k as int)),
            acc <= max,
            prefix@ == s@.take(k as int),
        decreases cs.len() - k,
    {
        assert(s@.take(k as int + 1).drop_last() =~= s@.take(k as int));
        let w = utf8_width_exec(cs[k]);
        if w > max - acc {
            assert(utf8_len(s@.take(k as int + 1)) > max);
            proof {
                lemma_utf8_len_monotone(s@, k as int + 1, s@.len() as int);
                assert(s@.take(s@.len() as int) =~= s@);
            }
            let mut r = prefix;
            r.append("...");
            assert(0 <= k < s@.len() && utf8_len(s@.take(k as int)) <= max && utf8_len(s@.take(k as int + 1)) > max
                && r@ == s@.take(k as int) + "..."@);
            proof {
                lemma_truncation_is(s@, max as nat, r@);
            }
            return r;
        }
        acc = acc + w;
        push_char(&mut prefix, cs[k]);
        assert(prefix@ =~= s@.take(k as int + 1));
        k = k + 1;
    }
    assert(s@.take(k as int) =~= s@);
    proof {
        lemma_truncation_is(s@, max as nat, s@);
    }
    s.to_owned()
}

/// Growing a prefix never shrinks its encoding.
pub proof fn lemma_utf8_len_monotone(s: Seq<char>, a: int, b: int)
    requires
        0 <= a <= b <= s.len(),
    ensures
        utf8_len(s.take(a)) <= utf8_len(s.take(b)),
    decreases b - a,
{
    if a < b {
        lemma_utf8_len_monotone(s, a, b - 1);
        assert(s.take(b).drop_last() =~= s.take(b - 1));
    }
}

/// The prefix that truncation keeps is determined by the input: two
/// results that both satisfy `truncated` are equal.
pub proof fn law_truncation_is_unique(s: Seq<char>, max: nat, r1: Seq<char>, r2: Seq<char>)
    requires
        truncated(s, max, r1),
        truncated(s, max, r2),
    ensures
        r1 == r2,
{
    if utf8_len(s) > max {
        let c1 = choose|c: int|
            0 <= c < s.len() && utf8_len(s.take(c)) <= max && utf8_len(s.take(c + 1)) > max && r1 == s.take(c)
                + "..."@;
        let c2 = choose|c: int|
            0 <= c < s.len() && utf8_len(s.take(c)) <= max && utf8_len(s.take(c + 1)) > max && r2 == s.take(c)
                + "..."@;
        if c1 < c2 {
            lemma_utf8_len_monotone(s, c1 + 1, c2);
        } else if c2 < c1 {
            lemma_utf8_len_monotone(s, c2 + 1, c1);
        }
    }
}

/// Whether two strings hold the same characters.
pub fn same_text(a: &str, b: &str) -> (r: bool)
    ensures
        r == (a@ == b@),
{
    a.to_owned() == b.to_owned()
}

/// The decimal digit character for `d` (below ten).
pub open spec fn digit_char(d: nat) -> char {
    (48 + d) as char
}

/// The decimal representation of `n`, without leading zeros.
pub open spec fn decimal(n: nat) -> Seq<char>
    decreases n,
{
    if n < 10 {
        seq![digit_char(n)]
    } else {
        decimal(n / 10).push(digit_char(n % 10))
    }
}

fn digit_exec(d: u64) -> (c: char)
    requires
        d < 10,
    ensures
        c == digit_char(d as nat),
{
    if d == 0 {
        '0'
    } else if d == 1 {
        '1'
    } else if d == 2 {
        '2'
    } else if d == 3 {
        '3'
    } else if d == 4 {
        '4'
    } else if d == 5 {
        '5'
    } else if d == 6 {
        '6'
    } else if d == 7 {
        '7'
    } else if d == 8 {
        '8'
    } else {
        '9'
    }
}

/// Writes `n` in decimal.
pub fn decimal_string(n: u64) -> (s: String)
    ensures
        s@ == decimal(n as nat),
    decreases n,
{
    let c = digit_exec(n % 10);
    let mut s = if n < 10 {
        String::new()
    } else {
        decimal_string(n / 10)
    };
    push_char(&mut s, c);
    s
}

} // verus!
