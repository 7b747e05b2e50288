//! Character-level string helpers shared by the parsing and composition
//! modules. Every function is specified over the `Seq<char>` view of its
//! arguments.

use vstd::prelude::*;

verus! {

/// `p` is a prefix of `s`.
pub open spec fn spec_starts_with(s: Seq<char>, p: Seq<char>) -> bool {
    p.len() <= s.len() && s.subrange(0, p.len() as int) == p
}

/// The pattern `p` occurs in `s` at position `i`.
pub open spec fn spec_occurs_at(s: Seq<char>, p: Seq<char>, i: int) -> bool {
    0 <= i && i + p.len() <= s.len() && s.subrange(i, i + p.len()) == p
}

/// Whether `s` starts with the prefix `p`.
pub fn str_starts_with(s: &str, p: &str) -> (b: bool)
    ensures
        b == spec_starts_with(s@, p@),
{
    let s_len = s.unicode_len();
    let p_len = p.unicode_len();
    if p_len > s_len {
        assert(!spec_starts_with(s@, p@));
        return false;
    }
    let mut i: usize = 0;
    while i < p_len
        invariant
            i <= p_len <= s_len,
            s_len == s@.len(),
            p_len == p@.len(),
            forall|j: int| 0 <= j < i ==> s@[j] == p@[j],
        decreases p_len - i,
    {
        if s.get_char(i) != p.get_char(i) {
            assert(s@.subrange(0, p@.len() as int)[i as int] != p@[i as int]);
            return false;
        }
        i = i + 1;
    }
    assert(s@.subrange(0, p@.len() as int) =~= p@);
    true
}

/// Whether the character `c` occurs in `s`.
pub fn str_contains_char(s: &str, c: char) -> (b: bool)
    ensures
        b == s@.contains(c),
{
    let len = s.unicode_len();
    let mut i: usize = 0;
    while i < len
        invariant
            i <= len,
            len == s@.len(),
            forall|j: int| 0 <= j < i ==> s@[j] != c,
        decreases len - i,
    {
        if s.get_char(i) == c {
            return true;
        }
        i = i + 1;
    }
    false
}

/// The first position at which `p` occurs in `s`, if any.
pub fn str_find(s: &str, p: &str) -> (r: Option<usize>)
    requires
        p@.len() >= 1,
    ensures
        match r {
            Some(i) => spec_occurs_at(s@, p@, i as int) && forall|j: int|
                0 <= j < i ==> !spec_occurs_at(s@, p@, j),
            None => forall|j: int| !spec_occurs_at(s@, p@, j),
        },
{
    let s_len = s.unicode_len();
    let p_len = p.unicode_len();
    if p_len > s_len {
        return None;
    }
    let mut i: usize = 0;
    while i <= s_len - p_len
        invariant
            p_len >= 1,
            i <= s_len - p_len + 1,
            p_len <= s_len,
            s_len == s@.len(),
            p_len == p@.len(),
            forall|j: int| 0 <= j < i ==> !spec_occurs_at(s@, p@, j),
        decreases s_len - i,
    {
        let mut k: usize = 0;
        let mut matched = true;
        while k < p_len
            invariant
                k <= p_len,
                i + p_len <= s_len,
                s_len == s@.len(),
                p_len == p@.len(),
                matched ==> forall|j: int| 0 <= j < k ==> s@[i + j] == p@[j],
                !matched ==> !spec_occurs_at(s@, p@, i as int),
            decreases p_len - k,
        {
            if s.get_char(i + k) != p.get_char(k) {
                proof {
                    if spec_occurs_at(s@, p@, i as int) {
                        assert(s@.subrange(i as int, i + p@.len())[k as int] == p@[k as int]);
                    }
                }
                matched = false;
                k = p_len;
            } else {
                k = k + 1;
            }
        }
        if matched {
            assert(s@.subrange(i as int, i + p@.len()) =~= p@);
            return Some(i);
        }
        i = i + 1;
    }
    assert forall|j: int| !spec_occurs_at(s@, p@, j) by {
        if 0 <= j && j + p@.len() <= s@.len() {
            assert(j < i);
        }
    }
    None
}

/// A copy of the characters of `s` from `from` (inclusive) to `to` (exclusive).
pub fn str_range_owned(s: &str, from: usize, to: usize) -> (r: String)
    requires
        from <= to <= s@.len(),
    ensures
        r@ == s@.subrange(from as int, to as int),
{
    let part = s.substring_char(from, to);
    part.to_owned()
}

/// Whether the views of two string slices are equal.
pub fn str_eq(a: &str, b: &str) -> (r: bool)
    ensures
        r == (a@ == b@),
{
    let a_len = a.unicode_len();
    let b_len = b.unicode_len();
    if a_len != b_len {
        return false;
    }
    let mut i: usize = 0;
    while i < a_len
        invariant
            i <= a_len,
            a_len == a@.len(),
            a_len == b@.len(),
            forall|j: int| 0 <= j < i ==> a@[j] == b@[j],
        decreases a_len - i,
    {
        if a.get_char(i) != b.get_char(i) {
            return false;
        }
        i = i + 1;
    }
    assert(a@ =~= b@);
    true
}

/// The first position from `i` on at which the character `c` occurs in `s`.
pub open spec fn spec_find_char(s: Seq<char>, c: char, i: int) -> Option<int>
    decreases s.len() + 1 - i,
{
    if i < 0 || i >= s.len() {
        None
    } else if s[i] == c {
        Some(i)
    } else {
        spec_find_char(s, c, i + 1)
    }
}

pub proof fn lemma_find_char_hit(s: Seq<char>, c: char, m: int, i: int)
    requires
        0 <= m <= i < s.len(),
        s[i] == c,
        forall|j: int| m <= j < i ==> s[j] != c,
    ensures
        spec_find_char(s, c, m) == Some(i),
    decreases i - m,
{
    if m < i {
        lemma_find_char_hit(s, c, m + 1, i);
    }
}

pub proof fn lemma_find_char_miss(s: Seq<char>, c: char, m: int)
    requires
        0 <= m,
        forall|j: int| m <= j < s.len() ==> s[j] != c,
    ensures
        spec_find_char(s, c, m) is None,
    decreases s.len() + 1 - m,
{
    if m < s.len() {
        lemma_find_char_miss(s, c, m + 1);
    }
}

/// The first position from `from` on at which `c` occurs in `s`.
pub fn str_find_char_from(s: &str, c: char, from: usize) -> (r: Option<usize>)
    requires
        from <= s@.len(),
    ensures
        (match r {
            Some(i) => spec_find_char(s@, c, from as int) == Some(i as int) && from <= i < s@.len(),
            None => spec_find_char(s@, c, from as int) is None,
        }),
{
    let len = s.unicode_len();
    let mut i: usize = from;
    while i < len
        invariant
            from <= i <= len,
            len == s@.len(),
            forall|j: int| from <= j < i ==> s@[j] != c,
        decreases len - i,
    {
        if s.get_char(i) == c {
            proof {
                lemma_find_char_hit(s@, c, from as int, i as int);
            }
            return Some(i);
        }
        i = i + 1;
    }
    proof {
        lemma_find_char_miss(s@, c, from as int);
    }
    None
}

/// The decimal digit character for a value below ten.
pub open spec fn spec_digit_char(d: int) -> char {
    if d == 0 {
        '0'
    } else if d == 1 {
        '1'
    } else if d == 2 {
        '2'
    } else if d == 3 {
        '3'
    } else if d == 4 {
        '4'
    } else if d == 5 {
        '5'
    } else if d == 6 {
        '6'
    } else if d == 7 {
        '7'
    } else if d == 8 {
        '8'
    } else {
        '9'
    }
}

/// The decimal digits of a non-negative number, most significant first.
pub open spec fn spec_dec_digits(n: int) -> Seq<char>
    decreases n,
{
    if n < 10 {
        seq![spec_digit_char(n)]
    } else {
        spec_dec_digits(n / 10) + seq![spec_digit_char(n % 10)]
    }
}

/// The one-character string of a decimal digit.
fn digit_str(d: u64) -> (r: &'static str)
    requires
        d < 10,
    ensures
        r@ == seq![spec_digit_char(d as int)],
{
    if d == 0 {
        proof {
            reveal_strlit("0");
        }
        assert("0"@ =~= seq![spec_digit_char(0)]);
        "0"
    } else if d == 1 {
        proof {
            reveal_strlit("1");
        }
        assert("1"@ =~= seq![spec_digit_char(1)]);
        "1"
    } else if d == 2 {
        proof {
            reveal_strlit("2");
        }
        assert("2"@ =~= seq![spec_digit_char(2)]);
        "2"
    } else if d == 3 {
        proof {
            reveal_strlit("3");
        }
        assert("3"@ =~= seq![spec_digit_char(3)]);
        "3"
    } else if d == 4 {
        proof {
            reveal_strlit("4");
        }
        assert("4"@ =~= seq![spec_digit_char(4)]);
        "4"
    } else if d == 5 {
        proof {
            reveal_strlit("5");
        }
        assert("5"@ =~= seq![spec_digit_char(5)]);
        "5"
    } else if d == 6 {
        proof {
            reveal_strlit("6");
        }
        assert("6"@ =~= seq![spec_digit_char(6)]);
        "6"
    } else if d == 7 {
        proof {
            reveal_strlit("7");
        }
        assert("7"@ =~= seq![spec_digit_char(7)]);
        "7"
    } else if d == 8 {
        proof {
            reveal_strlit("8");
        }
        assert("8"@ =~= seq![spec_digit_char(8)]);
        "8"
    } else {
        proof {
            reveal_strlit("9");
        }
        assert("9"@ =~= seq![spec_digit_char(9)]);
        "9"
    }
}

/// The decimal rendering of a number.
pub fn u64_text(n: u64) -> (r: String)
    ensures
        r@ == spec_dec_digits(n as int),
    decreases n,
{
    if n < 10 {
        digit_str(n).to_owned()
    } else {
        let mut prefix = u64_text(n / 10);
        prefix.append(digit_str(n % 10));
        prefix
    }
}

/// The lower-case form of an ASCII capital letter; other characters are kept.
pub open spec fn spec_lower_char(c: char) -> char {
    if 'A' <= c && c <= 'Z' {
        (((c as u8) + 32) as char)
    } else {
        c
    }
}

/// `s` equals the keyword `kw` up to ASCII case; `kw` is expected lower-case.
pub open spec fn spec_eq_ignore_ascii_case(s: Seq<char>, kw: Seq<char>) -> bool {
    s.len() == kw.len() && forall|j: int| 0 <= j < s.len() ==> spec_lower_char(s[j]) == kw[j]
}

/// Whether `s` equals `kw` when ASCII capitals in `s` are lowered.
pub fn str_eq_lowered(s: &str, kw: &str) -> (r: bool)
    ensures
        r == spec_eq_ignore_ascii_case(s@, kw@),
{
    let s_len = s.unicode_len();
    let kw_len = kw.unicode_len();
    if s_len != kw_len {
        return false;
    }
    let mut i: usize = 0;
    while i < s_len
        invariant
            i <= s_len,
            s_len == s@.len(),
            s_len == kw@.len(),
            forall|j: int| 0 <= j < i ==> spec_lower_char(s@[j]) == kw@[j],
        decreases s_len - i,
    {
        let c = s.get_char(i);
        let lowered: char = if 'A' <= c && c <= 'Z' {
            ((c as u8) + 32) as char
        } else {
            c
        };
        if lowered != kw.get_char(i) {
            return false;
        }
        i = i + 1;
    }
    true
}

} // verus!
