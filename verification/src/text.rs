//! String helpers shared across the crate: locating a separator character,
//! trimming surrounding whitespace, and rendering integers as decimal text.

use vstd::prelude::*;
use vstd::string::*;

verus! {

/// The whitespace characters that `trim_str` removes at either end.
pub open spec fn is_ws_char(c: char) -> bool {
    c == ' ' || c == '\t' || c == '\n' || c == '\r'
}

/// A string is blank when every character is whitespace.
pub open spec fn blank(s: Seq<char>) -> bool {
    forall|i: int| 0 <= i < s.len() ==> is_ws_char(s[i])
}

/// `i` is the position of the first occurrence of `c` in `s`.
pub open spec fn is_first_index(s: Seq<char>, c: char, i: int) -> bool {
    &&& 0 <= i < s.len()
    &&& s[i] == c
    &&& forall|j: int| 0 <= j < i ==> s[j] != c
}

/// `a` is the position of the first non-whitespace character of `s`.
pub open spec fn is_first_non_ws(s: Seq<char>, a: int) -> bool {
    &&& 0 <= a < s.len()
    &&& !is_ws_char(s[a])
    &&& forall|j: int| 0 <= j < a ==> is_ws_char(s[j])
}

/// `b` is the position of the last non-whitespace character of `s`.
pub open spec fn is_last_non_ws(s: Seq<char>, b: int) -> bool {
    &&& 0 <= b < s.len()
    &&& !is_ws_char(s[b])
    &&& forall|j: int| b < j < s.len() ==> is_ws_char(s[j])
}

/// `s` with leading and trailing whitespace removed.
pub open spec fn trim_spec(s: Seq<char>) -> Seq<char> {
    if blank(s) {
        Seq::<char>::empty()
    } else {
        let a = choose|a: int| is_first_non_ws(s, a);
        let b = choose|b: int| is_last_non_ws(s, b);
        s.subrange(a, b + 1)
    }
}

proof fn lemma_first_non_ws_unique(s: Seq<char>, a1: int, a2: int)
    requires
        is_first_non_ws(s, a1),
        is_first_non_ws(s, a2),
    ensures
        a1 == a2,
{
    if a1 < a2 {
        assert(is_ws_char(s[a1]));
    }
    if a2 < a1 {
        assert(is_ws_char(s[a2]));
    }
}

proof fn lemma_last_non_ws_unique(s: Seq<char>, b1: int, b2: int)
    requires
        is_last_non_ws(s, b1),
        is_last_non_ws(s, b2),
    ensures
        b1 == b2,
{
    if b1 < b2 {
        assert(is_ws_char(s[b2]));
    }
    if b2 < b1 {
        assert(is_ws_char(s[b1]));
    }
}

/// Relies on str's `PartialEq`: two string slices are equal exactly when
/// their character sequences are.
#[verifier::external_body]
pub fn str_eq(a: &str, b: &str) -> (r: bool)
    ensures
        r == (a@ == b@),
{
    a == b
}

/// Whether every character of `s` is whitespace.
pub fn is_blank(s: &str) -> (r: bool)
    ensures
        r == blank(s@),
{
    let n: usize = s.unicode_len();
    let mut i: usize = 0;
    while i < n
        invariant
            0 <= i <= n,
            n == s@.len(),
            forall|j: int| 0 <= j < i ==> is_ws_char(s@[j]),
        decreases n - i,
    {
        let c = s.get_char(i);
        if !(c == ' ' || c == '\t' || c == '\n' || c == '\r') {
            assert(!is_ws_char(s@[i as int]));
            return false;
        }
        i += 1;
    }
    true
}

/// The position of the first occurrence of `c` in `s`, if any.
pub fn find_char(s: &str, c: char) -> (r: Option<usize>)
    ensures
        match r {
            Some(i) => is_first_index(s@, c, i as int),
            None => forall|j: int| 0 <= j < s@.len() ==> s@[j] != c,
        },
{
    let n: usize = s.unicode_len();
    let mut i: usize = 0;
    while i < n
        invariant
            0 <= i <= n,
            n == s@.len(),
            forall|j: int| 0 <= j < i ==> s@[j] != c,
        decreases n - i,
    {
        if s.get_char(i) == c {
            return Some(i);
        }
        i += 1;
    }
    None
}

fn first_non_ws(s: &str) -> (r: Option<usize>)
    ensures
        match r {
            Some(a) => is_first_non_ws(s@, a as int),
            None => blank(s@),
        },
{
    let n: usize = s.unicode_len();
    let mut a: usize = 0;
    while a < n
        invariant
            0 <= a <= n,
            n == s@.len(),
            forall|j: int| 0 <= j < a ==> is_ws_char(s@[j]),
        decreases n - a,
    {
        let c = s.get_char(a);
        if !(c == ' ' || c == '\t' || c == '\n' || c == '\r') {
            assert(!is_ws_char(s@[a as int]));
            return Some(a);
        }
        a += 1;
    }
    None
}

fn last_non_ws(s: &str) -> (r: Option<usize>)
    ensures
        match r {
            Some(b) => is_last_non_ws(s@, b as int),
            None => blank(s@),
        },
{
    let n: usize = s.unicode_len();
    let mut b: usize = n;
    while b > 0
        invariant
            0 <= b <= n,
            n == s@.len(),
            forall|j: int| b <= j < n ==> is_ws_char(s@[j]),
        decreases b,
    {
        let c = s.get_char(b - 1);
        if !(c == ' ' || c == '\t' || c == '\n' || c == '\r') {
            assert(!is_ws_char(s@[(b - 1) as int]));
            return Some(b - 1);
        }
        b -= 1;
    }
    None
}

/// `s` with leading and trailing whitespace removed.
pub fn trim_str(s: &str) -> (r: String)
    ensures
        r@ == trim_spec(s@),
{
    let n: usize = s.unicode_len();
    let a: usize = match first_non_ws(s) {
        Some(a) => a,
        None => {
            return String::new();
        },
    };
    let b: usize = match last_non_ws(s) {
        Some(bl) => {
            assert(bl < n);
            bl + 1
        },
        None => {
            return String::new();
        },
    };
    assert(b > a) by {
        if b <= a {
            assert(is_ws_char(s@[(b - 1) as int]));
        }
    }
    let sub = s.substring_char(a, b);
    let r = String::from_str(sub);
    proof {
        assert(!blank(s@)) by {
            assert(!is_ws_char(s@[a as int]));
        }
        let a2 = choose|x: int| is_first_non_ws(s@, x);
        let b2 = choose|x: int| is_last_non_ws(s@, x);
        assert(is_first_non_ws(s@, a2)) by {
            assert(is_first_non_ws(s@, a as int));
        }
        assert(is_last_non_ws(s@, b2)) by {
            assert(is_last_non_ws(s@, (b - 1) as int));
        }
        lemma_first_non_ws_unique(s@, a as int, a2);
        lemma_last_non_ws_unique(s@, (b - 1) as int, b2);
    }
    r
}

/// The decimal digit character for `d`.
pub open spec fn digit_char(d: int) -> char {
    if d == 0 { '0' }
    else if d == 1 { '1' }
    else if d == 2 { '2' }
    else if d == 3 { '3' }
    else if d == 4 { '4' }
    else if d == 5 { '5' }
    else if d == 6 { '6' }
    else if d == 7 { '7' }
    else if d == 8 { '8' }
    else { '9' }
}

/// The decimal rendering of a non-negative integer.
pub open spec fn dec_digits(n: nat) -> Seq<char>
    decreases n,
{
    if n < 10 {
        seq![digit_char(n as int)]
    } else {
        dec_digits(n / 10) + seq![digit_char((n % 10) as int)]
    }
}

/// The decimal rendering of an integer, with a leading minus sign when negative.
pub open spec fn dec_int(n: int) -> Seq<char> {
    if n < 0 {
        seq!['-'] + dec_digits((-n) as nat)
    } else {
        dec_digits(n as nat)
    }
}

fn digit_str(d: u64) -> (r: &'static str)
    requires
        d < 10,
    ensures
        r@ == seq![digit_char(d as int)],
{
    proof {
        reveal_strlit("0");
        reveal_strlit("1");
        reveal_strlit("2");
        reveal_strlit("3");
        reveal_strlit("4");
        reveal_strlit("5");
        reveal_strlit("6");
        reveal_strlit("7");
        reveal_strlit("8");
        reveal_strlit("9");
    }
    if d == 0 { "0" }
    else if d == 1 { "1" }
    else if d == 2 { "2" }
    else if d == 3 { "3" }
    else if d == 4 { "4" }
    else if d == 5 { "5" }
    else if d == 6 { "6" }
    else if d == 7 { "7" }
    else if d == 8 { "8" }
    else { "9" }
}

/// Renders `n` in decimal.
pub fn u64_to_string(n: u64) -> (r: String)
    ensures
        r@ == dec_digits(n as nat),
    decreases n,
{
    if n < 10 {
        String::from_str(digit_str(n))
    } else {
        let mut r = u64_to_string(n / 10);
        r.append(digit_str(n % 10));
        r
    }
}

/// Renders `n` in decimal, with a leading minus sign when negative.
pub fn i64_to_string(n: i64) -> (r: String)
    ensures
        r@ == dec_int(n as int),
{
    if n >= 0 {
        u64_to_string(n as u64)
    } else {
        let mut r = String::from_str("-");
        proof {
            reveal_strlit("-");
        }
        let mag: u64 = if n == i64::MIN {
            9223372036854775808u64
        } else {
            (-n) as u64
        };
        r.append(u64_to_string(mag).as_str());
        r
    }
}

} // verus!
