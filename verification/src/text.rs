use vstd::prelude::*;
use vstd::string::StrSliceExecFns;

verus! {

/// Collects the characters of a string slice into a vector, so that the
/// parsing code can index them directly.
pub fn str_chars_vec(s: &str) -> (v: Vec<char>)
    ensures
        v@ == s@,
{
    let n = s.unicode_len();
    let mut v: Vec<char> = Vec::new();
    let mut i: usize = 0;
    while i < n
        invariant
            n == s@.len(),
            i <= n,
            v@ == s@.subrange(0, i as int),
        decreases n - i,
    {
        v.push(s.get_char(i));
        i = i + 1;
        proof {
            assert(v@ =~= s@.subrange(0, i as int));
        }
    }
    proof {
        assert(v@ =~= s@);
    }
    v
}

/// Relies on `String: FromIterator<char>`: collecting an iterator of
/// characters builds the string of exactly those characters in order.
#[verifier::external_body]
pub fn chars_to_string(v: &Vec<char>) -> (s: String)
    ensures
        s@ == v@,
{
    v.iter().collect()
}

/// The decimal digit character for a value below ten.
pub open spec fn spec_digit_char(d: int) -> char {
    if d == 0 {
        '0'
    } else if d == 1 {
        '1'
    } else if d == 2 {
        '2'
    } else if d == 3 {
        '3'
    } else if d == 4 {
        '4'
    } else if d == 5 {
        '5'
    } else if d == 6 {
        '6'
    } else if d == 7 {
        '7'
    } else if d == 8 {
        '8'
    } else {
        '9'
    }
}

/// The decimal rendering of a natural number, most significant digit first.
pub open spec fn spec_dec(n: int) -> Seq<char>
    decreases n,
{
    if n < 10 {
        seq![spec_digit_char(n)]
    } else {
        spec_dec(n / 10) + seq![spec_digit_char(n % 10)]
    }
}

fn digit_char(d: u64) -> (c: char)
    requires
        d < 10,
    ensures
        c == spec_digit_char(d as int),
{
    if d == 0 {
        '0'
    } else if d == 1 {
        '1'
    } else if d == 2 {
        '2'
    } else if d == 3 {
        '3'
    } else if d == 4 {
        '4'
    } else if d == 5 {
        '5'
    } else if d == 6 {
        '6'
    } else if d == 7 {
        '7'
    } else if d == 8 {
        '8'
    } else {
        '9'
    }
}

/// The decimal digits of `n`, most significant first.
pub fn u64_dec_chars(n: u64) -> (v: Vec<char>)
    ensures
        v@ == spec_dec(n as int),
    decreases n,
{
    if n < 10 {
        let mut v: Vec<char> = Vec::new();
        v.push(digit_char(n));
        proof {
            assert(v@ =~= spec_dec(n as int));
        }
        v
    } else {
        let mut v = u64_dec_chars(n / 10);
        v.push(digit_char(n % 10));
        proof {
            assert(v@ =~= spec_dec(n as int));
        }
        v
    }
}

/// Appends the decimal rendering of `n` to a string.
pub fn append_dec(s: &mut String, n: u64)
    ensures
        final(s)@ == old(s)@ + spec_dec(n as int),
{
    let digits = u64_dec_chars(n);
    let ghost start = s@;
    let mut i: usize = 0;
    while i < digits.len()
        invariant
            i <= digits.len(),
            digits@ == spec_dec(n as int),
            s@ == start + digits@.subrange(0, i as int),
        decreases digits.len() - i,
    {
        let d = digits[i];
        proof {
            reveal_strlit("0");
            reveal_strlit("1");
            reveal_strlit("2");
            reveal_strlit("3");
            reveal_strlit("4");
            reveal_strlit("5");
            reveal_strlit("6");
            reveal_strlit("7");
            reveal_strlit("8");
            reveal_strlit("9");
        }
        if d == '0' {
            s.append("0");
        } else if d == '1' {
            s.append("1");
        } else if d == '2' {
            s.append("2");
        } else if d == '3' {
            s.append("3");
        } else if d == '4' {
            s.append("4");
        } else if d == '5' {
            s.append("5");
        } else if d == '6' {
            s.append("6");
        } else if d == '7' {
            s.append("7");
        } else if d == '8' {
            s.append("8");
        } else if d == '9' {
            s.append("9");
        } else {
            // Decimal digits are the only characters `u64_dec_chars` emits.
            proof {
                lemma_dec_digits_only(n as int, i as int);
                assert(false);
            }
        }
        i = i + 1;
        proof {
            assert(s@ =~= start + digits@.subrange(0, i as int));
        }
    }
    proof {
        assert(s@ =~= old(s)@ + spec_dec(n as int));
    }
}

/// Every character of a decimal rendering is one of the ten digits.
pub proof fn lemma_dec_digits_only(n: int, i: int)
    requires
        n >= 0,
        0 <= i < spec_dec(n).len(),
    ensures
        spec_dec(n)[i] == '0' || spec_dec(n)[i] == '1' || spec_dec(n)[i] == '2' || spec_dec(n)[i]
            == '3' || spec_dec(n)[i] == '4' || spec_dec(n)[i] == '5' || spec_dec(n)[i] == '6'
            || spec_dec(n)[i] == '7' || spec_dec(n)[i] == '8' || spec_dec(n)[i] == '9',
    decreases n,
{
    if n < 10 {
    } else {
        if i < spec_dec(n / 10).len() {
            lemma_dec_digits_only(n / 10, i);
        }
    }
}

/// Whether `c` occurs in `s`.
pub open spec fn has_char(s: Seq<char>, c: char) -> bool {
    exists|i: int| 0 <= i < s.len() && s[i] == c
}

/// The least index of `c` in `s` (meaningful only when `has_char`).
pub open spec fn first_idx(s: Seq<char>, c: char) -> int {
    choose|i: int| 0 <= i < s.len() && s[i] == c && forall|j: int| 0 <= j < i ==> s[j] != c
}

/// The greatest index of `c` in `s` (meaningful only when `has_char`).
pub open spec fn last_idx(s: Seq<char>, c: char) -> int {
    choose|i: int|
        0 <= i < s.len() && s[i] == c && forall|j: int| i < j < s.len() ==> s[j] != c
}

/// When `c` occurs, `first_idx` is its unique first occurrence.
pub proof fn lemma_first_idx(s: Seq<char>, c: char)
    requires
        has_char(s, c),
    ensures
        0 <= first_idx(s, c) < s.len(),
        s[first_idx(s, c)] == c,
        forall|j: int| 0 <= j < first_idx(s, c) ==> s[j] != c,
{
    let w = choose|i: int| 0 <= i < s.len() && s[i] == c;
    lemma_exists_first(s, c, w);
}

proof fn lemma_exists_first(s: Seq<char>, c: char, w: int)
    requires
        0 <= w < s.len(),
        s[w] == c,
    ensures
        0 <= first_idx(s, c) < s.len(),
        s[first_idx(s, c)] == c,
        forall|j: int| 0 <= j < first_idx(s, c) ==> s[j] != c,
    decreases w,
{
    if exists|j: int| 0 <= j < w && s[j] == c {
        let w2 = choose|j: int| 0 <= j < w && s[j] == c;
        lemma_exists_first(s, c, w2);
    } else {
        assert(0 <= w < s.len() && s[w] == c && forall|j: int| 0 <= j < w ==> s[j] != c);
        let f = first_idx(s, c);
        assert(s[f] == c && forall|j: int| 0 <= j < f ==> s[j] != c);
        if f < w {
            assert(s[f] != c);
        }
        if w < f {
            assert(s[w] != c);
        }
    }
}

/// When `c` occurs, `last_idx` is its unique last occurrence.
pub proof fn lemma_last_idx(s: Seq<char>, c: char)
    requires
        has_char(s, c),
    ensures
        0 <= last_idx(s, c) < s.len(),
        s[last_idx(s, c)] == c,
        forall|j: int| last_idx(s, c) < j < s.len() ==> s[j] != c,
{
    let w = choose|i: int| 0 <= i < s.len() && s[i] == c;
    lemma_exists_last(s, c, w);
}

proof fn lemma_exists_last(s: Seq<char>, c: char, w: int)
    requires
        0 <= w < s.len(),
        s[w] == c,
    ensures
        0 <= last_idx(s, c) < s.len(),
        s[last_idx(s, c)] == c,
        forall|j: int| last_idx(s, c) < j < s.len() ==> s[j] != c,
    decreases s.len() - w,
{
    if exists|j: int| w < j < s.len() && s[j] == c {
        let w2 = choose|j: int| w < j < s.len() && s[j] == c;
        lemma_exists_last(s, c, w2);
    } else {
        assert(0 <= w < s.len() && s[w] == c && forall|j: int| w < j < s.len() ==> s[j] != c);
        let f = last_idx(s, c);
        assert(s[f] == c && forall|j: int| f < j < s.len() ==> s[j] != c);
        if f < w {
            assert(s[w] != c);
        }
        if w < f {
            assert(s[f] != c);
        }
    }
}

/// Finds the least index of `c` in `v`, if any.
pub fn find_first(v: &Vec<char>, c: char) -> (r: Option<usize>)
    ensures
        match r {
            Some(i) => has_char(v@, c) && i == first_idx(v@, c),
            None => !has_char(v@, c),
        },
{
    let mut i: usize = 0;
    while i < v.len()
        invariant
            i <= v.len(),
            forall|j: int| 0 <= j < i ==> v@[j] != c,
        decreases v.len() - i,
    {
        if v[i] == c {
            proof {
                lemma_first_idx(v@, c);
                let f = first_idx(v@, c);
                if f < i {
                    assert(v@[f] != c);
                }
                if (i as int) < f {
                    assert(v@[i as int] != c);
                }
            }
            return Some(i);
        }
        i = i + 1;
    }
    None
}

/// Finds the greatest index of `c` in `v`, if any.
pub fn find_last(v: &Vec<char>, c: char) -> (r: Option<usize>)
    ensures
        match r {
            Some(i) => has_char(v@, c) && i == last_idx(v@, c),
            None => !has_char(v@, c),
        },
{
    let mut i: usize = v.len();
    while i > 0
        invariant
            i <= v.len(),
            forall|j: int| i <= j < v@.len() ==> v@[j] != c,
        decreases i,
    {
        i = i - 1;
        if v[i] == c {
            proof {
                lemma_last_idx(v@, c);
                let f = last_idx(v@, c);
                if f < i {
                    assert(v@[i as int] != c);
                }
                if (i as int) < f {
                    assert(v@[f] != c);
                }
            }
            return Some(i);
        }
    }
    None
}

} // verus!
