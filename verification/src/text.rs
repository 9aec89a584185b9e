//! Character-level specifications and helpers for the string handling
//! that the rest of the library does (splitting, prefixes, suffixes,
//! decimal numbers).
use vstd::prelude::*;

verus! {

/// The index of the first occurrence of `c` in `s`.
pub open spec fn char_index_of(s: Seq<char>, c: char) -> Option<int>
    decreases s.len(),
{
    if s.len() == 0 {
        None
    } else if s[0] == c {
        Some(0)
    } else {
        match char_index_of(s.drop_first(), c) {
            Some(i) => Some(i + 1),
            None => None,
        }
    }
}

/// Whether `c` occurs in `s`.
pub open spec fn contains_char(s: Seq<char>, c: char) -> bool {
    exists|i: int| 0 <= i < s.len() && s[i] == c
}

/// `s` split at every occurrence of `c`, as `str::split` with a `char` pattern does.
pub open spec fn split_char(s: Seq<char>, c: char) -> Seq<Seq<char>>
    decreases s.len(),
{
    match char_index_of(s, c) {
        Some(i) => if 0 <= i < s.len() {
            seq![s.take(i)] + split_char(s.skip(i + 1), c)
        } else {
            seq![s]
        },
        None => seq![s],
    }
}

/// Whether `s` starts with `prefix`.
pub open spec fn has_prefix(s: Seq<char>, prefix: Seq<char>) -> bool {
    prefix.len() <= s.len() && s.take(prefix.len() as int) == prefix
}

/// `s` without `prefix`, as `str::strip_prefix` returns it.
pub open spec fn strip_prefix(s: Seq<char>, prefix: Seq<char>) -> Option<Seq<char>> {
    if has_prefix(s, prefix) {
        Some(s.skip(prefix.len() as int))
    } else {
        None
    }
}

/// Whether `pattern` occurs in `s` starting at `i`.
pub open spec fn occurs_at(s: Seq<char>, pattern: Seq<char>, i: int) -> bool {
    0 <= i && i + pattern.len() <= s.len() && s.subrange(i, i + pattern.len()) == pattern
}

/// Whether `pattern` occurs in `s` at all.
pub open spec fn occurs_in(s: Seq<char>, pattern: Seq<char>) -> bool {
    exists|i: int| occurs_at(s, pattern, i)
}

/// Whether `i` is the start of the last occurrence of `pattern` in `s`.
pub open spec fn is_last_occurrence(s: Seq<char>, pattern: Seq<char>, i: int) -> bool {
    occurs_at(s, pattern, i) && forall|j: int| i < j && occurs_at(s, pattern, j) ==> false
}

/// Whether `i` is the start of the first occurrence of `pattern` in `s`.
pub open spec fn is_first_occurrence(s: Seq<char>, pattern: Seq<char>, i: int) -> bool {
    occurs_at(s, pattern, i) && forall|j: int| 0 <= j < i && occurs_at(s, pattern, j) ==> false
}

/// `s` split around the last occurrence of `pattern`, as `str::rsplit_once` does.
pub open spec fn rsplit_once(s: Seq<char>, pattern: Seq<char>) -> Option<(Seq<char>, Seq<char>)> {
    if exists|i: int| is_last_occurrence(s, pattern, i) {
        let i = choose|i: int| is_last_occurrence(s, pattern, i);
        Some((s.take(i), s.skip(i + pattern.len())))
    } else {
        None
    }
}

/// `s` split around the first occurrence of `pattern`, as `str::split_once` does.
pub open spec fn split_once(s: Seq<char>, pattern: Seq<char>) -> Option<(Seq<char>, Seq<char>)> {
    if exists|i: int| is_first_occurrence(s, pattern, i) {
        let i = choose|i: int| is_first_occurrence(s, pattern, i);
        Some((s.take(i), s.skip(i + pattern.len())))
    } else {
        None
    }
}

pub open spec fn is_digit(c: char) -> bool {
    '0' <= c && c <= '9'
}

pub open spec fn digit_value(c: char) -> nat {
    (c as int - '0' as int) as nat
}

pub open spec fn all_digits(s: Seq<char>) -> bool {
    forall|i: int| 0 <= i < s.len() ==> is_digit(#[trigger] s[i])
}

/// The number that the decimal digits `s` denote.
pub open spec fn decimal_value(s: Seq<char>) -> nat
    decreases s.len(),
{
    if s.len() == 0 {
        0
    } else {
        decimal_value(s.drop_last()) * 10 + digit_value(s.last())
    }
}

/// What `u64::from_str` returns: an optional `+` followed by at least one decimal
/// digit, denoting a number that fits in 64 bits.
pub open spec fn parse_u64(s: Seq<char>) -> Option<u64> {
    let digits = if s.len() > 0 && s[0] == '+' {
        s.drop_first()
    } else {
        s
    };
    if digits.len() > 0 && all_digits(digits) && decimal_value(digits) <= u64::MAX {
        Some(decimal_value(digits) as u64)
    } else {
        None
    }
}

pub open spec fn digit_char(d: nat) -> char {
    ('0' as int + d) as char
}

/// The shortest decimal representation of `n`, as `Display` writes an integer.
pub open spec fn decimal_string(n: nat) -> Seq<char>
    decreases n,
{
    if n < 10 {
        seq![digit_char(n)]
    } else {
        decimal_string(n / 10) + seq![digit_char(n % 10)]
    }
}

pub proof fn lemma_char_index_of_found(s: Seq<char>, c: char, i: int)
    requires
        0 <= i < s.len(),
        s[i] == c,
        forall|j: int| 0 <= j < i ==> s[j] != c,
    ensures
        char_index_of(s, c) == Some(i),
    decreases s.len(),
{
    if i > 0 {
        lemma_char_index_of_found(s.drop_first(), c, i - 1);
    }
}

pub proof fn lemma_char_index_of_absent(s: Seq<char>, c: char)
    requires
        forall|j: int| 0 <= j < s.len() ==> s[j] != c,
    ensures
        char_index_of(s, c) is None,
    decreases s.len(),
{
    if s.len() > 0 {
        lemma_char_index_of_absent(s.drop_first(), c);
    }
}

pub proof fn lemma_char_index_of_sound(s: Seq<char>, c: char)
    ensures
        char_index_of(s, c) matches Some(i) ==> 0 <= i < s.len() && s[i] == c && forall|j: int|
            0 <= j < i ==> s[j] != c,
        char_index_of(s, c) is None ==> !contains_char(s, c),
    decreases s.len(),
{
    if s.len() > 0 {
        lemma_char_index_of_sound(s.drop_first(), c);
        if s[0] != c {
            if let Some(i) = char_index_of(s, c) {
                assert forall|j: int| 0 <= j < i implies s[j] != c by {
                    if j > 0 {
                        assert(s[j] == s.drop_first()[j - 1]);
                    }
                }
            }
            if char_index_of(s, c) is None {
                assert forall|j: int| 0 <= j < s.len() implies s[j] != c by {
                    if j > 0 {
                        assert(s[j] == s.drop_first()[j - 1]);
                    }
                }
            }
        }
    }
}

/// A string without `c` splits into itself alone.
pub proof fn lemma_split_char_absent(s: Seq<char>, c: char)
    requires
        !contains_char(s, c),
    ensures
        split_char(s, c) == seq![s],
{
    lemma_char_index_of_absent(s, c);
}

/// A string `a + [c] + b` splits into the split of `a` followed by the split of `b`.
pub proof fn lemma_split_char_join(a: Seq<char>, c: char, b: Seq<char>)
    ensures
        split_char(a + seq![c] + b, c) == split_char(a, c) + split_char(b, c),
    decreases a.len(),
{
    if contains_char(a, c) {
        lemma_char_index_of_sound(a, c);
        let i = char_index_of(a, c).unwrap();
        let first = a.take(i);
        let rest = a.skip(i + 1);
        assert forall|j: int| 0 <= j < first.len() implies first[j] != c by {
            assert(first[j] == a[j]);
        }
        assert(!contains_char(first, c));
        assert(a =~= first + seq![c] + rest);
        lemma_split_char_concat(first, c, rest);
        assert(a + seq![c] + b =~= first + seq![c] + (rest + seq![c] + b));
        lemma_split_char_concat(first, c, rest + seq![c] + b);
        lemma_split_char_join(rest, c, b);
    } else {
        lemma_split_char_absent(a, c);
        lemma_split_char_concat(a, c, b);
    }
}

/// A string `a + [c] + b` where `a` holds no `c` splits into `a` and the split of `b`.
pub proof fn lemma_split_char_concat(a: Seq<char>, c: char, b: Seq<char>)
    requires
        !contains_char(a, c),
    ensures
        split_char(a + seq![c] + b, c) == seq![a] + split_char(b, c),
{
    let s = a + seq![c] + b;
    assert forall|j: int| 0 <= j < a.len() implies s[j] != c by {
        assert(s[j] == a[j]);
    }
    lemma_char_index_of_found(s, c, a.len() as int);
    assert(s.take(a.len() as int) =~= a);
    assert(s.skip(a.len() as int + 1) =~= b);
}

pub proof fn lemma_decimal_value_prefix(s: Seq<char>, k: int)
    requires
        0 <= k <= s.len(),
    ensures
        decimal_value(s.take(k)) <= decimal_value(s),
    decreases s.len(),
{
    if k < s.len() {
        assert(s.drop_last().take(k) =~= s.take(k));
        lemma_decimal_value_prefix(s.drop_last(), k);
    } else {
        assert(s.take(k) =~= s);
    }
}

pub proof fn lemma_digit_char(d: nat)
    requires
        d < 10,
    ensures
        is_digit(digit_char(d)),
        digit_value(digit_char(d)) == d,
        digit_char(d) != '+',
        digit_char(d) != '.',
{
}

pub proof fn lemma_decimal_string_digits(n: nat)
    ensures
        decimal_string(n).len() > 0,
        all_digits(decimal_string(n)),
        decimal_value(decimal_string(n)) == n,
        decimal_string(n)[0] != '+',
        !contains_char(decimal_string(n), '.'),
    decreases n,
{
    if n >= 10 {
        lemma_decimal_string_digits(n / 10);
        lemma_digit_char(n % 10);
        let s = decimal_string(n);
        let p = decimal_string(n / 10);
        assert(s.drop_last() =~= p);
        assert(s.last() == digit_char(n % 10));
        assert(decimal_value(s) == decimal_value(p) * 10 + digit_value(digit_char(n % 10)));
        assert((n / 10) * 10 + n % 10 == n);
        assert(s[0] == p[0]);
        assert forall|i: int| 0 <= i < s.len() implies is_digit(#[trigger] s[i]) by {
            if i < p.len() {
                assert(s[i] == p[i]);
            }
        }
        assert forall|i: int| 0 <= i < s.len() implies s[i] != '.' by {
            if i < p.len() {
                assert(s[i] == p[i]);
            }
        }
    } else {
        lemma_digit_char(n);
        let s = decimal_string(n);
        assert(s.drop_last() =~= Seq::<char>::empty());
        assert(decimal_value(Seq::<char>::empty()) == 0);
        assert(decimal_value(s) == decimal_value(s.drop_last()) * 10 + digit_value(s.last()));
    }
}

/// A decimal string parses back to its number.
pub proof fn lemma_parse_decimal_string(n: u64)
    ensures
        parse_u64(decimal_string(n as nat)) == Some(n),
{
    lemma_decimal_string_digits(n as nat);
}

/// The first index at or after `from` at which `c` occurs in `s`.
pub fn find_char(s: &str, c: char, from: usize) -> (r: Option<usize>)
    requires
        from <= s@.len(),
    ensures
        match r {
            Some(i) => from <= i && char_index_of(s@.skip(from as int), c) == Some(i - from),
            None => char_index_of(s@.skip(from as int), c) is None,
        },
{
    let len: usize = s.unicode_len();
    let mut k: usize = from;
    while k < len
        invariant
            len == s@.len(),
            from <= k <= len,
            forall|j: int| from <= j < k ==> s@[j] != c,
        decreases len - k,
    {
        if s.get_char(k) == c {
            proof {
                let t = s@.skip(from as int);
                assert forall|j: int| 0 <= j < k - from implies t[j] != c by {
                    assert(t[j] == s@[from + j]);
                }
                lemma_char_index_of_found(t, c, k - from);
            }
            return Some(k);
        }
        k = k + 1;
    }
    proof {
        let t = s@.skip(from as int);
        assert forall|j: int| 0 <= j < t.len() implies t[j] != c by {
            assert(t[j] == s@[from + j]);
        }
        lemma_char_index_of_absent(t, c);
    }
    None
}

/// Whether `c` occurs in `s`.
pub fn has_char(s: &str, c: char) -> (r: bool)
    ensures
        r == contains_char(s@, c),
{
    let found = find_char(s, c, 0);
    proof {
        assert(s@.skip(0) =~= s@);
        lemma_char_index_of_sound(s@, c);
    }
    found.is_some()
}

/// The pieces of `s` between the occurrences of `c`.
pub fn split_at_char<'a>(s: &'a str, c: char) -> (r: Vec<&'a str>)
    ensures
        r@.len() == split_char(s@, c).len(),
        forall|i: int| 0 <= i < r@.len() ==> #[trigger] r@[i]@ == split_char(s@, c)[i],
{
    let len: usize = s.unicode_len();
    let mut pieces: Vec<&'a str> = Vec::new();
    let mut start: usize = 0;
    let ghost mut done: Seq<Seq<char>> = Seq::empty();
    assert(s@.skip(0) =~= s@);
    loop
        invariant
            len == s@.len(),
            start <= len,
            pieces@.len() == done.len(),
            forall|i: int| 0 <= i < pieces@.len() ==> #[trigger] pieces@[i]@ == done[i],
            done + split_char(s@.skip(start as int), c) == split_char(s@, c),
        decreases len - start,
    {
        let next = find_char(s, c, start);
        let ghost t = s@.skip(start as int);
        proof {
            lemma_char_index_of_sound(t, c);
        }
        match next {
            Some(i) => {
                let piece = s.substring_char(start, i);
                proof {
                    assert(piece@ =~= t.take(i - start));
                    assert(t.skip(i - start + 1) =~= s@.skip(i + 1));
                    assert(split_char(t, c) == seq![t.take(i - start)] + split_char(
                        t.skip(i - start + 1),
                        c,
                    ));
                    done = done.push(piece@);
                    assert(done + split_char(s@.skip(i + 1), c) =~= split_char(s@, c));
                }
                pieces.push(piece);
                start = i + 1;
            },
            None => {
                let piece = s.substring_char(start, len);
                proof {
                    assert(piece@ =~= t);
                    assert(split_char(t, c) == seq![t]);
                    done = done.push(piece@);
                    assert(done =~= split_char(s@, c));
                }
                pieces.push(piece);
                return pieces;
            },
        }
    }
}

/// What `u64::from_str` returns for `s`, with the error reduced to `None`.
pub fn parse_decimal_u64(s: &str) -> (r: Option<u64>)
    ensures
        r == parse_u64(s@),
{
    let len: usize = s.unicode_len();
    let mut k: usize = 0;
    if len > 0 && s.get_char(0) == '+' {
        k = 1;
    }
    let ghost digits = if s@.len() > 0 && s@[0] == '+' {
        s@.drop_first()
    } else {
        s@
    };
    assert(digits =~= s@.skip(k as int));
    if k >= len {
        return None;
    }
    let start: usize = k;
    let mut value: u64 = 0;
    while k < len
        invariant
            len == s@.len(),
            start <= k <= len,
            start < len,
            digits == s@.skip(start as int),
            digits == (if s@.len() > 0 && s@[0] == '+' {
                s@.drop_first()
            } else {
                s@
            }),
            all_digits(s@.subrange(start as int, k as int)),
            value as nat == decimal_value(s@.subrange(start as int, k as int)),
        decreases len - k,
    {
        let ch = s.get_char(k);
        if !('0' <= ch && ch <= '9') {
            proof {
                assert(digits[k - start] == ch);
                assert(!is_digit(digits[k - start]));
                assert(!all_digits(digits));
                assert(parse_u64(s@) is None);
            }
            return None;
        }
        let d: u64 = ((ch as u32) - ('0' as u32)) as u64;
        let ghost prefix = s@.subrange(start as int, k + 1);
        proof {
            assert(prefix.drop_last() =~= s@.subrange(start as int, k as int));
            assert(prefix.last() == ch);
            assert(decimal_value(prefix) == value * 10 + d);
        }
        if value > (u64::MAX - d) / 10 {
            proof {
                assert(value * 10 + d > u64::MAX) by (nonlinear_arith)
                    requires
                        value > (u64::MAX - d) / 10,
                        d <= 9,
                ;
                assert(digits.take(k + 1 - start) =~= prefix);
                lemma_decimal_value_prefix(digits, k + 1 - start);
                assert(decimal_value(digits) > u64::MAX);
                assert(parse_u64(s@) is None);
            }
            return None;
        }
        proof {
            assert(value * 10 + d <= u64::MAX) by (nonlinear_arith)
                requires
                    value <= (u64::MAX - d) / 10,
                    d <= 9,
            ;
            assert forall|i: int| 0 <= i < prefix.len() implies is_digit(#[trigger] prefix[i]) by {
                if i < prefix.len() - 1 {
                    assert(prefix[i] == s@.subrange(start as int, k as int)[i]);
                }
            }
        }
        value = value * 10 + d;
        k = k + 1;
    }
    proof {
        assert(s@.subrange(start as int, len as int) =~= digits);
    }
    Some(value)
}

fn digit_text(d: u64) -> (r: &'static str)
    requires
        d < 10,
    ensures
        r@ == seq![digit_char(d as nat)],
{
    if d == 0 {
        proof { reveal_strlit("0"); }
        "0"
    } else if d == 1 {
        proof { reveal_strlit("1"); }
        "1"
    } else if d == 2 {
        proof { reveal_strlit("2"); }
        "2"
    } else if d == 3 {
        proof { reveal_strlit("3"); }
        "3"
    } else if d == 4 {
        proof { reveal_strlit("4"); }
        "4"
    } else if d == 5 {
        proof { reveal_strlit("5"); }
        "5"
    } else if d == 6 {
        proof { reveal_strlit("6"); }
        "6"
    } else if d == 7 {
        proof { reveal_strlit("7"); }
        "7"
    } else if d == 8 {
        proof { reveal_strlit("8"); }
        "8"
    } else {
        proof { reveal_strlit("9"); }
        "9"
    }
}

/// The decimal representation of `n`, as `n.to_string()` gives it.
pub fn decimal_text(n: u64) -> (r: String)
    ensures
        r@ == decimal_string(n as nat),
    decreases n,
{
    if n < 10 {
        String::from_str(digit_text(n))
    } else {
        let mut text = decimal_text(n / 10);
        text.append(digit_text(n % 10));
        text
    }
}

/// `s` without `prefix`, if `s` starts with it.
pub fn strip_text_prefix<'a>(s: &'a str, prefix: &str) -> (r: Option<&'a str>)
    ensures
        match r {
            Some(rest) => strip_prefix(s@, prefix@) == Some(rest@),
            None => strip_prefix(s@, prefix@) is None,
        },
{
    let len: usize = s.unicode_len();
    let plen: usize = prefix.unicode_len();
    if plen > len {
        return None;
    }
    let mut k: usize = 0;
    while k < plen
        invariant
            len == s@.len(),
            plen == prefix@.len(),
            plen <= len,
            k <= plen,
            forall|j: int| 0 <= j < k ==> s@[j] == prefix@[j],
        decreases plen - k,
    {
        if s.get_char(k) != prefix.get_char(k) {
            proof {
                if has_prefix(s@, prefix@) {
                    assert(s@.take(plen as int)[k as int] == s@[k as int]);
                }
            }
            return None;
        }
        k = k + 1;
    }
    proof {
        assert(s@.take(plen as int) =~= prefix@);
    }
    Some(s.substring_char(plen, len))
}

/// Whether `pattern` occurs in `s` at `i`.
pub fn text_occurs_at(s: &str, pattern: &str, i: usize) -> (r: bool)
    ensures
        r == occurs_at(s@, pattern@, i as int),
{
    let len: usize = s.unicode_len();
    let plen: usize = pattern.unicode_len();
    if i > len || plen > len - i {
        return false;
    }
    let mut k: usize = 0;
    while k < plen
        invariant
            len == s@.len(),
            plen == pattern@.len(),
            i + plen <= len,
            k <= plen,
            forall|j: int| 0 <= j < k ==> s@[i + j] == pattern@[j],
        decreases plen - k,
    {
        if s.get_char(i + k) != pattern.get_char(k) {
            proof {
                if occurs_at(s@, pattern@, i as int) {
                    assert(s@.subrange(i as int, i + plen)[k as int] == s@[i + k]);
                }
            }
            return false;
        }
        k = k + 1;
    }
    proof {
        assert(s@.subrange(i as int, i + plen) =~= pattern@);
    }
    true
}

/// What `str::rsplit_once` returns for `s` and `pattern`.
pub fn text_rsplit_once<'a>(s: &'a str, pattern: &str) -> (r: Option<(&'a str, &'a str)>)
    ensures
        match r {
            Some((a, b)) => rsplit_once(s@, pattern@) == Some((a@, b@)),
            None => rsplit_once(s@, pattern@) is None,
        },
{
    let len: usize = s.unicode_len();
    let plen: usize = pattern.unicode_len();
    if plen > len {
        proof {
            assert forall|i: int| !is_last_occurrence(s@, pattern@, i) by {}
        }
        return None;
    }
    let mut k: usize = len - plen;
    loop
        invariant
            len == s@.len(),
            plen == pattern@.len(),
            plen <= len,
            k <= len - plen,
            forall|j: int| k < j && occurs_at(s@, pattern@, j) ==> false,
        ensures
            forall|j: int| occurs_at(s@, pattern@, j) ==> false,
        decreases k,
    {
        if text_occurs_at(s, pattern, k) {
            proof {
                assert(is_last_occurrence(s@, pattern@, k as int));
                let c = choose|i: int| is_last_occurrence(s@, pattern@, i);
                assert(c == k);
            }
            let before = s.substring_char(0, k);
            let after = s.substring_char(k + plen, len);
            proof {
                assert(before@ =~= s@.take(k as int));
                assert(after@ =~= s@.skip(k + plen));
            }
            return Some((before, after));
        }
        if k == 0 {
            break;
        }
        k = k - 1;
    }
    proof {
        assert forall|i: int| !is_last_occurrence(s@, pattern@, i) by {}
    }
    None
}

/// What `str::split_once` returns for `s` and `pattern`.
pub fn text_split_once<'a>(s: &'a str, pattern: &str) -> (r: Option<(&'a str, &'a str)>)
    ensures
        match r {
            Some((a, b)) => split_once(s@, pattern@) == Some((a@, b@)),
            None => split_once(s@, pattern@) is None,
        },
{
    let len: usize = s.unicode_len();
    let plen: usize = pattern.unicode_len();
    if plen > len {
        proof {
            assert forall|i: int| !is_first_occurrence(s@, pattern@, i) by {}
        }
        return None;
    }
    let mut k: usize = 0;
    loop
        invariant
            len == s@.len(),
            plen == pattern@.len(),
            plen <= len,
            k <= len - plen,
            forall|j: int| 0 <= j < k && occurs_at(s@, pattern@, j) ==> false,
        ensures
            forall|j: int| occurs_at(s@, pattern@, j) ==> false,
        decreases len - plen - k,
    {
        if text_occurs_at(s, pattern, k) {
            proof {
                assert(is_first_occurrence(s@, pattern@, k as int));
                let c = choose|i: int| is_first_occurrence(s@, pattern@, i);
                assert(c == k);
            }
            let before = s.substring_char(0, k);
            let after = s.substring_char(k + plen, len);
            proof {
                assert(before@ =~= s@.take(k as int));
                assert(after@ =~= s@.skip(k + plen));
            }
            return Some((before, after));
        }
        if k == len - plen {
            break;
        }
        k = k + 1;
    }
    proof {
        assert forall|i: int| !is_first_occurrence(s@, pattern@, i) by {}
    }
    None
}


/// Whether two texts are equal.
pub fn text_equals(a: &str, b: &str) -> (r: bool)
    ensures
        r == (a@ == b@),
{
    let len: usize = a.unicode_len();
    if len != b.unicode_len() {
        return false;
    }
    let mut k: usize = 0;
    while k < len
        invariant
            len == a@.len(),
            len == b@.len(),
            k <= len,
            forall|j: int| 0 <= j < k ==> a@[j] == b@[j],
        decreases len - k,
    {
        if a.get_char(k) != b.get_char(k) {
            return false;
        }
        k = k + 1;
    }
    assert(a@ =~= b@);
    true
}

pub open spec fn hex_digit_char(d: nat) -> char {
    if d < 10 {
        digit_char(d)
    } else {
        ('a' as int + d - 10) as char
    }
}

/// The shortest lower-case hexadecimal representation of `n`, as the `{:x}` format
/// writes an integer.
pub open spec fn hex_string(n: nat) -> Seq<char>
    decreases n,
{
    if n < 16 {
        seq![hex_digit_char(n)]
    } else {
        hex_string(n / 16) + seq![hex_digit_char(n % 16)]
    }
}

pub(crate) fn hex_digit_text(d: u64) -> (r: &'static str)
    requires
        d < 16,
    ensures
        r@ == seq![hex_digit_char(d as nat)],
{
    if d < 10 {
        digit_text(d)
    } else if d == 10 {
        proof { reveal_strlit("a"); }
        "a"
    } else if d == 11 {
        proof { reveal_strlit("b"); }
        "b"
    } else if d == 12 {
        proof { reveal_strlit("c"); }
        "c"
    } else if d == 13 {
        proof { reveal_strlit("d"); }
        "d"
    } else if d == 14 {
        proof { reveal_strlit("e"); }
        "e"
    } else {
        proof { reveal_strlit("f"); }
        "f"
    }
}

/// The lower-case hexadecimal representation of `n`, as `format!("{n:x}")` gives it.
pub fn hex_text(n: u64) -> (r: String)
    ensures
        r@ == hex_string(n as nat),
    decreases n,
{
    if n < 16 {
        String::from_str(hex_digit_text(n))
    } else {
        let mut text = hex_text(n / 16);
        text.append(hex_digit_text(n % 16));
        text
    }
}

} // verus!
