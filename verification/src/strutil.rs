//! Verified helpers for working with strings and byte slices: equality,
//! lexicographic order, searching, splitting, trimming, and decimal
//! conversions. Every parser and serializer in this crate is built on the
//! functions of this module.
use vstd::prelude::*;
use vstd::string::*;

verus! {

/// Compares two byte slices for equality of their contents.
pub fn bytes_eq(a: &[u8], b: &[u8]) -> (r: bool)
    ensures
        r == (a@ == b@),
{
    if a.len() != b.len() {
        assert(a@ != b@);
        return false;
    }
    let n = a.len();
    let mut i: usize = 0;
    while i < n
        invariant
            i <= n,
            n == a@.len(),
            n == b@.len(),
            forall|k: int| 0 <= k < i ==> a@[k] == b@[k],
        decreases n - i,
    {
        if a[i] != b[i] {
            assert(a@ != b@);
            return false;
        }
        i = i + 1;
    }
    assert(a@ =~= b@);
    true
}

/// Compares two string slices for equality of their character sequences.
pub fn str_eq(a: &str, b: &str) -> (r: bool)
    ensures
        r == (a@ == b@),
{
    let r = bytes_eq(a.as_bytes(), b.as_bytes());
    proof {
        vstd::utf8::encode_utf8_decode_utf8(a@);
        vstd::utf8::encode_utf8_decode_utf8(b@);
    }
    r
}

/// Strict lexicographic order on byte sequences.
pub open spec fn lex_lt(a: Seq<u8>, b: Seq<u8>) -> bool
    decreases a.len(),
{
    if b.len() == 0 {
        false
    } else if a.len() == 0 {
        true
    } else if a[0] < b[0] {
        true
    } else if a[0] > b[0] {
        false
    } else {
        lex_lt(a.drop_first(), b.drop_first())
    }
}

/// Strict lexicographic order on the bytes of two strings, the order in which
/// response headers and cookies are emitted.
pub open spec fn str_lex_lt(a: &str, b: &str) -> bool {
    lex_lt(a.spec_bytes(), b.spec_bytes())
}

pub proof fn lemma_lex_lt_connected(a: Seq<u8>, b: Seq<u8>)
    ensures
        !lex_lt(a, b) && !lex_lt(b, a) ==> a == b,
        !(lex_lt(a, b) && lex_lt(b, a)),
    decreases a.len(),
{
    if a.len() > 0 && b.len() > 0 && a[0] == b[0] {
        lemma_lex_lt_connected(a.drop_first(), b.drop_first());
        if !lex_lt(a, b) && !lex_lt(b, a) {
            assert(a =~= seq![a[0]] + a.drop_first());
            assert(b =~= seq![b[0]] + b.drop_first());
        }
    }
}

pub proof fn lemma_lex_lt_trans(a: Seq<u8>, b: Seq<u8>, c: Seq<u8>)
    requires
        lex_lt(a, b),
        lex_lt(b, c),
    ensures
        lex_lt(a, c),
    decreases a.len(),
{
    if a.len() > 0 && b.len() > 0 && c.len() > 0 && a[0] == b[0] && b[0] == c[0] {
        lemma_lex_lt_trans(a.drop_first(), b.drop_first(), c.drop_first());
    }
}

/// Decides the lexicographic byte order of two strings.
pub fn str_lt(a: &str, b: &str) -> (r: bool)
    ensures
        r == str_lex_lt(a, b),
{
    let ab = a.as_bytes();
    let bb = b.as_bytes();
    let mut i: usize = 0;
    proof {
        assert(ab@.skip(0) =~= ab@);
        assert(bb@.skip(0) =~= bb@);
    }
    loop
        invariant
            i <= ab@.len(),
            i <= bb@.len(),
            ab@ == a.spec_bytes(),
            bb@ == b.spec_bytes(),
            lex_lt(a.spec_bytes(), b.spec_bytes()) == lex_lt(ab@.skip(i as int), bb@.skip(i as int)),
        decreases ab@.len() - i,
    {
        if i == bb.len() {
            return false;
        }
        if i == ab.len() {
            return true;
        }
        let x = ab[i];
        let y = bb[i];
        if x != y {
            return x < y;
        }
        proof {
            assert(ab@.skip(i as int).drop_first() =~= ab@.skip(i + 1));
            assert(bb@.skip(i as int).drop_first() =~= bb@.skip(i + 1));
        }
        i = i + 1;
    }
}

/// The characters that `str::trim` removes on ASCII text.
pub open spec fn is_space_char(c: char) -> bool {
    c == ' ' || c == '\t' || c == '\n' || c == '\r' || c == '\u{b}' || c == '\u{c}'
}

/// Whether `c` is removed when trimming: whitespace when `ws` is set,
/// otherwise the single character `m`.
pub open spec fn trims(c: char, ws: bool, m: char) -> bool {
    if ws {
        is_space_char(c)
    } else {
        c == m
    }
}

pub open spec fn trim_start_rec(s: Seq<char>, ws: bool, m: char) -> Seq<char>
    decreases s.len(),
{
    if s.len() > 0 && trims(s[0], ws, m) {
        trim_start_rec(s.drop_first(), ws, m)
    } else {
        s
    }
}

pub open spec fn trim_end_rec(s: Seq<char>, ws: bool, m: char) -> Seq<char>
    decreases s.len(),
{
    if s.len() > 0 && trims(s.last(), ws, m) {
        trim_end_rec(s.drop_last(), ws, m)
    } else {
        s
    }
}

/// What `str::trim` returns: the sequence with leading and trailing
/// whitespace removed.
pub open spec fn spec_trim_ws(s: Seq<char>) -> Seq<char> {
    trim_end_rec(trim_start_rec(s, true, ' '), true, ' ')
}

/// What `str::trim_matches(m)` returns.
pub open spec fn spec_trim_char(s: Seq<char>, m: char) -> Seq<char> {
    trim_end_rec(trim_start_rec(s, false, m), false, m)
}

pub proof fn lemma_trim_none(s: Seq<char>, ws: bool, m: char)
    requires
        forall|k: int| 0 <= k < s.len() ==> !trims(s[k], ws, m),
    ensures
        trim_start_rec(s, ws, m) == s,
        trim_end_rec(s, ws, m) == s,
{
}

fn trims_exec(c: char, ws: bool, m: char) -> (r: bool)
    ensures
        r == trims(c, ws, m),
{
    if ws {
        c == ' ' || c == '\t' || c == '\n' || c == '\r' || c == '\u{b}' || c == '\u{c}'
    } else {
        c == m
    }
}

fn trim_by<'a>(s: &'a str, ws: bool, m: char) -> (r: &'a str)
    ensures
        r@ == trim_end_rec(trim_start_rec(s@, ws, m), ws, m),
{
    let n = s.unicode_len();
    let mut i: usize = 0;
    proof {
        assert(s@.skip(0) =~= s@);
    }
    while i < n && trims_exec(s.get_char(i), ws, m)
        invariant
            i <= n,
            n == s@.len(),
            trim_start_rec(s@, ws, m) == trim_start_rec(s@.skip(i as int), ws, m),
        decreases n - i,
    {
        proof {
            assert(s@.skip(i as int).drop_first() =~= s@.skip(i + 1));
        }
        i = i + 1;
    }
    proof {
        if i < n {
            assert(trim_start_rec(s@.skip(i as int), ws, m) == s@.skip(i as int));
        } else {
            assert(s@.skip(i as int) =~= Seq::<char>::empty());
        }
    }
    let mut j: usize = n;
    while j > i && trims_exec(s.get_char(j - 1), ws, m)
        invariant
            i <= j <= n,
            n == s@.len(),
            trim_start_rec(s@, ws, m) == s@.skip(i as int),
            trim_end_rec(s@.skip(i as int), ws, m) == trim_end_rec(s@.subrange(i as int, j as int), ws, m),
        decreases j,
    {
        proof {
            assert(s@.subrange(i as int, j as int).last() == s@[j - 1]);
            assert(s@.subrange(i as int, j as int).drop_last() =~= s@.subrange(i as int, j - 1));
        }
        j = j - 1;
    }
    proof {
        let t = s@.subrange(i as int, j as int);
        if j > i {
            assert(t.last() == s@[j - 1]);
            assert(trim_end_rec(t, ws, m) == t);
        } else {
            assert(t =~= Seq::<char>::empty());
        }
    }
    s.substring_char(i, j)
}

/// Removes leading and trailing whitespace, as `str::trim` does.
pub fn trim<'a>(s: &'a str) -> (r: &'a str)
    ensures
        r@ == spec_trim_ws(s@),
{
    trim_by(s, true, ' ')
}

/// Removes leading and trailing occurrences of `m`, as `str::trim_matches`
/// does.
pub fn trim_char<'a>(s: &'a str, m: char) -> (r: &'a str)
    ensures
        r@ == spec_trim_char(s@, m),
{
    trim_by(s, false, m)
}

/// The position of the first occurrence of `c` in `s` at or after `i`.
pub open spec fn first_idx_from(s: Seq<char>, c: char, i: int) -> Option<int>
    decreases s.len() - i,
{
    if i < 0 || i >= s.len() {
        None
    } else if s[i] == c {
        Some(i)
    } else {
        first_idx_from(s, c, i + 1)
    }
}

/// The position of the first occurrence of `c` in `s`.
pub open spec fn spec_first_idx(s: Seq<char>, c: char) -> Option<int> {
    first_idx_from(s, c, 0)
}

pub proof fn lemma_first_idx_from_props(s: Seq<char>, c: char, i: int)
    requires
        0 <= i <= s.len(),
    ensures
        match first_idx_from(s, c, i) {
            Option::None => forall|k: int| i <= k < s.len() ==> s[k] != c,
            Option::Some(j) => i <= j < s.len() && s[j] == c && (forall|k: int|
                i <= k < j ==> s[k] != c),
        },
    decreases s.len() - i,
{
    if i < s.len() && s[i] != c {
        lemma_first_idx_from_props(s, c, i + 1);
    }
}

/// The first occurrence of `c` in `s`, fully characterized.
pub proof fn lemma_first_idx_props(s: Seq<char>, c: char)
    ensures
        match spec_first_idx(s, c) {
            Option::None => forall|k: int| 0 <= k < s.len() ==> s[k] != c,
            Option::Some(j) => 0 <= j < s.len() && s[j] == c && (forall|k: int|
                0 <= k < j ==> s[k] != c),
        },
{
    lemma_first_idx_from_props(s, c, 0);
}

/// The first occurrence is uniquely determined, so a witness pins it down.
pub proof fn lemma_first_idx_is(s: Seq<char>, c: char, j: int)
    requires
        0 <= j < s.len(),
        s[j] == c,
        forall|k: int| 0 <= k < j ==> s[k] != c,
    ensures
        spec_first_idx(s, c) == Some(j),
{
    lemma_first_idx_props(s, c);
    match spec_first_idx(s, c) {
        Option::None => {
            assert(s[j] != c);
        },
        Option::Some(i) => {
            if i < j {
                assert(s[i] != c);
            }
            if j < i {
                assert(s[j] != c);
            }
        },
    }
}

/// Finds the first occurrence of `c` in `s`.
pub fn find_char(s: &str, c: char) -> (r: Option<usize>)
    ensures
        match r {
            Option::None => spec_first_idx(s@, c) is None,
            Option::Some(j) => spec_first_idx(s@, c) == Some(j as int),
        },
{
    let n = s.unicode_len();
    let mut i: usize = 0;
    while i < n
        invariant
            i <= n,
            n == s@.len(),
            spec_first_idx(s@, c) == first_idx_from(s@, c, i as int),
        decreases n - i,
    {
        if s.get_char(i) == c {
            return Some(i);
        }
        i = i + 1;
    }
    None
}

/// What splitting at the first occurrence of `c` yields: the text before and
/// the text after that occurrence.
pub open spec fn spec_split_once(s: Seq<char>, c: char) -> Option<(Seq<char>, Seq<char>)> {
    match spec_first_idx(s, c) {
        Option::None => None,
        Option::Some(j) => Some((s.take(j), s.skip(j + 1))),
    }
}

/// Splits at the first occurrence of `c`, as `str::split_once` does.
pub fn split_once<'a>(s: &'a str, c: char) -> (r: Option<(&'a str, &'a str)>)
    ensures
        match r {
            Option::None => spec_split_once(s@, c) is None,
            Option::Some(p) => spec_split_once(s@, c) matches Some(q) && p.0@ == q.0 && p.1@
                == q.1,
        },
{
    proof {
        lemma_first_idx_props(s@, c);
    }
    match find_char(s, c) {
        Option::Some(j) => {
            let n = s.unicode_len();
            let left = s.substring_char(0, j);
            let right = s.substring_char(j + 1, n);
            proof {
                assert(left@ =~= s@.take(j as int));
                assert(right@ =~= s@.skip(j + 1));
            }
            Some((left, right))
        },
        Option::None => None,
    }
}

/// The pieces of `s` between occurrences of `sep`, scanning from position
/// `cur` with the current piece starting at `start`.
pub open spec fn split_rec(s: Seq<char>, sep: char, start: int, cur: int) -> Seq<Seq<char>>
    decreases s.len() - cur,
{
    if cur < 0 || cur >= s.len() {
        seq![s.subrange(start, s.len() as int)]
    } else if s[cur] == sep {
        seq![s.subrange(start, cur)] + split_rec(s, sep, cur + 1, cur + 1)
    } else {
        split_rec(s, sep, start, cur + 1)
    }
}

/// What `str::split(sep)` yields: the pieces between occurrences of `sep`.
/// Splitting an empty string yields one empty piece.
pub open spec fn spec_split(s: Seq<char>, sep: char) -> Seq<Seq<char>> {
    split_rec(s, sep, 0, 0)
}

/// A string without the separator splits into the one whole piece.
pub proof fn lemma_split_no_sep(s: Seq<char>, sep: char)
    requires
        forall|k: int| 0 <= k < s.len() ==> s[k] != sep,
    ensures
        spec_split(s, sep) == seq![s],
{
    lemma_split_rec_no_sep(s, sep, 0);
    assert(s.subrange(0, s.len() as int) =~= s);
}

proof fn lemma_split_rec_no_sep(s: Seq<char>, sep: char, cur: int)
    requires
        0 <= cur <= s.len(),
        forall|k: int| cur <= k < s.len() ==> s[k] != sep,
    ensures
        forall|start: int| split_rec(s, sep, start, cur) == seq![s.subrange(start, s.len() as int)],
    decreases s.len() - cur,
{
    if cur < s.len() {
        lemma_split_rec_no_sep(s, sep, cur + 1);
        assert forall|start: int| split_rec(s, sep, start, cur) == seq![
            s.subrange(start, s.len() as int),
        ] by {
            assert(split_rec(s, sep, start, cur + 1) == seq![s.subrange(start, s.len() as int)]);
        }
    }
}

/// Splits `s` on every occurrence of `sep`, as `str::split` does.
pub fn split_str(s: &str, sep: char) -> (r: Vec<String>)
    ensures
        r@.map_values(|x: String| x@) == spec_split(s@, sep),
        r@.len() >= 1,
{
    let n = s.unicode_len();
    let mut parts: Vec<String> = Vec::new();
    let mut start: usize = 0;
    let mut i: usize = 0;
    while i < n
        invariant
            start <= i <= n,
            n == s@.len(),
            spec_split(s@, sep) == parts@.map_values(|x: String| x@) + split_rec(
                s@,
                sep,
                start as int,
                i as int,
            ),
        decreases n - i,
    {
        if s.get_char(i) == sep {
            let piece = s.substring_char(start, i);
            let ghost old_parts = parts@;
            parts.push(piece.to_owned());
            proof {
                assert(piece@ =~= s@.subrange(start as int, i as int));
                assert(parts@.map_values(|x: String| x@) =~= old_parts.map_values(
                    |x: String| x@,
                ).push(piece@));
                assert(old_parts.map_values(|x: String| x@) + (seq![
                    s@.subrange(start as int, i as int),
                ] + split_rec(s@, sep, i + 1, i + 1)) =~= parts@.map_values(|x: String| x@)
                    + split_rec(s@, sep, i + 1, i + 1));
            }
            start = i + 1;
        }
        i = i + 1;
    }
    let piece = s.substring_char(start, n);
    let ghost old_parts = parts@;
    parts.push(piece.to_owned());
    proof {
        assert(piece@ =~= s@.subrange(start as int, n as int));
        assert(parts@.map_values(|x: String| x@) =~= old_parts.map_values(|x: String| x@).push(
            piece@,
        ));
        assert(old_parts.map_values(|x: String| x@) + seq![s@.subrange(start as int, n as int)]
            =~= parts@.map_values(|x: String| x@));
    }
    parts
}

/// Whether `p` is a prefix of `s`.
pub open spec fn spec_starts_with(s: Seq<char>, p: Seq<char>) -> bool {
    s.len() >= p.len() && s.take(p.len() as int) == p
}

/// Decides whether `s` starts with `p`, as `str::starts_with` does.
pub fn starts_with(s: &str, p: &str) -> (r: bool)
    ensures
        r == spec_starts_with(s@, p@),
{
    let n = s.unicode_len();
    let m = p.unicode_len();
    if m > n {
        assert(!spec_starts_with(s@, p@));
        return false;
    }
    let mut i: usize = 0;
    while i < m
        invariant
            i <= m <= n,
            n == s@.len(),
            m == p@.len(),
            forall|k: int| 0 <= k < i ==> s@[k] == p@[k],
        decreases m - i,
    {
        if s.get_char(i) != p.get_char(i) {
            assert(s@.take(m as int)[i as int] != p@[i as int]);
            return false;
        }
        i = i + 1;
    }
    assert(s@.take(m as int) =~= p@);
    true
}

/// Whether `s` contains the character `c`.
pub open spec fn spec_contains_char(s: Seq<char>, c: char) -> bool {
    exists|k: int| 0 <= k < s.len() && s[k] == c
}

/// Decides whether `s` contains the character `c`.
pub fn contains_char(s: &str, c: char) -> (r: bool)
    ensures
        r == spec_contains_char(s@, c),
{
    proof {
        lemma_first_idx_props(s@, c);
    }
    match find_char(s, c) {
        Option::Some(_) => true,
        Option::None => false,
    }
}

/// Whether `c` is a decimal digit.
pub open spec fn is_digit(c: char) -> bool {
    '0' <= c && c <= '9'
}

/// The numeric value of a decimal digit.
pub open spec fn digit_val(c: char) -> nat {
    (c as u32 - '0' as u32) as nat
}

/// Whether `s` is one or more decimal digits.
pub open spec fn all_digits(s: Seq<char>) -> bool {
    s.len() > 0 && forall|k: int| 0 <= k < s.len() ==> is_digit(#[trigger] s[k])
}

/// The value of a sequence of decimal digits.
pub open spec fn dec_val(s: Seq<char>) -> nat
    decreases s.len(),
{
    if s.len() == 0 {
        0
    } else {
        dec_val(s.drop_last()) * 10 + digit_val(s.last())
    }
}

/// The grammar that `str::parse` accepts for unsigned integers: an optional
/// leading `+`, then one or more digits.
pub open spec fn unsigned_grammar(s: Seq<char>) -> bool {
    if s.len() > 0 && s[0] == '+' {
        all_digits(s.drop_first())
    } else {
        all_digits(s)
    }
}

/// The digits of `s` with a leading `+` removed.
pub open spec fn unsigned_digits(s: Seq<char>) -> Seq<char> {
    if s.len() > 0 && s[0] == '+' {
        s.drop_first()
    } else {
        s
    }
}

/// The grammar that `str::parse` accepts for signed integers: an optional
/// leading `+` or `-`, then one or more digits.
pub open spec fn signed_grammar(s: Seq<char>) -> bool {
    if s.len() > 0 && (s[0] == '+' || s[0] == '-') {
        all_digits(s.drop_first())
    } else {
        all_digits(s)
    }
}

/// The mathematical value that a signed decimal string denotes.
pub open spec fn signed_val(s: Seq<char>) -> int {
    if s.len() > 0 && s[0] == '-' {
        -(dec_val(s.drop_first()) as int)
    } else {
        dec_val(unsigned_digits(s)) as int
    }
}

proof fn lemma_dec_val_take_step(s: Seq<char>, i: int)
    requires
        0 <= i < s.len(),
    ensures
        dec_val(s.take(i + 1)) == dec_val(s.take(i)) * 10 + digit_val(s[i]),
{
    assert(s.take(i + 1).drop_last() =~= s.take(i));
    assert(s.take(i + 1).last() == s[i]);
}

proof fn lemma_dec_val_grows(s: Seq<char>, i: int)
    requires
        0 <= i <= s.len(),
    ensures
        dec_val(s) >= dec_val(s.take(i)),
    decreases s.len() - i,
{
    if i < s.len() {
        lemma_dec_val_take_step(s, i);
        lemma_dec_val_grows(s, i + 1);
        assert(dec_val(s.take(i + 1)) >= dec_val(s.take(i))) by (nonlinear_arith)
            requires
                dec_val(s.take(i + 1)) == dec_val(s.take(i)) * 10 + digit_val(s[i]),
        ;
    } else {
        assert(s.take(i) =~= s);
    }
}

/// Parses a string of decimal digits into a `u64`, with the exact grammar and
/// range behaviour of `str::parse::<u64>`.
pub fn parse_u64(s: &str) -> (r: Option<u64>)
    ensures
        r is Some <==> unsigned_grammar(s@) && dec_val(unsigned_digits(s@)) <= u64::MAX,
        r matches Some(v) ==> v == dec_val(unsigned_digits(s@)),
{
    let n = s.unicode_len();
    let mut i: usize = 0;
    if n > 0 && s.get_char(0) == '+' {
        i = 1;
    }
    let ghost digits = unsigned_digits(s@);
    proof {
        assert(digits =~= s@.skip(i as int));
    }
    if i == n {
        proof {
            assert(digits.len() == 0);
            assert(!all_digits(digits));
            if s@.len() > 0 && s@[0] == '+' {
                assert(digits == s@.drop_first());
            } else {
                assert(digits == s@);
            }
        }
        return None;
    }
    let mut v: u64 = 0;
    let mut j: usize = i;
    while j < n
        invariant
            i <= j <= n,
            n == s@.len(),
            digits == s@.skip(i as int),
            digits == unsigned_digits(s@),
            i < n,
            i <= 1,
            forall|k: int| i <= k < j ==> is_digit(#[trigger] s@[k]),
            v == dec_val(digits.take(j - i)),
        decreases n - j,
    {
        let c = s.get_char(j);
        let cu = c as u32;
        if cu < 48 || cu > 57 {
            assert(s@[j as int] == digits[j - i]);
            assert(!all_digits(digits));
            assert(!unsigned_grammar(s@));
            return None;
        }
        let d: u64 = (cu - 48) as u64;
        proof {
            lemma_dec_val_take_step(digits, j - i);
        }
        let v10 = match v.checked_mul(10) {
            Option::Some(x) => x,
            Option::None => {
                proof {
                    lemma_dec_val_grows(digits, j - i + 1);
                    assert(dec_val(digits.take(j - i + 1)) == v * 10 + digit_val(digits[j - i]));
                    assert(dec_val(digits) > u64::MAX);
                }
                return None;
            },
        };
        let vn = match v10.checked_add(d) {
            Option::Some(x) => x,
            Option::None => {
                proof {
                    lemma_dec_val_grows(digits, j - i + 1);
                    assert(dec_val(digits.take(j - i + 1)) == v * 10 + digit_val(digits[j - i]));
                    assert(dec_val(digits) > u64::MAX);
                }
                return None;
            },
        };
        v = vn;
        proof {
            assert(digits[j - i] == s@[j as int]);
        }
        j = j + 1;
    }
    proof {
        assert(digits.take(n - i) =~= digits);
        assert(all_digits(digits));
    }
    Some(v)
}

/// Parses a signed decimal string into an `i32`, with the exact grammar and
/// range behaviour of `str::parse::<i32>`.
pub fn parse_i32(s: &str) -> (r: Option<i32>)
    ensures
        r is Some <==> signed_grammar(s@) && i32::MIN <= signed_val(s@) <= i32::MAX,
        r matches Some(v) ==> v == signed_val(s@),
{
    let n = s.unicode_len();
    if n > 0 && s.get_char(0) == '-' {
        let rest = s.substring_char(1, n);
        proof {
            assert(rest@ =~= s@.drop_first());
        }
        match parse_u64(rest) {
            Option::Some(v) => {
                if rest.unicode_len() > 0 && rest.get_char(0) == '+' {
                    // `str::parse` does not accept a sign after the sign.
                    assert(!all_digits(rest@) && !signed_grammar(s@));
                    return None;
                }
                if v <= 2147483648 {
                    let r: i64 = -(v as i64);
                    Some(r as i32)
                } else {
                    None
                }
            },
            Option::None => None,
        }
    } else {
        match parse_u64(s) {
            Option::Some(v) => {
                if v <= 2147483647 {
                    Some(v as i32)
                } else {
                    None
                }
            },
            Option::None => None,
        }
    }
}

/// The decimal digit character for a value below ten.
pub open spec fn digit_char(d: nat) -> char {
    ((48 + d) as u8) as char
}

/// The decimal representation of a natural number.
pub open spec fn spec_dec(n: nat) -> Seq<char>
    decreases n,
{
    if n < 10 {
        seq![digit_char(n)]
    } else {
        spec_dec(n / 10).push(digit_char(n % 10))
    }
}

/// The decimal representation of an integer, with a minus sign when negative.
pub open spec fn spec_dec_signed(n: int) -> Seq<char> {
    if n < 0 {
        seq!['-'] + spec_dec((-n) as nat)
    } else {
        spec_dec(n as nat)
    }
}

fn digit_str(d: u64) -> (r: &'static str)
    requires
        d < 10,
    ensures
        r@ =~= seq![digit_char(d as nat)],
{
    let r = match d {
        0 => "0",
        1 => "1",
        2 => "2",
        3 => "3",
        4 => "4",
        5 => "5",
        6 => "6",
        7 => "7",
        8 => "8",
        _ => "9",
    };
    proof {
        reveal_strlit("0");
        reveal_strlit("1");
        reveal_strlit("2");
        reveal_strlit("3");
        reveal_strlit("4");
        reveal_strlit("5");
        reveal_strlit("6");
        reveal_strlit("7");
        reveal_strlit("8");
        reveal_strlit("9");
    }
    r
}

/// Writes the decimal representation of `n` onto the end of `out`.
pub fn push_u64(out: &mut String, n: u64)
    ensures
        final(out)@ == old(out)@ + spec_dec(n as nat),
    decreases n,
{
    if n < 10 {
        out.append(digit_str(n));
    } else {
        push_u64(out, n / 10);
        out.append(digit_str(n % 10));
        proof {
            assert(old(out)@ + spec_dec((n / 10) as nat) + seq![
                digit_char((n % 10) as nat),
            ] =~= old(out)@ + spec_dec(n as nat));
        }
    }
}

/// The decimal representation of `n` as a string.
pub fn u64_to_string(n: u64) -> (r: String)
    ensures
        r@ == spec_dec(n as nat),
{
    let mut s = String::new();
    push_u64(&mut s, n);
    proof {
        assert(Seq::<char>::empty() + spec_dec(n as nat) =~= spec_dec(n as nat));
    }
    s
}

/// The decimal representation of a signed `i32` as a string.
pub fn i32_to_string(n: i32) -> (r: String)
    ensures
        r@ == spec_dec_signed(n as int),
{
    let mut s = String::new();
    if n < 0 {
        s.append("-");
        let wide: i64 = n as i64;
        let mag: u64 = (-wide) as u64;
        push_u64(&mut s, mag);
        proof {
            reveal_strlit("-");
            assert((Seq::<char>::empty() + "-"@) + spec_dec((-(n as int)) as nat) =~= seq!['-']
                + spec_dec((-(n as int)) as nat));
        }
    } else {
        push_u64(&mut s, n as u64);
        proof {
            assert(Seq::<char>::empty() + spec_dec(n as nat) =~= spec_dec(n as nat));
        }
    }
    s
}

/// The decimal representation of a `usize` as a string.
pub fn usize_to_string(n: usize) -> (r: String)
    ensures
        r@ == spec_dec(n as nat),
{
    u64_to_string(n as u64)
}

} // verus!
