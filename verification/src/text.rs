//! Text helpers for FEN and UCI: characters of a string, whitespace and
//! separator splitting, decimal numbers and UTF-8 lengths.

use vstd::prelude::*;

verus! {

/// The characters of `s`.
pub fn str_chars(s: &str) -> (r: Vec<char>)
    ensures
        r@ == s@,
{
    let mut out: Vec<char> = Vec::new();
    for c in it: s.chars()
        invariant
            out@ == it.seq().take(it.index() as int),
            it.seq() == s@,
    {
        out.push(c);
    }
    out
}


/// Turns characters into a `String`.
#[verifier::external_body]
pub(crate) fn string_from_chars(v: &Vec<char>) -> (r: String)
    ensures
        r@ == v@,
{
    v.iter().collect()
}

/// The characters Unicode counts as white space.
pub open spec fn is_ws(c: char) -> bool {
    let n = c as u32;
    (9 <= n <= 13) || n == 32 || n == 0x85 || n == 0xA0 || n == 0x1680 || (0x2000 <= n <= 0x200A) || n == 0x2028
        || n == 0x2029 || n == 0x202F || n == 0x205F || n == 0x3000
}

pub fn is_whitespace(c: char) -> (r: bool)
    ensures
        r == is_ws(c),
{
    let n = c as u32;
    (9 <= n && n <= 13) || n == 32 || n == 0x85 || n == 0xA0 || n == 0x1680 || (0x2000 <= n && n <= 0x200A)
        || n == 0x2028 || n == 0x2029 || n == 0x202F || n == 0x205F || n == 0x3000
}

/// Splitting the first `i` characters of `s` at white space: the finished
/// words and the word being read.
pub open spec fn ws_split_state(s: Seq<char>, i: int) -> (Seq<Seq<char>>, Seq<char>)
    decreases i,
{
    if i <= 0 {
        (Seq::empty(), Seq::empty())
    } else {
        let (words, cur) = ws_split_state(s, i - 1);
        let c = s[i - 1];
        if is_ws(c) {
            if cur.len() > 0 {
                (words.push(cur), Seq::empty())
            } else {
                (words, cur)
            }
        } else {
            (words, cur.push(c))
        }
    }
}

/// The non-empty words of `s` separated by white space.
pub open spec fn ws_split(s: Seq<char>) -> Seq<Seq<char>> {
    let (words, cur) = ws_split_state(s, s.len() as int);
    if cur.len() > 0 {
        words.push(cur)
    } else {
        words
    }
}

/// The non-empty words of `s` separated by white space.
pub fn split_whitespace(s: &Vec<char>) -> (r: Vec<Vec<char>>)
    ensures
        r@.len() == ws_split(s@).len(),
        forall|j: int| 0 <= j < r@.len() ==> #[trigger] r@[j]@ == ws_split(s@)[j],
{
    let mut words: Vec<Vec<char>> = Vec::new();
    let mut cur: Vec<char> = Vec::new();
    let mut i: usize = 0;
    while i < s.len()
        invariant
            i <= s@.len(),
            words@.len() == ws_split_state(s@, i as int).0.len(),
            forall|j: int| 0 <= j < words@.len() ==> #[trigger] words@[j]@ == ws_split_state(s@, i as int).0[j],
            cur@ == ws_split_state(s@, i as int).1,
        decreases s@.len() - i,
    {
        let c = s[i];
        if is_whitespace(c) {
            if cur.len() > 0 {
                words.push(cur);
                cur = Vec::new();
            }
        } else {
            cur.push(c);
        }
        i = i + 1;
    }
    if cur.len() > 0 {
        words.push(cur);
    }
    words
}

/// Splitting the first `i` characters of `s` at `sep`: the finished pieces and the piece being read.
pub open spec fn sep_split_state(s: Seq<char>, sep: char, i: int) -> (Seq<Seq<char>>, Seq<char>)
    decreases i,
{
    if i <= 0 {
        (Seq::empty(), Seq::empty())
    } else {
        let (parts, cur) = sep_split_state(s, sep, i - 1);
        if s[i - 1] == sep {
            (parts.push(cur), Seq::empty())
        } else {
            (parts, cur.push(s[i - 1]))
        }
    }
}

/// The pieces of `s` between occurrences of `sep` (empty pieces kept).
pub open spec fn sep_split(s: Seq<char>, sep: char) -> Seq<Seq<char>> {
    let (parts, cur) = sep_split_state(s, sep, s.len() as int);
    parts.push(cur)
}

/// The pieces of `s` between occurrences of `sep` (empty pieces kept).
pub fn split_char(s: &Vec<char>, sep: char) -> (r: Vec<Vec<char>>)
    ensures
        r@.len() == sep_split(s@, sep).len(),
        forall|j: int| 0 <= j < r@.len() ==> #[trigger] r@[j]@ == sep_split(s@, sep)[j],
{
    let mut parts: Vec<Vec<char>> = Vec::new();
    let mut cur: Vec<char> = Vec::new();
    let mut i: usize = 0;
    while i < s.len()
        invariant
            i <= s@.len(),
            parts@.len() == sep_split_state(s@, sep, i as int).0.len(),
            forall|j: int| 0 <= j < parts@.len() ==> #[trigger] parts@[j]@ == sep_split_state(s@, sep, i as int).0[j],
            cur@ == sep_split_state(s@, sep, i as int).1,
        decreases s@.len() - i,
    {
        let c = s[i];
        if c == sep {
            parts.push(cur);
            cur = Vec::new();
        } else {
            cur.push(c);
        }
        i = i + 1;
    }
    parts.push(cur);
    parts
}

pub open spec fn is_digit(c: char) -> bool {
    '0' <= c <= '9'
}

/// All characters are ASCII digits.
pub open spec fn all_digits(s: Seq<char>) -> bool {
    forall|i: int| 0 <= i < s.len() ==> is_digit(#[trigger] s[i])
}

/// The number written by the decimal digits `s`.
pub open spec fn digits_value(s: Seq<char>) -> int
    decreases s.len(),
{
    if s.len() == 0 {
        0
    } else {
        10 * digits_value(s.drop_last()) + (s.last() as int - '0' as int)
    }
}

/// What parsing `s` as a `u32` gives: an optional `+` and at least one digit,
/// with a value that fits.
pub open spec fn parse_u32_spec(s: Seq<char>) -> Option<u32> {
    let d = if s.len() > 0 && s[0] == '+' { s.drop_first() } else { s };
    if s.len() == 0 || d.len() == 0 || !all_digits(d) || digits_value(d) > u32::MAX {
        None
    } else {
        Some(digits_value(d) as u32)
    }
}

pub proof fn lemma_digits_value_nonneg(s: Seq<char>)
    requires
        all_digits(s),
    ensures
        digits_value(s) >= 0,
    decreases s.len(),
{
    if s.len() > 0 {
        lemma_digits_value_nonneg(s.drop_last());
    }
}

proof fn lemma_digits_prefix(s: Seq<char>, i: int)
    requires
        all_digits(s),
        0 <= i <= s.len(),
    ensures
        digits_value(s.take(i)) <= digits_value(s),
    decreases s.len() - i,
{
    if i < s.len() {
        lemma_digits_prefix(s, i + 1);
        assert(s.take(i + 1).drop_last() =~= s.take(i));
        assert(all_digits(s.take(i)));
        lemma_digits_value_nonneg(s.take(i));
        assert(is_digit(s[i]));
        assert(s.take(i + 1).last() == s[i]);
    } else {
        assert(s.take(i) =~= s);
    }
}

/// Parses a `u32` the way `str::parse` does.
pub fn parse_u32(s: &Vec<char>) -> (r: Option<u32>)
    ensures
        r == parse_u32_spec(s@),
{
    if s.len() == 0 {
        return None;
    }
    let start: usize = if s[0] == '+' { 1 } else { 0 };
    let ghost d = if s@.len() > 0 && s@[0] == '+' { s@.drop_first() } else { s@ };
    if start == s.len() {
        return None;
    }
    proof {
        assert(d =~= s@.subrange(start as int, s@.len() as int));
    }
    let mut acc: u64 = 0;
    let mut i: usize = start;
    while i < s.len()
        invariant
            start <= i <= s@.len(),
            s@.len() > 0,
            start < s@.len(),
            d == (if s@.len() > 0 && s@[0] == '+' { s@.drop_first() } else { s@ }),
            d == s@.subrange(start as int, s@.len() as int),
            all_digits(s@.subrange(start as int, i as int)),
            acc == digits_value(s@.subrange(start as int, i as int)),
            acc <= u32::MAX,
        decreases s@.len() - i,
    {
        let c = s[i];
        if !('0' <= c && c <= '9') {
            proof {
                assert(d[i - start] == c);
                assert(!is_digit(d[i - start]));
                assert(!all_digits(d));
            }
            return None;
        }
        let digit = (c as u32 - '0' as u32) as u64;
        proof {
            let t = s@.subrange(start as int, i as int + 1);
            assert(t.drop_last() =~= s@.subrange(start as int, i as int));
            assert(all_digits(t));
        }
        acc = acc * 10 + digit;
        proof {
            let t = s@.subrange(start as int, i as int + 1);
            assert(t.last() == c);
            assert(acc == digits_value(t));
        }
        if acc > u32::MAX as u64 {
            proof {
                assert(all_digits(s@.subrange(start as int, i as int + 1)));
                if all_digits(d) {
                    lemma_digits_prefix(d, i + 1 - start);
                    assert(d.take(i + 1 - start) =~= s@.subrange(start as int, i as int + 1));
                }
            }
            return None;
        }
        i = i + 1;
    }
    proof {
        assert(s@.subrange(start as int, s@.len() as int) =~= d);
    }
    Some(acc as u32)
}

/// The decimal digits of `n`.
pub open spec fn decimal(n: nat) -> Seq<char>
    decreases n,
{
    if n < 10 {
        seq![digit_char(n)]
    } else {
        decimal(n / 10).push(digit_char(n % 10))
    }
}

pub open spec fn digit_char(d: nat) -> char {
    ((d + '0' as nat) as u32) as char
}

/// The decimal digits of `n`.
pub fn decimal_chars(n: u64) -> (r: Vec<char>)
    ensures
        r@ == decimal(n as nat),
    decreases n,
{
    if n < 10 {
        let c = char_of_digit(n as u32);
        let mut v: Vec<char> = Vec::new();
        v.push(c);
        proof {
            assert(v@ =~= decimal(n as nat));
        }
        v
    } else {
        let mut v = decimal_chars(n / 10);
        let c = char_of_digit((n % 10) as u32);
        v.push(c);
        v
    }
}

fn char_of_digit(d: u32) -> (r: char)
    requires
        d < 10,
    ensures
        r == digit_char(d as nat),
{
    match d {
        0 => '0',
        1 => '1',
        2 => '2',
        3 => '3',
        4 => '4',
        5 => '5',
        6 => '6',
        7 => '7',
        8 => '8',
        _ => '9',
    }
}

/// The number of bytes of `c` in UTF-8.
pub open spec fn utf8_width(c: char) -> nat {
    let n = c as u32;
    if n < 0x80 {
        1
    } else if n < 0x800 {
        2
    } else if n < 0x10000 {
        3
    } else {
        4
    }
}

/// The number of bytes of the characters `s` in UTF-8.
pub open spec fn utf8_len(s: Seq<char>) -> nat
    decreases s.len(),
{
    if s.len() == 0 {
        0
    } else {
        utf8_len(s.drop_last()) + utf8_width(s.last())
    }
}

/// The UTF-8 length of `s`, or `limit` + 1 if it is longer than `limit`.
pub fn utf8_len_capped(s: &Vec<char>, limit: usize) -> (r: usize)
    requires
        limit < usize::MAX - 4,
    ensures
        r == (if utf8_len(s@) <= limit { utf8_len(s@) as int } else { limit + 1 }),
{
    let mut total: usize = 0;
    let mut i: usize = 0;
    while i < s.len()
        invariant
            i <= s@.len(),
            limit < usize::MAX - 4,
            total == utf8_len(s@.take(i as int)),
            total <= limit,
        decreases s@.len() - i,
    {
        let n = s[i] as u32;
        let w: usize = if n < 0x80 { 1 } else if n < 0x800 { 2 } else if n < 0x10000 { 3 } else { 4 };
        proof {
            assert(s@.take(i as int + 1).drop_last() =~= s@.take(i as int));
            lemma_utf8_mono(s@, i as int + 1);
        }
        total = total + w;
        i = i + 1;
        if total > limit {
            return limit + 1;
        }
    }
    proof {
        assert(s@.take(s@.len() as int) =~= s@);
    }
    total
}

proof fn lemma_utf8_mono(s: Seq<char>, i: int)
    requires
        0 <= i <= s.len(),
    ensures
        utf8_len(s.take(i)) <= utf8_len(s),
    decreases s.len() - i,
{
    if i < s.len() {
        lemma_utf8_mono(s, i + 1);
        assert(s.take(i + 1).drop_last() =~= s.take(i));
    } else {
        assert(s.take(i) =~= s);
    }
}


/// Appends the characters of `s` to `v`.
pub fn push_all(v: &mut Vec<char>, s: &Vec<char>)
    ensures
        final(v)@ == old(v)@ + s@,
{
    let mut i: usize = 0;
    while i < s.len()
        invariant
            i <= s@.len(),
            v@ == old(v)@ + s@.take(i as int),
        decreases s@.len() - i,
    {
        v.push(s[i]);
        i = i + 1;
        proof {
            assert(s@.take(i as int) =~= s@.take(i as int - 1).push(s@[i - 1]));
        }
    }
    proof {
        assert(s@.take(s@.len() as int) =~= s@);
    }
}

/// Appends the characters of the string `s` to `v`.
pub fn push_str(v: &mut Vec<char>, s: &str)
    ensures
        final(v)@ == old(v)@ + s@,
{
    let cs = str_chars(s);
    push_all(v, &cs);
}


/// Whether the characters `v` spell `s`.
pub fn chars_eq(v: &Vec<char>, s: &Vec<char>) -> (r: bool)
    ensures
        r == (v@ == s@),
{
    if v.len() != s.len() {
        return false;
    }
    let mut i: usize = 0;
    while i < v.len()
        invariant
            i <= v@.len(),
            v@.len() == s@.len(),
            forall|j: int| 0 <= j < i ==> v@[j] == s@[j],
        decreases v@.len() - i,
    {
        if v[i] != s[i] {
            return false;
        }
        i = i + 1;
    }
    proof {
        assert(v@ =~= s@);
    }
    true
}

/// Whether the characters `v` spell the string `s`.
pub fn chars_eq_str(v: &Vec<char>, s: &str) -> (r: bool)
    ensures
        r == (v@ == s@),
{
    let cs = str_chars(s);
    chars_eq(v, &cs)
}

/// The string `s` as an owned `String`.
pub fn owned(s: &str) -> (r: String)
    ensures
        r@ == s@,
{
    let cs = str_chars(s);
    string_from_chars(&cs)
}

/// The value of `s` when it is a non-empty run of decimal digits worth at
/// most `limit`.
pub open spec fn digits_upto(s: Seq<char>, limit: int) -> Option<int> {
    if s.len() == 0 || !all_digits(s) || digits_value(s) > limit {
        None
    } else {
        Some(digits_value(s))
    }
}

/// Reads the digits `s[start..]` as a number of at most `limit`.
fn digits_checked(s: &Vec<char>, start: usize, limit: u128) -> (r: Option<u128>)
    requires
        start <= s@.len(),
        limit <= u64::MAX,
    ensures
        match r {
            Some(x) => digits_upto(s@.subrange(start as int, s@.len() as int), limit as int) == Some(x as int),
            None => digits_upto(s@.subrange(start as int, s@.len() as int), limit as int) is None,
        },
{
    let ghost d = s@.subrange(start as int, s@.len() as int);
    if start == s.len() {
        return None;
    }
    let mut acc: u128 = 0;
    let mut i: usize = start;
    while i < s.len()
        invariant
            start <= i <= s@.len(),
            start < s@.len(),
            limit <= u64::MAX,
            d == s@.subrange(start as int, s@.len() as int),
            all_digits(s@.subrange(start as int, i as int)),
            acc == digits_value(s@.subrange(start as int, i as int)),
            acc <= limit,
        decreases s@.len() - i,
    {
        let c = s[i];
        if !('0' <= c && c <= '9') {
            proof {
                assert(d[i - start] == c);
                assert(!all_digits(d));
            }
            return None;
        }
        let digit = (c as u32 - '0' as u32) as u128;
        proof {
            let t = s@.subrange(start as int, i as int + 1);
            assert(t.drop_last() =~= s@.subrange(start as int, i as int));
            assert(all_digits(t));
        }
        acc = acc * 10 + digit;
        proof {
            let t = s@.subrange(start as int, i as int + 1);
            assert(t.last() == c);
            assert(acc == digits_value(t));
        }
        if acc > limit {
            proof {
                if all_digits(d) {
                    lemma_digits_prefix(d, i + 1 - start);
                    assert(d.take(i + 1 - start) =~= s@.subrange(start as int, i as int + 1));
                }
            }
            return None;
        }
        i = i + 1;
    }
    proof {
        assert(s@.subrange(start as int, i as int) =~= d);
    }
    Some(acc)
}

/// The digits of an unsigned number: `s` without a leading `+`.
pub open spec fn unsigned_digits(s: Seq<char>) -> Seq<char> {
    if s.len() > 0 && s[0] == '+' {
        s.drop_first()
    } else {
        s
    }
}

/// What parsing `s` as a `u64` gives: an optional `+` and digits worth at
/// most `u64::MAX`.
pub open spec fn parse_u64_spec(s: Seq<char>) -> Option<u64> {
    match digits_upto(unsigned_digits(s), u64::MAX as int) {
        Some(x) => Some(x as u64),
        None => None,
    }
}

/// Parses `s` as a `u64` (an optional `+`, then decimal digits).
pub fn parse_u64(s: &Vec<char>) -> (r: Option<u64>)
    ensures
        r == parse_u64_spec(s@),
{
    let start: usize = if s.len() > 0 && s[0] == '+' { 1 } else { 0 };
    proof {
        assert(unsigned_digits(s@) =~= s@.subrange(start as int, s@.len() as int));
    }
    match digits_checked(s, start, u64::MAX as u128) {
        Some(x) => Some(x as u64),
        None => None,
    }
}

/// What parsing `s` as a `usize` gives: an optional `+` and digits worth at
/// most `usize::MAX`.
pub open spec fn parse_usize_spec(s: Seq<char>) -> Option<usize> {
    match digits_upto(unsigned_digits(s), usize::MAX as int) {
        Some(x) => Some(x as usize),
        None => None,
    }
}

/// Parses `s` as a `usize` (an optional `+`, then decimal digits).
pub fn parse_usize(s: &Vec<char>) -> (r: Option<usize>)
    ensures
        r == parse_usize_spec(s@),
{
    let start: usize = if s.len() > 0 && s[0] == '+' { 1 } else { 0 };
    proof {
        assert(unsigned_digits(s@) =~= s@.subrange(start as int, s@.len() as int));
    }
    match digits_checked(s, start, usize::MAX as u128) {
        Some(x) => Some(x as usize),
        None => None,
    }
}

/// What parsing `s` as an `i32` gives: an optional sign and digits whose
/// signed value fits.
pub open spec fn parse_i32_spec(s: Seq<char>) -> Option<i32> {
    if s.len() > 0 && s[0] == '-' {
        match digits_upto(s.drop_first(), 0x8000_0000) {
            Some(x) => Some((-x) as i32),
            None => None,
        }
    } else {
        match digits_upto(unsigned_digits(s), i32::MAX as int) {
            Some(x) => Some(x as i32),
            None => None,
        }
    }
}

/// Parses `s` as an `i32` (an optional `+` or `-`, then decimal digits).
pub fn parse_i32(s: &Vec<char>) -> (r: Option<i32>)
    ensures
        r == parse_i32_spec(s@),
{
    if s.len() > 0 && s[0] == '-' {
        proof {
            assert(s@.drop_first() =~= s@.subrange(1, s@.len() as int));
        }
        match digits_checked(s, 1, 0x8000_0000) {
            Some(x) => Some((0 - x as i64) as i32),
            None => None,
        }
    } else {
        let start: usize = if s.len() > 0 && s[0] == '+' { 1 } else { 0 };
        proof {
            assert(unsigned_digits(s@) =~= s@.subrange(start as int, s@.len() as int));
        }
        match digits_checked(s, start, i32::MAX as u128) {
            Some(x) => Some(x as i32),
            None => None,
        }
    }
}

/// Numbers read back: the decimal digits of a number read as that number,
/// as a `u32`, `u64`, `usize` or `i32` whenever it fits.
pub proof fn lemma_parse_decimal(n: nat)
    ensures
        n <= u32::MAX ==> parse_u32_spec(decimal(n)) == Some(n as u32),
        n <= u64::MAX ==> parse_u64_spec(decimal(n)) == Some(n as u64),
        n <= usize::MAX ==> parse_usize_spec(decimal(n)) == Some(n as usize),
        n <= i32::MAX ==> parse_i32_spec(decimal(n)) == Some(n as i32),
{
    crate::position::fen::lemma_decimal_reads_back(n);
    let d = decimal(n);
    assert(is_digit(d[0]));
    assert(unsigned_digits(d) == d);
}

} // verus!
