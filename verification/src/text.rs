//! Text primitives over sequences of characters: trimming, splitting, case-insensitive
//! comparison and numerals.

use vstd::prelude::*;
use vstd::string::*;

verus! {

/// The characters with the Unicode property `White_Space`.
pub open spec fn is_white_space(c: char) -> bool {
    ||| '\u{9}' <= c <= '\u{d}'
    ||| c == ' '
    ||| c == '\u{85}'
    ||| c == '\u{a0}'
    ||| c == '\u{1680}'
    ||| '\u{2000}' <= c <= '\u{200a}'
    ||| c == '\u{2028}'
    ||| c == '\u{2029}'
    ||| c == '\u{202f}'
    ||| c == '\u{205f}'
    ||| c == '\u{3000}'
}

/// `s` without its leading white space.
pub open spec fn trim_front(s: Seq<char>) -> Seq<char>
    decreases s.len(),
{
    if s.len() > 0 && is_white_space(s[0]) {
        trim_front(s.skip(1))
    } else {
        s
    }
}

/// `s` without its trailing white space.
pub open spec fn trim_back(s: Seq<char>) -> Seq<char>
    decreases s.len(),
{
    if s.len() > 0 && is_white_space(s.last()) {
        trim_back(s.drop_last())
    } else {
        s
    }
}

/// `s` without its leading and trailing white space.
pub open spec fn trimmed(s: Seq<char>) -> Seq<char> {
    trim_back(trim_front(s))
}

/// Position of the first `c` in `s`, or the length of `s` where it holds none.
pub open spec fn first_index(s: Seq<char>, c: char) -> nat
    decreases s.len(),
{
    if s.len() == 0 || s[0] == c {
        0
    } else {
        1 + first_index(s.skip(1), c)
    }
}

/// The pieces of `s` between occurrences of `sep`; always at least one.
pub open spec fn split(s: Seq<char>, sep: char) -> Seq<Seq<char>>
    decreases s.len(),
{
    let k = first_index(s, sep);
    if k < s.len() {
        seq![s.take(k as int)] + split(s.skip(k as int + 1), sep)
    } else {
        seq![s]
    }
}

/// `c` with an ASCII capital letter replaced by its small letter.
pub open spec fn ascii_lower(c: char) -> char {
    if 'A' <= c <= 'Z' {
        ((c as u32 + 32) as u32) as char
    } else {
        c
    }
}

/// Whether `a` and `b` differ at most in the case of ASCII letters.
pub open spec fn eq_ignore_case(a: Seq<char>, b: Seq<char>) -> bool {
    &&& a.len() == b.len()
    &&& forall|i: int| 0 <= i < a.len() ==> ascii_lower(#[trigger] a[i]) == ascii_lower(b[i])
}

/// The value of a digit in bases up to sixteen; sixteen for any other character.
pub open spec fn digit_value(c: char) -> nat {
    if '0' <= c <= '9' {
        (c as u32 - '0' as u32) as nat
    } else if 'a' <= c <= 'f' {
        (c as u32 - 'a' as u32 + 10) as nat
    } else if 'A' <= c <= 'F' {
        (c as u32 - 'A' as u32 + 10) as nat
    } else {
        16
    }
}

/// Whether every character of `s` is a digit in base `radix`.
pub open spec fn all_digits(s: Seq<char>, radix: nat) -> bool {
    forall|i: int| 0 <= i < s.len() ==> digit_value(#[trigger] s[i]) < radix
}

/// The number that the digits `s` denote in base `radix`.
pub open spec fn numeral(s: Seq<char>, radix: nat) -> nat
    decreases s.len(),
{
    if s.len() == 0 {
        0
    } else {
        numeral(s.drop_last(), radix) * radix + digit_value(s.last())
    }
}

/// The decimal digits of `n`, without leading zeros.
pub open spec fn decimal(n: nat) -> Seq<char>
    decreases n,
{
    let last = ((n % 10) as u32 + '0' as u32) as char;
    if n < 10 {
        seq![last]
    } else {
        decimal(n / 10).push(last)
    }
}

/// The number that `s` spells in base `radix`: digits only, at least one, at most `max`.
pub open spec fn numeral_text(s: Seq<char>, radix: nat, max: nat) -> Option<u32> {
    if s.len() > 0 && all_digits(s, radix) && numeral(s, radix) <= max {
        Some(numeral(s, radix) as u32)
    } else {
        None
    }
}

/// The eight-bit number that `s` spells: an optional plus sign, then decimal digits.
pub open spec fn u8_text(s: Seq<char>) -> Option<u8> {
    let digits = if s.len() > 0 && s[0] == '+' {
        s.skip(1)
    } else {
        s
    };
    match numeral_text(digits, 10, 255) {
        Some(value) => Some(value as u8),
        None => None,
    }
}

/// The characters of `s`.
pub fn to_chars(s: &str) -> (r: Vec<char>)
    ensures
        r@ == s@,
{
    let mut r: Vec<char> = Vec::new();
    for c in it: s.chars()
        invariant
            it.seq() == s@,
            r@ == it.seq().take(it.index()),
    {
        r.push(c);
    }
    r
}

fn white_space(c: char) -> (r: bool)
    ensures
        r == is_white_space(c),
{
    ('\u{9}' <= c && c <= '\u{d}') || c == ' ' || c == '\u{85}' || c == '\u{a0}' || c == '\u{1680}'
        || ('\u{2000}' <= c && c <= '\u{200a}') || c == '\u{2028}' || c == '\u{2029}' || c
        == '\u{202f}' || c == '\u{205f}' || c == '\u{3000}'
}

/// `s` without its leading and trailing white space.
pub fn trim(s: &str) -> (r: &str)
    ensures
        r@ == trimmed(s@),
{
    let chars = to_chars(s);
    let n: usize = chars.len();
    let mut from: usize = 0;
    assert(s@.skip(0) == s@);
    while from < n && white_space(chars[from])
        invariant
            from <= n == chars.len(),
            chars@ == s@,
            trim_front(s@) == trim_front(s@.skip(from as int)),
        decreases n - from,
    {
        assert(s@.skip(from as int).skip(1) == s@.skip(from + 1));
        from = from + 1;
    }
    let mut to: usize = n;
    assert(s@.subrange(from as int, to as int) == s@.skip(from as int));
    while from < to && white_space(chars[to - 1])
        invariant
            from <= to <= n == chars.len(),
            chars@ == s@,
            trim_back(trim_front(s@)) == trim_back(s@.subrange(from as int, to as int)),
        decreases to - from,
    {
        assert(s@.subrange(from as int, to as int).drop_last() == s@.subrange(
            from as int,
            to - 1,
        ));
        to = to - 1;
    }
    s.substring_char(from, to)
}

/// The pieces of `s` between occurrences of `sep`.
pub fn split_chars(s: &Vec<char>, sep: char) -> (r: Vec<Vec<char>>)
    ensures
        r@.map_values(|piece: Vec<char>| piece@) == split(s@, sep),
{
    let mut r: Vec<Vec<char>> = Vec::new();
    let mut piece: Vec<char> = Vec::new();
    let n: usize = s.len();
    let mut start: usize = 0;
    let mut i: usize = 0;
    let ghost view = |piece: Vec<char>| piece@;
    assert(s@.skip(0) == s@);
    assert(r@.map_values(view) + split(s@, sep) == split(s@, sep));
    while i < n
        invariant
            start <= i <= n == s.len(),
            piece@ == s@.subrange(start as int, i as int),
            forall|j: int| start <= j < i ==> s@[j] != sep,
            view == (|piece: Vec<char>| piece@),
            r@.map_values(view) + split(s@.skip(start as int), sep) == split(s@, sep),
        decreases n - i,
    {
        let c = s[i];
        if c == sep {
            proof {
                let rest = s@.skip(start as int);
                lemma_first_index(rest, sep, (i - start) as nat);
                assert(rest.take(i - start) == piece@);
                assert(rest.skip(i - start + 1) == s@.skip(i + 1));
                assert(r@.push(piece).map_values(view) == r@.map_values(view).push(piece@));
                assert(r@.map_values(view).push(piece@) + split(s@.skip(i + 1), sep)
                    == r@.map_values(view) + (seq![piece@] + split(s@.skip(i + 1), sep)));
            }
            r.push(piece);
            piece = Vec::new();
            start = i + 1;
        } else {
            piece.push(c);
        }
        i = i + 1;
    }
    proof {
        let rest = s@.skip(start as int);
        lemma_first_index(rest, sep, rest.len());
        assert(rest == piece@);
        assert(r@.push(piece).map_values(view) == r@.map_values(view) + seq![piece@]);
    }
    r.push(piece);
    r
}

/// The pieces of `s` between occurrences of `sep`.
pub fn split_str<'a>(s: &'a str, sep: char) -> (r: Vec<&'a str>)
    ensures
        r@.map_values(|piece: &str| piece@) == split(s@, sep),
{
    let chars = to_chars(s);
    let n: usize = chars.len();
    let mut r: Vec<&'a str> = Vec::new();
    let mut start: usize = 0;
    let mut i: usize = 0;
    let ghost view = |piece: &str| piece@;
    assert(s@.skip(0) == s@);
    assert(r@.map_values(view) + split(s@, sep) == split(s@, sep));
    while i < n
        invariant
            start <= i <= n == chars.len(),
            chars@ == s@,
            forall|j: int| start <= j < i ==> s@[j] != sep,
            view == (|piece: &str| piece@),
            r@.map_values(view) + split(s@.skip(start as int), sep) == split(s@, sep),
        decreases n - i,
    {
        if chars[i] == sep {
            let piece = s.substring_char(start, i);
            proof {
                let rest = s@.skip(start as int);
                lemma_first_index(rest, sep, (i - start) as nat);
                assert(rest.take(i - start) == piece@);
                assert(rest.skip(i - start + 1) == s@.skip(i + 1));
                assert(r@.push(piece).map_values(view) == r@.map_values(view).push(piece@));
                assert(r@.map_values(view).push(piece@) + split(s@.skip(i + 1), sep)
                    == r@.map_values(view) + (seq![piece@] + split(s@.skip(i + 1), sep)));
            }
            r.push(piece);
            start = i + 1;
        }
        i = i + 1;
    }
    let piece = s.substring_char(start, n);
    proof {
        let rest = s@.skip(start as int);
        lemma_first_index(rest, sep, rest.len());
        assert(rest == piece@);
        assert(r@.push(piece).map_values(view) == r@.map_values(view) + seq![piece@]);
    }
    r.push(piece);
    r
}

/// A position with `c`, or the end, before which `c` does not occur is the first one.
pub proof fn lemma_first_index(s: Seq<char>, c: char, k: nat)
    requires
        k <= s.len(),
        forall|j: int| 0 <= j < k ==> s[j] != c,
        k < s.len() ==> s[k as int] == c,
    ensures
        first_index(s, c) == k,
    decreases s.len(),
{
    if k > 0 {
        lemma_first_index(s.skip(1), c, (k - 1) as nat);
    }
}

/// Splitting gives at least one piece.
pub proof fn lemma_split_is_not_empty(s: Seq<char>, sep: char)
    ensures
        split(s, sep).len() >= 1,
{
}

/// Whether `a` and `b` differ at most in the case of ASCII letters.
pub fn same_ignoring_case(a: &Vec<char>, b: &Vec<char>) -> (r: bool)
    ensures
        r == eq_ignore_case(a@, b@),
{
    if a.len() != b.len() {
        return false;
    }
    let mut i: usize = 0;
    while i < a.len()
        invariant
            i <= a.len() == b.len(),
            forall|j: int| 0 <= j < i ==> ascii_lower(#[trigger] a@[j]) == ascii_lower(b@[j]),
        decreases a.len() - i,
    {
        if lower(a[i]) != lower(b[i]) {
            return false;
        }
        i = i + 1;
    }
    true
}

fn lower(c: char) -> (r: char)
    ensures
        r == ascii_lower(c),
{
    if 'A' <= c && c <= 'Z' {
        ((c as u8) + 32) as char
    } else {
        c
    }
}

/// The value of a digit in bases up to sixteen; sixteen for any other character.
pub fn digit(c: char) -> (r: u32)
    ensures
        r == digit_value(c),
{
    if '0' <= c && c <= '9' {
        c as u32 - '0' as u32
    } else if 'a' <= c && c <= 'f' {
        c as u32 - 'a' as u32 + 10
    } else if 'A' <= c && c <= 'F' {
        c as u32 - 'A' as u32 + 10
    } else {
        16
    }
}

/// More digits never make a numeral smaller.
pub proof fn lemma_numeral_grows(s: Seq<char>, radix: nat, k: int)
    requires
        radix >= 1,
        0 <= k <= s.len(),
    ensures
        numeral(s.take(k), radix) <= numeral(s, radix),
    decreases s.len() - k,
{
    if k < s.len() {
        lemma_numeral_grows(s, radix, k + 1);
        assert(s.take(k + 1).drop_last() == s.take(k));
        let n = numeral(s.take(k), radix);
        assert(n <= n * radix) by (nonlinear_arith)
            requires
                radix >= 1,
                n >= 0,
        ;
    } else {
        assert(s.take(k) == s);
    }
}

/// The number that the characters of `s` from `from` on spell in base `radix`, if they are
/// digits, at least one, and the number is at most `max`.
pub fn parse_numeral(s: &Vec<char>, from: usize, radix: u32, max: u32) -> (r: Option<u32>)
    requires
        from <= s.len(),
        2 <= radix <= 16,
        max <= 0xffff,
    ensures
        r == numeral_text(s@.skip(from as int), radix as nat, max as nat),
{
    let n: usize = s.len();
    if from == n {
        return None;
    }
    let ghost digits = s@.skip(from as int);
    let mut value: u32 = 0;
    let mut i: usize = from;
    while i < n
        invariant
            from <= i <= n == s.len(),
            2 <= radix <= 16,
            value <= max <= 0xffff,
            digits == s@.skip(from as int),
            forall|j: int| 0 <= j < i - from ==> digit_value(#[trigger] digits[j]) < radix,
            value == numeral(digits.take(i - from), radix as nat),
        decreases n - i,
    {
        let d = digit(s[i]);
        if d >= radix {
            assert(digits[i - from] == s@[i as int]);
            return None;
        }
        proof {
            let head = digits.take(i - from + 1);
            assert(head.drop_last() == digits.take(i - from));
            assert(head.last() == s@[i as int]);
            lemma_numeral_grows(digits, radix as nat, i - from + 1);
            assert(value * radix <= 0xffff * 16) by (nonlinear_arith)
                requires
                    0 <= value <= 0xffff,
                    0 <= radix <= 16,
            ;
        }
        value = value * radix + d;
        if value > max {
            return None;
        }
        i = i + 1;
    }
    assert(digits.take(n - from) == digits);
    Some(value)
}

/// The eight-bit number that `s` spells: an optional plus sign, then decimal digits.
pub fn parse_u8(s: &Vec<char>) -> (r: Option<u8>)
    ensures
        r == u8_text(s@),
{
    let from: usize = if s.len() > 0 && s[0] == '+' {
        1
    } else {
        0
    };
    assert(s@.skip(0) == s@);
    match parse_numeral(s, from, 10, 255) {
        Some(value) => Some(value as u8),
        None => None,
    }
}

fn digit_str(d: u32) -> (r: &'static str)
    requires
        d < 10,
    ensures
        r@ == seq![((d + '0' as u32) as u32) as char],
{
    proof {
        reveal_strlit("0");
        reveal_strlit("1");
        reveal_strlit("2");
        reveal_strlit("3");
        reveal_strlit("4");
        reveal_strlit("5");
        reveal_strlit("6");
        reveal_strlit("7");
        reveal_strlit("8");
        reveal_strlit("9");
    }
    if d == 0 {
        "0"
    } else if d == 1 {
        "1"
    } else if d == 2 {
        "2"
    } else if d == 3 {
        "3"
    } else if d == 4 {
        "4"
    } else if d == 5 {
        "5"
    } else if d == 6 {
        "6"
    } else if d == 7 {
        "7"
    } else if d == 8 {
        "8"
    } else {
        "9"
    }
}

/// The decimal digits of `n`.
pub fn decimal_string(n: u32) -> (r: String)
    ensures
        r@ == decimal(n as nat),
        r@.len() > 0,
        all_digits(r@, 10),
        numeral(r@, 10) == n,
        n > 0 ==> r@[0] != '0',
    decreases n,
{
    proof {
        law_decimal_text_reads_back(n as nat);
    }
    let last = digit_str(n % 10);
    if n < 10 {
        String::from_str(last)
    } else {
        let mut r = decimal_string(n / 10);
        r.append(last);
        r
    }
}

/// `head` followed by `tail`.
pub fn join(head: &str, tail: &str) -> (r: String)
    ensures
        r@ == head@ + tail@,
{
    let mut r = String::from_str(head);
    r.append(tail);
    r
}

/// The pieces `parts` with `sep` between them.
pub open spec fn joined(parts: Seq<Seq<char>>, sep: char) -> Seq<char>
    decreases parts.len(),
{
    if parts.len() == 0 {
        Seq::empty()
    } else if parts.len() == 1 {
        parts[0]
    } else {
        parts[0] + seq![sep] + joined(parts.skip(1), sep)
    }
}

/// No piece of `parts` holds `sep`.
pub open spec fn free_of(parts: Seq<Seq<char>>, sep: char) -> bool {
    forall|i: int| 0 <= i < parts.len() ==> !(#[trigger] parts[i]).contains(sep)
}

/// Splitting a text at its first separator.
pub proof fn lemma_split_at(head: Seq<char>, tail: Seq<char>, sep: char)
    requires
        !head.contains(sep),
    ensures
        split(head + seq![sep] + tail, sep) == seq![head] + split(tail, sep),
{
    let s = head + seq![sep] + tail;
    assert forall|j: int| 0 <= j < head.len() implies s[j] != sep by {
        assert(head.contains(head[j]));
    }
    lemma_first_index(s, sep, head.len());
    assert(s.take(head.len() as int) == head);
    assert(s.skip(head.len() as int + 1) == tail);
}

/// A text without separators is one piece.
pub proof fn lemma_split_of_one(s: Seq<char>, sep: char)
    requires
        !s.contains(sep),
    ensures
        split(s, sep) == seq![s],
{
    assert forall|j: int| 0 <= j < s.len() implies s[j] != sep by {
        assert(s.contains(s[j]));
    }
    lemma_first_index(s, sep, s.len());
}

/// Splitting gives back the pieces that were joined, where none of them holds the separator.
pub proof fn law_splitting_undoes_joining(parts: Seq<Seq<char>>, sep: char)
    requires
        parts.len() > 0,
        free_of(parts, sep),
    ensures
        split(joined(parts, sep), sep) == parts,
    decreases parts.len(),
{
    if parts.len() == 1 {
        lemma_split_of_one(parts[0], sep);
        assert(parts == seq![parts[0]]);
    } else {
        assert forall|i: int| 0 <= i < parts.skip(1).len() implies !(#[trigger] parts.skip(
            1,
        )[i]).contains(sep) by {
            assert(parts.skip(1)[i] == parts[i + 1]);
        }
        law_splitting_undoes_joining(parts.skip(1), sep);
        lemma_split_at(parts[0], joined(parts.skip(1), sep), sep);
        assert(parts == seq![parts[0]] + parts.skip(1));
    }
}

/// The pieces of a text are at least one, none of them holds the separator, and joined they
/// are the text.
pub proof fn law_joining_undoes_splitting(s: Seq<char>, sep: char)
    ensures
        split(s, sep).len() > 0,
        free_of(split(s, sep), sep),
        joined(split(s, sep), sep) == s,
    decreases s.len(),
{
    let k = first_index(s, sep);
    lemma_first_index_is_first(s, sep);
    if k < s.len() {
        let rest = s.skip(k as int + 1);
        law_joining_undoes_splitting(rest, sep);
        let parts = split(s, sep);
        assert(parts.skip(1) == split(rest, sep));
        assert forall|i: int| 0 <= i < parts.len() implies !(#[trigger] parts[i]).contains(
            sep,
        ) by {
            if i > 0 {
                assert(parts[i] == split(rest, sep)[i - 1]);
            }
        }
        assert(s == s.take(k as int) + seq![sep] + rest);
    }
}

proof fn lemma_first_index_is_first(s: Seq<char>, c: char)
    ensures
        first_index(s, c) <= s.len(),
        first_index(s, c) < s.len() ==> s[first_index(s, c) as int] == c,
        forall|j: int| 0 <= j < first_index(s, c) ==> s[j] != c,
    decreases s.len(),
{
    if s.len() > 0 && s[0] != c {
        lemma_first_index_is_first(s.skip(1), c);
        assert forall|j: int| 0 <= j < first_index(s, c) implies s[j] != c by {
            if j > 0 {
                assert(s[j] == s.skip(1)[j - 1]);
            }
        }
    }
}

/// The white space characters, by their code points.
pub proof fn law_white_space_code_points(c: char)
    ensures
        is_white_space(c) <==> {
            let p = c as u32;
            ||| 0x09 <= p <= 0x0d
            ||| p == 0x20
            ||| p == 0x85
            ||| p == 0xa0
            ||| p == 0x1680
            ||| 0x2000 <= p <= 0x200a
            ||| p == 0x2028
            ||| p == 0x2029
            ||| p == 0x202f
            ||| p == 0x205f
            ||| p == 0x3000
        },
{
}

/// `r` is `s` from `i` up to `j`: what is left out is white space, and what is left neither
/// begins nor ends with it.
pub open spec fn trims_to(s: Seq<char>, r: Seq<char>, i: int, j: int) -> bool {
    &&& 0 <= i <= j <= s.len()
    &&& r == s.subrange(i, j)
    &&& forall|k: int| 0 <= k < i ==> is_white_space(#[trigger] s[k])
    &&& forall|k: int| j <= k < s.len() ==> is_white_space(#[trigger] s[k])
    &&& i < j ==> !is_white_space(s[i]) && !is_white_space(s[j - 1])
}

proof fn lemma_trim_front(s: Seq<char>) -> (i: int)
    ensures
        0 <= i <= s.len(),
        trim_front(s) == s.skip(i),
        forall|k: int| 0 <= k < i ==> is_white_space(#[trigger] s[k]),
        i < s.len() ==> !is_white_space(s[i]),
    decreases s.len(),
{
    if s.len() > 0 && is_white_space(s[0]) {
        let i = lemma_trim_front(s.skip(1));
        assert(s.skip(1).skip(i) == s.skip(i + 1));
        assert forall|k: int| 0 <= k < i + 1 implies is_white_space(#[trigger] s[k]) by {
            if k > 0 {
                assert(s[k] == s.skip(1)[k - 1]);
            }
        }
        i + 1
    } else {
        assert(s.skip(0) == s);
        0
    }
}

proof fn lemma_trim_back(s: Seq<char>) -> (j: int)
    ensures
        0 <= j <= s.len(),
        trim_back(s) == s.take(j),
        forall|k: int| j <= k < s.len() ==> is_white_space(#[trigger] s[k]),
        j > 0 ==> !is_white_space(s[j - 1]),
    decreases s.len(),
{
    if s.len() > 0 && is_white_space(s.last()) {
        let j = lemma_trim_back(s.drop_last());
        assert(s.drop_last().take(j) == s.take(j));
        assert forall|k: int| j <= k < s.len() implies is_white_space(#[trigger] s[k]) by {
            if k < s.len() - 1 {
                assert(s[k] == s.drop_last()[k]);
            }
        }
        j
    } else {
        assert(s.take(s.len() as int) == s);
        s.len() as int
    }
}

/// Trimming takes away the white space at both ends, all of it and nothing else.
pub proof fn law_trimming_removes_the_outer_white_space(s: Seq<char>)
    ensures
        exists|i: int, j: int| trims_to(s, trimmed(s), i, j),
{
    let i = lemma_trim_front(s);
    let front = s.skip(i);
    let j = lemma_trim_back(front);
    assert(trimmed(s) == s.subrange(i, i + j));
    assert forall|k: int| i + j <= k < s.len() implies is_white_space(#[trigger] s[k]) by {
        assert(s[k] == front[k - i]);
    }
    if j > 0 {
        assert(s[i + j - 1] == front[j - 1]);
    }
    assert(trims_to(s, trimmed(s), i, i + j));
}

/// A text that neither begins nor ends with white space stays as it is.
pub proof fn law_trimming_keeps_what_is_trimmed(s: Seq<char>)
    requires
        s.len() > 0 ==> !is_white_space(s[0]) && !is_white_space(s.last()),
    ensures
        trimmed(s) == s,
{
}

/// Two texts are the same but for the case of ASCII letters exactly where they have the same
/// length and differ at most in a capital letter on one side and its small letter, which is
/// thirty-two code points further on, on the other.
pub proof fn law_case_is_all_that_is_ignored(a: Seq<char>, b: Seq<char>)
    ensures
        eq_ignore_case(a, b) <==> a.len() == b.len() && forall|i: int|
            #![trigger a[i]]
            0 <= i < a.len() ==> {
                ||| a[i] == b[i]
                ||| 'A' <= a[i] <= 'Z' && b[i] as u32 == a[i] as u32 + 32
                ||| 'A' <= b[i] <= 'Z' && a[i] as u32 == b[i] as u32 + 32
            },
{
    if a.len() == b.len() {
        assert forall|i: int| 0 <= i < a.len() implies (ascii_lower(#[trigger] a[i])
            == ascii_lower(b[i]) <==> {
            ||| a[i] == b[i]
            ||| 'A' <= a[i] <= 'Z' && b[i] as u32 == a[i] as u32 + 32
            ||| 'A' <= b[i] <= 'Z' && a[i] as u32 == b[i] as u32 + 32
        }) by {
            lemma_lower(a[i]);
            lemma_lower(b[i]);
        }
    }
}

proof fn lemma_lower(c: char)
    ensures
        'A' <= c <= 'Z' ==> ascii_lower(c) as u32 == c as u32 + 32,
{
}

/// The digits of base ten are `0` to `9`, in this order; those of base sixteen go on with the
/// letters from `a` to `f`, large or small. Nothing else is a digit.
pub proof fn law_digits(c: char)
    ensures
        '0' <= c <= '9' <==> digit_value(c) < 10,
        '0' <= c <= '9' ==> c as u32 == '0' as u32 + digit_value(c),
        ('a' <= c <= 'f' || 'A' <= c <= 'F') <==> 10 <= digit_value(c) < 16,
        'a' <= c <= 'f' ==> c as u32 + 10 == 'a' as u32 + digit_value(c),
        'A' <= c <= 'F' ==> c as u32 + 10 == 'A' as u32 + digit_value(c),
{
}

/// A numeral is read digit by digit, each of which counts one place less than the one before.
pub proof fn law_numerals_are_positional(s: Seq<char>, c: char, radix: nat)
    ensures
        numeral(Seq::empty(), radix) == 0,
        numeral(s.push(c), radix) == numeral(s, radix) * radix + digit_value(c),
{
    assert(s.push(c).drop_last() == s);
}

/// The decimal text of a number reads back as that number. It consists of digits, does not
/// begin with a zero unless it is the zero, and is as long as the number needs.
pub proof fn law_decimal_text_reads_back(n: nat)
    ensures
        decimal(n).len() > 0,
        all_digits(decimal(n), 10),
        numeral(decimal(n), 10) == n,
        n > 0 ==> decimal(n)[0] != '0',
        n < 10 ==> decimal(n).len() == 1,
        10 <= n < 100 ==> decimal(n).len() == 2,
        100 <= n < 1000 ==> decimal(n).len() == 3,
    decreases n,
{
    let last = ((n % 10) as u32 + '0' as u32) as char;
    assert(digit_value(last) == n % 10);
    if n < 10 {
        assert(decimal(n).drop_last() == Seq::<char>::empty());
        assert(numeral(Seq::<char>::empty(), 10) == 0);
    } else {
        law_decimal_text_reads_back(n / 10);
        assert(decimal(n).drop_last() == decimal(n / 10));
    }
}

/// Only one text of digits without a leading zero denotes a number: its decimal text.
pub proof fn law_decimal_text_is_the_only_one(s: Seq<char>)
    requires
        s.len() > 0,
        all_digits(s, 10),
        s.len() > 1 ==> s[0] != '0',
    ensures
        decimal(numeral(s, 10)) == s,
    decreases s.len(),
{
    let init = s.drop_last();
    let n = numeral(s, 10);
    let last = s.last();
    assert(digit_value(last) < 10) by {
        assert(digit_value(s[s.len() - 1]) < 10);
    }
    if s.len() == 1 {
        assert(numeral(init, 10) == 0);
        assert(s == seq![last]);
    } else {
        assert forall|i: int| 0 <= i < init.len() implies digit_value(#[trigger] init[i]) < 10 by {
            assert(init[i] == s[i]);
        }
        lemma_positive_numeral(init);
        law_decimal_text_is_the_only_one(init);
        assert(n == numeral(init, 10) * 10 + digit_value(last));
        assert(n / 10 == numeral(init, 10));
        assert(n % 10 == digit_value(last));
        assert(s == init.push(last));
    }
}

proof fn lemma_positive_numeral(s: Seq<char>)
    requires
        s.len() > 0,
        all_digits(s, 10),
        s[0] != '0',
    ensures
        numeral(s, 10) > 0,
    decreases s.len(),
{
    if s.len() == 1 {
        assert(numeral(s.drop_last(), 10) == 0);
        assert(digit_value(s[0]) < 10);
    } else {
        let init = s.drop_last();
        assert forall|i: int| 0 <= i < init.len() implies digit_value(#[trigger] init[i]) < 10 by {
            assert(init[i] == s[i]);
        }
        lemma_positive_numeral(init);
    }
}

/// A text spells a number up to a maximum exactly where it consists of digits, at least one,
/// that denote a number up to that maximum; and that is the number.
pub proof fn law_numerals_are_digits(s: Seq<char>, radix: nat, max: nat)
    requires
        max <= u32::MAX,
    ensures
        numeral_text(s, radix, max) is Some <==> s.len() > 0 && all_digits(s, radix) && numeral(
            s,
            radix,
        ) <= max,
        numeral_text(s, radix, max) matches Some(value) ==> value == numeral(s, radix),
{
}

/// A prefix length is a number up to 255 in decimal digits, with or without a plus sign.
pub proof fn law_prefix_lengths_are_decimal(s: Seq<char>)
    requires
        s.len() > 0 ==> s[0] != '+',
    ensures
        u8_text(s) is Some <==> s.len() > 0 && all_digits(s, 10) && numeral(s, 10) <= 255,
        u8_text(s) matches Some(n) ==> n == numeral(s, 10),
        u8_text(seq!['+'] + s) == u8_text(s),
{
    assert((seq!['+'] + s).skip(1) == s);
}

/// A prefix length has one plus sign at most.
pub proof fn law_prefix_lengths_have_one_sign(s: Seq<char>)
    ensures
        u8_text(seq!['+', '+'] + s) is None,
        u8_text(seq!['-'] + s) is None,
        u8_text(Seq::empty()) is None,
{
    let t = seq!['+', '+'] + s;
    assert(t.skip(1)[0] == '+');
    assert(digit_value(t.skip(1)[0]) == 16);
    let m = seq!['-'] + s;
    assert(m[0] == '-');
    assert(digit_value(m[0]) == 16);
}

/// A text consists of digits where each of its characters is one.
pub proof fn law_digits_one_by_one(s: Seq<char>, radix: nat)
    ensures
        all_digits(s, radix) <==> forall|i: int|
            0 <= i < s.len() ==> digit_value(#[trigger] s[i]) < radix,
{
}

/// Joining puts the separator between pieces, and only there.
pub proof fn law_joining_puts_the_separator_between(
    first: Seq<char>,
    rest: Seq<Seq<char>>,
    sep: char,
)
    ensures
        joined(Seq::empty(), sep) == Seq::<char>::empty(),
        joined(seq![first], sep) == first,
        rest.len() > 0 ==> joined(seq![first] + rest, sep) == first + seq![sep] + joined(rest, sep),
{
    assert((seq![first] + rest).skip(1) == rest);
}

} // verus!
