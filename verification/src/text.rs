//! Scanning and formatting helpers for the controller's flat JSON text.
//!
//! Texts are modelled as sequences of `char`s; every position below counts
//! characters. The scanning functions follow the `str` operations that read
//! a flat JSON object: substring search, `trim_start`/`trim` (Unicode
//! whitespace), and `u8`/`bool` parsing as `str::parse` does it.
use vstd::prelude::*;

verus! {

/// The characters of a string, in order.
pub fn chars_of(s: &str) -> (v: Vec<char>)
    ensures
        v@ == s@,
{
    let mut v: Vec<char> = Vec::new();
    for c in it: s.chars()
        invariant
            v@ == it.seq().take(it.index() as int),
    {
        v.push(c);
    }
    v
}

// ---------------------------------------------------------------- whitespace

/// Unicode `White_Space` (the property `char::is_whitespace` tests).
pub open spec fn is_whitespace(c: char) -> bool {
    let u: u32 = c as u32;
    ||| 0x09 <= u <= 0x0d
    ||| u == 0x20
    ||| u == 0x85
    ||| u == 0xa0
    ||| u == 0x1680
    ||| 0x2000 <= u <= 0x200a
    ||| u == 0x2028
    ||| u == 0x2029
    ||| u == 0x202f
    ||| u == 0x205f
    ||| u == 0x3000
}

/// Among ASCII characters, whitespace is exactly tab, line feed, vertical
/// tab, form feed, carriage return and space (as `char::is_whitespace` has it).
pub proof fn lemma_ascii_whitespace()
    ensures
        forall|c: char|
            (c as u32) < 0x80 ==> (#[trigger] is_whitespace(c) <==> (c == '\t' || c == '\n' || c
                == '\x0B' || c == '\x0C' || c == '\r' || c == ' ')),
        is_whitespace('\t'),
        is_whitespace('\n'),
        is_whitespace('\x0B'),
        is_whitespace('\x0C'),
        is_whitespace('\r'),
        is_whitespace(' '),
{
    assert forall|c: char| (c as u32) < 0x80 implies (#[trigger] is_whitespace(c) <==> (c == '\t'
        || c == '\n' || c == '\x0B' || c == '\x0C' || c == '\r' || c == ' ')) by {
        vstd::utf8::char_u32_cast(c, c as u32);
        vstd::utf8::char_u32_cast('\t', 9);
        vstd::utf8::char_u32_cast('\n', 10);
        vstd::utf8::char_u32_cast('\x0B', 11);
        vstd::utf8::char_u32_cast('\x0C', 12);
        vstd::utf8::char_u32_cast('\r', 13);
        vstd::utf8::char_u32_cast(' ', 32);
    }
}

/// Beyond ASCII, the Unicode `White_Space` characters: next line, no-break
/// space, ogham space mark, the spaces U+2000–U+200A, line and paragraph
/// separators, narrow no-break, medium mathematical and ideographic space;
/// the zero-width space, the Mongolian vowel separator and the byte order
/// mark are not whitespace.
pub proof fn lemma_unicode_whitespace()
    ensures
        is_whitespace('\u{85}'),
        is_whitespace('\u{a0}'),
        is_whitespace('\u{1680}'),
        forall|c: char| 0x2000 <= (c as u32) <= 0x200a ==> #[trigger] is_whitespace(c),
        is_whitespace('\u{2028}'),
        is_whitespace('\u{2029}'),
        is_whitespace('\u{202f}'),
        is_whitespace('\u{205f}'),
        is_whitespace('\u{3000}'),
        !is_whitespace('\u{200b}'),
        !is_whitespace('\u{180e}'),
        !is_whitespace('\u{feff}'),
{
}

/// Tests a character for Unicode `White_Space`.
pub fn is_whitespace_char(c: char) -> (r: bool)
    ensures
        r == is_whitespace(c),
{
    let u: u32 = c as u32;
    (0x09 <= u && u <= 0x0d) || u == 0x20 || u == 0x85 || u == 0xa0 || u == 0x1680 || (0x2000
        <= u && u <= 0x200a) || u == 0x2028 || u == 0x2029 || u == 0x202f || u == 0x205f || u
        == 0x3000
}

/// The text without its leading whitespace.
pub open spec fn trim_start(s: Seq<char>) -> Seq<char>
    decreases s.len(),
{
    if s.len() > 0 && is_whitespace(s[0]) {
        trim_start(s.drop_first())
    } else {
        s
    }
}

/// The text without its trailing whitespace.
pub open spec fn trim_end(s: Seq<char>) -> Seq<char>
    decreases s.len(),
{
    if s.len() > 0 && is_whitespace(s.last()) {
        trim_end(s.drop_last())
    } else {
        s
    }
}

/// The text without leading and trailing whitespace.
pub open spec fn trim(s: Seq<char>) -> Seq<char> {
    trim_end(trim_start(s))
}

/// Start of `s[lo..hi]` once its leading whitespace is skipped.
pub fn trim_start_at(s: &[char], lo: usize, hi: usize) -> (r: usize)
    requires
        lo <= hi <= s@.len(),
    ensures
        lo <= r <= hi,
        s@.subrange(r as int, hi as int) == trim_start(s@.subrange(lo as int, hi as int)),
{
    let mut i: usize = lo;
    while i < hi && is_whitespace_char(s[i])
        invariant
            lo <= i <= hi <= s@.len(),
            trim_start(s@.subrange(i as int, hi as int)) == trim_start(
                s@.subrange(lo as int, hi as int),
            ),
        decreases hi - i,
    {
        assert(s@.subrange(i as int, hi as int).drop_first() =~= s@.subrange(
            i + 1,
            hi as int,
        ));
        i = i + 1;
    }
    i
}

/// End of `s[lo..hi]` once its trailing whitespace is dropped.
pub fn trim_end_at(s: &[char], lo: usize, hi: usize) -> (r: usize)
    requires
        lo <= hi <= s@.len(),
    ensures
        lo <= r <= hi,
        s@.subrange(lo as int, r as int) == trim_end(s@.subrange(lo as int, hi as int)),
{
    let mut j: usize = hi;
    while j > lo && is_whitespace_char(s[j - 1])
        invariant
            lo <= j <= hi <= s@.len(),
            trim_end(s@.subrange(lo as int, j as int)) == trim_end(
                s@.subrange(lo as int, hi as int),
            ),
        decreases j - lo,
    {
        assert(s@.subrange(lo as int, j as int).drop_last() =~= s@.subrange(
            lo as int,
            j - 1,
        ));
        j = j - 1;
    }
    j
}

// ---------------------------------------------------------------- search

/// `needle` occurs in `hay` starting at position `i`.
pub open spec fn occurs_at(hay: Seq<char>, needle: Seq<char>, i: int) -> bool {
    &&& 0 <= i
    &&& i + needle.len() <= hay.len()
    &&& hay.subrange(i, i + needle.len()) == needle
}

/// The first position at or after `i` where `needle` occurs in `hay`.
pub open spec fn find_from(hay: Seq<char>, needle: Seq<char>, i: int) -> Option<int>
    decreases hay.len() + 1 - i,
{
    if i < 0 || i + needle.len() > hay.len() {
        None
    } else if occurs_at(hay, needle, i) {
        Some(i)
    } else {
        find_from(hay, needle, i + 1)
    }
}

/// What `find_from` returns: the first occurrence at or after `i`.
pub proof fn lemma_find_from_some(hay: Seq<char>, needle: Seq<char>, i: int)
    ensures
        find_from(hay, needle, i) matches Some(k) ==> {
            &&& i <= k
            &&& occurs_at(hay, needle, k)
            &&& forall|j: int| i <= j < k ==> !occurs_at(hay, needle, j)
        },
    decreases hay.len() + 1 - i,
{
    if i >= 0 && i + needle.len() <= hay.len() && !occurs_at(hay, needle, i) {
        lemma_find_from_some(hay, needle, i + 1);
    }
}

/// An occurrence at `k` with none in `[i, k)` is what `find_from` returns from `i`.
pub proof fn lemma_find_from_first(hay: Seq<char>, needle: Seq<char>, i: int, k: int)
    requires
        0 <= i <= k,
        occurs_at(hay, needle, k),
        forall|j: int| i <= j < k ==> !occurs_at(hay, needle, j),
    ensures
        find_from(hay, needle, i) == Some(k),
    decreases k - i,
{
    if i < k {
        lemma_find_from_first(hay, needle, i + 1, k);
    }
}

/// The first position where `needle` occurs in `hay` (as `str::find` with a string pattern).
pub open spec fn find(hay: Seq<char>, needle: Seq<char>) -> Option<int> {
    find_from(hay, needle, 0)
}

/// `needle` occurs in `hay` at position `i`.
fn occurs_here(hay: &[char], i: usize, needle: &[char]) -> (r: bool)
    requires
        i + needle@.len() <= hay@.len(),
    ensures
        r == (hay@.subrange(i as int, i + needle@.len()) == needle@),
{
    let mut k: usize = 0;
    while k < needle.len()
        invariant
            k <= needle@.len(),
            i + needle@.len() <= hay.len(),
            forall|m: int| 0 <= m < k ==> hay@[i + m] == needle@[m],
        decreases needle@.len() - k,
    {
        if hay[i + k] != needle[k] {
            assert(hay@.subrange(i as int, i + needle@.len())[k as int] != needle@[k as int]);
            return false;
        }
        k = k + 1;
    }
    assert(hay@.subrange(i as int, i + needle@.len()) =~= needle@);
    true
}

/// The first position, counted from `lo`, where `needle` occurs in `hay[lo..hi]`.
pub fn find_in(hay: &[char], lo: usize, hi: usize, needle: &[char]) -> (r: Option<usize>)
    requires
        lo <= hi <= hay@.len(),
    ensures
        match r {
            Some(j) => find(hay@.subrange(lo as int, hi as int), needle@) == Some(j as int),
            None => find(hay@.subrange(lo as int, hi as int), needle@) is None,
        },
{
    let ghost sub = hay@.subrange(lo as int, hi as int);
    let mut i: usize = lo;
    while i <= hi && needle.len() <= hi - i
        invariant
            lo <= i,
            hi <= hay@.len(),
            sub == hay@.subrange(lo as int, hi as int),
            find(sub, needle@) == find_from(sub, needle@, i - lo),
        decreases hi + 1 - i,
    {
        if occurs_here(hay, i, needle) {
            assert(sub.subrange(i - lo, i - lo + needle@.len()) =~= hay@.subrange(
                i as int,
                i + needle@.len(),
            ));
            return Some(i - lo);
        }
        assert(sub.subrange(i - lo, i - lo + needle@.len()) =~= hay@.subrange(
            i as int,
            i + needle@.len(),
        ));
        proof {
            if i == hi {
                assert(hay@.subrange(i as int, i as int) =~= needle@);
            }
        }
        i = i + 1;
    }
    None
}

// ---------------------------------------------------------------- values

/// Characters that end a value in the flat JSON text.
pub open spec fn is_terminator(c: char) -> bool {
    c == ',' || c == '}'
}

/// The first position at or after `i` that holds a terminator, or the length.
pub open spec fn value_end_from(s: Seq<char>, i: int) -> int
    decreases s.len() - i,
{
    if i < 0 || i >= s.len() {
        s.len() as int
    } else if is_terminator(s[i]) {
        i
    } else {
        value_end_from(s, i + 1)
    }
}

/// The first position that holds `,` or `}`, or the length when there is none.
pub open spec fn value_end(s: Seq<char>) -> int {
    value_end_from(s, 0)
}

/// End of the value that starts at `lo` in `s[..hi]`, as an absolute position.
pub fn value_end_at(s: &[char], lo: usize, hi: usize) -> (r: usize)
    requires
        lo <= hi <= s@.len(),
    ensures
        lo <= r <= hi,
        r - lo == value_end(s@.subrange(lo as int, hi as int)),
{
    let ghost sub = s@.subrange(lo as int, hi as int);
    let mut i: usize = lo;
    while i < hi && !(s[i] == ',' || s[i] == '}')
        invariant
            lo <= i <= hi <= s@.len(),
            sub == s@.subrange(lo as int, hi as int),
            value_end(sub) == value_end_from(sub, i - lo),
        decreases hi - i,
    {
        i = i + 1;
    }
    i
}

/// The text with a double quote on each side.
pub open spec fn quoted(key: Seq<char>) -> Seq<char> {
    seq!['"'] + key + seq!['"']
}

/// The raw text of the value of `key` in a flat JSON object: the text after
/// the first `"key"`, past the next `:`, up to the next `,` or `}`, trimmed.
pub open spec fn field_value(json: Seq<char>, key: Seq<char>) -> Option<Seq<char>> {
    match find(json, quoted(key)) {
        None => None,
        Some(i) => {
            let after_key = i + quoted(key).len();
            match find(json.subrange(after_key, json.len() as int), seq![':']) {
                None => None,
                Some(j) => {
                    let value = trim_start(json.subrange(after_key + j + 1, json.len() as int));
                    Some(trim(value.subrange(0, value_end(value))))
                },
            }
        },
    }
}

/// Where the value of `key` lies in `json`, as a range of positions.
pub fn field_bounds(json: &[char], key: &[char]) -> (r: Option<(usize, usize)>)
    ensures
        match r {
            Some((a, b)) => a <= b <= json@.len() && field_value(json@, key@) == Some(
                json@.subrange(a as int, b as int),
            ),
            None => field_value(json@, key@) is None,
        },
{
    let mut needle: Vec<char> = Vec::new();
    needle.push('"');
    let mut k: usize = 0;
    while k < key.len()
        invariant
            k <= key@.len(),
            needle@ == seq!['"'] + key@.subrange(0, k as int),
        decreases key@.len() - k,
    {
        needle.push(key[k]);
        assert(key@.subrange(0, k + 1) =~= key@.subrange(0, k as int).push(key@[k as int]));
        k = k + 1;
    }
    needle.push('"');
    assert(key@.subrange(0, key@.len() as int) =~= key@);
    assert(needle@ =~= quoted(key@));
    let len: usize = json.len();
    let i: usize = match find_in(json, 0, len, needle.as_slice()) {
        Some(i) => i,
        None => {
            assert(json@.subrange(0, len as int) =~= json@);
            return None;
        },
    };
    assert(json@.subrange(0, len as int) =~= json@);
    proof {
        lemma_find_from_some(json@, needle@, 0);
    }
    let after_key: usize = i + needle.len();
    let colon = [':'];
    assert(colon@ =~= seq![':']);
    let j: usize = match find_in(json, after_key, len, &colon) {
        Some(j) => j,
        None => return None,
    };
    proof {
        lemma_find_from_some(json@.subrange(after_key as int, len as int), seq![':'], 0);
    }
    let after_colon: usize = after_key + j + 1;
    let start: usize = trim_start_at(json, after_colon, len);
    let end: usize = value_end_at(json, start, len);
    let ghost value = json@.subrange(start as int, len as int);
    assert(value.subrange(0, end - start) =~= json@.subrange(start as int, end as int));
    let a: usize = trim_start_at(json, start, end);
    let b: usize = trim_end_at(json, a, end);
    Some((a, b))
}

// ---------------------------------------------------------------- numbers

/// An ASCII decimal digit.
pub open spec fn is_digit(c: char) -> bool {
    48 <= (c as u32) <= 57
}

/// The value of a decimal digit.
pub open spec fn digit_value(c: char) -> nat {
    ((c as u32) - 48) as nat
}

/// Every character of the text is a decimal digit.
pub open spec fn all_digits(s: Seq<char>) -> bool {
    forall|i: int| 0 <= i < s.len() ==> #[trigger] is_digit(s[i])
}

/// The number a string of decimal digits denotes.
pub open spec fn digits_value(s: Seq<char>) -> nat
    decreases s.len(),
{
    if s.len() == 0 {
        0
    } else {
        digits_value(s.drop_last()) * 10 + digit_value(s.last())
    }
}

/// The digits of an unsigned number: the text without one leading `+`.
pub open spec fn unsigned_digits(s: Seq<char>) -> Seq<char> {
    if s.len() > 0 && s[0] == '+' {
        s.drop_first()
    } else {
        s
    }
}

/// What `str::parse::<u8>` makes of a text: an optional `+`, then at least
/// one decimal digit, denoting at most 255; anything else is refused.
pub open spec fn parse_u8(s: Seq<char>) -> Option<u8> {
    let d = unsigned_digits(s);
    if d.len() > 0 && all_digits(d) && digits_value(d) <= 255 {
        Some(digits_value(d) as u8)
    } else {
        None
    }
}

/// `str::parse::<u8>` on decimal text: the decimal text of every byte reads
/// back as that byte, also after one `+`; a `-` sign, an empty text and a
/// lone `+` are refused, and so is the text of 256.
pub proof fn lemma_parse_u8_laws(n: u8)
    ensures
        parse_u8(decimal(n as nat)) == Some(n),
        parse_u8(seq!['+'] + decimal(n as nat)) == Some(n),
        parse_u8(seq!['-'] + decimal(n as nat)) is None,
        parse_u8(Seq::<char>::empty()) is None,
        parse_u8(seq!['+']) is None,
        parse_u8(seq!['2', '5', '6']) is None,
        parse_u8(seq!['2', '5', '5']) == Some(255u8),
{
    lemma_parse_decimal(n);
    lemma_decimal(n as nat);
    let plus = seq!['+'] + decimal(n as nat);
    assert(plus[0] == '+' && plus.len() > 0);
    assert(plus.drop_first() =~= decimal(n as nat));
    assert(unsigned_digits(plus) == decimal(n as nat));
    let m = seq!['-'] + decimal(n as nat);
    assert(m[0] == '-');
    assert(!is_digit(m[0]));
    assert(seq!['+'].drop_first() =~= Seq::<char>::empty());
    let t = seq!['2', '5', '6'];
    assert(t.drop_last() =~= seq!['2', '5']);
    assert(seq!['2', '5'].drop_last() =~= seq!['2']);
    assert(seq!['2'].drop_last() =~= Seq::<char>::empty());
    assert(digits_value(seq!['2']) == 2);
    assert(digits_value(seq!['2', '5']) == 25);
    assert(digits_value(t) == 256);
    let u = seq!['2', '5', '5'];
    assert(u.drop_last() =~= seq!['2', '5']);
    assert(digits_value(u) == 255);
    assert(all_digits(u));
}

/// A longer string of digits denotes at least as much as its prefix.
proof fn lemma_digits_value_prefix(s: Seq<char>, k: int)
    requires
        0 <= k <= s.len(),
        all_digits(s),
    ensures
        digits_value(s.take(k)) <= digits_value(s),
    decreases s.len(),
{
    if k < s.len() {
        assert(s.drop_last().take(k) =~= s.take(k));
        assert(all_digits(s.drop_last())) by {
            assert forall|i: int| 0 <= i < s.drop_last().len() implies #[trigger] is_digit(
                s.drop_last()[i],
            ) by {
                assert(is_digit(s[i]));
            }
        }
        lemma_digits_value_prefix(s.drop_last(), k);
    } else {
        assert(s.take(k) =~= s);
    }
}

/// Parses `s[lo..hi]` as `str::parse::<u8>` does.
pub fn parse_u8_at(s: &[char], lo: usize, hi: usize) -> (r: Option<u8>)
    requires
        lo <= hi <= s@.len(),
    ensures
        r == parse_u8(s@.subrange(lo as int, hi as int)),
{
    let ghost text = s@.subrange(lo as int, hi as int);
    let mut start: usize = lo;
    if start < hi && s[start] == '+' {
        start = start + 1;
    }
    let ghost d = s@.subrange(start as int, hi as int);
    assert(unsigned_digits(text) =~= d);
    if start == hi {
        return None;
    }
    let mut acc: u16 = 0;
    let mut i: usize = start;
    while i < hi
        invariant
            lo <= start,
            start <= i <= hi <= s@.len(),
            text == s@.subrange(lo as int, hi as int),
            d == s@.subrange(start as int, hi as int),
            unsigned_digits(text) == d,
            d.len() > 0,
            all_digits(d.take(i - start)),
            acc == digits_value(d.take(i - start)),
            acc <= 255,
        decreases hi - i,
    {
        let c: char = s[i];
        let u: u32 = c as u32;
        assert(d[i - start] == c);
        if !(48 <= u && u <= 57) {
            assert(!is_digit(d[i - start]));
            return None;
        }
        let ghost k = i - start;
        assert(d.take(k + 1).drop_last() =~= d.take(k));
        assert(d.take(k + 1).last() == c);
        assert(all_digits(d.take(k + 1))) by {
            assert forall|m: int| 0 <= m < d.take(k + 1).len() implies #[trigger] is_digit(
                d.take(k + 1)[m],
            ) by {
                if m < k {
                    assert(d.take(k + 1)[m] == d.take(k)[m]);
                }
            }
        }
        acc = acc * 10 + ((u - 48) as u16);
        assert(digits_value(d.take(k + 1)) == acc);
        if acc > 255 {
            proof {
                if all_digits(d) {
                    lemma_digits_value_prefix(d, k + 1);
                }
            }
            return None;
        }
        i = i + 1;
    }
    assert(d.take(i - start) =~= d);
    Some(acc as u8)
}

/// What `str::parse::<bool>` makes of a text: exactly `true` or `false`.
pub open spec fn parse_bool(s: Seq<char>) -> Option<bool> {
    if s == seq!['t', 'r', 'u', 'e'] {
        Some(true)
    } else if s == seq!['f', 'a', 'l', 's', 'e'] {
        Some(false)
    } else {
        None
    }
}

/// Parses `s[lo..hi]` as `str::parse::<bool>` does.
pub fn parse_bool_at(s: &[char], lo: usize, hi: usize) -> (r: Option<bool>)
    requires
        lo <= hi <= s@.len(),
    ensures
        r == parse_bool(s@.subrange(lo as int, hi as int)),
{
    let ghost text = s@.subrange(lo as int, hi as int);
    let t = ['t', 'r', 'u', 'e'];
    let f = ['f', 'a', 'l', 's', 'e'];
    assert(t@ =~= seq!['t', 'r', 'u', 'e']);
    assert(f@ =~= seq!['f', 'a', 'l', 's', 'e']);
    if hi - lo == 4 && occurs_here(s, lo, &t) {
        return Some(true);
    }
    if hi - lo == 5 && occurs_here(s, lo, &f) {
        return Some(false);
    }
    proof {
        if text == seq!['t', 'r', 'u', 'e'] {
            assert(s@.subrange(lo as int, lo + 4) =~= text);
        }
        if text == seq!['f', 'a', 'l', 's', 'e'] {
            assert(s@.subrange(lo as int, lo + 5) =~= text);
        }
    }
    None
}

// ---------------------------------------------------------------- formatting

/// The character of a decimal digit.
pub open spec fn digit_char(d: nat) -> char {
    if d == 0 {
        '0'
    } else if d == 1 {
        '1'
    } else if d == 2 {
        '2'
    } else if d == 3 {
        '3'
    } else if d == 4 {
        '4'
    } else if d == 5 {
        '5'
    } else if d == 6 {
        '6'
    } else if d == 7 {
        '7'
    } else if d == 8 {
        '8'
    } else {
        '9'
    }
}

/// The decimal text of a number, without leading zeros (as `Display` writes it).
pub open spec fn decimal(n: nat) -> Seq<char>
    decreases n,
{
    if n < 10 {
        seq![digit_char(n)]
    } else {
        decimal(n / 10) + seq![digit_char(n % 10)]
    }
}

/// Appends one decimal digit to a string.
fn push_digit(out: &mut String, d: u8)
    requires
        d < 10,
    ensures
        final(out)@ == old(out)@ + seq![digit_char(d as nat)],
{
    match d {
        0 => {
            proof {
                reveal_strlit("0");
            }
            out.append("0");
        },
        1 => {
            proof {
                reveal_strlit("1");
            }
            out.append("1");
        },
        2 => {
            proof {
                reveal_strlit("2");
            }
            out.append("2");
        },
        3 => {
            proof {
                reveal_strlit("3");
            }
            out.append("3");
        },
        4 => {
            proof {
                reveal_strlit("4");
            }
            out.append("4");
        },
        5 => {
            proof {
                reveal_strlit("5");
            }
            out.append("5");
        },
        6 => {
            proof {
                reveal_strlit("6");
            }
            out.append("6");
        },
        7 => {
            proof {
                reveal_strlit("7");
            }
            out.append("7");
        },
        8 => {
            proof {
                reveal_strlit("8");
            }
            out.append("8");
        },
        _ => {
            proof {
                reveal_strlit("9");
            }
            out.append("9");
        },
    }
}

/// Appends the decimal text of a byte to a string.
pub fn push_decimal(out: &mut String, n: u8)
    ensures
        final(out)@ == old(out)@ + decimal(n as nat),
{
    if n >= 100 {
        push_digit(out, n / 100);
    }
    if n >= 10 {
        push_digit(out, (n / 10) % 10);
    }
    push_digit(out, n % 10);
    proof {
        let v = n as nat;
        if v >= 100 {
            assert(decimal(v / 100) == seq![digit_char(v / 100)]);
            assert((v / 10) / 10 == v / 100);
            assert(decimal(v / 10) == decimal(v / 100) + seq![digit_char((v / 10) % 10)]);
        } else if v >= 10 {
            assert(decimal(v / 10) == seq![digit_char(v / 10)]);
        }
        assert(final(out)@ =~= old(out)@ + decimal(v));
    }
}

// ---------------------------------------------------------------- reading back

/// No double quote in `s` is directly followed by `c`.
pub open spec fn no_quote_then(s: Seq<char>, c: char) -> bool {
    forall|i: int| 0 <= i < s.len() - 1 ==> !(#[trigger] s[i] == '"' && s[i + 1] == c)
}

/// The text holds no double quote.
pub open spec fn no_quote(s: Seq<char>) -> bool {
    forall|i: int| 0 <= i < s.len() ==> #[trigger] s[i] != '"'
}

pub proof fn lemma_no_quote_then_of_no_quote(s: Seq<char>, c: char)
    requires
        no_quote(s),
    ensures
        no_quote_then(s, c),
{
    assert forall|i: int| 0 <= i < s.len() - 1 implies !(#[trigger] s[i] == '"' && s[i + 1]
        == c) by {
        assert(s[i] != '"');
    }
}

pub proof fn lemma_no_quote_then_concat(a: Seq<char>, b: Seq<char>, c: char)
    requires
        no_quote_then(a, c),
        no_quote_then(b, c),
        a.len() > 0 ==> a.last() != '"',
    ensures
        no_quote_then(a + b, c),
{
    let s = a + b;
    assert forall|i: int| 0 <= i < s.len() - 1 implies !(#[trigger] s[i] == '"' && s[i + 1]
        == c) by {
        if i < a.len() - 1 {
            assert(s[i] == a[i] && s[i + 1] == a[i + 1]);
        } else if i == a.len() - 1 {
            assert(s[i] == a.last());
        } else {
            assert(s[i] == b[i - a.len()] && s[i + 1] == b[i - a.len() + 1]);
        }
    }
}

/// A key, quoted and followed by its colon, cannot start a quoted `c…` unless `c` is its first letter.
pub proof fn lemma_no_quote_then_key(key: Seq<char>, c: char)
    requires
        key.len() > 0,
        no_quote(key),
        c != key[0],
        c != ':',
    ensures
        no_quote_then(quoted(key) + seq![':'], c),
{
    let s = quoted(key) + seq![':'];
    assert forall|i: int| 0 <= i < s.len() - 1 implies !(#[trigger] s[i] == '"' && s[i + 1]
        == c) by {
        if i == 0 {
            assert(s[1] == key[0]);
        } else if i <= key.len() {
            assert(s[i] == key[i - 1]);
        } else {
            assert(s[i + 1] == ':');
        }
    }
}

/// A terminator at `k` with none in `[i, k)` is where the value that starts at `i` ends.
pub proof fn lemma_value_end_first(s: Seq<char>, i: int, k: int)
    requires
        0 <= i <= k < s.len(),
        is_terminator(s[k]),
        forall|j: int| i <= j < k ==> !is_terminator(#[trigger] s[j]),
    ensures
        value_end_from(s, i) == k,
    decreases k - i,
{
    if i < k {
        lemma_value_end_first(s, i + 1, k);
    }
}

/// `trim_start` keeps a suffix of the text.
pub proof fn lemma_trim_start_suffix(s: Seq<char>)
    ensures
        trim_start(s).len() <= s.len(),
        trim_start(s) == s.subrange(s.len() - trim_start(s).len(), s.len() as int),
        trim_start(s).len() == 0 || !is_whitespace(trim_start(s)[0]),
    decreases s.len(),
{
    if s.len() > 0 && is_whitespace(s[0]) {
        lemma_trim_start_suffix(s.drop_first());
        let t = trim_start(s.drop_first());
        assert(s.drop_first().subrange(s.drop_first().len() - t.len(), s.drop_first().len() as int)
            =~= s.subrange(s.len() - t.len(), s.len() as int));
    } else {
        assert(s.subrange(0, s.len() as int) =~= s);
    }
}

/// Leading whitespace of `a + b`: once `a` is all whitespace, that of `b` too.
proof fn lemma_trim_start_append(a: Seq<char>, b: Seq<char>)
    ensures
        trim_start(a + b) == if trim_start(a).len() > 0 {
            trim_start(a) + b
        } else {
            trim_start(b)
        },
    decreases a.len(),
{
    if a.len() == 0 {
        assert(a + b =~= b);
    } else if is_whitespace(a[0]) {
        assert((a + b).drop_first() =~= a.drop_first() + b);
        lemma_trim_start_append(a.drop_first(), b);
    } else {
        assert((a + b)[0] == a[0]);
    }
}

/// Trimming drops a whitespace character put before or after a text: a
/// value followed by a newline or a tab reads as the bare value.
pub proof fn lemma_trim_ignores_whitespace(v: Seq<char>, c: char)
    requires
        c == '\t' || c == '\n' || c == '\x0B' || c == '\x0C' || c == '\r' || c == ' '
            || is_whitespace(c),
    ensures
        trim(seq![c] + v) == trim(v),
        trim(v + seq![c]) == trim(v),
{
    lemma_ascii_whitespace();
    assert(is_whitespace(c));
    assert((seq![c] + v).drop_first() =~= v);
    lemma_trim_start_append(v, seq![c]);
    let w = trim_start(v);
    if w.len() > 0 {
        assert((w + seq![c]).drop_last() =~= w);
    } else {
        assert(seq![c].drop_first() =~= Seq::<char>::empty());
        assert(trim_start(seq![c]) == trim_start(Seq::<char>::empty()));
    }
}

/// Leading whitespace of `a + b` is that of `a` when `b` starts with something else.
pub proof fn lemma_trim_start_concat(a: Seq<char>, b: Seq<char>)
    requires
        b.len() > 0,
        !is_whitespace(b[0]),
    ensures
        trim_start(a + b) == trim_start(a) + b,
    decreases a.len(),
{
    if a.len() == 0 {
        assert(a + b =~= b);
        assert(trim_start(a) + b =~= b);
    } else if is_whitespace(a[0]) {
        assert((a + b).drop_first() =~= a.drop_first() + b);
        lemma_trim_start_concat(a.drop_first(), b);
    } else {
        assert((a + b)[0] == a[0]);
    }
}

/// In `pre + "key" + ':' + val + post`, where no earlier quote can start
/// `"key"`, `val` holds no terminator and `post` starts with one, the value of
/// `key` is `val` trimmed.
pub proof fn lemma_field_value_of_member(
    pre: Seq<char>,
    key: Seq<char>,
    val: Seq<char>,
    post: Seq<char>,
)
    requires
        key.len() > 0,
        key[0] != '"',
        no_quote_then(pre, key[0]),
        forall|j: int| 0 <= j < val.len() ==> !is_terminator(#[trigger] val[j]),
        post.len() > 0,
        is_terminator(post[0]),
    ensures
        field_value(pre + quoted(key) + seq![':'] + val + post, key) == Some(trim(val)),
{
    let n = quoted(key);
    let t = pre + n + seq![':'] + val + post;
    let p = pre.len() as int;
    // The quoted key first occurs right after `pre`.
    assert(t.subrange(p, p + n.len()) =~= n);
    assert forall|j: int| 0 <= j < p implies !occurs_at(t, n, j) by {
        if occurs_at(t, n, j) {
            assert(t.subrange(j, j + n.len())[0] == t[j]);
            assert(t.subrange(j, j + n.len())[1] == t[j + 1]);
            assert(n[0] == '"' && n[1] == key[0]);
            if j < p - 1 {
                assert(t[j] == pre[j] && t[j + 1] == pre[j + 1]);
            } else {
                assert(t[j + 1] == n[0]);
            }
        }
    }
    lemma_find_from_first(t, n, 0, p);
    // The colon follows at once.
    let after_key = p + n.len();
    let rest = t.subrange(after_key, t.len() as int);
    assert(rest.subrange(0, 1) =~= seq![':']);
    lemma_find_from_first(rest, seq![':'], 0, 0);
    // The value is `val` without its leading whitespace, up to the terminator
    // that starts `post`, then trimmed.
    let v = t.subrange(after_key + 1, t.len() as int);
    assert(v =~= val + post);
    lemma_trim_start_concat(val, post);
    let w = trim_start(val);
    lemma_trim_start_suffix(val);
    let u = w + post;
    assert forall|j: int| 0 <= j < w.len() implies !is_terminator(#[trigger] u[j]) by {
        assert(u[j] == w[j]);
        assert(w[j] == val[val.len() - w.len() + j]);
    }
    assert(u[w.len() as int] == post[0]);
    lemma_value_end_first(u, 0, w.len() as int);
    assert(u.subrange(0, w.len() as int) =~= w);
    assert(trim_start(w) == w);
}

proof fn lemma_digit_char(d: nat)
    requires
        d < 10,
    ensures
        is_digit(digit_char(d)),
        digit_value(digit_char(d)) == d,
        digit_char(d) != '+',
{
}

/// The decimal text of a number is a non-empty string of digits that denotes it.
pub proof fn lemma_decimal(n: nat)
    ensures
        decimal(n).len() > 0,
        all_digits(decimal(n)),
        digits_value(decimal(n)) == n,
    decreases n,
{
    lemma_digit_char(n % 10);
    if n < 10 {
        let d = decimal(n);
        assert(d.drop_last() =~= Seq::<char>::empty());
        assert(n % 10 == n);
        assert(d.last() == digit_char(n));
        assert(digits_value(d) == digits_value(d.drop_last()) * 10 + digit_value(d.last()));
    } else {
        lemma_decimal(n / 10);
        let d = decimal(n);
        assert(d.drop_last() =~= decimal(n / 10));
        assert(d.last() == digit_char(n % 10));
        assert(digits_value(d) == digits_value(d.drop_last()) * 10 + digit_value(d.last()));
        assert((n / 10) * 10 + n % 10 == n);
        assert forall|i: int| 0 <= i < d.len() implies #[trigger] is_digit(d[i]) by {
            if i < d.len() - 1 {
                assert(d[i] == decimal(n / 10)[i]);
            }
        }
    }
}

/// Reading back the decimal text of a byte gives the byte.
pub proof fn lemma_parse_decimal(n: u8)
    ensures
        parse_u8(decimal(n as nat)) == Some(n),
{
    lemma_decimal(n as nat);
    let d = decimal(n as nat);
    assert(is_digit(d[0]));
    assert(unsigned_digits(d) == d);
}

} // verus!
