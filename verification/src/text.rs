//! Text primitives: a string is seen as its sequence of characters.

use vstd::prelude::*;
use vstd::utf8::*;

verus! {

/// `needle` stands in `hay` at position `i`.
pub open spec fn occurs_at(hay: Seq<char>, needle: Seq<char>, i: int) -> bool {
    &&& 0 <= i
    &&& i + needle.len() <= hay.len()
    &&& hay.subrange(i, i + needle.len()) == needle
}

/// `needle` stands somewhere in `hay`.
pub open spec fn has_text(hay: Seq<char>, needle: Seq<char>) -> bool {
    exists|i: int| occurs_at(hay, needle, i)
}

/// The first position at which `needle` stands in `hay`.
pub open spec fn first_at(hay: Seq<char>, needle: Seq<char>, i: int) -> bool {
    &&& occurs_at(hay, needle, i)
    &&& forall|j: int| 0 <= j < i ==> !occurs_at(hay, needle, j)
}

/// `s` begins with `prefix`.
pub open spec fn begins_with(s: Seq<char>, prefix: Seq<char>) -> bool {
    occurs_at(s, prefix, 0)
}

/// `s` ends with `suffix`.
pub open spec fn finishes_with(s: Seq<char>, suffix: Seq<char>) -> bool {
    occurs_at(s, suffix, s.len() - suffix.len())
}

/// ASCII upper-case letters become lower case; every other character stays.
pub open spec fn ascii_lower_char(c: char) -> char {
    if 'A' <= c && c <= 'Z' {
        ((c as u8) + 32) as u8 as char
    } else {
        c
    }
}

/// [`ascii_lower_char`] on every character.
pub open spec fn ascii_lower(s: Seq<char>) -> Seq<char> {
    s.map_values(|c: char| ascii_lower_char(c))
}

/// The Unicode `White_Space` characters.
pub open spec fn is_white(c: char) -> bool {
    ||| '\u{9}' <= c && c <= '\u{d}'
    ||| c == '\u{20}'
    ||| c == '\u{85}'
    ||| c == '\u{a0}'
    ||| c == '\u{1680}'
    ||| '\u{2000}' <= c && c <= '\u{200a}'
    ||| c == '\u{2028}'
    ||| c == '\u{2029}'
    ||| c == '\u{202f}'
    ||| c == '\u{205f}'
    ||| c == '\u{3000}'
}

/// `s` without the white space at its front.
pub open spec fn trim_front(s: Seq<char>) -> Seq<char>
    decreases s.len(),
{
    if s.len() > 0 && is_white(s[0]) {
        trim_front(s.skip(1))
    } else {
        s
    }
}

/// `s` without the white space at its end.
pub open spec fn trim_back(s: Seq<char>) -> Seq<char>
    decreases s.len(),
{
    if s.len() > 0 && is_white(s.last()) {
        trim_back(s.drop_last())
    } else {
        s
    }
}

/// `s` without the white space at either end.
pub open spec fn trimmed(s: Seq<char>) -> Seq<char> {
    trim_back(trim_front(s))
}

/// The words of `s` in order, one space between two of them: every run of
/// white space inside is one space, the white space at either end is gone.
pub open spec fn words_joined(s: Seq<char>) -> Seq<char>
    decreases s.len(),
{
    if s.len() == 0 {
        s
    } else {
        let head = words_joined(s.drop_last());
        if is_white(s.last()) {
            head
        } else if head.len() > 0 && is_white(s[s.len() - 2]) {
            head.push(' ').push(s.last())
        } else {
            head.push(s.last())
        }
    }
}

/// The decimal digits of `n`.
pub open spec fn decimal(n: nat) -> Seq<char>
    decreases n,
{
    if n < 10 {
        seq![digit_char(n)]
    } else {
        decimal(n / 10).push(digit_char(n % 10))
    }
}

/// The character of a digit below ten.
pub open spec fn digit_char(d: nat) -> char {
    ((48 + d) as u8) as char
}

/// `c` is one of `0` to `9`.
pub open spec fn is_digit(c: char) -> bool {
    '0' <= c && c <= '9'
}

/// The number that a sequence of decimal digits spells.
pub open spec fn digits_value(s: Seq<char>) -> nat
    decreases s.len(),
{
    if s.len() == 0 {
        0
    } else {
        digits_value(s.drop_last()) * 10 + (s.last() as nat - 48) as nat
    }
}

/// Every character is a decimal digit.
pub open spec fn all_digits(s: Seq<char>) -> bool {
    forall|i: int| 0 <= i < s.len() ==> is_digit(#[trigger] s[i])
}

/// What an unsigned decimal number in `s` is: an optional plus sign, then one
/// digit or more and nothing else.
pub open spec fn unsigned_value(s: Seq<char>) -> Option<nat> {
    let digits = if s.len() > 0 && s[0] == '+' { s.skip(1) } else { s };
    if digits.len() > 0 && all_digits(digits) {
        Some(digits_value(digits))
    } else {
        None
    }
}

/// Lexicographic order by code point.
pub open spec fn precedes(a: Seq<char>, b: Seq<char>) -> bool
    decreases a.len(),
{
    if b.len() == 0 {
        false
    } else if a.len() == 0 {
        true
    } else if a[0] != b[0] {
        a[0] < b[0]
    } else {
        precedes(a.skip(1), b.skip(1))
    }
}

/// What [`str::to_lowercase`] makes of a text.
pub uninterp spec fn unicode_lower(s: Seq<char>) -> Seq<char>;

/// What [`String::from_utf8_lossy`] makes of bytes.
pub uninterp spec fn lossy_utf8(bytes: Seq<u8>) -> Seq<char>;

/// [`String::push`] puts one character behind the text.
pub assume_specification[ std::string::String::push ](s: &mut String, ch: char)
    ensures
        final(s)@ == old(s)@.push(ch),
;

/// [`str::to_lowercase`]: the Unicode lower-case mapping, a function of the
/// text alone, which goes by the name [`unicode_lower`] here.
#[verifier::external_body]
pub(crate) fn lowercase(s: &str) -> (out: String)
    ensures
        out@ == unicode_lower(s@),
{
    s.to_lowercase()
}

/// [`String::from_utf8`]: succeeds exactly on well-formed UTF-8, and the text
/// then has those bytes as its encoding.
#[verifier::external_body]
pub(crate) fn utf8_text(bytes: Vec<u8>) -> (out: Result<String, std::string::FromUtf8Error>)
    ensures
        out is Ok <==> valid_utf8(bytes@),
        out matches Ok(s) ==> encode_utf8(s@) == bytes@,
{
    String::from_utf8(bytes)
}

/// [`String::from_utf8_lossy`]: a text for any bytes, under the name
/// [`lossy_utf8`]; well-formed UTF-8 is decoded as it stands.
#[verifier::external_body]
pub(crate) fn lossy_text(bytes: &[u8]) -> (out: String)
    ensures
        out@ == lossy_utf8(bytes@),
        valid_utf8(bytes@) ==> encode_utf8(out@) == bytes@,
{
    String::from_utf8_lossy(bytes).into_owned()
}

/// The error of [`String::from_utf8`].
#[verifier::external_type_specification]
#[verifier::external_body]
pub struct ExFromUtf8Error(std::string::FromUtf8Error);

/// Two texts with the same encoding are the same text.
pub(crate) proof fn lemma_encoding_injective(a: Seq<char>, b: Seq<char>)
    requires
        encode_utf8(a) == encode_utf8(b),
    ensures
        a == b,
{
    encode_utf8_decode_utf8(a);
    encode_utf8_decode_utf8(b);
}

/// Are two texts equal?
pub fn same(a: &str, b: &str) -> (r: bool)
    ensures
        r == (a@ == b@),
{
    let x: &[u8] = a.as_bytes();
    let y: &[u8] = b.as_bytes();
    if x.len() != y.len() {
        return false;
    }
    let mut i: usize = 0;
    while i < x.len()
        invariant
            x@ == encode_utf8(a@),
            y@ == encode_utf8(b@),
            x@.len() == y@.len(),
            i <= x@.len(),
            x@.take(i as int) == y@.take(i as int),
        decreases x@.len() - i,
    {
        if x[i] != y[i] {
            assert(x@[i as int] != y@[i as int]);
            return false;
        }
        assert(x@.take(i + 1) =~= x@.take(i as int).push(x@[i as int]));
        assert(y@.take(i + 1) =~= y@.take(i as int).push(y@[i as int]));
        i = i + 1;
    }
    proof {
        assert(x@.take(x@.len() as int) =~= x@);
        assert(y@.take(y@.len() as int) =~= y@);
        lemma_encoding_injective(a@, b@);
    }
    true
}

/// The characters of `s`, one element each.
pub fn chars_of(s: &str) -> (out: Vec<char>)
    ensures
        out@ == s@,
{
    let mut out: Vec<char> = Vec::new();
    for c in it: s.chars()
        invariant
            out@ == s@.take(it.index() as int),
            it.seq() == s@,
    {
        out.push(c);
        assert(s@.take(it.index() + 1) =~= s@.take(it.index() as int).push(c));
    }
    assert(s@.take(s@.len() as int) =~= s@);
    out
}

/// The text of the characters `from` to `to`.
pub fn text_of(chars: &[char], from: usize, to: usize) -> (out: String)
    requires
        from <= to <= chars@.len(),
    ensures
        out@ == chars@.subrange(from as int, to as int),
{
    let mut out: String = String::new();
    let mut i: usize = from;
    assert(chars@.subrange(from as int, from as int) =~= Seq::<char>::empty());
    while i < to
        invariant
            from <= i <= to <= chars@.len(),
            out@ == chars@.subrange(from as int, i as int),
        decreases to - i,
    {
        out.push(chars[i]);
        assert(chars@.subrange(from as int, i + 1) =~= chars@.subrange(from as int, i as int).push(
            chars@[i as int],
        ));
        i = i + 1;
    }
    out
}

/// Does `needle` stand in `hay` at position `i`?
fn stands_at(hay: &Vec<char>, needle: &Vec<char>, i: usize) -> (r: bool)
    ensures
        r == occurs_at(hay@, needle@, i as int),
{
    if i > hay.len() || needle.len() > hay.len() - i {
        return false;
    }
    let mut k: usize = 0;
    while k < needle.len()
        invariant
            i + needle@.len() <= hay@.len() <= usize::MAX,
            k <= needle@.len(),
            forall|j: int| 0 <= j < k ==> hay@[i + j] == needle@[j],
        decreases needle@.len() - k,
    {
        if hay[i + k] != needle[k] {
            assert(hay@.subrange(i as int, i + needle@.len())[k as int] != needle@[k as int]);
            return false;
        }
        k = k + 1;
    }
    assert(hay@.subrange(i as int, i + needle@.len()) =~= needle@);
    true
}

/// The first position of `needle` in `hay`, counted in characters.
pub fn find_chars(hay: &Vec<char>, needle: &Vec<char>) -> (r: Option<usize>)
    ensures
        match r {
            Some(i) => first_at(hay@, needle@, i as int),
            None => !has_text(hay@, needle@),
        },
{
    let mut i: usize = 0;
    while i < hay.len()
        invariant
            i <= hay@.len(),
            forall|j: int| 0 <= j < i ==> !occurs_at(hay@, needle@, j),
        decreases hay@.len() - i,
    {
        if stands_at(hay, needle, i) {
            return Some(i);
        }
        i = i + 1;
    }
    if stands_at(hay, needle, i) {
        return Some(i);
    }
    None
}

/// Does `needle` stand somewhere in `hay`?
pub fn contains(hay: &str, needle: &str) -> (r: bool)
    ensures
        r == has_text(hay@, needle@),
{
    let h: Vec<char> = chars_of(hay);
    let n: Vec<char> = chars_of(needle);
    find_chars(&h, &n).is_some()
}

/// Does `s` begin with `prefix`?
pub fn starts_with(s: &str, prefix: &str) -> (r: bool)
    ensures
        r == begins_with(s@, prefix@),
{
    let h: Vec<char> = chars_of(s);
    let n: Vec<char> = chars_of(prefix);
    stands_at(&h, &n, 0)
}

/// Does `s` end with `suffix`?
pub fn ends_with(s: &str, suffix: &str) -> (r: bool)
    ensures
        r == finishes_with(s@, suffix@),
{
    let h: Vec<char> = chars_of(s);
    let n: Vec<char> = chars_of(suffix);
    if n.len() > h.len() {
        return false;
    }
    stands_at(&h, &n, h.len() - n.len())
}

/// The text with its ASCII letters in lower case.
pub fn ascii_lowercase(s: &str) -> (out: String)
    ensures
        out@ == ascii_lower(s@),
        out@.len() == s@.len(),
        forall|i: int|
            0 <= i < s@.len() ==> (#[trigger] out@[i]) as int == if 65 <= s@[i] as int && s@[i] as int
                <= 90 {
                s@[i] as int + 32
            } else {
                s@[i] as int
            },
{
    let mut out: String = String::new();
    for c in it: s.chars()
        invariant
            out@ == ascii_lower(s@.take(it.index() as int)),
            it.seq() == s@,
    {
        let low: char = if 'A' <= c && c <= 'Z' {
            ((c as u8) + 32) as char
        } else {
            c
        };
        out.push(low);
        assert(s@.take(it.index() + 1) =~= s@.take(it.index() as int).push(c));
        assert(ascii_lower(s@.take(it.index() + 1)) =~= ascii_lower(s@.take(it.index() as int)).push(
            low,
        ));
    }
    assert(s@.take(s@.len() as int) =~= s@);
    out
}

/// Is `c` white space?
pub fn white(c: char) -> (r: bool)
    ensures
        r == is_white(c),
        (c as int) < 128 ==> (r <==> c as int == 32 || 9 <= c as int <= 13),
        (c as int) >= 128 ==> (r <==> c as int == 0x85 || c as int == 0xa0 || c as int == 0x1680
            || 0x2000 <= c as int <= 0x200a || c as int == 0x2028 || c as int == 0x2029 || c as int
            == 0x202f || c as int == 0x205f || c as int == 0x3000),
{
    ('\u{9}' <= c && c <= '\u{d}') || c == '\u{20}' || c == '\u{85}' || c == '\u{a0}' || c
        == '\u{1680}' || ('\u{2000}' <= c && c <= '\u{200a}') || c == '\u{2028}' || c
        == '\u{2029}' || c == '\u{202f}' || c == '\u{205f}' || c == '\u{3000}'
}

/// The text without the white space at either end.
pub fn trim(s: &str) -> (out: String)
    ensures
        out@ == trimmed(s@),
{
    let v: Vec<char> = chars_of(s);
    let mut from: usize = 0;
    assert(v@.skip(0) =~= v@);
    while from < v.len() && white(v[from])
        invariant
            from <= v@.len(),
            trim_front(v@) == trim_front(v@.skip(from as int)),
        decreases v@.len() - from,
    {
        assert(v@.skip(from as int).skip(1) =~= v@.skip(from + 1));
        from = from + 1;
    }
    assert(trim_front(v@) == v@.skip(from as int));
    let mut to: usize = v.len();
    assert(v@.subrange(from as int, to as int) =~= v@.skip(from as int));
    while to > from && white(v[to - 1])
        invariant
            from <= to <= v@.len(),
            trim_back(v@.skip(from as int)) == trim_back(v@.subrange(from as int, to as int)),
        decreases to,
    {
        let ghost part = v@.subrange(from as int, to as int);
        assert(part.drop_last() =~= v@.subrange(from as int, to - 1));
        to = to - 1;
    }
    text_of(v.as_slice(), from, to)
}

/// The words of the text, one space between two of them.
pub fn join_words(s: &str) -> (out: String)
    ensures
        out@ == words_joined(s@),
{
    let v: Vec<char> = chars_of(s);
    let mut out: String = String::new();
    let mut i: usize = 0;
    assert(v@.take(0) =~= Seq::<char>::empty());
    while i < v.len()
        invariant
            i <= v@.len(),
            out@ == words_joined(v@.take(i as int)),
        decreases v@.len() - i,
    {
        let c: char = v[i];
        let ghost part = v@.take(i + 1);
        assert(part.drop_last() =~= v@.take(i as int));
        if !white(c) {
            if !out.as_str().is_empty() && i > 0 && white(v[i - 1]) {
                out.push(' ');
            }
            out.push(c);
        }
        i = i + 1;
    }
    assert(v@.take(v@.len() as int) =~= v@);
    out
}

/// `n` in decimal digits.
pub fn decimal_text(n: u64) -> (out: String)
    ensures
        out@ == decimal(n as nat),
    decreases n,
{
    let mut out: String = if n < 10 {
        String::new()
    } else {
        decimal_text(n / 10)
    };
    let d: u8 = (n % 10) as u8;
    out.push((48 + d) as char);
    out
}

/// The unsigned number that `s` spells, if it fits.
pub fn parse_usize(s: &str) -> (r: Option<usize>)
    ensures
        match r {
            Some(n) => unsigned_value(s@) == Some(n as nat),
            None => unsigned_value(s@) is None || unsigned_value(s@)->0 > usize::MAX,
        },
{
    let v: Vec<char> = chars_of(s);
    let from: usize = if v.len() > 0 && v[0] == '+' {
        1
    } else {
        0
    };
    let ghost digits = v@.skip(from as int);
    assert(from == 0 ==> digits =~= v@);
    if v.len() == from {
        return None;
    }
    let mut n: usize = 0;
    let mut fits: bool = true;
    let mut i: usize = from;
    assert(digits.take(0) =~= Seq::<char>::empty());
    while i < v.len()
        invariant
            from <= i <= v@.len(),
            digits == v@.skip(from as int),
            s@ == v@,
            digits == (if s@.len() > 0 && s@[0] == '+' { s@.skip(1) } else { s@ }),
            forall|j: int| 0 <= j < i - from ==> is_digit(#[trigger] digits[j]),
            fits ==> n == digits_value(digits.take(i - from)),
            !fits ==> digits_value(digits.take(i - from)) > usize::MAX,
        decreases v@.len() - i,
    {
        let c: char = v[i];
        assert(digits[i - from] == c);
        if !('0' <= c && c <= '9') {
            return None;
        }
        let d: usize = (c as u8 - 48) as usize;
        let ghost part = digits.take(i - from + 1);
        assert(part.drop_last() =~= digits.take(i - from));
        if fits {
            if n > usize::MAX / 10 || n * 10 > usize::MAX - d {
                fits = false;
            } else {
                n = n * 10 + d;
            }
        }
        i = i + 1;
    }
    assert(digits.take(digits.len() as int) =~= digits);
    if fits {
        Some(n)
    } else {
        None
    }
}

/// Does `a` stand before `b` in lexicographic order?
pub fn before(a: &str, b: &str) -> (r: bool)
    ensures
        r == precedes(a@, b@),
{
    let x: Vec<char> = chars_of(a);
    let y: Vec<char> = chars_of(b);
    let mut i: usize = 0;
    assert(x@.skip(0) =~= x@);
    assert(y@.skip(0) =~= y@);
    while i < x.len() && i < y.len()
        invariant
            x@ == a@,
            y@ == b@,
            i <= x@.len(),
            i <= y@.len(),
            precedes(x@, y@) == precedes(x@.skip(i as int), y@.skip(i as int)),
        decreases x@.len() - i,
    {
        if x[i] != y[i] {
            assert(x@.skip(i as int)[0] == x@[i as int]);
            assert(y@.skip(i as int)[0] == y@[i as int]);
            return x[i] < y[i];
        }
        assert(x@.skip(i as int).skip(1) =~= x@.skip(i + 1));
        assert(y@.skip(i as int).skip(1) =~= y@.skip(i + 1));
        i = i + 1;
    }
    i < y.len()
}

/// `parts` one behind the other.
pub fn joined(parts: &[&str]) -> (out: String)
    ensures
        out@ == flat(parts@.map_values(|p: &str| p@)),
{
    let mut out: String = String::new();
    let mut i: usize = 0;
    let ghost views = parts@.map_values(|p: &str| p@);
    assert(views.take(0) =~= Seq::<Seq<char>>::empty());
    while i < parts.len()
        invariant
            i <= parts@.len(),
            views == parts@.map_values(|p: &str| p@),
            out@ == flat(views.take(i as int)),
        decreases parts@.len() - i,
    {
        out.append(parts[i]);
        assert(views.take(i + 1).drop_last() =~= views.take(i as int));
        i = i + 1;
    }
    assert(views.take(views.len() as int) =~= views);
    out
}

/// Sequences one behind the other.
pub open spec fn flat(parts: Seq<Seq<char>>) -> Seq<char>
    decreases parts.len(),
{
    if parts.len() == 0 {
        Seq::empty()
    } else {
        flat(parts.drop_last()) + parts.last()
    }
}

/// What an optional text holds.
pub open spec fn maybe(o: Option<String>) -> Option<Seq<char>> {
    match o {
        Some(s) => Some(s@),
        None => None,
    }
}

/// What the texts of a list hold.
pub open spec fn texts(v: Seq<String>) -> Seq<Seq<char>> {
    v.map_values(|s: String| s@)
}

/// A copy of an optional text.
pub fn copy_maybe(o: &Option<String>) -> (r: Option<String>)
    ensures
        maybe(r) == maybe(*o),
{
    match o {
        Some(s) => Some(s.clone()),
        None => None,
    }
}

/// Whether two optional texts are the same.
pub fn same_maybe(a: &Option<String>, b: &Option<String>) -> (r: bool)
    ensures
        r == (maybe(*a) == maybe(*b)),
{
    match (a, b) {
        (Some(x), Some(y)) => same(x.as_str(), y.as_str()),
        (None, None) => true,
        _ => false,
    }
}

/// A copy of a list of texts.
pub fn copy_texts(v: &Vec<String>) -> (r: Vec<String>)
    ensures
        texts(r@) == texts(v@),
{
    let mut out: Vec<String> = Vec::new();
    let mut i: usize = 0;
    while i < v.len()
        invariant
            i <= v@.len(),
            out@.len() == i,
            forall|k: int| 0 <= k < i ==> (#[trigger] out@[k])@ == v@[k]@,
        decreases v@.len() - i,
    {
        out.push(v[i].clone());
        i = i + 1;
    }
    proof {
        assert(texts(out@) =~= texts(v@));
    }
    out
}

/// Whether two lists of texts are the same.
pub fn same_texts(a: &Vec<String>, b: &Vec<String>) -> (r: bool)
    ensures
        r == (texts(a@) == texts(b@)),
{
    if a.len() != b.len() {
        proof {
            assert(texts(a@).len() != texts(b@).len());
        }
        return false;
    }
    let mut i: usize = 0;
    while i < a.len()
        invariant
            i <= a@.len(),
            a@.len() == b@.len(),
            forall|k: int| 0 <= k < i ==> (#[trigger] a@[k])@ == b@[k]@,
        decreases a@.len() - i,
    {
        if !same(a[i].as_str(), b[i].as_str()) {
            proof {
                assert(texts(a@)[i as int] != texts(b@)[i as int]);
            }
            return false;
        }
        i = i + 1;
    }
    proof {
        assert(texts(a@) =~= texts(b@));
    }
    true
}

/// Whether a list holds a text.
pub fn listed(v: &Vec<String>, s: &str) -> (r: bool)
    ensures
        r == texts(v@).contains(s@),
{
    let mut i: usize = 0;
    while i < v.len()
        invariant
            i <= v@.len(),
            forall|k: int| 0 <= k < i ==> (#[trigger] texts(v@)[k]) != s@,
        decreases v@.len() - i,
    {
        if same(v[i].as_str(), s) {
            proof {
                assert(texts(v@)[i as int] == s@);
            }
            return true;
        }
        i = i + 1;
    }
    false
}

/// Two texts put together.
pub fn joined_two(a: &str, b: &str) -> (r: String)
    ensures
        r@ == a@ + b@,
{
    let mut out = a.to_string();
    out.append(b);
    out
}

/// Of two texts exactly one of three things holds: one precedes the other, or they
/// are the same.
pub proof fn precedes_is_total(a: Seq<char>, b: Seq<char>)
    ensures
        precedes(a, b) || precedes(b, a) || a == b,
        !(precedes(a, b) && precedes(b, a)),
        a == b ==> !precedes(a, b),
    decreases a.len(),
{
    if a.len() == 0 || b.len() == 0 {
        if a.len() == 0 && b.len() == 0 {
            assert(a =~= b);
        }
    } else if a[0] == b[0] {
        precedes_is_total(a.skip(1), b.skip(1));
        if a.skip(1) == b.skip(1) {
            assert(a =~= seq![a[0]] + a.skip(1));
            assert(b =~= seq![b[0]] + b.skip(1));
        }
    }
}

/// What precedes goes through a middle text.
pub proof fn precedes_is_transitive(a: Seq<char>, b: Seq<char>, c: Seq<char>)
    requires
        precedes(a, b),
        precedes(b, c),
    ensures
        precedes(a, c),
    decreases a.len(),
{
    if a.len() > 0 && b.len() > 0 && c.len() > 0 && a[0] == b[0] && b[0] == c[0] {
        precedes_is_transitive(a.skip(1), b.skip(1), c.skip(1));
    }
}

/// How many characters a text has.
pub fn char_count(s: &str) -> (n: usize)
    ensures
        n == s@.len(),
{
    chars_of(s).len()
}

/// Whether a text has no characters.
pub fn is_empty(s: &str) -> (r: bool)
    ensures
        r == (s@.len() == 0),
{
    char_count(s) == 0
}

/// Whether a text begins with a character.
pub fn first_is(s: &str, c: char) -> (r: bool)
    ensures
        r == (s@.len() > 0 && s@[0] == c),
{
    let chars = chars_of(s);
    chars.len() > 0 && chars[0] == c
}

/// What stands between two texts is found in them joined, at the front and at the end too.
pub proof fn what_is_put_in_is_found(a: Seq<char>, needle: Seq<char>, b: Seq<char>)
    ensures
        has_text(a + needle + b, needle),
        begins_with(needle + b, needle),
        finishes_with(a + needle, needle),
{
    assert((a + needle + b).subrange(a.len() as int, (a.len() + needle.len()) as int) =~= needle);
    assert(occurs_at(a + needle + b, needle, a.len() as int));
    assert((needle + b).subrange(0, needle.len() as int) =~= needle);
    assert((a + needle).subrange(a.len() as int, (a.len() + needle.len()) as int) =~= needle);
}

/// A text that is found is there: the text around it and it make up the whole.
pub proof fn what_is_found_is_there(hay: Seq<char>, needle: Seq<char>)
    ensures
        has_text(hay, needle) ==> exists|a: Seq<char>, b: Seq<char>|
            hay == #[trigger] (a + needle + b),
        begins_with(hay, needle) ==> hay == needle + hay.skip(needle.len() as int),
        finishes_with(hay, needle) ==> hay == hay.take(hay.len() - needle.len()) + needle,
{
    if has_text(hay, needle) {
        let i = choose|i: int| occurs_at(hay, needle, i);
        let a = hay.take(i);
        let b = hay.skip(i + needle.len());
        assert(hay.subrange(i, i + needle.len()) == needle);
        assert(hay =~= a + hay.subrange(i, i + needle.len()) + b);
        assert(hay == a + needle + b);
    }
    if begins_with(hay, needle) {
        assert(hay =~= hay.subrange(0, needle.len() as int) + hay.skip(needle.len() as int));
    }
    if finishes_with(hay, needle) {
        let n = hay.len() - needle.len();
        assert(hay =~= hay.take(n) + hay.subrange(n, n + needle.len()));
    }
}

/// All of a text is white space.
pub open spec fn all_white(s: Seq<char>) -> bool {
    forall|i: int| 0 <= i < s.len() ==> is_white(#[trigger] s[i])
}

proof fn lemma_trim_front(s: Seq<char>) -> (n: int)
    ensures
        0 <= n <= s.len(),
        trim_front(s) == s.skip(n),
        all_white(s.take(n)),
        n < s.len() ==> !is_white(s[n]),
    decreases s.len(),
{
    if s.len() > 0 && is_white(s[0]) {
        let m = lemma_trim_front(s.skip(1));
        assert(s.skip(1).skip(m) =~= s.skip(m + 1));
        assert forall|i: int| 0 <= i < m + 1 implies is_white(#[trigger] s.take(m + 1)[i]) by {
            if i > 0 {
                assert(s.skip(1).take(m)[i - 1] == s[i]);
            }
        }
        m + 1
    } else {
        assert(s.skip(0) =~= s);
        0
    }
}

proof fn lemma_trim_back(s: Seq<char>) -> (n: int)
    ensures
        0 <= n <= s.len(),
        trim_back(s) == s.take(n),
        all_white(s.skip(n)),
        n > 0 ==> !is_white(s[n - 1]),
    decreases s.len(),
{
    if s.len() > 0 && is_white(s.last()) {
        let n = lemma_trim_back(s.drop_last());
        assert(s.drop_last().take(n) =~= s.take(n));
        assert forall|i: int| 0 <= i < s.skip(n).len() implies is_white(#[trigger] s.skip(n)[i]) by {
            if i < s.skip(n).len() - 1 {
                assert(s.drop_last().skip(n)[i] == s[n + i]);
            }
        }
        n
    } else {
        assert(s.take(s.len() as int) =~= s);
        s.len() as int
    }
}

/// Trimming cuts white space off both ends, and nothing else: what is left has none at
/// either end, and is the text between what was cut off.
pub proof fn trimming_cuts_the_ends(s: Seq<char>)
    ensures
        trimmed(s).len() > 0 ==> !is_white(trimmed(s)[0]) && !is_white(trimmed(s).last()),
        exists|a: Seq<char>, b: Seq<char>|
            all_white(a) && all_white(b) && s == #[trigger] (a + trimmed(s) + b),
{
    let n = lemma_trim_front(s);
    let rest = s.skip(n);
    let m = lemma_trim_back(rest);
    let a = s.take(n);
    let b = rest.skip(m);
    assert(s =~= a + rest.take(m) + b);
    if m > 0 {
        assert(rest.take(m)[0] == s[n]);
        assert(rest.take(m).last() == rest[m - 1]);
    }
    assert(all_white(a) && all_white(b) && s == a + trimmed(s) + b);
}

/// A text without white space at its ends is trimmed already.
pub proof fn a_trimmed_text_stays(s: Seq<char>)
    requires
        s.len() > 0 ==> !is_white(s[0]) && !is_white(s.last()),
    ensures
        trimmed(s) == s,
{
}

/// Joining the words of a text leaves only single spaces, and none at the ends.
pub proof fn joined_words_have_single_spaces(s: Seq<char>)
    ensures
        ({
            let w = words_joined(s);
            &&& w.len() > 0 ==> !is_white(w[0]) && !is_white(w.last())
            &&& forall|i: int|
                0 <= i < w.len() && is_white(#[trigger] w[i]) ==> w[i] == ' ' && 0 < i < w.len() - 1
                    && !is_white(w[i - 1]) && !is_white(w[i + 1])
            &&& w.len() <= s.len()
        }),
    decreases s.len(),
{
    if s.len() > 0 {
        joined_words_have_single_spaces(s.drop_last());
        let head = words_joined(s.drop_last());
        let w = words_joined(s);
        assert forall|i: int| 0 <= i < w.len() && is_white(#[trigger] w[i]) implies w[i] == ' ' && 0
            < i < w.len() - 1 && !is_white(w[i - 1]) && !is_white(w[i + 1]) by {
            if i < head.len() {
                assert(w[i] == head[i]);
            }
        }
        if s.len() > 1 && is_white(s[s.len() - 2]) && !is_white(s.last()) {
            let t = s.drop_last();
            joined_words_have_single_spaces(t.drop_last());
            assert(words_joined(t) == words_joined(t.drop_last()));
        }
    }
}

/// Joining the words of a text keeps every character that is no white space, in order.
pub proof fn joined_words_keep_their_letters(s: Seq<char>)
    ensures
        words_joined(s).filter(|c: char| !is_white(c)) == s.filter(|c: char| !is_white(c)),
    decreases s.len(),
{
    reveal(Seq::filter);
    let keep = |c: char| !is_white(c);
    if s.len() > 0 {
        let head = words_joined(s.drop_last());
        let w = words_joined(s);
        joined_words_keep_their_letters(s.drop_last());
        if !is_white(s.last()) {
            if head.len() > 0 && is_white(s[s.len() - 2]) {
                let mid = head.push(' ');
                assert(mid.drop_last() =~= head);
                assert(w.drop_last() =~= mid);
                assert(!keep(' '));
                assert(mid.filter(keep) == head.filter(keep));
            } else {
                assert(w.drop_last() =~= head);
            }
        }
    }
}

/// A text without white space is one word.
pub proof fn one_word_stays(s: Seq<char>)
    requires
        forall|i: int| 0 <= i < s.len() ==> !is_white(#[trigger] s[i]),
    ensures
        words_joined(s) == s,
    decreases s.len(),
{
    if s.len() > 0 {
        let t = s.drop_last();
        assert forall|i: int| 0 <= i < t.len() implies !is_white(#[trigger] t[i]) by {
            assert(t[i] == s[i]);
        }
        one_word_stays(t);
        assert(!is_white(s[s.len() - 1]));
        if s.len() > 1 {
            assert(!is_white(s[s.len() - 2]));
        }
        assert(words_joined(s) =~= s);
    }
}

proof fn lemma_no_words(s: Seq<char>)
    ensures
        words_joined(s).len() == 0 <==> all_white(s),
    decreases s.len(),
{
    if s.len() > 0 {
        lemma_no_words(s.drop_last());
        if all_white(s) {
            assert(is_white(s[s.len() - 1]));
            assert forall|i: int| 0 <= i < s.drop_last().len() implies is_white(
                #[trigger] s.drop_last()[i],
            ) by {
                assert(s.drop_last()[i] == s[i]);
            }
        }
        if words_joined(s).len() == 0 {
            assert forall|i: int| 0 <= i < s.len() implies is_white(#[trigger] s[i]) by {
                if i < s.len() - 1 {
                    assert(s.drop_last()[i] == s[i]);
                }
            }
        }
    }
}

proof fn lemma_white_adds_nothing(a: Seq<char>, b: Seq<char>)
    requires
        all_white(b),
    ensures
        words_joined(a + b) == words_joined(a),
    decreases b.len(),
{
    if b.len() == 0 {
        assert(a + b =~= a);
    } else {
        assert((a + b).drop_last() =~= a + b.drop_last());
        assert(is_white(b[b.len() - 1]));
        assert forall|i: int| 0 <= i < b.drop_last().len() implies is_white(
            #[trigger] b.drop_last()[i],
        ) by {
            assert(b.drop_last()[i] == b[i]);
        }
        lemma_white_adds_nothing(a, b.drop_last());
    }
}

/// Two texts with words, of which the first ends with white space, have one space between
/// their words.
pub proof fn words_are_joined_by_one_space(a: Seq<char>, b: Seq<char>)
    requires
        a.len() > 0 && is_white(a.last()),
        !all_white(a),
        !all_white(b),
    ensures
        words_joined(a + b) == words_joined(a) + seq![' '] + words_joined(b),
    decreases b.len(),
{
    lemma_no_words(a);
    lemma_no_words(b);
    let t = b.drop_last();
    let c = b.last();
    lemma_no_words(t);
    assert((a + b).drop_last() =~= a + t);
    assert((a + b).last() == c);
    if is_white(c) {
        assert(!all_white(t)) by {
            if all_white(t) {
                assert forall|i: int| 0 <= i < b.len() implies is_white(#[trigger] b[i]) by {
                    if i < t.len() {
                        assert(t[i] == b[i]);
                    }
                }
            }
        }
        words_are_joined_by_one_space(a, t);
    } else if all_white(t) {
        lemma_white_adds_nothing(a, t);
        if t.len() > 0 {
            assert(is_white(t[t.len() - 1]));
            assert((a + b)[(a + b).len() - 2] == t[t.len() - 1]);
        } else {
            assert((a + b)[(a + b).len() - 2] == a.last());
        }
        assert(words_joined(b) =~= seq![c]);
        assert(words_joined(a + b) =~= words_joined(a) + seq![' '] + seq![c]);
    } else {
        words_are_joined_by_one_space(a, t);
        assert((a + b)[(a + b).len() - 2] == b[b.len() - 2]);
        assert(words_joined(a + b) =~= words_joined(a) + seq![' '] + words_joined(b));
    }
}

proof fn lemma_decimal(n: nat)
    ensures
        decimal(n).len() > 0,
        all_digits(decimal(n)),
        digits_value(decimal(n)) == n,
        n > 0 ==> decimal(n)[0] != '0',
    decreases n,
{
    let d = decimal(n);
    assert(is_digit(digit_char(n % 10)));
    if n < 10 {
        assert(d.drop_last() =~= Seq::empty());
        assert(digits_value(d.drop_last()) == 0);
        assert(d.last() as nat == 48 + n);
    } else {
        lemma_decimal(n / 10);
        assert(d.drop_last() =~= decimal(n / 10));
        assert(d.last() as nat == 48 + n % 10);
        assert(d[0] == decimal(n / 10)[0]);
        assert forall|i: int| 0 <= i < d.len() implies is_digit(#[trigger] d[i]) by {
            if i < d.len() - 1 {
                assert(d[i] == decimal(n / 10)[i]);
            }
        }
    }
}

/// A number is read as it was written, also behind a plus sign, and is written without
/// zeros at its front.
pub proof fn a_number_is_read_as_it_was_written(n: nat)
    ensures
        unsigned_value(decimal(n)) == Some(n),
        unsigned_value(seq!['+'] + decimal(n)) == Some(n),
        n > 0 ==> decimal(n)[0] != '0',
        forall|i: int| 0 <= i < decimal(n).len() ==> '0' <= #[trigger] decimal(n)[i] <= '9',
{
    lemma_decimal(n);
    let d = decimal(n);
    assert(is_digit(d[0]));
    let plus = seq!['+'] + d;
    assert(plus.skip(1) =~= d);
}

/// A text with a character that is no digit, but for a plus sign at its front, is no
/// number, and neither is one without digits.
pub proof fn only_digits_are_a_number(s: Seq<char>, i: int)
    requires
        0 <= i < s.len(),
        !('0' <= s[i] <= '9'),
        i > 0 || s[0] != '+' || s.len() == 1,
    ensures
        unsigned_value(s) is None,
        unsigned_value(Seq::empty()) is None,
{
    if s[0] == '+' {
        if s.len() > 1 {
            assert(s.skip(1)[i - 1] == s[i]);
            assert(!is_digit(s.skip(1)[i - 1]));
        }
    } else {
        assert(!is_digit(s[i]));
    }
}

/// A digit more makes a number ten times as large, and adds the digit.
pub proof fn a_digit_counts_ten_times_less_than_the_one_before(s: Seq<char>, c: char)
    requires
        '0' <= c <= '9',
    ensures
        digits_value(s.push(c)) == 10 * digits_value(s) + (c as int - '0' as int),
{
    assert(s.push(c).drop_last() =~= s);
}

/// The first character in which two texts differ says which comes first, and a text comes
/// before all that go on from it.
pub proof fn the_first_difference_decides(
    front: Seq<char>,
    x: char,
    y: char,
    a: Seq<char>,
    b: Seq<char>,
)
    ensures
        x < y ==> precedes(front.push(x) + a, front.push(y) + b),
        precedes(front, front.push(x) + a),
    decreases front.len(),
{
    let s = front.push(x) + a;
    let t = front.push(y) + b;
    if front.len() > 0 {
        let rest = front.skip(1);
        the_first_difference_decides(rest, x, y, a, b);
        assert(s.skip(1) =~= rest.push(x) + a);
        assert(t.skip(1) =~= rest.push(y) + b);
        assert(s[0] == front[0] && t[0] == front[0]);
    } else {
        assert(s[0] == x && t[0] == y);
    }
}

/// Joined parts hold each part, one behind the other.
pub proof fn parts_are_joined_in_order(parts: Seq<Seq<char>>, more: Seq<char>)
    ensures
        flat(parts.push(more)) == flat(parts) + more,
        flat(seq![more]) == more,
        flat(Seq::empty()) == Seq::<char>::empty(),
{
    assert(parts.push(more).drop_last() =~= parts);
    assert(seq![more].drop_last() =~= Seq::<Seq<char>>::empty());
    let none = Seq::<Seq<char>>::empty();
    assert(flat(none) == Seq::<char>::empty());
    assert(flat(seq![more]) == flat(none) + more);
    assert(Seq::<char>::empty() + more =~= more);
}

} // verus!
