//! Text as sequences of characters: the character classes, splittings and
//! number formats that the rest of the crate is stated over.

use vstd::prelude::*;
use vstd::string::*;
use vstd::utf8::*;

verus! {

/// A control character (general category `Cc`).
pub open spec fn is_control(c: char) -> bool {
    c as u32 <= 0x1f || 0x7f <= c as u32 <= 0x9f
}

/// A character with the Unicode `White_Space` property.
pub open spec fn is_space(c: char) -> bool {
    let u = c as u32;
    ||| 0x9 <= u <= 0xd
    ||| u == 0x20
    ||| u == 0x85
    ||| u == 0xa0
    ||| u == 0x1680
    ||| 0x2000 <= u <= 0x200a
    ||| u == 0x2028
    ||| u == 0x2029
    ||| u == 0x202f
    ||| u == 0x205f
    ||| u == 0x3000
}

pub open spec fn is_digit(c: char) -> bool {
    '0' <= c <= '9'
}

pub open spec fn is_lower(c: char) -> bool {
    'a' <= c <= 'z'
}

pub open spec fn is_upper(c: char) -> bool {
    'A' <= c <= 'Z'
}

/// Every character of `s` is an ASCII digit.
pub open spec fn all_digits(s: Seq<char>) -> bool {
    forall|i: int| 0 <= i < s.len() ==> is_digit(#[trigger] s[i])
}

/// Some character of `s` is `c`.
pub open spec fn has_char(s: Seq<char>, c: char) -> bool {
    exists|i: int| 0 <= i < s.len() && #[trigger] s[i] == c
}

/// Some character of `s` is a control character.
pub open spec fn has_control(s: Seq<char>) -> bool {
    exists|i: int| 0 <= i < s.len() && is_control(#[trigger] s[i])
}

/// Some character of `s` is white space.
pub open spec fn has_space(s: Seq<char>) -> bool {
    exists|i: int| 0 <= i < s.len() && is_space(#[trigger] s[i])
}

/// The number of bytes of `s` in UTF-8.
pub open spec fn byte_len(s: Seq<char>) -> nat {
    encode_utf8(s).len()
}

/// `s` without the white space at its end.
pub open spec fn trim_end(s: Seq<char>) -> Seq<char>
    decreases s.len(),
{
    if s.len() > 0 && is_space(s.last()) {
        trim_end(s.drop_last())
    } else {
        s
    }
}

/// `s` without the white space at its start.
pub open spec fn trim_start(s: Seq<char>) -> Seq<char>
    decreases s.len(),
{
    if s.len() > 0 && is_space(s[0]) {
        trim_start(s.drop_first())
    } else {
        s
    }
}

/// `s` without the white space at either end.
pub open spec fn trim(s: Seq<char>) -> Seq<char> {
    trim_start(trim_end(s))
}

/// The pieces of `s` between separators, at most `limit` of them: once there are
/// `limit` pieces, a separator is an ordinary character of the last one.
pub open spec fn split_limited(s: Seq<char>, sep: char, limit: nat) -> Seq<Seq<char>>
    decreases s.len(),
{
    if s.len() == 0 {
        seq![Seq::<char>::empty()]
    } else {
        let pieces = split_limited(s.drop_last(), sep, limit);
        if s.last() == sep && pieces.len() < limit {
            pieces.push(Seq::<char>::empty())
        } else {
            pieces.update(pieces.len() - 1, pieces.last().push(s.last()))
        }
    }
}

/// The pieces of `s` between separators.
pub open spec fn split_on(s: Seq<char>, sep: char) -> Seq<Seq<char>> {
    split_limited(s, sep, s.len() + 1)
}

/// `s` without one trailing carriage return.
pub open spec fn strip_return(s: Seq<char>) -> Seq<char> {
    if s.len() > 0 && s.last() == '\r' {
        s.drop_last()
    } else {
        s
    }
}

/// The lines of `s`: each ends at a newline, which takes a carriage return just
/// before it away too; a last line without a newline counts, an empty one does not.
pub open spec fn lines(s: Seq<char>) -> Seq<Seq<char>> {
    let pieces = split_on(s, '\n');
    let last = pieces.len() - 1;
    let ended = Seq::new(last as nat, |i: int| strip_return(pieces[i]));
    if pieces[last].len() == 0 {
        ended
    } else {
        ended.push(pieces[last])
    }
}

/// The position of the last `c` in `s`, or -1.
pub open spec fn last_index(s: Seq<char>, c: char) -> int
    decreases s.len(),
{
    if s.len() == 0 {
        -1
    } else if s.last() == c {
        s.len() - 1
    } else {
        last_index(s.drop_last(), c)
    }
}

/// The position of the first `c` in `s`, or -1.
pub open spec fn first_index(s: Seq<char>, c: char) -> int
    decreases s.len(),
{
    if s.len() == 0 {
        -1
    } else if first_index(s.drop_last(), c) >= 0 {
        first_index(s.drop_last(), c)
    } else if s.last() == c {
        s.len() - 1
    } else {
        -1
    }
}

/// The pieces one after the other with `sep` between them.
pub open spec fn join(pieces: Seq<Seq<char>>, sep: Seq<char>) -> Seq<char>
    decreases pieces.len(),
{
    if pieces.len() == 0 {
        Seq::empty()
    } else if pieces.len() == 1 {
        pieces[0]
    } else {
        join(pieces.drop_last(), sep) + sep + pieces.last()
    }
}

/// The number that the digits `s` write in base ten.
pub open spec fn digits_value(s: Seq<char>) -> nat
    decreases s.len(),
{
    if s.len() == 0 {
        0
    } else {
        digits_value(s.drop_last()) * 10 + (s.last() as u32 - '0' as u32) as nat
    }
}

/// `s` as a number no larger than `max`: digits, after a plus sign or not.
pub open spec fn unsigned_value(s: Seq<char>, max: nat) -> Option<nat> {
    let digits = if s.len() > 0 && s[0] == '+' {
        s.skip(1)
    } else {
        s
    };
    if digits.len() > 0 && all_digits(digits) && digits_value(digits) <= max {
        Some(digits_value(digits))
    } else {
        None
    }
}

/// `s` as a 64-bit signed number: digits, after a plus or a minus sign or not.
pub open spec fn signed_value(s: Seq<char>) -> Option<int> {
    if s.len() > 0 && s[0] == '-' {
        let digits = s.skip(1);
        if digits.len() > 0 && all_digits(digits) && digits_value(digits) <= 0x8000_0000_0000_0000 {
            Some(-(digits_value(digits) as int))
        } else {
            None
        }
    } else {
        match unsigned_value(s, i64::MAX as nat) {
            Some(n) => Some(n as int),
            None => None,
        }
    }
}

/// The digit that writes `n`, in base sixteen where `n` is over nine.
pub open spec fn digit_char(n: nat) -> char {
    if n < 10 {
        (n + '0' as u32) as char
    } else {
        (n - 10 + 'a' as u32) as char
    }
}

/// `n` in base ten.
pub open spec fn decimal(n: nat) -> Seq<char>
    decreases n,
{
    if n < 10 {
        seq![digit_char(n)]
    } else {
        decimal(n / 10).push(digit_char(n % 10))
    }
}

/// A signed number in base ten.
pub open spec fn signed_decimal(n: int) -> Seq<char> {
    if n < 0 {
        seq!['-'] + decimal((-n) as nat)
    } else {
        decimal(n as nat)
    }
}

/// Two lower-case base-sixteen digits for each byte.
pub open spec fn hex_text(bytes: Seq<u8>) -> Seq<char>
    decreases bytes.len(),
{
    if bytes.len() == 0 {
        Seq::empty()
    } else {
        hex_text(bytes.drop_last()) + seq![
            digit_char((bytes.last() / 16) as nat),
            digit_char((bytes.last() % 16) as nat),
        ]
    }
}

/// The texts that the strings of `v` hold.
pub open spec fn texts(v: Seq<String>) -> Seq<Seq<char>> {
    v.map_values(|s: String| s@)
}

/// The text in an optional string.
pub open spec fn opt_text(s: Option<String>) -> Option<Seq<char>> {
    match s {
        Some(s) => Some(s@),
        None => None,
    }
}

// ---------------------------------------------------------------------------
// Facts
// ---------------------------------------------------------------------------

/// Two texts with the same UTF-8 bytes are the same.
pub proof fn lemma_encoding_injective(a: Seq<char>, b: Seq<char>)
    requires
        encode_utf8(a) == encode_utf8(b),
    ensures
        a == b,
{
    encode_utf8_decode_utf8(a);
    encode_utf8_decode_utf8(b);
}

proof fn lemma_split_nonempty(s: Seq<char>, sep: char, limit: nat)
    ensures
        split_limited(s, sep, limit).len() >= 1,
        split_limited(s, sep, limit).len() <= s.len() + 1,
    decreases s.len(),
{
    if s.len() > 0 {
        lemma_split_nonempty(s.drop_last(), sep, limit);
    }
}

// ---------------------------------------------------------------------------
// Operations
// ---------------------------------------------------------------------------

/// `String::push` of std: the character goes to the end of the text.
pub assume_specification[ String::push ](s: &mut String, c: char)
    ensures
        final(s)@ == old(s)@.push(c),
;

/// What `std::str::from_utf8` says of bytes that are no UTF-8.
pub uninterp spec fn utf8_complaint(bytes: Seq<u8>) -> Seq<char>;

/// `std::str::from_utf8`: the text that the bytes encode, where they are well-formed
/// UTF-8, else what is said of them.
#[verifier::external_body]
pub(crate) fn decode_text(bytes: &[u8]) -> (r: Result<String, String>)
    ensures
        match r {
            Ok(s) => valid_utf8(bytes@) && s@ == decode_utf8(bytes@),
            Err(said) => !valid_utf8(bytes@) && said@ == utf8_complaint(bytes@),
        },
{
    match std::str::from_utf8(bytes) {
        Ok(text) => Ok(text.to_owned()),
        Err(error) => Err(error.to_string()),
    }
}

/// What `String::from_utf8_lossy` makes of `bytes`.
pub uninterp spec fn lossy_decoding(bytes: Seq<u8>) -> Seq<char>;

/// `String::from_utf8_lossy`: the text that the bytes encode, with a replacement
/// character for what is no UTF-8. Well-formed UTF-8 is decoded as it is.
#[verifier::external_body]
pub(crate) fn lossy_text(bytes: &[u8]) -> (r: String)
    ensures
        r@ == lossy_decoding(bytes@),
        valid_utf8(bytes@) ==> r@ == decode_utf8(bytes@),
{
    String::from_utf8_lossy(bytes).into_owned()
}

/// What the `Debug` format of `str` makes of `s`: the text in quotes, with what is
/// not printable escaped.
pub uninterp spec fn debug_quoting(s: Seq<char>) -> Seq<char>;

/// The `Debug` format of `str`. The result depends on the text alone.
#[verifier::external_body]
pub(crate) fn quoted(s: &str) -> (r: String)
    ensures
        r@ == debug_quoting(s@),
{
    format!("{s:?}")
}

/// What `str::to_lowercase` makes of `s`.
pub uninterp spec fn unicode_lowercase(s: Seq<char>) -> Seq<char>;

/// An ASCII capital as the small letter, any other character as it is.
pub open spec fn ascii_lower(c: char) -> char {
    if is_upper(c) {
        ((c as u32) + 32) as char
    } else {
        c
    }
}

/// `str::to_lowercase`: the text in small letters. ASCII text changes character by
/// character.
#[verifier::external_body]
pub(crate) fn lower_case(s: &str) -> (r: String)
    ensures
        r@ == unicode_lowercase(s@),
        is_ascii_chars(s@) ==> r@ == s@.map_values(|c: char| ascii_lower(c)),
{
    s.to_lowercase()
}

/// Whether `c` is a control character.
pub fn char_is_control(c: char) -> (r: bool)
    ensures
        r == is_control(c),
{
    let u = c as u32;
    u <= 0x1f || (0x7f <= u && u <= 0x9f)
}

/// Whether `c` is white space.
pub fn char_is_space(c: char) -> (r: bool)
    ensures
        r == is_space(c),
{
    let u = c as u32;
    (0x9 <= u && u <= 0xd) || u == 0x20 || u == 0x85 || u == 0xa0 || u == 0x1680 || (0x2000 <= u
        && u <= 0x200a) || u == 0x2028 || u == 0x2029 || u == 0x202f || u == 0x205f || u == 0x3000
}

pub fn char_is_digit(c: char) -> (r: bool)
    ensures
        r == is_digit(c),
{
    '0' <= c && c <= '9'
}

pub fn char_is_lower(c: char) -> (r: bool)
    ensures
        r == is_lower(c),
{
    'a' <= c && c <= 'z'
}

pub fn char_is_upper(c: char) -> (r: bool)
    ensures
        r == is_upper(c),
{
    'A' <= c && c <= 'Z'
}

/// The characters of `s`.
pub fn chars_of(s: &str) -> (r: Vec<char>)
    ensures
        r@ == s@,
{
    let mut out: Vec<char> = Vec::new();
    for c in iter: s.chars()
        invariant
            iter.seq() == s@,
            out@ == s@.take(iter.index() as int),
    {
        proof {
            assert(s@.take(iter.index() as int + 1) =~= s@.take(iter.index() as int).push(c));
        }
        out.push(c);
    }
    proof {
        assert(s@.take(s@.len() as int) =~= s@);
    }
    out
}

/// The characters from `from` up to `to`, as a string.
pub fn substring(chars: &Vec<char>, from: usize, to: usize) -> (r: String)
    requires
        from <= to <= chars@.len(),
    ensures
        r@ == chars@.subrange(from as int, to as int),
{
    let mut out: String = String::new();
    let mut i: usize = from;
    while i < to
        invariant
            from <= i <= to <= chars@.len(),
            out@ == chars@.subrange(from as int, i as int),
        decreases to - i,
    {
        out.push(chars[i]);
        i = i + 1;
        proof {
            assert(chars@.subrange(from as int, i as int) =~= chars@.subrange(
                from as int,
                i - 1,
            ).push(chars@[i - 1]));
        }
    }
    out
}

/// Whether the two texts are the same.
pub fn same_text(a: &str, b: &str) -> (r: bool)
    ensures
        r == (a@ == b@),
{
    let x = a.as_bytes();
    let y = b.as_bytes();
    if x.len() != y.len() {
        return false;
    }
    let mut i: usize = 0;
    while i < x.len()
        invariant
            i <= x@.len(),
            x@.len() == y@.len(),
            x@ == encode_utf8(a@),
            y@ == encode_utf8(b@),
            forall|j: int| 0 <= j < i ==> x@[j] == y@[j],
        decreases x@.len() - i,
    {
        if x[i] != y[i] {
            return false;
        }
        i = i + 1;
    }
    proof {
        assert(x@ =~= y@);
        lemma_encoding_injective(a@, b@);
    }
    true
}

/// A copy of `s`.
pub fn copy(s: &str) -> (r: String)
    ensures
        r@ == s@,
{
    s.to_owned()
}

/// `a` followed by `b`.
pub fn concat(a: &str, b: &str) -> (r: String)
    ensures
        r@ == a@ + b@,
{
    let mut out = a.to_owned();
    out.append(b);
    out
}

/// `parts` one after the other.
pub fn concat3(a: &str, b: &str, c: &str) -> (r: String)
    ensures
        r@ == a@ + b@ + c@,
{
    let mut out = a.to_owned();
    out.append(b);
    out.append(c);
    out
}

/// The number of bytes of `s`.
pub fn byte_length(s: &str) -> (r: usize)
    ensures
        r == byte_len(s@),
{
    s.as_bytes().len()
}

/// A copy of an optional string.
pub fn copy_option(s: &Option<String>) -> (r: Option<String>)
    ensures
        r == *s,
{
    match s {
        Some(s) => Some(s.clone()),
        None => None,
    }
}

/// Whether the two optional texts are the same.
pub fn same_option(a: &Option<String>, b: &Option<String>) -> (r: bool)
    ensures
        r == (opt_text(*a) == opt_text(*b)),
{
    match (a, b) {
        (Some(a), Some(b)) => same_text(a.as_str(), b.as_str()),
        (None, None) => true,
        _ => false,
    }
}

/// Whether some string of `v` is `s`.
pub fn contains_text(v: &Vec<String>, s: &str) -> (r: bool)
    ensures
        r == texts(v@).contains(s@),
{
    let mut i: usize = 0;
    while i < v.len()
        invariant
            i <= v@.len(),
            forall|j: int| 0 <= j < i ==> texts(v@)[j] != s@,
        decreases v@.len() - i,
    {
        if same_text(v[i].as_str(), s) {
            proof {
                assert(texts(v@)[i as int] == s@);
            }
            return true;
        }
        i = i + 1;
    }
    false
}

/// Whether the two lists hold the same texts in the same order.
pub fn same_texts(a: &Vec<String>, b: &Vec<String>) -> (r: bool)
    ensures
        r == (texts(a@) == texts(b@)),
{
    if a.len() != b.len() {
        proof {
            assert(texts(a@).len() != texts(b@).len());
        }
        return false;
    }
    let mut i: usize = 0;
    while i < a.len()
        invariant
            i <= a@.len(),
            a@.len() == b@.len(),
            forall|j: int| 0 <= j < i ==> texts(a@)[j] == texts(b@)[j],
        decreases a@.len() - i,
    {
        if !same_text(a[i].as_str(), b[i].as_str()) {
            proof {
                assert(texts(a@)[i as int] != texts(b@)[i as int]);
            }
            return false;
        }
        i = i + 1;
    }
    proof {
        assert(texts(a@) =~= texts(b@));
    }
    true
}

/// Whether some character of `s` is a control character.
pub fn any_control(s: &str) -> (r: bool)
    ensures
        r == has_control(s@),
{
    let chars = chars_of(s);
    let mut i: usize = 0;
    while i < chars.len()
        invariant
            i <= chars@.len(),
            chars@ == s@,
            forall|j: int| 0 <= j < i ==> !is_control(s@[j]),
        decreases chars@.len() - i,
    {
        if char_is_control(chars[i]) {
            return true;
        }
        i = i + 1;
    }
    false
}

/// Whether some character of `s` is white space.
pub fn any_space(s: &str) -> (r: bool)
    ensures
        r == has_space(s@),
{
    let chars = chars_of(s);
    let mut i: usize = 0;
    while i < chars.len()
        invariant
            i <= chars@.len(),
            chars@ == s@,
            forall|j: int| 0 <= j < i ==> !is_space(s@[j]),
        decreases chars@.len() - i,
    {
        if char_is_space(chars[i]) {
            return true;
        }
        i = i + 1;
    }
    false
}

/// Whether some character of `s` is `c`.
pub fn any_char(s: &str, c: char) -> (r: bool)
    ensures
        r == has_char(s@, c),
{
    let chars = chars_of(s);
    let mut i: usize = 0;
    while i < chars.len()
        invariant
            i <= chars@.len(),
            chars@ == s@,
            forall|j: int| 0 <= j < i ==> s@[j] != c,
        decreases chars@.len() - i,
    {
        if chars[i] == c {
            return true;
        }
        i = i + 1;
    }
    false
}

/// Whether every character of `s` is a digit.
pub fn only_digits(s: &str) -> (r: bool)
    ensures
        r == all_digits(s@),
{
    let chars = chars_of(s);
    let mut i: usize = 0;
    while i < chars.len()
        invariant
            i <= chars@.len(),
            chars@ == s@,
            forall|j: int| 0 <= j < i ==> is_digit(s@[j]),
        decreases chars@.len() - i,
    {
        if !char_is_digit(chars[i]) {
            return false;
        }
        i = i + 1;
    }
    true
}

/// The position after the last character that is not white space.
fn end_of_text(chars: &Vec<char>) -> (end: usize)
    ensures
        end <= chars@.len(),
        trim_end(chars@) == chars@.take(end as int),
{
    let mut end: usize = chars.len();
    proof {
        assert(chars@.take(end as int) =~= chars@);
    }
    while end > 0 && char_is_space(chars[end - 1])
        invariant
            end <= chars@.len(),
            trim_end(chars@) == trim_end(chars@.take(end as int)),
        decreases end,
    {
        proof {
            assert(chars@.take(end as int).drop_last() =~= chars@.take(end - 1));
        }
        end = end - 1;
    }
    end
}

/// `s` without the white space at its end.
pub fn trimmed_end(s: &str) -> (r: String)
    ensures
        r@ == trim_end(s@),
{
    let chars = chars_of(s);
    let end: usize = end_of_text(&chars);
    proof {
        assert(chars@.subrange(0, end as int) =~= chars@.take(end as int));
    }
    substring(&chars, 0, end)
}

/// `s` without the white space at either end.
pub fn trimmed(s: &str) -> (r: String)
    ensures
        r@ == trim(s@),
{
    let chars = chars_of(s);
    let end: usize = end_of_text(&chars);
    let mut start: usize = 0;
    proof {
        assert(chars@.subrange(0, end as int) =~= chars@.take(end as int));
    }
    while start < end && char_is_space(chars[start])
        invariant
            start <= end <= chars@.len(),
            trim(s@) == trim_start(chars@.subrange(start as int, end as int)),
        decreases end - start,
    {
        proof {
            assert(chars@.subrange(start as int, end as int).drop_first() =~= chars@.subrange(
                start + 1,
                end as int,
            ));
        }
        start = start + 1;
    }
    substring(&chars, start, end)
}

/// The largest number of pieces: `limit`, or as many as there are.
spec fn piece_limit(s: Seq<char>, limit: Option<usize>) -> nat {
    match limit {
        Some(n) => n as nat,
        None => s.len() + 1,
    }
}

fn split_pieces(s: &str, sep: char, limit: Option<usize>) -> (r: Vec<String>)
    ensures
        texts(r@) == split_limited(s@, sep, piece_limit(s@, limit)),
{
    let ghost bound = piece_limit(s@, limit);
    let chars = chars_of(s);
    let mut done: Vec<String> = Vec::new();
    let mut last: String = String::new();
    let mut i: usize = 0;
    proof {
        assert(chars@.take(0) =~= Seq::<char>::empty());
        assert(texts(done@).push(last@) =~= seq![Seq::<char>::empty()]);
    }
    while i < chars.len()
        invariant
            i <= chars@.len(),
            chars@ == s@,
            bound == piece_limit(s@, limit),
            texts(done@).push(last@) == split_limited(s@.take(i as int), sep, bound),
        decreases chars@.len() - i,
    {
        let c = chars[i];
        let ghost before = texts(done@);
        let ghost piece = last@;
        let ghost prefix = s@.take(i as int);
        proof {
            assert(s@.take(i + 1).drop_last() =~= prefix);
            assert(s@.take(i + 1).last() == c);
            assert(before.push(piece).last() == piece);
            assert(before.push(piece).len() == done@.len() + 1);
            lemma_split_nonempty(prefix, sep, bound);
        }
        let room = match limit {
            Some(n) => done.len() < n && n - done.len() > 1,
            None => true,
        };
        if c == sep && room {
            done.push(last);
            last = String::new();
            proof {
                assert(texts(done@) =~= before.push(piece));
            }
        } else {
            last.push(c);
            proof {
                assert(before.push(piece).update(done@.len() as int, piece.push(c)) =~= before.push(
                    piece.push(c),
                ));
            }
        }
        i = i + 1;
    }
    proof {
        assert(s@.take(s@.len() as int) =~= s@);
    }
    let ghost before = texts(done@);
    let ghost piece = last@;
    done.push(last);
    proof {
        assert(texts(done@) =~= before.push(piece));
    }
    done
}

/// The pieces of `s` between separators, at most `limit` of them.
pub fn pieces(s: &str, sep: char, limit: usize) -> (r: Vec<String>)
    ensures
        texts(r@) == split_limited(s@, sep, limit as nat),
{
    split_pieces(s, sep, Some(limit))
}

/// The pieces of `s` between separators.
pub fn all_pieces(s: &str, sep: char) -> (r: Vec<String>)
    ensures
        texts(r@) == split_on(s@, sep),
        r@.len() >= 1,
{
    let r = split_pieces(s, sep, None);
    proof {
        lemma_split_nonempty(s@, sep, s@.len() + 1);
        assert(texts(r@).len() == r@.len());
    }
    r
}

/// The lines of `s`.
pub fn text_lines(s: &str) -> (r: Vec<String>)
    ensures
        texts(r@) == lines(s@),
{
    let parts = all_pieces(s, '\n');
    let last: usize = parts.len() - 1;
    let ghost pieces = split_on(s@, '\n');
    let ghost ended = Seq::new(last as nat, |i: int| strip_return(pieces[i]));
    let mut out: Vec<String> = Vec::new();
    let mut i: usize = 0;
    proof {
        assert(texts(parts@).len() == parts@.len());
    }
    while i < last
        invariant
            i <= last,
            last == parts@.len() - 1,
            texts(parts@) == pieces,
            ended == Seq::new(last as nat, |i: int| strip_return(pieces[i])),
            texts(out@) =~= ended.take(i as int),
        decreases last - i,
    {
        let line = without_return(parts[i].as_str());
        let ghost before = texts(out@);
        out.push(line);
        proof {
            assert(texts(parts@)[i as int] == parts@[i as int]@);
            assert(texts(out@) =~= before.push(line@));
            assert(ended.take(i + 1) =~= ended.take(i as int).push(ended[i as int]));
        }
        i = i + 1;
    }
    let ghost before = texts(out@);
    proof {
        assert(ended.take(last as int) =~= ended);
        assert(texts(parts@)[last as int] == parts@[last as int]@);
    }
    if !parts[last].as_str().is_empty() {
        let tail = parts[last].clone();
        out.push(tail);
        proof {
            assert(texts(out@) =~= before.push(tail@));
        }
    }
    out
}

/// `s` without one trailing carriage return.
fn without_return(s: &str) -> (r: String)
    ensures
        r@ == strip_return(s@),
{
    let chars = chars_of(s);
    let n: usize = chars.len();
    if n > 0 && chars[n - 1] == '\r' {
        proof {
            assert(chars@.subrange(0, n - 1) =~= s@.drop_last());
        }
        substring(&chars, 0, n - 1)
    } else {
        copy(s)
    }
}

/// The position of the last `c`, if there is one.
pub fn position_of_last(chars: &Vec<char>, c: char) -> (r: Option<usize>)
    ensures
        match r {
            Some(i) => last_index(chars@, c) == i && i < chars@.len() && chars@[i as int] == c,
            None => last_index(chars@, c) == -1,
        },
{
    let mut n: usize = chars.len();
    proof {
        assert(chars@.take(n as int) =~= chars@);
    }
    while n > 0
        invariant
            n <= chars@.len(),
            last_index(chars@, c) == last_index(chars@.take(n as int), c),
        decreases n,
    {
        proof {
            assert(chars@.take(n as int).drop_last() =~= chars@.take(n - 1));
        }
        if chars[n - 1] == c {
            return Some(n - 1);
        }
        n = n - 1;
    }
    None
}

/// The position of the first `c`, if there is one.
pub fn position_of_first(chars: &Vec<char>, c: char) -> (r: Option<usize>)
    ensures
        match r {
            Some(i) => first_index(chars@, c) == i && i < chars@.len() && chars@[i as int] == c,
            None => first_index(chars@, c) == -1,
        },
{
    let mut i: usize = 0;
    while i < chars.len()
        invariant
            i <= chars@.len(),
            first_index(chars@.take(i as int), c) == -1,
        decreases chars@.len() - i,
    {
        proof {
            assert(chars@.take(i + 1).drop_last() =~= chars@.take(i as int));
        }
        if chars[i] == c {
            proof {
                lemma_first_index_prefix(chars@, c, i + 1);
            }
            return Some(i);
        }
        i = i + 1;
    }
    proof {
        assert(chars@.take(chars@.len() as int) =~= chars@);
    }
    None
}

proof fn lemma_first_index_prefix(s: Seq<char>, c: char, k: int)
    requires
        0 <= k <= s.len(),
        first_index(s.take(k), c) >= 0,
    ensures
        first_index(s, c) == first_index(s.take(k), c),
    decreases s.len() - k,
{
    if k < s.len() {
        assert(s.take(k + 1).drop_last() =~= s.take(k));
        lemma_first_index_prefix(s, c, k + 1);
    } else {
        assert(s.take(k) =~= s);
    }
}

/// The pieces one after the other with `sep` between them.
pub fn joined(parts: &Vec<String>, sep: &str) -> (r: String)
    ensures
        r@ == join(texts(parts@), sep@),
{
    let mut out: String = String::new();
    let mut i: usize = 0;
    proof {
        assert(texts(parts@).take(0) =~= Seq::<Seq<char>>::empty());
    }
    while i < parts.len()
        invariant
            i <= parts@.len(),
            out@ =~= join(texts(parts@).take(i as int), sep@),
        decreases parts@.len() - i,
    {
        proof {
            let t = texts(parts@);
            assert(t.take(i + 1).drop_last() =~= t.take(i as int));
            assert(t.take(i + 1).last() == parts@[i as int]@);
            if i == 0 {
                assert(t.take(1)[0] == parts@[0]@);
            }
        }
        if i > 0 {
            out.append(sep);
        }
        out.append(parts[i].as_str());
        i = i + 1;
    }
    proof {
        assert(texts(parts@).take(parts@.len() as int) =~= texts(parts@));
    }
    out
}

/// The number that the digits from `from` on write, where it is no larger than `max`.
fn digits_from(chars: &Vec<char>, from: usize, max: u64) -> (r: Option<u64>)
    requires
        from <= chars@.len(),
    ensures
        ({
            let digits = chars@.skip(from as int);
            match r {
                Some(n) => digits.len() > 0 && all_digits(digits) && digits_value(digits) == n && n
                    <= max,
                None => !(digits.len() > 0 && all_digits(digits) && digits_value(digits) <= max),
            }
        }),
{
    let ghost digits = chars@.skip(from as int);
    if from == chars.len() {
        return None;
    }
    let mut acc: u64 = 0;
    let mut over: bool = false;
    let mut i: usize = from;
    proof {
        assert(digits.take(0) =~= Seq::<char>::empty());
    }
    while i < chars.len()
        invariant
            from <= i <= chars@.len(),
            digits == chars@.skip(from as int),
            all_digits(digits.take(i - from)),
            !over ==> acc == digits_value(digits.take(i - from)) && acc <= max,
            over ==> digits_value(digits.take(i - from)) > max,
        decreases chars@.len() - i,
    {
        let c = chars[i];
        let ghost k = i - from;
        proof {
            assert(digits[k] == c);
            assert(digits.take(k + 1).drop_last() =~= digits.take(k));
            assert(digits.take(k + 1).last() == c);
        }
        if !char_is_digit(c) {
            proof {
                assert(!all_digits(digits)) by {
                    assert(!is_digit(digits[k]));
                }
            }
            return None;
        }
        proof {
            assert forall|j: int| 0 <= j < digits.take(k + 1).len() implies is_digit(
                #[trigger] digits.take(k + 1)[j],
            ) by {
                if j < k {
                    assert(digits.take(k + 1)[j] == digits.take(k)[j]);
                }
            }
        }
        let d: u64 = (c as u32 - '0' as u32) as u64;
        if !over {
            if acc > (u64::MAX - d) / 10 || acc * 10 + d > max {
                over = true;
            } else {
                acc = acc * 10 + d;
            }
        }
        i = i + 1;
    }
    proof {
        assert(digits.take(digits.len() as int) =~= digits);
    }
    if over {
        None
    } else {
        Some(acc)
    }
}

/// `s` as a number no larger than `max`.
pub fn parse_unsigned(s: &str, max: u64) -> (r: Option<u64>)
    ensures
        match r {
            Some(n) => unsigned_value(s@, max as nat) == Some(n as nat) && n <= max,
            None => unsigned_value(s@, max as nat) is None,
        },
{
    let chars = chars_of(s);
    if chars.len() > 0 && chars[0] == '+' {
        digits_from(&chars, 1, max)
    } else {
        proof {
            assert(chars@.skip(0) =~= s@);
        }
        digits_from(&chars, 0, max)
    }
}

/// `s` as a 64-bit signed number.
pub fn parse_signed(s: &str) -> (r: Option<i64>)
    ensures
        match r {
            Some(n) => signed_value(s@) == Some(n as int),
            None => signed_value(s@) is None,
        },
{
    let chars = chars_of(s);
    if chars.len() > 0 && chars[0] == '-' {
        match digits_from(&chars, 1, 0x8000_0000_0000_0000) {
            Some(n) => {
                if n == 0x8000_0000_0000_0000 {
                    Some(i64::MIN)
                } else {
                    Some(-(n as i64))
                }
            },
            None => None,
        }
    } else {
        match parse_unsigned(s, i64::MAX as u64) {
            Some(n) => Some(n as i64),
            None => None,
        }
    }
}

/// The digit that writes `n`.
fn digit(n: u8) -> (r: char)
    requires
        n < 16,
    ensures
        r == digit_char(n as nat),
{
    if n < 10 {
        (n + 48) as char
    } else {
        (n - 10 + 97) as char
    }
}

/// `n` in base ten.
pub fn decimal_text(n: u64) -> (r: String)
    ensures
        r@ == decimal(n as nat),
    decreases n,
{
    if n < 10 {
        let mut out: String = String::new();
        out.push(digit(n as u8));
        proof {
            assert(out@ =~= seq![digit_char(n as nat)]);
        }
        out
    } else {
        let mut out = decimal_text(n / 10);
        out.push(digit((n % 10) as u8));
        out
    }
}

/// A signed number in base ten.
pub fn signed_text(n: i32) -> (r: String)
    ensures
        r@ == signed_decimal(n as int),
{
    if n < 0 {
        let m: u64 = (-(n as i64)) as u64;
        let mut out: String = String::new();
        out.push('-');
        let digits = decimal_text(m);
        out.append(digits.as_str());
        proof {
            assert(out@ =~= seq!['-'] + decimal(m as nat));
        }
        out
    } else {
        decimal_text(n as u64)
    }
}

/// Two lower-case base-sixteen digits for each byte.
pub fn hex_string(bytes: &[u8]) -> (r: String)
    ensures
        r@ == hex_text(bytes@),
{
    let mut out: String = String::new();
    let mut i: usize = 0;
    while i < bytes.len()
        invariant
            i <= bytes@.len(),
            out@ == hex_text(bytes@.take(i as int)),
        decreases bytes@.len() - i,
    {
        let b = bytes[i];
        let ghost before = out@;
        out.push(digit(b / 16));
        out.push(digit(b % 16));
        proof {
            assert(bytes@.take(i + 1).drop_last() =~= bytes@.take(i as int));
            assert(out@ =~= before + seq![digit_char((b / 16) as nat), digit_char((b % 16) as nat)]);
        }
        i = i + 1;
    }
    proof {
        assert(bytes@.take(bytes@.len() as int) =~= bytes@);
    }
    out
}

/// A text is encoded piece by piece.
pub proof fn lemma_encoding_of_concatenation(a: Seq<char>, b: Seq<char>)
    ensures
        encode_utf8(a + b) == encode_utf8(a) + encode_utf8(b),
    decreases a.len(),
{
    if a.len() == 0 {
        assert(a + b =~= b);
        assert(encode_utf8(a) + encode_utf8(b) =~= encode_utf8(b));
    } else {
        assert((a + b).drop_first() =~= a.drop_first() + b);
        lemma_encoding_of_concatenation(a.drop_first(), b);
        let first = encode_scalar(a[0] as u32);
        assert(first + encode_utf8(a.drop_first()) + encode_utf8(b) =~= first + (encode_utf8(
            a.drop_first(),
        ) + encode_utf8(b)));
    }
}

// ---------------------------------------------------------------------------
// What is read back of what was written
// ---------------------------------------------------------------------------

/// A number that is written in base ten is read back as that number.
pub proof fn lemma_decimal_is_read_back(n: nat, max: nat)
    requires
        n <= max,
    ensures
        unsigned_value(decimal(n), max) == Some(n),
        all_digits(decimal(n)),
        digits_value(decimal(n)) == n,
        decimal(n).len() > 0,
    decreases n,
{
    lemma_digit_char(n % 10);
    if n < 10 {
        let s = decimal(n);
        assert(s =~= seq![digit_char(n)]);
        assert(s.drop_last() =~= Seq::<char>::empty());
        assert(digits_value(s.drop_last()) == 0);
        assert(s.last() == digit_char(n));
        assert(digits_value(s) == n);
        assert(all_digits(s));
    } else {
        lemma_decimal_is_read_back(n / 10, max);
        let s = decimal(n);
        let front = decimal(n / 10);
        assert(s == front.push(digit_char(n % 10)));
        assert(s.drop_last() =~= front);
        assert(s.last() == digit_char(n % 10));
        assert forall|i: int| 0 <= i < s.len() implies is_digit(#[trigger] s[i]) by {
            if i < front.len() {
                assert(s[i] == front[i]);
            }
        }
    }
    assert(is_digit(decimal(n)[0]));
}

pub proof fn lemma_digit_char(n: nat)
    requires
        n < 10,
    ensures
        is_digit(digit_char(n)),
        digit_char(n) as u32 - '0' as u32 == n,
{
    assert(digit_char(n) as u32 == n + '0' as u32);
}

/// A signed number that is written in base ten is read back as that number.
pub proof fn lemma_signed_decimal_is_read_back(n: int)
    requires
        i64::MIN <= n <= i64::MAX,
    ensures
        signed_value(signed_decimal(n)) == Some(n),
        signed_decimal(n).len() > 0,
        !has_char(signed_decimal(n), ' '),
        !has_char(signed_decimal(n), '\n'),
        !has_char(signed_decimal(n), '\r'),
{
    let s = signed_decimal(n);
    if n < 0 {
        let digits = decimal((-n) as nat);
        lemma_decimal_is_read_back((-n) as nat, (-n) as nat);
        assert(s.skip(1) =~= digits);
        assert(s[0] == '-');
        assert forall|i: int| 0 < i < s.len() implies is_digit(#[trigger] s[i]) by {
            assert(s[i] == digits[i - 1]);
        }
    } else {
        lemma_decimal_is_read_back(n as nat, i64::MAX as nat);
        assert(is_digit(s[0]));
    }
}

/// A text without separators is one piece.
proof fn lemma_split_without_separator(s: Seq<char>, sep: char, limit: nat)
    requires
        !has_char(s, sep),
    ensures
        split_limited(s, sep, limit) == seq![s],
    decreases s.len(),
{
    if s.len() == 0 {
        assert(s =~= Seq::<char>::empty());
    } else {
        assert forall|i: int| 0 <= i < s.len() - 1 implies s.drop_last()[i] != sep by {
            assert(s[i] == s.drop_last()[i]);
        }
        lemma_split_without_separator(s.drop_last(), sep, limit);
        assert(s.last() == s[s.len() - 1]);
        assert(seq![s.drop_last()].update(0, s.drop_last().push(s.last())) =~= seq![s]) by {
            assert(s.drop_last().push(s.last()) =~= s);
        }
    }
}

/// A separator ends a piece, and what follows is the next one, up to its own end: it
/// holds no separator, or is the last piece that there may be.
proof fn lemma_split_grows(a: Seq<char>, b: Seq<char>, sep: char, limit: nat)
    requires
        split_limited(a, sep, limit).len() < limit,
        !has_char(b, sep) || split_limited(a, sep, limit).len() + 1 == limit,
    ensures
        split_limited(a.push(sep) + b, sep, limit) == split_limited(a, sep, limit).push(b),
    decreases b.len(),
{
    let before = split_limited(a, sep, limit);
    let whole = a.push(sep) + b;
    if b.len() == 0 {
        assert(whole =~= a.push(sep));
        assert(whole.drop_last() =~= a);
        assert(before.push(Seq::<char>::empty()) =~= before.push(b)) by {
            assert(b =~= Seq::<char>::empty());
        }
    } else {
        let shorter = b.drop_last();
        assert(whole.drop_last() =~= a.push(sep) + shorter);
        assert(whole.last() == b[b.len() - 1]);
        if !has_char(b, sep) {
            assert forall|i: int| 0 <= i < shorter.len() implies shorter[i] != sep by {
                assert(b[i] == shorter[i]);
            }
        }
        lemma_split_grows(a, shorter, sep, limit);
        let pieces = before.push(shorter);
        assert(shorter.push(b.last()) =~= b);
        assert(pieces.update(pieces.len() - 1, b) =~= before.push(b));
    }
}

/// Pieces without separators that are put together with separators between them are
/// read back as they were. The last one may hold separators where it is the last piece
/// that there may be.
pub proof fn lemma_split_reads_pieces_back(parts: Seq<Seq<char>>, sep: char, limit: nat)
    requires
        0 < parts.len() <= limit,
        forall|i: int| 0 <= i < parts.len() - 1 ==> !has_char(#[trigger] parts[i], sep),
        !has_char(parts.last(), sep) || parts.len() == limit,
    ensures
        split_limited(join(parts, seq![sep]), sep, limit) == parts,
    decreases parts.len(),
{
    if parts.len() == 1 {
        if has_char(parts[0], sep) {
            lemma_split_at_limit(parts[0], sep);
        } else {
            lemma_split_without_separator(parts[0], sep, limit);
        }
        assert(seq![parts[0]] =~= parts);
    } else {
        let before = parts.drop_last();
        assert forall|i: int| 0 <= i < before.len() implies !has_char(
            #[trigger] before[i],
            sep,
        ) by {
            assert(before[i] == parts[i]);
            assert(!has_char(parts[i], sep));
        }
        lemma_split_reads_pieces_back(before, sep, limit);
        let a = join(before, seq![sep]);
        assert(join(parts, seq![sep]) =~= a.push(sep) + parts.last());
        lemma_split_grows(a, parts.last(), sep, limit);
        assert(before.push(parts.last()) =~= parts);
    }
}

proof fn lemma_split_at_limit(s: Seq<char>, sep: char)
    ensures
        split_limited(s, sep, 1) == seq![s],
    decreases s.len(),
{
    if s.len() == 0 {
        assert(s =~= Seq::<char>::empty());
    } else {
        lemma_split_at_limit(s.drop_last(), sep);
        assert(s.drop_last().push(s.last()) =~= s);
        assert(seq![s.drop_last()].update(0, s) =~= seq![s]);
    }
}

proof fn lemma_join_is_long(parts: Seq<Seq<char>>, sep: char)
    requires
        parts.len() > 0,
    ensures
        join(parts, seq![sep]).len() + 1 >= parts.len(),
    decreases parts.len(),
{
    if parts.len() > 1 {
        lemma_join_is_long(parts.drop_last(), sep);
    }
}

/// Pieces without separators that are put together with separators between them are
/// read back as they were.
pub proof fn lemma_pieces_are_read_back(parts: Seq<Seq<char>>, sep: char)
    requires
        parts.len() > 0,
        forall|i: int| 0 <= i < parts.len() ==> !has_char(#[trigger] parts[i], sep),
    ensures
        split_on(join(parts, seq![sep]), sep) == parts,
{
    lemma_join_is_long(parts, sep);
    assert(!has_char(parts[parts.len() - 1], sep));
    lemma_split_reads_pieces_back(parts, sep, join(parts, seq![sep]).len() + 1);
}

/// Rows one after the other, each with a newline behind it.
pub open spec fn rows_text(rows: Seq<Seq<char>>) -> Seq<char>
    decreases rows.len(),
{
    if rows.len() == 0 {
        Seq::empty()
    } else {
        rows_text(rows.drop_last()) + rows.last() + seq!['\n']
    }
}

/// A row that stands on one line.
pub open spec fn is_row(s: Seq<char>) -> bool {
    !has_char(s, '\n') && !(s.len() > 0 && s.last() == '\r')
}

proof fn lemma_rows_text_is_joined(rows: Seq<Seq<char>>)
    ensures
        rows_text(rows) == join(rows.push(Seq::<char>::empty()), seq!['\n']),
    decreases rows.len(),
{
    let ended = rows.push(Seq::<char>::empty());
    let newline = seq!['\n'];
    if rows.len() == 0 {
        assert(ended[0] =~= Seq::<char>::empty());
    } else {
        let before = rows.drop_last();
        lemma_rows_text_is_joined(before);
        assert(ended.drop_last() =~= rows);
        let shorter = before.push(Seq::<char>::empty());
        assert(shorter.drop_last() =~= before);
        if before.len() == 0 {
            assert(rows_text(before) =~= Seq::<char>::empty());
            assert(join(rows, newline) == rows[0]);
        } else {
            assert(join(rows, newline) == join(before, newline) + newline + rows.last());
            assert(join(shorter, newline) == join(before, newline) + newline
                + Seq::<char>::empty());
        }
        assert(rows_text(rows) =~= join(rows, newline) + newline + Seq::<char>::empty());
    }
}

/// Rows that are written one after the other are the lines that are read.
pub proof fn lemma_rows_are_read_back(rows: Seq<Seq<char>>)
    requires
        forall|i: int| 0 <= i < rows.len() ==> is_row(#[trigger] rows[i]),
    ensures
        lines(rows_text(rows)) == rows,
{
    let ended = rows.push(Seq::<char>::empty());
    lemma_rows_text_is_joined(rows);
    assert forall|i: int| 0 <= i < ended.len() implies !has_char(#[trigger] ended[i], '\n') by {
        if i < rows.len() {
            assert(ended[i] == rows[i]);
            assert(is_row(rows[i]));
        }
    }
    lemma_pieces_are_read_back(ended, '\n');
    assert forall|i: int| 0 <= i < rows.len() implies strip_return(#[trigger] ended[i])
        == rows[i] by {
        assert(is_row(rows[i]));
    }
    assert(lines(rows_text(rows)) =~= rows);
}

/// White space around a text is trimmed, and nothing of the text itself.
pub proof fn lemma_trim_takes_space_away(before: Seq<char>, s: Seq<char>, after: Seq<char>)
    requires
        forall|i: int| 0 <= i < before.len() ==> is_space(#[trigger] before[i]),
        forall|i: int| 0 <= i < after.len() ==> is_space(#[trigger] after[i]),
        s.len() > 0,
        !is_space(s[0]),
        !is_space(s.last()),
    ensures
        trim(before + s + after) == s,
        trim_end(before + s + after) == before + s,
{
    lemma_trim_end_stops(before + s, after);
    lemma_trim_start_stops(before, s);
}

proof fn lemma_trim_end_stops(s: Seq<char>, after: Seq<char>)
    requires
        forall|i: int| 0 <= i < after.len() ==> is_space(#[trigger] after[i]),
        s.len() > 0,
        !is_space(s.last()),
    ensures
        trim_end(s + after) == s,
    decreases after.len(),
{
    if after.len() == 0 {
        assert(s + after =~= s);
    } else {
        assert((s + after).drop_last() =~= s + after.drop_last());
        assert((s + after).last() == after[after.len() - 1]);
        lemma_trim_end_stops(s, after.drop_last());
    }
}

proof fn lemma_trim_start_stops(before: Seq<char>, s: Seq<char>)
    requires
        forall|i: int| 0 <= i < before.len() ==> is_space(#[trigger] before[i]),
        s.len() > 0,
        !is_space(s[0]),
    ensures
        trim_start(before + s) == s,
    decreases before.len(),
{
    if before.len() == 0 {
        assert(before + s =~= s);
    } else {
        assert((before + s).drop_first() =~= before.drop_first() + s);
        assert((before + s)[0] == before[0]);
        lemma_trim_start_stops(before.drop_first(), s);
    }
}

/// The first place of a character holds it and none before it does; there is none exactly
/// where the text does not hold the character.
pub proof fn lemma_first_index_is_first(s: Seq<char>, c: char)
    ensures
        ({
            let k = first_index(s, c);
            &&& k == -1 || 0 <= k < s.len()
            &&& k >= 0 ==> s[k] == c && forall|i: int| 0 <= i < k ==> #[trigger] s[i] != c
            &&& k == -1 ==> forall|i: int| 0 <= i < s.len() ==> #[trigger] s[i] != c
        }),
    decreases s.len(),
{
    if s.len() > 0 {
        let before = s.drop_last();
        lemma_first_index_is_first(before, c);
        assert forall|i: int| 0 <= i < before.len() implies #[trigger] s[i] == before[i] by {}
    }
}

/// Every byte is written as two digits in base sixteen, the high one first, with small
/// letters for ten and above.
pub proof fn lemma_hex_digits_of_bytes(bytes: Seq<u8>, i: int)
    requires
        0 <= i < bytes.len(),
    ensures
        hex_text(bytes).len() == 2 * bytes.len(),
        hex_text(bytes)[2 * i] as u32 == (if bytes[i] / 16 < 10 {
            '0' as u32 + bytes[i] / 16
        } else {
            'a' as u32 + bytes[i] / 16 - 10
        }),
        hex_text(bytes)[2 * i + 1] as u32 == (if bytes[i] % 16 < 10 {
            '0' as u32 + bytes[i] % 16
        } else {
            'a' as u32 + bytes[i] % 16 - 10
        }),
    decreases bytes.len(),
{
    let front = bytes.drop_last();
    let s = hex_text(bytes);
    lemma_hex_length(front);
    assert(bytes.last() / 16 < 16);
    if i < front.len() {
        lemma_hex_digits_of_bytes(front, i);
        assert(s[2 * i] == hex_text(front)[2 * i]);
        assert(s[2 * i + 1] == hex_text(front)[2 * i + 1]);
        assert(bytes[i] == front[i]);
    }
}

proof fn lemma_hex_length(bytes: Seq<u8>)
    ensures
        hex_text(bytes).len() == 2 * bytes.len(),
    decreases bytes.len(),
{
    if bytes.len() > 0 {
        lemma_hex_length(bytes.drop_last());
    }
}

/// The classes of characters by their numbers.
pub proof fn lemma_classes_of_characters(c: char)
    ensures
        is_digit(c) <==> 48 <= c as u32 <= 57,
        is_lower(c) <==> 97 <= c as u32 <= 122,
        is_upper(c) <==> 65 <= c as u32 <= 90,
        is_control(c) <==> c as u32 <= 0x1f || 0x7f <= c as u32 <= 0x9f,
        (c as u32) < 128 ==> (is_space(c) <==> 9 <= c as u32 <= 13 || c as u32 == 32),
{
}

/// A text holds what any part of it holds, and nothing else.
pub proof fn lemma_what_a_text_holds(a: Seq<char>, c: char, b: Seq<char>)
    ensures
        has_char(a + seq![c] + b, c),
        is_control(c) ==> has_control(a + seq![c] + b),
        is_space(c) ==> has_space(a + seq![c] + b),
        has_control(a + b) <==> has_control(a) || has_control(b),
        has_space(a + b) <==> has_space(a) || has_space(b),
        !has_control(Seq::<char>::empty()),
        !has_space(Seq::<char>::empty()),
{
    let whole = a + seq![c] + b;
    assert(whole[a.len() as int] == c);
    let s = a + b;
    assert forall|i: int| 0 <= i < a.len() implies #[trigger] a[i] == s[i] by {}
    assert forall|i: int| 0 <= i < b.len() implies #[trigger] b[i] == s[a.len() + i] by {}
    if has_control(a) {
        let i = choose|i: int| 0 <= i < a.len() && is_control(#[trigger] a[i]);
        assert(is_control(s[i]));
    }
    if has_control(b) {
        let i = choose|i: int| 0 <= i < b.len() && is_control(#[trigger] b[i]);
        assert(is_control(s[a.len() + i]));
    }
    if has_control(s) {
        let i = choose|i: int| 0 <= i < s.len() && is_control(#[trigger] s[i]);
        if i < a.len() {
            assert(is_control(a[i]));
        } else {
            assert(is_control(b[i - a.len()]));
        }
    }
    if has_space(a) {
        let i = choose|i: int| 0 <= i < a.len() && is_space(#[trigger] a[i]);
        assert(is_space(s[i]));
    }
    if has_space(b) {
        let i = choose|i: int| 0 <= i < b.len() && is_space(#[trigger] b[i]);
        assert(is_space(s[a.len() + i]));
    }
    if has_space(s) {
        let i = choose|i: int| 0 <= i < s.len() && is_space(#[trigger] s[i]);
        if i < a.len() {
            assert(is_space(a[i]));
        } else {
            assert(is_space(b[i - a.len()]));
        }
    }
}

/// A number may have a plus sign before it. A text without a digit, or with anything but
/// digits behind the sign, is no number, and neither is one over the limit.
pub proof fn lemma_which_texts_are_numbers(n: nat, max: nat, s: Seq<char>)
    ensures
        n <= max ==> unsigned_value(seq!['+'] + decimal(n), max) == Some(n),
        n > max ==> unsigned_value(decimal(n), max) is None,
        unsigned_value(Seq::<char>::empty(), max) is None,
        unsigned_value(seq!['+'], max) is None,
        s.len() > 0 && !is_digit(s.last()) ==> unsigned_value(s, max) is None && signed_value(s)
            is None,
        s.len() > 0 && !is_digit(s[0]) && s[0] != '+' ==> unsigned_value(s, max) is None,
        s.len() > 0 && !is_digit(s[0]) && s[0] != '+' && s[0] != '-' ==> signed_value(s) is None,
        signed_value(Seq::<char>::empty()) is None,
        signed_value(seq!['-']) is None,
        n <= i64::MAX ==> signed_value(seq!['+'] + decimal(n)) == Some(n as int),
        n > i64::MAX ==> signed_value(decimal(n)) is None,
        n > 0x8000_0000_0000_0000 ==> signed_value(seq!['-'] + decimal(n)) is None,
{
    lemma_decimal_is_read_back(n, n);
    let d = decimal(n);
    assert(is_digit(d[0]));
    let plus = seq!['+'] + d;
    assert(plus.skip(1) =~= d);
    let minus = seq!['-'] + d;
    assert(minus.skip(1) =~= d);
    assert(seq!['+'].skip(1).len() == 0);
    assert(seq!['-'].skip(1).len() == 0);
    if s.len() > 0 {
        let rest = s.skip(1);
        if !is_digit(s.last()) {
            assert(s[s.len() - 1] == s.last());
            assert(!all_digits(s));
            if rest.len() > 0 {
                assert(rest[rest.len() - 1] == s.last());
                assert(!all_digits(rest));
            }
        }
        if !is_digit(s[0]) {
            assert(!all_digits(s));
        }
    }
}

/// A line that ends with a carriage return loses that one, and no line loses anything else.
pub proof fn lemma_carriage_return_is_dropped(s: Seq<char>)
    ensures
        strip_return(s.push('\r')) == s,
        s.len() == 0 || s.last() != '\r' ==> strip_return(s) == s,
{
    assert(s.push('\r').drop_last() =~= s);
}

} // verus!
