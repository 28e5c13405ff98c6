//! Names that a session, a host or a stream gets as one component of a path.

use vstd::prelude::*;
use vstd::string::*;
use vstd::utf8::*;

use crate::paths::{entries, join_path, joined_path, lemma_join_adds_one_entry, single_entry, SLASH};
use crate::text::{
    all_pieces, any_char, byte_len, byte_length, char_is_digit, char_is_lower, char_is_upper,
    chars_of, concat3, contains_text, copy, decimal, decimal_text, digit_char, has_char,
    hex_string, hex_text, is_digit, is_lower, is_upper, join, lemma_encoding_injective,
    lemma_pieces_are_read_back, same_text, split_limited, split_on,
};

verus! {

pub const MAX_COMPONENT_BYTES: usize = 200;

/// The characters that stay as they are.
pub open spec fn is_kept(c: char) -> bool {
    is_lower(c) || is_upper(c) || is_digit(c) || c == '.' || c == '_' || c == '-'
}

/// A name that is its own component: lower-case letters, digits and, but for the
/// first character, `.`, `_` and `-`.
pub open spec fn is_canonical(raw: Seq<char>) -> bool {
    forall|i: int|
        0 <= i < raw.len() ==> {
            let c = #[trigger] raw[i];
            is_lower(c) || is_digit(c) || (i > 0 && (c == '.' || c == '_' || c == '-'))
        }
}

pub open spec fn kept_or_underscore(c: char) -> char {
    if is_kept(c) {
        c
    } else {
        '_'
    }
}

/// `raw` with an underscore for each character that does not stay.
pub open spec fn readable(raw: Seq<char>) -> Seq<char> {
    Seq::new(raw.len(), |i: int| kept_or_underscore(raw[i]))
}

/// The component of `raw`: itself where it is canonical, else its readable form, a
/// tilde and the hexadecimal digits of its bytes.
pub open spec fn component_of(raw: Seq<char>) -> Seq<char> {
    if is_canonical(raw) {
        raw
    } else {
        readable(raw).push('~') + hex_text(encode_utf8(raw))
    }
}

/// Some piece of `raw` between slashes is `.` or `..`.
pub open spec fn has_traversal(raw: Seq<char>) -> bool {
    split_on(raw, '/').contains("."@) || split_on(raw, '/').contains(".."@)
}

/// Why `raw` has no component, or its component.
pub open spec fn derivation(raw: Seq<char>) -> Result<Seq<char>, NameError> {
    if raw.len() == 0 {
        Err(NameError::Empty)
    } else if has_char(raw, '\0') {
        Err(NameError::ContainsNul)
    } else if raw[0] == '/' {
        Err(NameError::Absolute)
    } else if has_traversal(raw) {
        Err(NameError::Traversal)
    } else if byte_len(component_of(raw)) > MAX_COMPONENT_BYTES {
        Err(
            NameError::TooLong {
                actual: byte_len(component_of(raw)) as usize,
                limit: MAX_COMPONENT_BYTES,
            },
        )
    } else {
        Ok(component_of(raw))
    }
}

/// A text that can stand as one component of a path: short, of safe characters
/// only, and neither `.` nor `..`.
pub open spec fn is_component(s: Seq<char>) -> bool {
    &&& 0 < s.len() <= MAX_COMPONENT_BYTES
    &&& forall|i: int| 0 <= i < s.len() ==> is_kept(#[trigger] s[i]) || s[i] == '~'
    &&& s != "."@
    &&& s != ".."@
}

/// A component that `derive_component` made.
#[derive(Debug, PartialEq, Eq)]
pub struct DerivedName(String);

impl View for DerivedName {
    type V = Seq<char>;

    closed spec fn view(&self) -> Seq<char> {
        self.0@
    }
}

impl Clone for DerivedName {
    fn clone(&self) -> (r: Self)
        ensures
            r@ == self@,
    {
        proof {
            use_type_invariant(self);
        }
        DerivedName(self.0.clone())
    }
}

impl DerivedName {
    #[verifier::type_invariant]
    spec fn well_formed(self) -> bool {
        is_component(self.0@)
    }

    pub fn as_str(&self) -> (r: &str)
        ensures
            r@ == self@,
            is_component(r@),
    {
        proof {
            use_type_invariant(self);
        }
        self.0.as_str()
    }

    /// The file that holds the session's captured screens.
    pub fn session_filename(&self) -> (r: String)
        ensures
            r@ == "tmux_"@ + self@ + "_screen.jsonl"@,
    {
        concat3("tmux_", self.0.as_str(), "_screen.jsonl")
    }

    /// The path of this name directly below `parent`. A derived name is always one
    /// entry, so the check that the result stays below `parent` always holds.
    pub fn join_checked(&self, parent: &[u8]) -> (r: Result<Vec<u8>, NameError>)
        ensures
            r is Ok,
            r->Ok_0@ == join_path(parent@, encode_utf8(self@)),
            entries(r->Ok_0@) == entries(parent@).push(encode_utf8(self@)),
    {
        let bytes = self.0.as_str().as_bytes();
        let child = joined_path(parent, bytes);
        proof {
            use_type_invariant(self);
            lemma_component_is_single_entry(self.0@);
            lemma_join_adds_one_entry(parent@, encode_utf8(self.0@));
        }
        Ok(child)
    }
}

#[derive(Clone, Copy, Debug, PartialEq, Eq, Structural)]
pub enum NameError {
    Empty,
    ContainsNul,
    Absolute,
    Traversal,
    TooLong { actual: usize, limit: usize },
    EscapesParent,
}

impl NameError {
    pub open spec fn text(self) -> Seq<char> {
        match self {
            NameError::Empty => "identity must not be empty"@,
            NameError::ContainsNul => "identity must not contain NUL"@,
            NameError::Absolute => "identity must not be an absolute path"@,
            NameError::Traversal => "identity must not contain path traversal"@,
            NameError::TooLong { actual, limit } => "derived identity is "@ + decimal(actual as nat)
                + " bytes; the limit is "@ + decimal(limit as nat) + " bytes"@,
            NameError::EscapesParent => "derived identity escapes its parent"@,
        }
    }

    /// The error in words.
    pub fn message(&self) -> (r: String)
        ensures
            r@ == self.text(),
    {
        match self {
            NameError::Empty => copy("identity must not be empty"),
            NameError::ContainsNul => copy("identity must not contain NUL"),
            NameError::Absolute => copy("identity must not be an absolute path"),
            NameError::Traversal => copy("identity must not contain path traversal"),
            NameError::TooLong { actual, limit } => {
                let mut out = copy("derived identity is ");
                out.append(decimal_text(*actual as u64).as_str());
                out.append(" bytes; the limit is ");
                out.append(decimal_text(*limit as u64).as_str());
                out.append(" bytes");
                out
            },
            NameError::EscapesParent => copy("derived identity escapes its parent"),
        }
    }
}

// ---------------------------------------------------------------------------
// Facts about components
// ---------------------------------------------------------------------------

proof fn lemma_kept_is_ascii(s: Seq<char>)
    requires
        forall|i: int| 0 <= i < s.len() ==> is_kept(#[trigger] s[i]) || s[i] == '~',
    ensures
        encode_utf8(s).len() == s.len(),
        forall|i: int| 0 <= i < s.len() ==> encode_utf8(s)[i] as u32 == s[i] as u32,
{
    assert(is_ascii_chars(s));
    is_ascii_chars_encode_utf8(s);
}

/// A component is one entry of a path.
pub proof fn lemma_component_is_single_entry(s: Seq<char>)
    requires
        is_component(s),
    ensures
        single_entry(encode_utf8(s)),
{
    lemma_kept_is_ascii(s);
    assert forall|i: int| 0 <= i < s.len() implies #[trigger] encode_utf8(s)[i] != SLASH by {
        assert(is_kept(s[i]) || s[i] == '~');
        assert(encode_utf8(s)[i] as u32 == s[i] as u32);
    }
}

/// Each byte is written with two digits.
pub proof fn lemma_hex_digits(bytes: Seq<u8>)
    ensures
        hex_text(bytes).len() == 2 * bytes.len(),
        forall|i: int|
            0 <= i < hex_text(bytes).len() ==> is_digit(#[trigger] hex_text(bytes)[i]) || is_lower(
                hex_text(bytes)[i],
            ),
    decreases bytes.len(),
{
    if bytes.len() > 0 {
        lemma_hex_digits(bytes.drop_last());
        let b = bytes.last();
        assert(b / 16 < 16);
        assert(is_digit(digit_char((b / 16) as nat)) || is_lower(digit_char((b / 16) as nat)));
        assert(is_digit(digit_char((b % 16) as nat)) || is_lower(digit_char((b % 16) as nat)));
    }
}

proof fn lemma_hex_injective(a: Seq<u8>, b: Seq<u8>)
    requires
        hex_text(a) == hex_text(b),
    ensures
        a == b,
    decreases a.len(),
{
    lemma_hex_digits(a);
    lemma_hex_digits(b);
    if a.len() > 0 {
        let n = hex_text(a).len() as int;
        let ha = hex_text(a.drop_last());
        let hb = hex_text(b.drop_last());
        lemma_hex_digits(a.drop_last());
        lemma_hex_digits(b.drop_last());
        assert(hex_text(a).take(n - 2) =~= ha);
        assert(hex_text(b).take(n - 2) =~= hb);
        lemma_hex_injective(a.drop_last(), b.drop_last());
        let x = a.last();
        let y = b.last();
        assert(hex_text(a)[n - 2] == digit_char((x / 16) as nat));
        assert(hex_text(b)[n - 2] == digit_char((y / 16) as nat));
        assert(hex_text(a)[n - 1] == digit_char((x % 16) as nat));
        assert(hex_text(b)[n - 1] == digit_char((y % 16) as nat));
        lemma_digit_char_injective((x / 16) as nat, (y / 16) as nat);
        lemma_digit_char_injective((x % 16) as nat, (y % 16) as nat);
        assert(x == y);
        assert(a =~= a.drop_last().push(x));
        assert(b =~= b.drop_last().push(y));
    } else {
        assert(a =~= b);
    }
}

proof fn lemma_digit_char_injective(m: nat, n: nat)
    requires
        m < 16,
        n < 16,
        digit_char(m) == digit_char(n),
    ensures
        m == n,
{
    assert(digit_char(m) as u32 == if m < 10 {
        m + 48
    } else {
        m + 87
    });
    assert(digit_char(n) as u32 == if n < 10 {
        n + 48
    } else {
        n + 87
    });
}

/// A name that is derived is one path component.
pub proof fn lemma_derived_is_component(raw: Seq<char>)
    requires
        derivation(raw) is Ok,
    ensures
        is_component(derivation(raw)->Ok_0),
{
    let c = component_of(raw);
    lemma_hex_digits(encode_utf8(raw));
    assert forall|i: int| 0 <= i < c.len() implies is_kept(#[trigger] c[i]) || c[i] == '~' by {
        if is_canonical(raw) {
            assert(raw[i] == c[i]);
        } else if i < raw.len() {
            assert(c[i] == kept_or_underscore(raw[i]));
        } else if i > raw.len() {
            assert(c[i] == hex_text(encode_utf8(raw))[i - raw.len() - 1]);
        }
    }
    lemma_kept_is_ascii(c);
    reveal_strlit(".");
    reveal_strlit("..");
    if is_canonical(raw) {
        assert(is_lower(raw[0]) || is_digit(raw[0]));
        assert("."@[0] == '.' && ".."@[0] == '.');
    } else {
        assert(c[raw.len() as int] == '~');
        assert("."@.len() == 1 && ".."@.len() == 2);
        if c == "."@ || c == ".."@ {
            assert(c[raw.len() as int] == '.');
        }
    }
}

/// A canonical name is its own component.
pub proof fn lemma_canonical_name_is_kept(raw: Seq<char>)
    requires
        is_canonical(raw),
        derivation(raw) is Ok,
    ensures
        derivation(raw) == Ok::<Seq<char>, NameError>(raw),
{
}

/// Different names never share a component.
pub proof fn lemma_derivation_injective(a: Seq<char>, b: Seq<char>)
    requires
        derivation(a) is Ok,
        derivation(b) is Ok,
        derivation(a) == derivation(b),
    ensures
        a == b,
{
    let c = component_of(a);
    assert(c == component_of(b));
    if is_canonical(a) && !is_canonical(b) {
        lemma_tilde_place(b);
        assert(a[b.len() as int] == '~');
    } else if is_canonical(b) && !is_canonical(a) {
        lemma_tilde_place(a);
        assert(b[a.len() as int] == '~');
    } else if !is_canonical(a) && !is_canonical(b) {
        lemma_tilde_place(a);
        lemma_tilde_place(b);
        assert(a.len() == b.len()) by {
            if a.len() < b.len() {
                assert(c[a.len() as int] == '~');
                assert(kept_or_underscore(b[a.len() as int]) == '~');
            }
            if b.len() < a.len() {
                assert(kept_or_underscore(a[b.len() as int]) == '~');
            }
        }
        assert(c.skip(a.len() as int + 1) =~= hex_text(encode_utf8(a)));
        assert(c.skip(a.len() as int + 1) =~= hex_text(encode_utf8(b)));
        lemma_hex_injective(encode_utf8(a), encode_utf8(b));
        lemma_encoding_injective(a, b);
    }
}

proof fn lemma_tilde_place(raw: Seq<char>)
    requires
        !is_canonical(raw),
    ensures
        component_of(raw).len() > raw.len(),
        component_of(raw)[raw.len() as int] == '~',
        forall|i: int|
            0 <= i < raw.len() ==> #[trigger] component_of(raw)[i] == kept_or_underscore(raw[i]),
{
    let c = component_of(raw);
    assert forall|i: int| 0 <= i < raw.len() implies #[trigger] c[i] == kept_or_underscore(
        raw[i],
    ) by {
        assert(readable(raw)[i] == kept_or_underscore(raw[i]));
    }
}

proof fn lemma_split_single(s: Seq<char>, sep: char)
    requires
        !has_char(s, sep),
    ensures
        split_on(s, sep) == seq![s],
{
    lemma_split_single_limited(s, sep, s.len() + 1);
}

proof fn lemma_split_single_limited(s: Seq<char>, sep: char, limit: nat)
    requires
        !has_char(s, sep),
    ensures
        split_limited(s, sep, limit) == seq![s],
    decreases s.len(),
{
    if s.len() > 0 {
        let shorter = s.drop_last();
        assert(!has_char(shorter, sep)) by {
            assert forall|i: int| 0 <= i < shorter.len() implies #[trigger] shorter[i] != sep by {
                assert(shorter[i] == s[i]);
            }
        }
        lemma_split_single_limited(shorter, sep, limit);
        assert(s[s.len() - 1] != sep);
        assert(shorter.push(s.last()) =~= s);
        assert(seq![shorter].update(0, s) =~= seq![s]);
    } else {
        assert(s =~= Seq::<char>::empty());
    }
}

/// A name that may stand in a path as it is.
pub open spec fn is_valid_component(s: Seq<char>) -> bool {
    derivation(s) == Ok::<Seq<char>, NameError>(s)
}

/// The names that may stand in a path as they are: canonical, not empty and no
/// longer than the limit.
pub proof fn lemma_valid_component(s: Seq<char>)
    ensures
        is_valid_component(s) <==> 0 < s.len() <= MAX_COMPONENT_BYTES && is_canonical(s),
{
    if !is_canonical(s) {
        lemma_tilde_place(s);
    } else if s.len() > 0 {
        assert forall|i: int| 0 <= i < s.len() implies is_kept(#[trigger] s[i]) || s[i] == '~' by {}
        lemma_kept_is_ascii(s);
        lemma_split_single(s, '/');
        reveal_strlit(".");
        reveal_strlit("..");
        assert(is_lower(s[0]) || is_digit(s[0]));
        assert("."@[0] == '.' && ".."@[0] == '.');
        assert(!has_traversal(s)) by {
            assert(seq![s][0] == s);
        }
    }
}

/// A name that may stand in a path as it is, is one entry of it.
pub proof fn lemma_valid_component_is_entry(s: Seq<char>)
    requires
        is_valid_component(s),
    ensures
        single_entry(encode_utf8(s)),
{
    lemma_derived_is_component(s);
    lemma_component_is_single_entry(s);
}

/// A name that may stand in a path as it is has as many bytes as characters, each with
/// its character's number, and begins with a small letter or a digit.
pub proof fn lemma_valid_component_bytes(s: Seq<char>)
    requires
        is_valid_component(s),
    ensures
        encode_utf8(s).len() == s.len(),
        s.len() > 0,
        is_lower(s[0]) || is_digit(s[0]),
        forall|i: int| 0 <= i < s.len() ==> encode_utf8(s)[i] as u32 == s[i] as u32,
{
    lemma_valid_component(s);
    lemma_derived_is_component(s);
    lemma_kept_is_ascii(s);
    assert(encode_utf8(s)[0] as u32 == s[0] as u32);
}

/// Whether `value` may stand in a path as it is.
pub fn valid_component(value: &str) -> (r: bool)
    ensures
        r == is_valid_component(value@),
{
    match derive_component(value) {
        Ok(derived) => same_text(derived.as_str(), value),
        Err(_) => false,
    }
}

// ---------------------------------------------------------------------------
// Derivation
// ---------------------------------------------------------------------------

fn char_is_kept(c: char) -> (r: bool)
    ensures
        r == is_kept(c),
{
    char_is_lower(c) || char_is_upper(c) || char_is_digit(c) || c == '.' || c == '_' || c == '-'
}

/// Whether the name is canonical.
pub fn chars_are_canonical(chars: &Vec<char>) -> (r: bool)
    ensures
        r == is_canonical(chars@),
{
    let mut i: usize = 0;
    while i < chars.len()
        invariant
            i <= chars@.len(),
            forall|j: int|
                0 <= j < i ==> {
                    let c = #[trigger] chars@[j];
                    is_lower(c) || is_digit(c) || (j > 0 && (c == '.' || c == '_' || c == '-'))
                },
        decreases chars@.len() - i,
    {
        let c = chars[i];
        if !(char_is_lower(c) || char_is_digit(c) || (i > 0 && (c == '.' || c == '_' || c == '-'))) {
            return false;
        }
        i = i + 1;
    }
    true
}

fn readable_text(chars: &Vec<char>) -> (r: String)
    ensures
        r@ == readable(chars@),
{
    let mut out: String = String::new();
    let mut i: usize = 0;
    while i < chars.len()
        invariant
            i <= chars@.len(),
            out@ =~= readable(chars@).take(i as int),
        decreases chars@.len() - i,
    {
        if char_is_kept(chars[i]) {
            out.push(chars[i]);
        } else {
            out.push('_');
        }
        i = i + 1;
    }
    proof {
        assert(readable(chars@).take(chars@.len() as int) =~= readable(chars@));
    }
    out
}

/// The component of `raw`, or the first reason why it has none.
pub fn derive_component(raw: &str) -> (r: Result<DerivedName, NameError>)
    ensures
        match r {
            Ok(name) => derivation(raw@) == Ok::<Seq<char>, NameError>(name@) && is_component(
                name@,
            ),
            Err(error) => derivation(raw@) == Err::<Seq<char>, NameError>(error),
        },
{
    let chars = chars_of(raw);
    if chars.len() == 0 {
        return Err(NameError::Empty);
    }
    if any_char(raw, '\0') {
        return Err(NameError::ContainsNul);
    }
    if chars[0] == '/' {
        return Err(NameError::Absolute);
    }
    let parts = all_pieces(raw, '/');
    if contains_text(&parts, ".") || contains_text(&parts, "..") {
        return Err(NameError::Traversal);
    }
    let component = if chars_are_canonical(&chars) {
        copy(raw)
    } else {
        let mut out = readable_text(&chars);
        out.push('~');
        let digits = hex_string(raw.as_bytes());
        out.append(digits.as_str());
        out
    };
    let actual: usize = byte_length(component.as_str());
    if actual > MAX_COMPONENT_BYTES {
        return Err(NameError::TooLong { actual, limit: MAX_COMPONENT_BYTES });
    }
    proof {
        lemma_derived_is_component(raw@);
    }
    Ok(DerivedName(component))
}

/// A name with a piece between slashes that leads elsewhere has no component.
pub proof fn lemma_traversal_is_refused(pieces: Seq<Seq<char>>, k: int)
    requires
        0 <= k < pieces.len(),
        forall|i: int| 0 <= i < pieces.len() ==> !has_char(#[trigger] pieces[i], '/'),
        pieces[k] == "."@ || pieces[k] == ".."@,
    ensures
        derivation(join(pieces, seq!['/'])) is Err,
{
    lemma_pieces_are_read_back(pieces, '/');
    let raw = join(pieces, seq!['/']);
    assert(split_on(raw, '/')[k] == pieces[k]);
    assert(has_traversal(raw));
}

/// A name that is empty, holds a NUL or begins with a slash has no component, and that is
/// the reason given.
pub proof fn lemma_why_a_name_is_refused(raw: Seq<char>)
    ensures
        raw.len() == 0 ==> derivation(raw) == Err::<Seq<char>, NameError>(NameError::Empty),
        raw.len() > 0 && (exists|i: int| 0 <= i < raw.len() && #[trigger] raw[i] == '\0')
            ==> derivation(raw) == Err::<Seq<char>, NameError>(NameError::ContainsNul),
        raw.len() > 0 && raw[0] == '/' && !(exists|i: int|
            0 <= i < raw.len() && #[trigger] raw[i] == '\0') ==> derivation(raw) == Err::<
            Seq<char>,
            NameError,
        >(NameError::Absolute),
        derivation(raw) is Ok ==> raw.len() > 0 && raw[0] != '/' && !has_char(raw, '\0'),
{
}

/// Every other name without a slash that is not too long has a component: itself where it
/// may stand in a path as it is, else as much of it as may, character by character, then a
/// tilde, and then all of its bytes in base sixteen.
pub proof fn lemma_ordinary_name_has_component(raw: Seq<char>)
    requires
        raw.len() > 0,
        !has_char(raw, '\0'),
        !has_char(raw, '/'),
        raw != "."@,
        raw != ".."@,
        raw.len() + 1 + 2 * encode_utf8(raw).len() <= 200,
    ensures
        derivation(raw) is Ok,
        ({
            let c = derivation(raw)->Ok_0;
            let n = raw.len() as int;
            ||| c == raw
            ||| {
                &&& c.len() == n + 1 + 2 * encode_utf8(raw).len()
                &&& c[n] == '~'
                &&& c.skip(n + 1) == hex_text(encode_utf8(raw))
                &&& forall|i: int|
                    0 <= i < n ==> #[trigger] c[i] == raw[i] || c[i] == '_'
                &&& forall|i: int|
                    0 <= i < n && ({
                        ||| is_lower(raw[i])
                        ||| is_upper(raw[i])
                        ||| is_digit(raw[i])
                        ||| raw[i] == '.'
                        ||| raw[i] == '-'
                    }) ==> #[trigger] c[i] == raw[i]
            }
        }),
{
    lemma_split_single(raw, '/');
    assert(seq![raw][0] == raw);
    assert(!has_traversal(raw)) by {
        if split_on(raw, '/').contains("."@) {
            assert(raw == "."@);
        }
        if split_on(raw, '/').contains(".."@) {
            assert(raw == ".."@);
        }
    }
    let c = component_of(raw);
    lemma_hex_digits(encode_utf8(raw));
    assert forall|i: int| 0 <= i < c.len() implies is_kept(#[trigger] c[i]) || c[i] == '~' by {
        if is_canonical(raw) {
            assert(raw[i] == c[i]);
        } else if i < raw.len() {
            assert(c[i] == kept_or_underscore(raw[i]));
        } else if i > raw.len() {
            assert(c[i] == hex_text(encode_utf8(raw))[i - raw.len() - 1]);
        }
    }
    lemma_kept_is_ascii(c);
    if is_canonical(raw) {
        assert(c.len() == raw.len());
    } else {
        lemma_tilde_place(raw);
        assert(c.skip(raw.len() as int + 1) =~= hex_text(encode_utf8(raw)));
    }
}

/// No component is longer than the limit, and a canonical name up to it stands as it is.
pub proof fn lemma_components_are_short(raw: Seq<char>)
    ensures
        derivation(raw) is Ok ==> encode_utf8(derivation(raw)->Ok_0).len() <= 200,
        0 < raw.len() <= 200 && is_canonical(raw) ==> derivation(raw) == Ok::<
            Seq<char>,
            NameError,
        >(raw),
        raw.len() > 200 ==> derivation(raw) is Err,
{
    lemma_valid_component(raw);
    if derivation(raw) is Ok && raw.len() > 200 {
        lemma_derived_is_component(raw);
        if !is_canonical(raw) {
            lemma_tilde_place(raw);
        }
    }
}

/// A canonical name consists of small letters, digits, dots, underscores and hyphens, and
/// begins with one of the first two; every such name is canonical.
pub proof fn lemma_which_names_are_canonical(s: Seq<char>)
    ensures
        is_canonical(s) ==> forall|i: int|
            0 <= i < s.len() ==> is_lower(#[trigger] s[i]) || is_digit(s[i]) || s[i] == '.' || s[i]
                == '_' || s[i] == '-',
        is_canonical(s) && s.len() > 0 ==> is_lower(s[0]) || is_digit(s[0]),
        s.len() > 0 && (is_lower(s[0]) || is_digit(s[0])) && (forall|i: int|
            0 <= i < s.len() ==> is_lower(#[trigger] s[i]) || is_digit(s[i]) || s[i] == '.' || s[i]
                == '_' || s[i] == '-') ==> is_canonical(s),
{
    if is_canonical(s) {
        assert forall|i: int| 0 <= i < s.len() implies is_lower(#[trigger] s[i]) || is_digit(s[i])
            || s[i] == '.' || s[i] == '_' || s[i] == '-' by {
            let c = s[i];
            assert(is_lower(c) || is_digit(c) || (i > 0 && (c == '.' || c == '_' || c == '-')));
        }
    }
}

} // verus!
