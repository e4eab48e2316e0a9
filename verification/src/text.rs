//! Text as sequences of characters: the building blocks that the rest of the
//! crate is specified with.

use vstd::prelude::*;
use vstd::string::*;
use vstd::utf8::*;

verus! {

// ---------------------------------------------------------------------------
// Characters
// ---------------------------------------------------------------------------

/// The Unicode `White_Space` property.
pub open spec fn is_space(c: char) -> bool {
    let n = c as u32;
    ||| 0x9 <= n <= 0xd
    ||| n == 0x20
    ||| n == 0x85
    ||| n == 0xa0
    ||| n == 0x1680
    ||| 0x2000 <= n <= 0x200a
    ||| n == 0x2028
    ||| n == 0x2029
    ||| n == 0x202f
    ||| n == 0x205f
    ||| n == 0x3000
}

/// `char::is_whitespace` answers whether the character has the Unicode
/// `White_Space` property, as its documentation says.
pub assume_specification[ char::is_whitespace ](c: char) -> (r: bool)
    ensures
        r == is_space(c),
;

/// `String::push` appends one character.
pub assume_specification[ String::push ](s: &mut String, c: char)
    ensures
        final(s)@ == old(s)@.push(c),
;

/// The characters of `s`, in order.
pub fn chars_of(s: &str) -> (r: Vec<char>)
    ensures
        r@ == s@,
{
    let mut out: Vec<char> = Vec::new();
    for c in it: s.chars()
        invariant
            it.seq() == s@,
            out@ == s@.take(it.index() as int),
    {
        out.push(c);
        assert(s@.take(it.index() as int).push(c) =~= s@.take(it.index() as int + 1));
    }
    assert(s@.take(s@.len() as int) =~= s@);
    out
}

/// The text from character `from` to the end.
pub fn from_char(s: &str, from: usize) -> (r: &str)
    requires
        from <= s@.len(),
    ensures
        r@ == s@.skip(from as int),
{
    let n: usize = s.unicode_len();
    let r = s.substring_char(from, n);
    assert(r@ =~= s@.skip(from as int));
    r
}

/// Whether two texts are the same.
pub fn same_text(a: &str, b: &str) -> (r: bool)
    ensures
        r == (a@ == b@),
{
    same_chars(chars_of(a).as_slice(), chars_of(b).as_slice())
}

/// Whether two character slices are the same.
pub fn same_chars(x: &[char], y: &[char]) -> (r: bool)
    ensures
        r == (x@ == y@),
{
    if x.len() != y.len() {
        return false;
    }
    let mut i: usize = 0;
    while i < x.len()
        invariant
            i <= x@.len(),
            x@.len() == y@.len(),
            forall|j: int| 0 <= j < i ==> x@[j] == y@[j],
        decreases x@.len() - i,
    {
        if x[i] != y[i] {
            return false;
        }
        i += 1;
    }
    assert(x@ =~= y@);
    true
}

/// A reply, its text seen as characters.
pub open spec fn reply_view(reply: Result<(), String>) -> Result<(), Seq<char>> {
    match reply {
        Ok(_) => Ok(()),
        Err(why) => Err(why@),
    }
}

// ---------------------------------------------------------------------------
// Searching
// ---------------------------------------------------------------------------

/// `needle` stands in `hay` at character `at`.
pub open spec fn occurs_at(hay: Seq<char>, needle: Seq<char>, at: int) -> bool {
    &&& 0 <= at
    &&& at + needle.len() <= hay.len()
    &&& hay.subrange(at, at + needle.len()) == needle
}

/// `needle` stands somewhere in `hay`.
pub open spec fn contains_text(hay: Seq<char>, needle: Seq<char>) -> bool {
    exists|at: int| occurs_at(hay, needle, at)
}

/// Whether `needle` stands in `hay` at `at`.
fn found_at(hay: &[char], needle: &[char], at: usize) -> (r: bool)
    requires
        at + needle@.len() <= hay@.len(),
    ensures
        r == occurs_at(hay@, needle@, at as int),
{
    let n: usize = hay.len();
    let mut i: usize = 0;
    while i < needle.len()
        invariant
            i <= needle@.len(),
            n == hay@.len(),
            at + needle@.len() <= n,
            forall|j: int| 0 <= j < i ==> hay@[at + j] == needle@[j],
        decreases needle@.len() - i,
    {
        if hay[at + i] != needle[i] {
            assert(hay@.subrange(at as int, at + needle@.len())[i as int] != needle@[i as int]);
            return false;
        }
        i += 1;
    }
    assert(hay@.subrange(at as int, at + needle@.len()) =~= needle@);
    true
}

/// Whether `hay` contains `needle`.
pub fn contains_chars(hay: &[char], needle: &[char]) -> (r: bool)
    ensures
        r == contains_text(hay@, needle@),
{
    if needle.len() > hay.len() {
        return false;
    }
    let last: usize = hay.len() - needle.len();
    let mut at: usize = 0;
    while at < last
        invariant
            at <= last,
            last + needle@.len() == hay@.len(),
            forall|j: int| 0 <= j < at ==> !occurs_at(hay@, needle@, j),
        decreases last - at,
    {
        if found_at(hay, needle, at) {
            return true;
        }
        at += 1;
    }
    found_at(hay, needle, at)
}

/// Whether `hay` begins with `needle`.
pub fn begins_with(hay: &[char], needle: &[char]) -> (r: bool)
    ensures
        r == needle@.is_prefix_of(hay@),
{
    if needle.len() > hay.len() {
        return false;
    }
    let r = found_at(hay, needle, 0);
    assert(needle@.is_prefix_of(hay@) == occurs_at(hay@, needle@, 0));
    r
}

// ---------------------------------------------------------------------------
// Trimming
// ---------------------------------------------------------------------------

/// `s` without its leading white space.
pub open spec fn trimmed_start(s: Seq<char>) -> Seq<char>
    decreases s.len(),
{
    if s.len() > 0 && is_space(s[0]) {
        trimmed_start(s.drop_first())
    } else {
        s
    }
}

/// `s` without its trailing white space.
pub open spec fn trimmed_end(s: Seq<char>) -> Seq<char>
    decreases s.len(),
{
    if s.len() > 0 && is_space(s.last()) {
        trimmed_end(s.drop_last())
    } else {
        s
    }
}

/// `s` without its leading and trailing white space.
pub open spec fn trimmed(s: Seq<char>) -> Seq<char> {
    trimmed_end(trimmed_start(s))
}

/// `s` without its leading slashes.
pub open spec fn without_slashes(s: Seq<char>) -> Seq<char>
    decreases s.len(),
{
    if s.len() > 0 && s[0] == '/' {
        without_slashes(s.drop_first())
    } else {
        s
    }
}

/// Removes leading white space.
pub fn trim_start(s: &str) -> (r: &str)
    ensures
        r@ == trimmed_start(s@),
{
    let chars = chars_of(s);
    let mut i: usize = 0;
    assert(s@.skip(0) =~= s@);
    while i < chars.len() && chars[i].is_whitespace()
        invariant
            chars@ == s@,
            i <= chars@.len(),
            trimmed_start(s@) == trimmed_start(s@.skip(i as int)),
        decreases chars@.len() - i,
    {
        assert(s@.skip(i as int).drop_first() =~= s@.skip(i + 1));
        i += 1;
    }
    from_char(s, i)
}

/// Removes trailing white space.
pub fn trim_end(s: &str) -> (r: &str)
    ensures
        r@ == trimmed_end(s@),
{
    let chars = chars_of(s);
    let mut i: usize = chars.len();
    assert(s@.take(i as int) =~= s@);
    while i > 0 && chars[i - 1].is_whitespace()
        invariant
            chars@ == s@,
            i <= chars@.len(),
            trimmed_end(s@) == trimmed_end(s@.take(i as int)),
        decreases i,
    {
        assert(s@.take(i as int).drop_last() =~= s@.take(i - 1));
        i -= 1;
    }
    let r = s.substring_char(0, i);
    assert(r@ =~= s@.take(i as int));
    r
}

/// Removes leading and trailing white space.
pub fn trim(s: &str) -> (r: &str)
    ensures
        r@ == trimmed(s@),
{
    trim_end(trim_start(s))
}

/// Removes leading slashes.
pub fn trim_slashes(s: &str) -> (r: &str)
    ensures
        r@ == without_slashes(s@),
{
    let chars = chars_of(s);
    let mut i: usize = 0;
    assert(s@.skip(0) =~= s@);
    while i < chars.len() && chars[i] == '/'
        invariant
            chars@ == s@,
            i <= chars@.len(),
            without_slashes(s@) == without_slashes(s@.skip(i as int)),
        decreases chars@.len() - i,
    {
        assert(s@.skip(i as int).drop_first() =~= s@.skip(i + 1));
        i += 1;
    }
    from_char(s, i)
}

// ---------------------------------------------------------------------------
// Case
// ---------------------------------------------------------------------------

/// `c` with `A` to `Z` lowered.
pub open spec fn lower_char(c: char) -> char {
    if 'A' <= c && c <= 'Z' {
        (c as u32 + 32) as char
    } else {
        c
    }
}

/// `s` with `A` to `Z` lowered.
pub open spec fn lower_ascii(s: Seq<char>) -> Seq<char> {
    Seq::new(s.len(), |i: int| lower_char(s[i]))
}

/// The same text but for the case of `A` to `Z`.
pub open spec fn same_ignoring_case(a: Seq<char>, b: Seq<char>) -> bool {
    lower_ascii(a) == lower_ascii(b)
}

/// The characters of `s` with `A` to `Z` lowered.
pub fn lower_chars(s: &str) -> (r: Vec<char>)
    ensures
        r@ == lower_ascii(s@),
{
    let mut chars = chars_of(s);
    let n: usize = chars.len();
    let mut i: usize = 0;
    while i < n
        invariant
            i <= n,
            n == s@.len(),
            chars@.len() == n,
            forall|j: int| 0 <= j < i ==> chars@[j] == lower_char(s@[j]),
            forall|j: int| i <= j < n ==> chars@[j] == s@[j],
        decreases n - i,
    {
        let c = chars[i];
        if 'A' <= c && c <= 'Z' {
            chars.set(i, (c as u8 + 32) as char);
        }
        i += 1;
    }
    assert(chars@ =~= lower_ascii(s@));
    chars
}

/// Whether two texts are the same but for the case of `A` to `Z`.
pub fn eq_ignore_case(a: &str, b: &str) -> (r: bool)
    ensures
        r == same_ignoring_case(a@, b@),
{
    same_chars(lower_chars(a).as_slice(), lower_chars(b).as_slice())
}

/// What `str::to_lowercase` makes of a text.
pub uninterp spec fn lowercase(s: Seq<char>) -> Seq<char>;

/// `str::to_lowercase` maps a text to its Unicode lower case. The result is
/// called `lowercase`; of a text that is all ASCII it is the text with `A` to
/// `Z` lowered.
pub assume_specification[ str::to_lowercase ](s: &str) -> (r: String)
    ensures
        r@ == lowercase(s@),
        is_ascii_chars(s@) ==> r@ == lower_ascii(s@),
;

// ---------------------------------------------------------------------------
// Numbers
// ---------------------------------------------------------------------------

/// The character of a decimal digit.
pub open spec fn digit(d: nat) -> char {
    (48 + d) as char
}

/// `n` in decimal, without leading zeros.
pub open spec fn decimal(n: nat) -> Seq<char>
    decreases n,
{
    if n < 10 {
        seq![digit(n)]
    } else {
        decimal(n / 10).push(digit(n % 10))
    }
}

/// `n` in decimal, with a minus sign where it is negative.
pub open spec fn signed_decimal(n: int) -> Seq<char> {
    if n < 0 {
        seq!['-'] + decimal((-n) as nat)
    } else {
        decimal(n as nat)
    }
}

/// `s` with zeros put before it until it is at least `width` long.
pub open spec fn zero_padded(s: Seq<char>, width: nat) -> Seq<char>
    decreases width - s.len(),
{
    if s.len() < width {
        zero_padded(seq!['0'] + s, width)
    } else {
        s
    }
}

/// Appends `n` in decimal.
pub fn push_decimal(out: &mut String, n: u128)
    ensures
        final(out)@ == old(out)@ + decimal(n as nat),
    decreases n,
{
    let ghost before = out@;
    if n >= 10 {
        push_decimal(out, n / 10);
    }
    let d: u8 = (n % 10) as u8;
    out.push((48 + d) as char);
    assert(out@ =~= before + decimal(n as nat));
}

/// Appends `n` in decimal, with its sign.
pub fn push_signed_decimal(out: &mut String, n: i32)
    ensures
        final(out)@ == old(out)@ + signed_decimal(n as int),
{
    let ghost before = out@;
    if n < 0 {
        out.push('-');
        push_decimal(out, (-(n as i64)) as u128);
    } else {
        push_decimal(out, n as u128);
    }
    assert(out@ =~= before + signed_decimal(n as int));
}

// ---------------------------------------------------------------------------
// Byte offsets
// ---------------------------------------------------------------------------

/// The byte offset of character `k` of `s` in UTF-8.
pub open spec fn byte_offset(s: Seq<char>, k: int) -> nat {
    encode_utf8(s.take(k)).len()
}

/// Byte `b` of `s` is the start of a character, or the end of the text.
pub open spec fn at_boundary(s: Seq<char>, b: int) -> bool {
    exists|k: int| 0 <= k <= s.len() && #[trigger] byte_offset(s, k) == b
}

/// The character that starts at byte `b`.
pub open spec fn char_at_byte(s: Seq<char>, b: int) -> int
    recommends
        at_boundary(s, b),
{
    choose|k: int| 0 <= k <= s.len() && #[trigger] byte_offset(s, k) == b
}

/// The UTF-8 encoding of a text is that of its parts.
pub proof fn encoding_of_parts(a: Seq<char>, b: Seq<char>)
    ensures
        encode_utf8(a + b) == encode_utf8(a) + encode_utf8(b),
    decreases a.len(),
{
    if a.len() == 0 {
        assert(a + b =~= b);
        assert(encode_utf8(a) + encode_utf8(b) =~= encode_utf8(b));
    } else {
        assert((a + b).drop_first() =~= a.drop_first() + b);
        encoding_of_parts(a.drop_first(), b);
        assert(encode_utf8(a + b) =~= encode_utf8(a) + encode_utf8(b));
    }
}

/// The next character starts where this one ends.
pub proof fn byte_offset_step(s: Seq<char>, k: int)
    requires
        0 <= k < s.len(),
    ensures
        byte_offset(s, k + 1) == byte_offset(s, k) + encode_scalar(s[k] as u32).len(),
        byte_offset(s, k) < byte_offset(s, k + 1),
{
    assert(s.take(k + 1) =~= s.take(k) + seq![s[k]]);
    encoding_of_parts(s.take(k), seq![s[k]]);
    assert(seq![s[k]].drop_first() =~= Seq::<char>::empty());
    assert(encode_utf8(seq![s[k]]) =~= encode_scalar(s[k] as u32)) by {
        reveal_with_fuel(encode_utf8, 2);
    }
}

/// Characters start at growing offsets, within the text.
pub proof fn byte_offset_grows(s: Seq<char>, i: int, j: int)
    requires
        0 <= i <= j <= s.len(),
    ensures
        byte_offset(s, i) <= byte_offset(s, j) <= encode_utf8(s).len(),
        i < j ==> byte_offset(s, i) < byte_offset(s, j),
    decreases s.len() - i,
{
    if i < j {
        byte_offset_step(s, i);
        byte_offset_grows(s, i + 1, j);
    } else if j < s.len() {
        byte_offset_step(s, i);
        byte_offset_grows(s, i + 1, i + 1);
    } else {
        assert(s.take(s.len() as int) =~= s);
    }
}

/// The byte offset of a character leads back to that character.
pub proof fn byte_offset_inverts(s: Seq<char>, k: int)
    requires
        0 <= k <= s.len(),
    ensures
        at_boundary(s, byte_offset(s, k) as int),
        char_at_byte(s, byte_offset(s, k) as int) == k,
{
    let c = char_at_byte(s, byte_offset(s, k) as int);
    assert(0 <= c <= s.len() && byte_offset(s, c) == byte_offset(s, k));
    if c < k {
        byte_offset_grows(s, c, k);
    }
    if k < c {
        byte_offset_grows(s, k, c);
    }
}

/// The length of a character in UTF-8.
fn char_width(c: char) -> (r: usize)
    ensures
        r == encode_scalar(c as u32).len(),
{
    let n: u32 = c as u32;
    if n < 0x80 {
        1
    } else if n < 0x800 {
        2
    } else if n < 0x10000 {
        3
    } else {
        4
    }
}

/// The byte offset of character `at` of `chars`, the characters of `s`.
fn offset_in(s: &str, chars: &[char], at: usize) -> (r: usize)
    requires
        chars@ == s@,
        at <= chars@.len(),
    ensures
        r == byte_offset(s@, at as int),
{
    let total: usize = s.as_bytes().len();
    let mut off: usize = 0;
    let mut i: usize = 0;
    assert(s@.take(0) =~= Seq::<char>::empty());
    while i < at
        invariant
            chars@ == s@,
            i <= at <= chars@.len(),
            total == encode_utf8(s@).len(),
            off == byte_offset(s@, i as int),
        decreases at - i,
    {
        proof {
            byte_offset_step(s@, i as int);
            byte_offset_grows(s@, i as int, i + 1);
        }
        off += char_width(chars[i]);
        i += 1;
    }
    off
}

/// The byte offset of character `at`, or the length where there is none.
pub fn offset_of_char(s: &str, at: usize) -> (r: usize)
    ensures
        r == byte_offset(s@, if at <= s@.len() { at as int } else { s@.len() as int }),
{
    let chars = chars_of(s);
    let at: usize = if at <= chars.len() {
        at
    } else {
        chars.len()
    };
    offset_in(s, chars.as_slice(), at)
}

/// The character that starts at byte `b`: the number of characters before it.
pub fn chars_before(s: &str, b: usize) -> (r: usize)
    requires
        at_boundary(s@, b as int),
    ensures
        r == char_at_byte(s@, b as int),
        r <= s@.len(),
{
    let chars = chars_of(s);
    let n: usize = chars.len();
    let ghost k = char_at_byte(s@, b as int);
    let total: usize = s.as_bytes().len();
    let mut off: usize = 0;
    let mut i: usize = 0;
    assert(s@.take(0) =~= Seq::<char>::empty());
    while off < b
        invariant
            chars@ == s@,
            total == encode_utf8(s@).len(),
            n == chars@.len(),
            0 <= i <= k <= n,
            off == byte_offset(s@, i as int),
            b == byte_offset(s@, k),
        decreases k - i,
    {
        proof {
            if i == k {
                assert(off == b);
            }
            byte_offset_step(s@, i as int);
            byte_offset_grows(s@, i as int, i + 1);
        }
        off += char_width(chars[i]);
        i += 1;
    }
    proof {
        if i < k {
            byte_offset_grows(s@, i as int, k);
        }
    }
    i
}

// ---------------------------------------------------------------------------
// Bytes
// ---------------------------------------------------------------------------

/// What `String::from_utf8_lossy` makes of bytes.
pub uninterp spec fn utf8_lossy(bytes: Seq<u8>) -> Seq<char>;

/// `String::from_utf8_lossy` decodes bytes as UTF-8 and puts replacement
/// characters where they are not. The result is called `utf8_lossy`; valid
/// UTF-8 is decoded as it stands, and there is some text just where there are
/// some bytes.
#[verifier::external_body]
pub(crate) fn decode_lossy(bytes: &[u8]) -> (r: String)
    ensures
        r@ == utf8_lossy(bytes@),
        valid_utf8(bytes@) ==> r@ == decode_utf8(bytes@),
        r@.len() == 0 <==> bytes@.len() == 0,
{
    String::from_utf8_lossy(bytes).into_owned()
}

// ---------------------------------------------------------------------------
// Laws
// ---------------------------------------------------------------------------

/// Trimming the start takes white space off, all of it, and nothing else.
pub proof fn start_is_trimmed(s: Seq<char>) -> (k: int)
    ensures
        0 <= k <= s.len(),
        trimmed_start(s) == s.skip(k),
        forall|i: int| 0 <= i < k ==> is_space(#[trigger] s[i]),
        k < s.len() ==> !is_space(s[k]),
    decreases s.len(),
{
    if s.len() > 0 && is_space(s[0]) {
        let rest = s.drop_first();
        let k = start_is_trimmed(rest);
        assert(rest.skip(k) =~= s.skip(k + 1));
        assert forall|i: int| 0 <= i < k + 1 implies is_space(#[trigger] s[i]) by {
            if i > 0 {
                assert(rest[i - 1] == s[i]);
            }
        }
        k + 1
    } else {
        assert(s.skip(0) =~= s);
        0
    }
}

/// Trimming the end takes white space off, all of it, and nothing else.
pub proof fn end_is_trimmed(s: Seq<char>) -> (k: int)
    ensures
        0 <= k <= s.len(),
        trimmed_end(s) == s.take(k),
        forall|i: int| k <= i < s.len() ==> is_space(#[trigger] s[i]),
        k > 0 ==> !is_space(s[k - 1]),
    decreases s.len(),
{
    if s.len() > 0 && is_space(s.last()) {
        let rest = s.drop_last();
        let k = end_is_trimmed(rest);
        assert(rest.take(k) =~= s.take(k));
        assert forall|i: int| k <= i < s.len() implies is_space(#[trigger] s[i]) by {
            if i < rest.len() {
                assert(rest[i] == s[i]);
            }
        }
        k
    } else {
        assert(s.take(s.len() as int) =~= s);
        s.len() as int
    }
}

/// Trimming leaves what stands from the first character that is no white space
/// to the last one.
pub proof fn both_ends_are_trimmed(s: Seq<char>) -> (r: (int, int))
    ensures
        0 <= r.0 <= r.1 <= s.len(),
        trimmed(s) == s.subrange(r.0, r.1),
        forall|i: int| 0 <= i < r.0 ==> is_space(#[trigger] s[i]),
        forall|i: int| r.1 <= i < s.len() ==> is_space(#[trigger] s[i]),
        r.0 < r.1 ==> !is_space(s[r.0]) && !is_space(s[r.1 - 1]),
{
    let a = start_is_trimmed(s);
    let t = s.skip(a);
    let n = end_is_trimmed(t);
    assert(t.take(n) =~= s.subrange(a, a + n));
    assert forall|i: int| a + n <= i < s.len() implies is_space(#[trigger] s[i]) by {
        assert(t[i - a] == s[i]);
    }
    if n > 0 {
        assert(t[n - 1] == s[a + n - 1]);
    }
    (a, a + n)
}

/// Leading slashes are taken off, all of them, and nothing else.
pub proof fn slashes_are_trimmed(s: Seq<char>) -> (k: int)
    ensures
        0 <= k <= s.len(),
        without_slashes(s) == s.skip(k),
        forall|i: int| 0 <= i < k ==> (#[trigger] s[i]) == '/',
        k < s.len() ==> s[k] != '/',
    decreases s.len(),
{
    if s.len() > 0 && s[0] == '/' {
        let rest = s.drop_first();
        let k = slashes_are_trimmed(rest);
        assert(rest.skip(k) =~= s.skip(k + 1));
        assert forall|i: int| 0 <= i < k + 1 implies (#[trigger] s[i]) == '/' by {
            if i > 0 {
                assert(rest[i - 1] == s[i]);
            }
        }
        k + 1
    } else {
        assert(s.skip(0) =~= s);
        0
    }
}

/// Lowering moves each of `A` to `Z` to its small letter, thirty-two places on,
/// and leaves every other character.
pub proof fn letters_are_lowered(s: Seq<char>)
    ensures
        lower_ascii(s).len() == s.len(),
        forall|i: int|
            0 <= i < s.len() ==> if 'A' <= s[i] && s[i] <= 'Z' {
                (#[trigger] lower_ascii(s)[i]) as u32 == s[i] as u32 + 32
            } else {
                lower_ascii(s)[i] == s[i]
            },
{
    assert forall|i: int| 0 <= i < s.len() implies if 'A' <= s[i] && s[i] <= 'Z' {
        (#[trigger] lower_ascii(s)[i]) as u32 == s[i] as u32 + 32
    } else {
        lower_ascii(s)[i] == s[i]
    } by {
        let c: char = s[i];
        assert(lower_ascii(s)[i] == lower_char(c));
    }
}

/// `b` is the small letter of `a`.
pub open spec fn small_of(a: char, b: char) -> bool {
    'A' <= a && a <= 'Z' && b as u32 == a as u32 + 32
}

/// Texts are the same but for case just where they are as long, and each
/// character is the other's, or its small or its capital letter.
pub proof fn case_is_ignored(a: Seq<char>, b: Seq<char>)
    ensures
        same_ignoring_case(a, b) <==> a.len() == b.len() && forall|i: int|
            0 <= i < a.len() ==> (#[trigger] a[i]) == b[i] || small_of(a[i], b[i]) || small_of(
                b[i],
                a[i],
            ),
{
    letters_are_lowered(a);
    letters_are_lowered(b);
    if same_ignoring_case(a, b) {
        assert(lower_ascii(a).len() == lower_ascii(b).len());
        assert forall|i: int| 0 <= i < a.len() implies (#[trigger] a[i]) == b[i] || small_of(
            a[i],
            b[i],
        ) || small_of(b[i], a[i]) by {
            one_letter(a[i], b[i]);
            assert(lower_ascii(a)[i] == lower_ascii(b)[i]);
        }
    }
    if a.len() == b.len() && forall|i: int|
        0 <= i < a.len() ==> (#[trigger] a[i]) == b[i] || small_of(a[i], b[i]) || small_of(
            b[i],
            a[i],
        ) {
        assert forall|i: int| 0 <= i < a.len() implies lower_ascii(a)[i] == lower_ascii(b)[i] by {
            assert(a[i] == b[i] || small_of(a[i], b[i]) || small_of(b[i], a[i]));
            one_letter(a[i], b[i]);
        }
        assert(lower_ascii(a) =~= lower_ascii(b));
    }
}

proof fn one_letter(a: char, b: char)
    ensures
        lower_char(a) == lower_char(b) <==> a == b || small_of(a, b) || small_of(b, a),
{
}

/// A text holds another just where it is that text with something, or nothing,
/// before and behind it.
pub proof fn holding_is_standing_within(hay: Seq<char>, needle: Seq<char>)
    ensures
        contains_text(hay, needle) <==> exists|before: Seq<char>, behind: Seq<char>|
            hay == #[trigger] (before + needle + behind),
{
    if contains_text(hay, needle) {
        let at = choose|at: int| occurs_at(hay, needle, at);
        let before = hay.take(at);
        let behind = hay.skip(at + needle.len());
        assert(hay =~= before + needle + behind);
    }
    if exists|before: Seq<char>, behind: Seq<char>| hay == #[trigger] (before + needle + behind) {
        let (before, behind) = choose|before: Seq<char>, behind: Seq<char>|
            hay == #[trigger] (before + needle + behind);
        let at = before.len() as int;
        assert(hay.subrange(at, at + needle.len()) =~= needle);
        assert(occurs_at(hay, needle, at));
    }
}

/// The number that decimal digits stand for.
pub open spec fn number_read(digits: Seq<char>) -> nat
    decreases digits.len(),
{
    if digits.len() == 0 {
        0
    } else {
        number_read(digits.drop_last()) * 10 + (digits.last() as u32 - '0' as u32) as nat
    }
}

/// A number in decimal reads back as that number; it is made of digits, and
/// begins with a zero only where it is one.
pub proof fn decimal_reads_back(n: nat)
    ensures
        number_read(decimal(n)) == n,
        decimal(n).len() > 0,
        forall|i: int| 0 <= i < decimal(n).len() ==> '0' <= #[trigger] decimal(n)[i] <= '9',
        decimal(n)[0] == '0' ==> n == 0 && decimal(n).len() == 1,
    decreases n,
{
    let digits = decimal(n);
    if n < 10 {
        assert(digits.drop_last() =~= Seq::<char>::empty());
        assert(number_read(digits.drop_last()) == 0);
        digit_counts(n);
    } else {
        decimal_reads_back(n / 10);
        assert(digits.drop_last() =~= decimal(n / 10));
        digit_counts(n % 10);
        assert forall|i: int| 0 <= i < digits.len() implies '0' <= #[trigger] digits[i] <= '9' by {
            if i < digits.len() - 1 {
                assert(decimal(n / 10)[i] == digits[i]);
            }
        }
        assert(digits[0] == decimal(n / 10)[0]);
    }
}

proof fn digit_counts(d: nat)
    requires
        d < 10,
    ensures
        digit(d) as u32 == '0' as u32 + d,
        '0' <= digit(d) <= '9',
        digit(d) == '0' ==> d == 0,
{
}

/// A negative number has a minus sign before its digits, any other none.
pub proof fn sign_is_written(n: int)
    ensures
        n < 0 ==> signed_decimal(n)[0] == '-' && number_read(signed_decimal(n).skip(1)) == -n,
        n >= 0 ==> number_read(signed_decimal(n)) == n && '0' <= signed_decimal(n)[0] <= '9',
{
    if n < 0 {
        decimal_reads_back((-n) as nat);
        assert(signed_decimal(n).skip(1) =~= decimal((-n) as nat));
    } else {
        decimal_reads_back(n as nat);
    }
}

/// Padding puts zeros before a text, just as many as it lacks.
pub proof fn zeros_are_put_before(s: Seq<char>, width: nat)
    ensures
        zero_padded(s, width).len() == if s.len() < width {
            width
        } else {
            s.len()
        },
        zero_padded(s, width).skip(zero_padded(s, width).len() - s.len()) == s,
        forall|i: int|
            0 <= i < zero_padded(s, width).len() - s.len() ==> (#[trigger] zero_padded(
                s,
                width,
            )[i]) == '0',
    decreases width - s.len(),
{
    let all = zero_padded(s, width);
    if s.len() < width {
        let more = seq!['0'] + s;
        zeros_are_put_before(more, width);
        let k = all.len() - more.len();
        assert(all.skip(k) =~= more);
        assert forall|i: int| 0 <= i < s.len() implies all[k + 1 + i] == s[i] by {
            assert(all.skip(k)[i + 1] == more[i + 1]);
        }
        assert(all.skip(k + 1) =~= s);
        assert(all.skip(k)[0] == '0');
    } else {
        assert(all.skip(0) =~= s);
    }
}

/// Zeros before digits do not change the number.
pub proof fn zeros_count_nothing(digits: Seq<char>, width: nat)
    ensures
        number_read(zero_padded(digits, width)) == number_read(digits),
    decreases width - digits.len(),
{
    if digits.len() < width {
        zeros_count_nothing(seq!['0'] + digits, width);
        one_zero_counts_nothing(digits);
    }
}

proof fn one_zero_counts_nothing(digits: Seq<char>)
    ensures
        number_read(seq!['0'] + digits) == number_read(digits),
    decreases digits.len(),
{
    let all = seq!['0'] + digits;
    if digits.len() == 0 {
        assert(all.drop_last() =~= Seq::<char>::empty());
        assert(number_read(all.drop_last()) == 0);
    } else {
        one_zero_counts_nothing(digits.drop_last());
        assert(all.drop_last() =~= seq!['0'] + digits.drop_last());
        assert(all.last() == digits.last());
    }
}

/// What is trimmed has nothing more to trim.
pub proof fn trimming_twice(s: Seq<char>)
    ensures
        trimmed(trimmed(s)) == trimmed(s),
        trimmed(s).len() > 0 ==> !is_space(trimmed(s)[0]) && !is_space(trimmed(s).last()),
{
    let r = both_ends_are_trimmed(s);
    let t = trimmed(s);
    if t.len() > 0 {
        assert(t[0] == s[r.0]);
        assert(t.last() == s[r.1 - 1]);
    }
}

/// A reply is seen with its whole text.
pub proof fn replies_are_seen_whole(why: String)
    ensures
        reply_view(Ok(())) == Ok::<(), Seq<char>>(()),
        reply_view(Err(why)) == Err::<(), Seq<char>>(why@),
{
}

} // verus!
