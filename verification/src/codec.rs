//! Bytes and text: UTF-8, and the base64 in which share links carry their data.
use base64::Engine;
use vstd::prelude::*;
use vstd::utf8::{
    decode_utf8, encode_utf8, encode_utf8_decode_utf8, encode_utf8_valid_utf8, valid_utf8,
};

use crate::text::{from_chars, joined, to_chars};

verus! {

// ---- UTF-8 ----

/// What `String::from_utf8` says of bytes that are no UTF-8.
pub uninterp spec fn utf8_error(bytes: Seq<u8>) -> Seq<char>;

/// The text that `String::from_utf8_lossy` makes of bytes.
pub uninterp spec fn lossy_text(bytes: Seq<u8>) -> Seq<char>;

/// `String::from_utf8` gives the text whose UTF-8 the bytes are, or an error
/// where they are no UTF-8; what the error says depends on the bytes alone.
#[verifier::external_body]
pub(crate) fn from_utf8(bytes: Vec<u8>) -> (r: Result<String, String>)
    ensures
        match r {
            Ok(s) => valid_utf8(bytes@) && s@ == decode_utf8(bytes@),
            Err(e) => !valid_utf8(bytes@) && e@ == utf8_error(bytes@),
        },
{
    String::from_utf8(bytes).map_err(|e| e.to_string())
}

/// `String::from_utf8_lossy` gives the text whose UTF-8 the bytes are. Of bytes
/// that are no UTF-8 it makes some text that depends on them alone; what is no
/// UTF-8 in them is replaced, not left out, so the text is empty only if there are
/// no bytes.
#[verifier::external_body]
pub(crate) fn from_utf8_lossy(bytes: &Vec<u8>) -> (r: String)
    ensures
        r@ == lossy_text(bytes@),
        valid_utf8(bytes@) ==> r@ == decode_utf8(bytes@),
        bytes@.len() > 0 ==> r@.len() > 0,
{
    String::from_utf8_lossy(bytes).into_owned()
}

/// A unit of UTF-16 is the first half of a pair.
pub open spec fn is_high_half(unit: u16) -> bool {
    0xd800 <= unit <= 0xdbff
}

/// A unit of UTF-16 is the second half of a pair.
pub open spec fn is_low_half(unit: u16) -> bool {
    0xdc00 <= unit <= 0xdfff
}

/// The text that UTF-16 stands for: a pair of halves is one character, and so is any
/// other unit. A half without its other is replaced.
pub open spec fn utf16_text(units: Seq<u16>) -> Seq<char>
    decreases units.len(),
{
    if units.len() == 0 {
        Seq::empty()
    } else if is_high_half(units[0]) && units.len() > 1 && is_low_half(units[1]) {
        seq![(0x10000 + (units[0] - 0xd800) * 0x400 + (units[1] - 0xdc00)) as char] + utf16_text(
            units.skip(2),
        )
    } else if is_high_half(units[0]) || is_low_half(units[0]) {
        seq!['\u{fffd}'] + utf16_text(units.skip(1))
    } else {
        seq![units[0] as char] + utf16_text(units.skip(1))
    }
}

/// `String::from_utf16_lossy` gives the text that UTF-16 stands for, with the
/// replacement character U+FFFD for each unit that is half a pair without the other.
#[verifier::external_body]
pub(crate) fn from_utf16_lossy(units: &Vec<u16>) -> (r: String)
    ensures
        r@ == utf16_text(units@),
{
    String::from_utf16_lossy(units)
}

// ---- Base64 ----

/// The bytes that a base64 text with the standard alphabet and padding stands
/// for, or what is wrong with it.
pub uninterp spec fn standard_decode(text: Seq<char>) -> Result<Seq<u8>, Seq<char>>;

/// The base64 digit of a number below sixty-four.
pub open spec fn base64_digit(n: int) -> char {
    if n < 26 {
        (65 + n) as char
    } else if n < 52 {
        (71 + n) as char
    } else if n < 62 {
        (n - 4) as char
    } else if n == 62 {
        '+'
    } else {
        '/'
    }
}

/// Bytes in base64, with the standard alphabet and padding: three bytes are four
/// digits.
pub open spec fn base64_of(b: Seq<u8>) -> Seq<char>
    decreases b.len(),
{
    if b.len() == 0 {
        Seq::empty()
    } else if b.len() == 1 {
        seq![base64_digit(b[0] as int / 4), base64_digit(b[0] as int % 4 * 16), '=', '=']
    } else if b.len() == 2 {
        seq![
            base64_digit(b[0] as int / 4),
            base64_digit(b[0] as int % 4 * 16 + b[1] as int / 16),
            base64_digit(b[1] as int % 16 * 4),
            '=',
        ]
    } else {
        seq![
            base64_digit(b[0] as int / 4),
            base64_digit(b[0] as int % 4 * 16 + b[1] as int / 16),
            base64_digit(b[1] as int % 16 * 4 + b[2] as int / 64),
            base64_digit(b[2] as int % 64),
        ] + base64_of(b.skip(3))
    }
}

/// What decoding gave is the bytes whose base64 a text is, if it is that of some.
pub open spec fn undoes_base64(text: Seq<char>, r: Result<Vec<u8>, String>) -> bool {
    forall|b: Seq<u8>| text == #[trigger] base64_of(b) ==> (r matches Ok(d) && d@ == b)
}

/// `decode` of the `base64` crate's `STANDARD` engine; its result depends on the
/// text alone. The base64 of any bytes decodes to those bytes.
#[verifier::external_body]
pub(crate) fn decode_standard(text: &str) -> (r: Result<Vec<u8>, String>)
    ensures
        match r {
            Ok(b) => standard_decode(text@) == Ok::<Seq<u8>, Seq<char>>(b@),
            Err(e) => standard_decode(text@) == Err::<Seq<u8>, Seq<char>>(e@),
        },
        undoes_base64(text@, r),
{
    base64::engine::general_purpose::STANDARD.decode(text).map_err(|e| e.to_string())
}

/// The characters of base64, those of its URL-safe form included.
pub open spec fn is_base64_char(c: char) -> bool {
    ||| '0' <= c <= '9'
    ||| 'A' <= c <= 'Z'
    ||| 'a' <= c <= 'z'
    ||| c == '+'
    ||| c == '/'
    ||| c == '='
    ||| c == '-'
    ||| c == '_'
}

/// The standard form of a base64 character.
pub open spec fn standard_char(c: char) -> char {
    if c == '-' {
        '+'
    } else if c == '_' {
        '/'
    } else {
        c
    }
}

/// The base64 characters of a text, each in its standard form.
pub open spec fn base64_chars(s: Seq<char>) -> Seq<char>
    decreases s.len(),
{
    if s.len() == 0 {
        Seq::empty()
    } else if is_base64_char(s.last()) {
        base64_chars(s.drop_last()).push(standard_char(s.last()))
    } else {
        base64_chars(s.drop_last())
    }
}

/// A base64 text padded with `=` to groups of four.
pub open spec fn padded(s: Seq<char>) -> Seq<char> {
    s + Seq::new(((4 - s.len() % 4) % 4) as nat, |i: int| '=')
}

/// The text that base64 carries, however it was mangled on the way, given what
/// decoding its standard form makes of it.
pub open spec fn decoded_text(bytes: Result<Seq<u8>, Seq<char>>) -> Result<Seq<char>, Seq<char>> {
    match bytes {
        Err(e) => Err("Base64 解码失败，请检查节点链接是否完整正确: "@ + e),
        Ok(b) => if valid_utf8(b) {
            Ok(decode_utf8(b))
        } else {
            Err("节点内容不是有效 UTF-8: "@ + utf8_error(b))
        },
    }
}

/// The text that base64 carries.
pub open spec fn base64_text(s: Seq<char>) -> Result<Seq<char>, Seq<char>> {
    decoded_text(standard_decode(padded(base64_chars(s))))
}

/// The base64 text of `s` with the standard alphabet and padding: characters
/// that are none of base64 are dropped, the URL-safe ones replaced, and missing
/// padding is added.
pub fn standard_form(s: &str) -> (r: String)
    ensures
        r@ == padded(base64_chars(s@)),
{
    let chars = to_chars(s);
    let mut out: Vec<char> = Vec::new();
    let mut i: usize = 0;
    while i < chars.len()
        invariant
            i <= chars.len(),
            out.len() <= i,
            chars@ == s@,
            out@ == base64_chars(s@.take(i as int)),
        decreases chars.len() - i,
    {
        let c: char = chars[i];
        assert(s@.take(i + 1).drop_last() =~= s@.take(i as int));
        assert(s@.take(i + 1).last() == c);
        if ('0' <= c && c <= '9') || ('A' <= c && c <= 'Z') || ('a' <= c && c <= 'z') || c == '+'
            || c == '/' || c == '=' || c == '-' || c == '_' {
            out.push(
                if c == '-' {
                    '+'
                } else if c == '_' {
                    '/'
                } else {
                    c
                },
            );
        }
        i = i + 1;
    }
    assert(s@.take(i as int) =~= s@);
    let ghost plain = out@;
    let missing: usize = (4 - out.len() % 4) % 4;
    let mut text = from_chars(&out, 0, out.len());
    assert(out@.subrange(0, out@.len() as int) =~= out@);
    let mut k: usize = 0;
    while k < missing
        invariant
            k <= missing,
            missing == (4 - plain.len() % 4) % 4,
            text@ =~= plain + Seq::new(k as nat, |i: int| '='),
        decreases missing - k,
    {
        text.push('=');
        k = k + 1;
    }
    text
}

/// The text that decoded bytes hold, or the message for the user where decoding
/// failed or they are no text.
pub fn text_of_decoded(bytes: Result<Vec<u8>, String>) -> (r: Result<String, String>)
    ensures
        match r {
            Ok(t) => bytes matches Ok(b) && decoded_text(Ok(b@)) == Ok::<Seq<char>, Seq<char>>(t@),
            Err(m) => match bytes {
                Ok(b) => decoded_text(Ok(b@)) == Err::<Seq<char>, Seq<char>>(m@),
                Err(e) => decoded_text(Err(e@)) == Err::<Seq<char>, Seq<char>>(m@),
            },
        },
{
    match bytes {
        Err(e) => Err(joined("Base64 解码失败，请检查节点链接是否完整正确: ", e.as_str())),
        Ok(b) => match from_utf8(b) {
            Ok(t) => Ok(t),
            Err(e) => Err(joined("节点内容不是有效 UTF-8: ", e.as_str())),
        },
    }
}

/// The base64 of a text's UTF-8 is left in `s` once other characters are dropped
/// from it and the URL-safe ones replaced, at most without its padding.
pub open spec fn carries(s: Seq<char>, t: Seq<char>) -> bool {
    let left = base64_chars(s);
    let full = base64_of(encode_utf8(t));
    &&& left.len() <= full.len()
    &&& full.take(left.len() as int) == left
    &&& forall|i: int| left.len() <= i < full.len() ==> #[trigger] full[i] == '='
}

/// Reads the text that base64 carries, in the standard or the URL-safe alphabet,
/// with or without padding, and with other characters strewn in.
pub fn decode_base64(s: &str) -> (r: Result<String, String>)
    ensures
        match r {
            Ok(t) => base64_text(s@) == Ok::<Seq<char>, Seq<char>>(t@),
            Err(m) => base64_text(s@) == Err::<Seq<char>, Seq<char>>(m@),
        },
        forall|t: Seq<char>| #[trigger] carries(s@, t) ==> (r matches Ok(x) && x@ == t),
{
    let text = standard_form(s);
    proof {
        broadcast use {encode_utf8_decode_utf8, encode_utf8_valid_utf8};

        assert forall|t: Seq<char>| #[trigger] carries(s@, t) implies text@ == base64_of(
            encode_utf8(t),
        ) by {
            law_base64_restored(s@, t);
        }
    }
    text_of_decoded(decode_standard(text.as_str()))
}

// ---- Laws ----

/// Base64 comes in groups of four digits, of which only the last two of all can be
/// padding.
proof fn lemma_base64_groups(b: Seq<u8>)
    ensures
        base64_of(b).len() % 4 == 0,
        forall|i: int| 0 <= i < base64_of(b).len() - 2 ==> #[trigger] base64_of(b)[i] != '=',
    decreases b.len(),
{
    if b.len() > 2 {
        let rest = base64_of(b.skip(3));
        lemma_base64_groups(b.skip(3));
        assert forall|i: int| 0 <= i < base64_of(b).len() - 2 implies #[trigger] base64_of(b)[i]
            != '=' by {
            if i >= 4 {
                assert(base64_of(b)[i] == rest[i - 4]);
            }
        }
    }
}

/// Base64 is restored: whatever was strewn into it, whichever alphabet it was put
/// in, and whether or not its padding was left out, its standard form is that of
/// the text that it carries.
pub proof fn law_base64_restored(s: Seq<char>, t: Seq<char>)
    requires
        carries(s, t),
    ensures
        padded(base64_chars(s)) == base64_of(encode_utf8(t)),
{
    let left = base64_chars(s);
    let full = base64_of(encode_utf8(t));
    lemma_base64_groups(encode_utf8(t));
    if left.len() < full.len() - 2 {
        assert(full[left.len() as int] == '=');
    }
    assert(padded(left) =~= full);
}

proof fn lemma_base64_chars_of_sum(a: Seq<char>, b: Seq<char>)
    ensures
        base64_chars(a + b) == base64_chars(a) + base64_chars(b),
    decreases b.len(),
{
    if b.len() == 0 {
        assert(a + b =~= a);
        assert(base64_chars(a) + base64_chars(b) =~= base64_chars(a));
    } else {
        lemma_base64_chars_of_sum(a, b.drop_last());
        assert((a + b).drop_last() =~= a + b.drop_last());
        assert((a + b).last() == b.last());
        assert(base64_chars(a + b) =~= base64_chars(a) + base64_chars(b));
    }
}

/// A character that is none of base64 makes no difference, wherever it stands.
pub proof fn law_noise_ignored(a: Seq<char>, c: char, b: Seq<char>)
    requires
        !is_base64_char(c),
    ensures
        base64_text(a + seq![c] + b) == base64_text(a + b),
{
    lemma_base64_chars_of_sum(a + seq![c], b);
    lemma_base64_chars_of_sum(a, seq![c]);
    lemma_base64_chars_of_sum(a, b);
    assert(seq![c].drop_last() =~= Seq::empty());
    assert(base64_chars(seq![c].drop_last()) =~= Seq::empty());
    assert(base64_chars(a) + base64_chars(seq![c]) =~= base64_chars(a));
}

/// The URL-safe form of a base64 character.
pub open spec fn url_safe_char(c: char) -> char {
    if c == '+' {
        '-'
    } else if c == '/' {
        '_'
    } else {
        c
    }
}

proof fn lemma_url_safe_chars(s: Seq<char>)
    ensures
        base64_chars(s.map_values(|c: char| url_safe_char(c))) == base64_chars(s),
    decreases s.len(),
{
    let safe = s.map_values(|c: char| url_safe_char(c));
    if s.len() > 0 {
        lemma_url_safe_chars(s.drop_last());
        assert(safe.drop_last() =~= s.drop_last().map_values(|c: char| url_safe_char(c)));
        assert(safe.last() == url_safe_char(s.last()));
    } else {
        assert(safe =~= s);
    }
}

/// The URL-safe alphabet stands for the same text as the standard one.
pub proof fn law_url_safe_same(s: Seq<char>)
    ensures
        base64_text(s.map_values(|c: char| url_safe_char(c))) == base64_text(s),
{
    lemma_url_safe_chars(s);
}

proof fn lemma_standard_chars_kept(s: Seq<char>)
    requires
        forall|i: int| 0 <= i < s.len() ==> is_base64_char(#[trigger] s[i]) && standard_char(s[i]) == s[i],
    ensures
        base64_chars(s) == s,
    decreases s.len(),
{
    if s.len() > 0 {
        assert forall|i: int| 0 <= i < s.drop_last().len() implies is_base64_char(
            #[trigger] s.drop_last()[i],
        ) && standard_char(s.drop_last()[i]) == s.drop_last()[i] by {
            assert(s.drop_last()[i] == s[i]);
        }
        lemma_standard_chars_kept(s.drop_last());
        assert(is_base64_char(s[s.len() - 1]));
        assert(base64_chars(s) =~= s);
    } else {
        assert(base64_chars(s) =~= s);
    }
}

proof fn lemma_standard_chars(s: Seq<char>)
    ensures
        forall|i: int|
            0 <= i < base64_chars(s).len() ==> is_base64_char(#[trigger] base64_chars(s)[i])
                && standard_char(base64_chars(s)[i]) == base64_chars(s)[i],
    decreases s.len(),
{
    if s.len() > 0 {
        let shorter = base64_chars(s.drop_last());
        lemma_standard_chars(s.drop_last());
        assert forall|i: int| 0 <= i < base64_chars(s).len() implies is_base64_char(
            #[trigger] base64_chars(s)[i],
        ) && standard_char(base64_chars(s)[i]) == base64_chars(s)[i] by {
            if i < shorter.len() {
                assert(base64_chars(s)[i] == shorter[i]);
            }
        }
    }
}

/// Base64 in its standard form, padding included, stands for the same text as the
/// base64 that it was made of. So padding may be left out.
pub proof fn law_standard_form_same(s: Seq<char>)
    ensures
        base64_text(padded(base64_chars(s))) == base64_text(s),
        padded(base64_chars(s)).len() % 4 == 0,
{
    let chars = base64_chars(s);
    let form = padded(chars);
    lemma_standard_chars(s);
    assert forall|i: int| 0 <= i < form.len() implies is_base64_char(#[trigger] form[i])
        && standard_char(form[i]) == form[i] by {
        if i < chars.len() {
            assert(form[i] == chars[i]);
        }
    }
    lemma_standard_chars_kept(form);
    assert(padded(form) =~= form);
}

proof fn lemma_digits_kept(b: Seq<u8>)
    ensures
        base64_chars(base64_of(b)) == base64_of(b),
{
    lemma_digits(b);
    lemma_standard_chars_kept(base64_of(b));
}

proof fn lemma_digits(b: Seq<u8>)
    ensures
        forall|i: int|
            0 <= i < base64_of(b).len() ==> is_base64_char(#[trigger] base64_of(b)[i])
                && standard_char(base64_of(b)[i]) == base64_of(b)[i],
    decreases b.len(),
{
    if b.len() > 2 {
        let rest = base64_of(b.skip(3));
        lemma_digits(b.skip(3));
        assert forall|i: int| 0 <= i < base64_of(b).len() implies is_base64_char(
            #[trigger] base64_of(b)[i],
        ) && standard_char(base64_of(b)[i]) == base64_of(b)[i] by {
            if i >= 4 {
                assert(base64_of(b)[i] == rest[i - 4]);
            }
        }
    }
}

/// The base64 of a text carries it, and still does in the URL-safe alphabet, which has
/// `-` for `+` and `_` for `/`.
pub proof fn law_base64_carries(t: Seq<char>)
    ensures
        ({
            let full = base64_of(encode_utf8(t));
            &&& carries(full, t)
            &&& forall|s: Seq<char>|
                s.len() == full.len() && (forall|i: int|
                    0 <= i < s.len() ==> #[trigger] s[i] == (if full[i] == '+' {
                        '-'
                    } else if full[i] == '/' {
                        '_'
                    } else {
                        full[i]
                    })) ==> #[trigger] carries(s, t)
        }),
{
    let full = base64_of(encode_utf8(t));
    lemma_digits_kept(encode_utf8(t));
    assert(full.take(full.len() as int) =~= full);
    assert forall|s: Seq<char>|
        s.len() == full.len() && (forall|i: int|
            0 <= i < s.len() ==> #[trigger] s[i] == (if full[i] == '+' {
                '-'
            } else if full[i] == '/' {
                '_'
            } else {
                full[i]
            })) implies #[trigger] carries(s, t) by {
        let safe = full.map_values(|c: char| url_safe_char(c));
        assert(safe =~= s);
        lemma_url_safe_chars(full);
    }
}

/// A text that carries another still does without a `=` at its end, and with any
/// character strewn in that is no letter or digit of ASCII and none of `+`, `/`, `=`,
/// `-` and `_`.
pub proof fn law_mangled_base64_carries(a: Seq<char>, c: char, b: Seq<char>, t: Seq<char>)
    ensures
        carries(a.push('='), t) ==> carries(a, t),
        carries(a + b, t) && !('0' <= c <= '9') && !('A' <= c <= 'Z') && !('a' <= c <= 'z') && c
            != '+' && c != '/' && c != '=' && c != '-' && c != '_' ==> carries(a + seq![c] + b, t),
{
    let full = base64_of(encode_utf8(t));
    let longer = a.push('=');
    assert(longer.drop_last() =~= a);
    if carries(longer, t) {
        let left = base64_chars(longer);
        let less = base64_chars(a);
        assert(left == less.push('='));
        assert(full.take(left.len() as int)[less.len() as int] == '=');
        assert(full.take(less.len() as int) =~= less) by {
            assert forall|i: int| 0 <= i < less.len() implies full[i] == less[i] by {
                assert(full.take(left.len() as int)[i] == left[i]);
            }
        }
    }
    if !is_base64_char(c) {
        lemma_base64_chars_of_sum(a + seq![c], b);
        lemma_base64_chars_of_sum(a, seq![c]);
        lemma_base64_chars_of_sum(a, b);
        assert(seq![c].drop_last() =~= Seq::empty());
        assert(base64_chars(seq![c].drop_last()) =~= Seq::empty());
        assert(base64_chars(a) + base64_chars(seq![c]) =~= base64_chars(a));
    }
}

/// What decoding gives is read as UTF-8: the UTF-8 of a text is that text. Why decoding
/// failed is passed on, and what is no UTF-8 is an error.
pub proof fn law_decoded_read(t: Seq<char>, b: Seq<u8>, e: Seq<char>)
    ensures
        decoded_text(Ok(encode_utf8(t))) == Ok::<Seq<char>, Seq<char>>(t),
        !valid_utf8(b) ==> decoded_text(Ok(b)) is Err,
        decoded_text(Err(e)) == Err::<Seq<char>, Seq<char>>(
            "Base64 解码失败，请检查节点链接是否完整正确: "@ + e,
        ),
{
    broadcast use {encode_utf8_decode_utf8, encode_utf8_valid_utf8};

}

} // verus!
