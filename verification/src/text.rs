//! Text as sequences of characters: trimming, searching, splitting, and
//! decimal numbers.
use vstd::prelude::*;
use vstd::string::*;
use vstd::utf8::*;

verus! {

// ---- What the operations mean ----

/// The characters with the Unicode property White_Space.
pub open spec fn is_white_space(c: char) -> bool {
    ||| '\u{9}' <= c <= '\u{d}'
    ||| c == ' '
    ||| c == '\u{85}'
    ||| c == '\u{a0}'
    ||| c == '\u{1680}'
    ||| '\u{2000}' <= c <= '\u{200a}'
    ||| c == '\u{2028}'
    ||| c == '\u{2029}'
    ||| c == '\u{202f}'
    ||| c == '\u{205f}'
    ||| c == '\u{3000}'
}

/// `s` without its leading white space.
pub open spec fn trimmed_start(s: Seq<char>) -> Seq<char>
    decreases s.len(),
{
    if s.len() > 0 && is_white_space(s[0]) {
        trimmed_start(s.skip(1))
    } else {
        s
    }
}

/// `s` without its trailing white space.
pub open spec fn trimmed_end(s: Seq<char>) -> Seq<char>
    decreases s.len(),
{
    if s.len() > 0 && is_white_space(s.last()) {
        trimmed_end(s.drop_last())
    } else {
        s
    }
}

/// `s` without white space at either end.
pub open spec fn trimmed(s: Seq<char>) -> Seq<char> {
    trimmed_end(trimmed_start(s))
}

/// `s` begins with `prefix`.
pub open spec fn has_prefix(s: Seq<char>, prefix: Seq<char>) -> bool {
    prefix.len() <= s.len() && s.take(prefix.len() as int) == prefix
}

/// `s` without every repetition of `prefix` at its start.
pub open spec fn without_prefixes(s: Seq<char>, prefix: Seq<char>) -> Seq<char>
    decreases s.len(),
{
    if prefix.len() > 0 && has_prefix(s, prefix) {
        without_prefixes(s.skip(prefix.len() as int), prefix)
    } else {
        s
    }
}

/// The lower-case form of an ASCII letter; other characters are kept.
pub open spec fn ascii_lower(c: char) -> char {
    if 'A' <= c <= 'Z' {
        (c as u32 + 32) as char
    } else {
        c
    }
}

/// `s` begins with `prefix` once ASCII letters of `s` are put in lower case.
pub open spec fn has_prefix_ignoring_case(s: Seq<char>, prefix: Seq<char>) -> bool {
    &&& prefix.len() <= s.len()
    &&& forall|i: int| 0 <= i < prefix.len() ==> ascii_lower(#[trigger] s[i]) == prefix[i]
}

/// `a` and `b` differ at most in the case of ASCII letters.
pub open spec fn equal_ignoring_case(a: Seq<char>, b: Seq<char>) -> bool {
    &&& a.len() == b.len()
    &&& forall|i: int| 0 <= i < a.len() ==> ascii_lower(#[trigger] a[i]) == ascii_lower(b[i])
}

/// The first index at or after `from` at which `c` stands; the length of `s`
/// if there is none.
pub open spec fn first_index(s: Seq<char>, c: char, from: int) -> int
    decreases s.len() - from,
{
    if from < 0 || from >= s.len() {
        s.len() as int
    } else if s[from] == c {
        from
    } else {
        first_index(s, c, from + 1)
    }
}

/// The last index at which `c` stands; -1 if there is none.
pub open spec fn last_index(s: Seq<char>, c: char) -> int
    decreases s.len(),
{
    if s.len() == 0 {
        -1
    } else if s.last() == c {
        s.len() - 1
    } else {
        last_index(s.drop_last(), c)
    }
}

/// What stands before the first `c`; all of `s` if there is none.
pub open spec fn before(s: Seq<char>, c: char) -> Seq<char> {
    s.take(first_index(s, c, 0))
}

/// The pieces of `s` between the characters `c`.
pub open spec fn pieces(s: Seq<char>, c: char) -> Seq<Seq<char>>
    decreases s.len(),
{
    let p = first_index(s, c, 0);
    if 0 <= p < s.len() {
        seq![s.take(p)] + pieces(s.skip(p + 1), c)
    } else {
        seq![s]
    }
}

/// Texts with a separator between them.
pub open spec fn joined_by(list: Seq<Seq<char>>, separator: Seq<char>) -> Seq<char>
    decreases list.len(),
{
    if list.len() == 0 {
        Seq::empty()
    } else if list.len() == 1 {
        list[0]
    } else {
        joined_by(list.drop_last(), separator) + separator + list.last()
    }
}

/// The decimal digit of a number below ten.
pub open spec fn digit(n: nat) -> char {
    ('0' as u32 + n) as char
}

/// A number in decimal, without leading zeros.
pub open spec fn decimal(n: nat) -> Seq<char>
    decreases n,
{
    if n < 10 {
        seq![digit(n)]
    } else {
        decimal(n / 10).push(digit(n % 10))
    }
}

/// A decimal digit.
pub open spec fn is_digit(c: char) -> bool {
    '0' <= c <= '9'
}

/// The number that a sequence of digits stands for.
pub open spec fn digits_value(s: Seq<char>) -> nat
    decreases s.len(),
{
    if s.len() == 0 {
        0
    } else {
        digits_value(s.drop_last()) * 10 + (s.last() as u32 - '0' as u32) as nat
    }
}

/// The number that a text stands for: one or more digits, after at most one
/// plus sign.
pub open spec fn number_in(s: Seq<char>) -> Option<nat> {
    if without_sign(s).len() > 0 && all_digits(without_sign(s)) {
        Some(digits_value(without_sign(s)))
    } else {
        None
    }
}

/// `s` without a plus sign at its start.
pub open spec fn without_sign(s: Seq<char>) -> Seq<char> {
    if s.len() > 0 && s[0] == '+' {
        s.skip(1)
    } else {
        s
    }
}

/// Every character is a decimal digit.
pub open spec fn all_digits(s: Seq<char>) -> bool {
    forall|i: int| 0 <= i < s.len() ==> is_digit(#[trigger] s[i])
}

/// The texts of a list, each as a sequence of characters.
pub open spec fn texts(v: Seq<String>) -> Seq<Seq<char>> {
    v.map_values(|s: String| s@)
}

/// A text, where there is one, as a sequence of characters.
pub open spec fn opt_view(text: Option<&str>) -> Option<Seq<char>> {
    match text {
        Some(t) => Some(t@),
        None => None,
    }
}

/// A text of its own, where there is one, as a sequence of characters.
pub open spec fn owned_view(text: Option<String>) -> Option<Seq<char>> {
    match text {
        Some(t) => Some(t@),
        None => None,
    }
}

// ---- Lemmas ----

proof fn lemma_first_index_is(s: Seq<char>, c: char, from: int, i: int)
    requires
        0 <= from <= i <= s.len(),
        forall|j: int| from <= j < i ==> s[j] != c,
        i < s.len() ==> s[i] == c,
    ensures
        first_index(s, c, from) == i,
    decreases i - from,
{
    if from < i {
        lemma_first_index_is(s, c, from + 1, i);
    }
}

/// Every digit of a decimal is a digit, and reading them back gives the number.
pub proof fn lemma_decimal_value(n: nat)
    ensures
        decimal(n).len() > 0,
        all_digits(decimal(n)),
        digits_value(decimal(n)) == n,
    decreases n,
{
    if n < 10 {
        assert(decimal(n).drop_last() =~= Seq::empty());
        assert(digits_value(Seq::<char>::empty()) == 0);
        assert(decimal(n).last() == digit(n));
    } else {
        lemma_decimal_value(n / 10);
        assert(decimal(n).drop_last() =~= decimal(n / 10));
        assert(decimal(n).last() == digit(n % 10));
    }
}

/// A number written in decimal reads back as itself.
pub proof fn law_decimal_reads_back(n: nat)
    ensures
        number_in(decimal(n)) == Some(n),
{
    lemma_decimal_value(n);
    assert(is_digit(decimal(n)[0]));
}

/// Trimming a text that neither begins nor ends with white space keeps it.
pub proof fn lemma_trimmed_same(s: Seq<char>)
    requires
        s.len() > 0 ==> !is_white_space(s[0]) && !is_white_space(s.last()),
    ensures
        trimmed(s) == s,
{
}

/// A text is white space throughout.
pub open spec fn is_blank(s: Seq<char>) -> bool {
    forall|i: int| 0 <= i < s.len() ==> is_white_space(#[trigger] s[i])
}

proof fn lemma_trimmed_start(a: Seq<char>, s: Seq<char>)
    requires
        is_blank(a),
    ensures
        trimmed_start(a + s) == trimmed_start(s),
    decreases a.len(),
{
    if a.len() == 0 {
        assert(a + s =~= s);
    } else {
        assert(is_white_space(a[0]));
        assert((a + s).skip(1) =~= a.skip(1) + s);
        assert forall|i: int| 0 <= i < a.skip(1).len() implies is_white_space(
            #[trigger] a.skip(1)[i],
        ) by {
            assert(a.skip(1)[i] == a[i + 1]);
        }
        lemma_trimmed_start(a.skip(1), s);
    }
}

proof fn lemma_trimmed_start_kept(s: Seq<char>, b: Seq<char>)
    requires
        trimmed_start(s).len() > 0,
    ensures
        trimmed_start(s + b) == trimmed_start(s) + b,
    decreases s.len(),
{
    if s.len() > 0 && is_white_space(s[0]) {
        assert((s + b).skip(1) =~= s.skip(1) + b);
        lemma_trimmed_start_kept(s.skip(1), b);
    }
}

proof fn lemma_trimmed_end(s: Seq<char>, b: Seq<char>)
    requires
        is_blank(b),
    ensures
        trimmed_end(s + b) == trimmed_end(s),
    decreases b.len(),
{
    if b.len() == 0 {
        assert(s + b =~= s);
    } else {
        assert(is_white_space(b[b.len() - 1]));
        assert((s + b).drop_last() =~= s + b.drop_last());
        assert forall|i: int| 0 <= i < b.drop_last().len() implies is_white_space(
            #[trigger] b.drop_last()[i],
        ) by {
            assert(b.drop_last()[i] == b[i]);
        }
        lemma_trimmed_end(s, b.drop_last());
    }
}

proof fn lemma_trimmed_start_blank(s: Seq<char>)
    requires
        trimmed_start(s).len() == 0,
    ensures
        is_blank(s),
    decreases s.len(),
{
    if s.len() > 0 {
        lemma_trimmed_start_blank(s.skip(1));
        assert forall|i: int| 0 <= i < s.len() implies is_white_space(#[trigger] s[i]) by {
            if i > 0 {
                assert(s.skip(1)[i - 1] == s[i]);
            }
        }
    }
}

/// White space around a text makes no difference to what trimming leaves of it.
pub proof fn law_blanks_trimmed(a: Seq<char>, s: Seq<char>, b: Seq<char>)
    requires
        is_blank(a),
        is_blank(b),
    ensures
        trimmed(a + s + b) == trimmed(s),
{
    assert(a + s + b =~= a + (s + b));
    lemma_trimmed_start(a, s + b);
    if trimmed_start(s).len() > 0 {
        lemma_trimmed_start_kept(s, b);
        lemma_trimmed_end(trimmed_start(s), b);
    } else {
        lemma_trimmed_start_blank(s);
        assert(is_blank(s + b));
        assert(s + b + Seq::<char>::empty() =~= s + b);
        lemma_trimmed_start(s + b, Seq::empty());
        assert(trimmed_start(Seq::<char>::empty()) =~= Seq::<char>::empty());
    }
}

/// Trimming leaves what stands before a character that is not white space, if that
/// begins with none.
pub proof fn lemma_trimmed_after(s: Seq<char>, c: char, rest: Seq<char>)
    requires
        s.len() > 0,
        !is_white_space(s[0]),
        !is_white_space(c),
    ensures
        trimmed(s + seq![c] + rest) == s + seq![c] + trimmed_end(rest),
    decreases rest.len(),
{
    let whole = s + seq![c] + rest;
    assert(trimmed_start(whole) == whole);
    if rest.len() == 0 {
        assert(whole =~= s.push(c));
        assert(whole.last() == c);
        assert(whole =~= s + seq![c] + trimmed_end(rest));
    } else {
        assert(whole.last() == rest.last());
        if is_white_space(rest.last()) {
            assert(whole.drop_last() =~= s + seq![c] + rest.drop_last());
            lemma_trimmed_after(s, c, rest.drop_last());
        }
    }
}

pub proof fn lemma_first_index_bounds(s: Seq<char>, c: char, from: int)
    requires
        0 <= from <= s.len(),
    ensures
        from <= first_index(s, c, from) <= s.len(),
    decreases s.len() - from,
{
    if from < s.len() && s[from] != c {
        lemma_first_index_bounds(s, c, from + 1);
    }
}

/// What stands before a character is all before its first occurrence.
pub proof fn lemma_before(s: Seq<char>, c: char, rest: Seq<char>)
    requires
        !s.contains(c),
    ensures
        before(s + seq![c] + rest, c) == s,
        before(s, c) == s,
{
    assert((s + seq![c] + rest).take(s.len() as int) =~= s);
    lemma_first_index(s, s + seq![c] + rest, c, 0);
    assert(s.take(s.len() as int) =~= s);
}

proof fn lemma_first_index(s: Seq<char>, whole: Seq<char>, c: char, from: int)
    requires
        !s.contains(c),
        0 <= from <= s.len(),
        s.len() < whole.len(),
        whole.take(s.len() as int) == s,
        whole[s.len() as int] == c,
    ensures
        first_index(whole, c, from) == s.len(),
        first_index(s, c, from) == s.len(),
    decreases s.len() - from,
{
    if from < s.len() {
        assert(s.contains(s[from]));
        assert(whole.take(s.len() as int)[from] == whole[from]);
        lemma_first_index(s, whole, c, from + 1);
    }
}

proof fn lemma_joined_front(first: Seq<char>, list: Seq<Seq<char>>, separator: Seq<char>)
    requires
        list.len() > 0,
    ensures
        joined_by(seq![first] + list, separator) == first + separator + joined_by(list, separator),
    decreases list.len(),
{
    let whole = seq![first] + list;
    assert(whole.last() == list.last());
    if list.len() == 1 {
        assert(whole.drop_last() =~= seq![first]);
        assert(joined_by(seq![first], separator) == first);
        assert(joined_by(list, separator) == list[0]);
    } else {
        assert(whole.drop_last() =~= seq![first] + list.drop_last());
        lemma_joined_front(first, list.drop_last(), separator);
        assert(first + separator + joined_by(list.drop_last(), separator) + separator + list.last()
            =~= first + separator + (joined_by(list.drop_last(), separator) + separator
            + list.last()));
    }
}

/// The pieces of a text are what stands between the separators: put together with
/// them they are the text again, and no piece holds one.
pub proof fn law_pieces_join(s: Seq<char>, c: char)
    ensures
        pieces(s, c).len() > 0,
        joined_by(pieces(s, c), seq![c]) == s,
        forall|i: int| 0 <= i < pieces(s, c).len() ==> !(#[trigger] pieces(s, c)[i]).contains(c),
    decreases s.len(),
{
    let p = first_index(s, c, 0);
    lemma_first_index_bounds(s, c, 0);
    lemma_first_index_free(s, c, 0);
    if p < s.len() {
        let rest = s.skip(p + 1);
        law_pieces_join(rest, c);
        lemma_joined_front(s.take(p), pieces(rest, c), seq![c]);
        assert(s.take(p) + seq![c] + rest =~= s);
        assert forall|i: int| 0 <= i < pieces(s, c).len() implies !(#[trigger] pieces(
            s,
            c,
        )[i]).contains(c) by {
            if i > 0 {
                assert(pieces(s, c)[i] == pieces(rest, c)[i - 1]);
            }
        }
    } else {
        assert(s.take(s.len() as int) =~= s);
    }
}

/// Before the first index of a character there is none, and at it there is one.
pub proof fn lemma_first_index_free(s: Seq<char>, c: char, from: int)
    requires
        0 <= from <= s.len(),
    ensures
        forall|i: int| from <= i < first_index(s, c, from) ==> #[trigger] s[i] != c,
        first_index(s, c, from) < s.len() ==> s[first_index(s, c, from)] == c,
        from == 0 ==> !s.take(first_index(s, c, 0)).contains(c),
    decreases s.len() - from,
{
    lemma_first_index_bounds(s, c, from);
    if from < s.len() && s[from] != c {
        lemma_first_index_free(s, c, from + 1);
        lemma_first_index_bounds(s, c, from + 1);
    }
    assert forall|i: int| from <= i < first_index(s, c, from) implies #[trigger] s[i] != c by {}
    if from == 0 && s.take(first_index(s, c, 0)).contains(c) {
        let part = s.take(first_index(s, c, 0));
        let i = choose|i: int| 0 <= i < part.len() && part[i] == c;
        assert(s[i] == c);
    }
}

proof fn lemma_first_index_shift(p: Seq<char>, t: Seq<char>, c: char, from: int)
    requires
        !p.contains(c),
        0 <= from <= p.len(),
    ensures
        first_index(p + t, c, from) == p.len() + first_index(t, c, 0),
    decreases p.len() - from,
{
    if from < p.len() {
        assert(p.contains(p[from]));
        lemma_first_index_shift(p, t, c, from + 1);
    } else {
        lemma_first_index_bounds(t, c, 0);
        lemma_first_index_free(t, c, 0);
        lemma_first_index_is(p + t, c, from, p.len() + first_index(t, c, 0));
    }
}

/// What stands before a character that is not in the first part of a text is that part
/// and what stands before it in the second.
pub proof fn lemma_before_sum(p: Seq<char>, t: Seq<char>, c: char)
    requires
        !p.contains(c),
    ensures
        before(p + t, c) == p + before(t, c),
{
    lemma_first_index_shift(p, t, c, 0);
    lemma_first_index_bounds(t, c, 0);
    assert(before(p + t, c) =~= p + before(t, c));
}

/// The pieces of two texts with a separator between them, where the first holds none.
pub proof fn lemma_pieces_sum(p: Seq<char>, c: char, t: Seq<char>)
    requires
        !p.contains(c),
    ensures
        pieces(p + seq![c] + t, c) == seq![p] + pieces(t, c),
        pieces(p, c) == seq![p],
        pieces(t, c)[0] == before(t, c),
        pieces(t, c).len() > 0,
{
    let whole = p + seq![c] + t;
    assert(whole =~= p + (seq![c] + t));
    lemma_first_index_shift(p, seq![c] + t, c, 0);
    assert((seq![c] + t)[0] == c);
    assert(first_index(seq![c] + t, c, 0) == 0);
    assert(whole.take(p.len() as int) =~= p);
    assert(whole.skip(p.len() as int + 1) =~= t);
    lemma_first_index_shift(p, Seq::empty(), c, 0);
    assert(p + Seq::<char>::empty() =~= p);
    lemma_first_index_bounds(t, c, 0);
    assert(t.take(t.len() as int) =~= t);
}

/// What trimming leaves stands in the text between blanks, and neither begins nor
/// ends with one.
pub proof fn law_trimmed(s: Seq<char>)
    ensures
        trimmed(s).len() > 0 ==> !is_white_space(trimmed(s)[0]) && !is_white_space(
            trimmed(s).last(),
        ),
        exists|a: Seq<char>, b: Seq<char>|
            is_blank(a) && is_blank(b) && s == #[trigger] (a + trimmed(s) + b),
{
    let a = lemma_trimmed_start_parts(s);
    let x = trimmed_start(s);
    let b = lemma_trimmed_end_parts(x);
    assert(s =~= a + trimmed(s) + b);
    if trimmed(s).len() > 0 {
        assert(trimmed(s)[0] == x[0]);
    }
}

proof fn lemma_trimmed_start_parts(s: Seq<char>) -> (a: Seq<char>)
    ensures
        is_blank(a),
        s == a + trimmed_start(s),
        trimmed_start(s).len() > 0 ==> !is_white_space(trimmed_start(s)[0]),
    decreases s.len(),
{
    if s.len() > 0 && is_white_space(s[0]) {
        let rest = lemma_trimmed_start_parts(s.skip(1));
        let a = seq![s[0]] + rest;
        assert(s =~= seq![s[0]] + s.skip(1));
        assert(seq![s[0]] + (rest + trimmed_start(s)) =~= a + trimmed_start(s));
        a
    } else {
        assert(s =~= Seq::empty() + s);
        Seq::empty()
    }
}

proof fn lemma_trimmed_end_parts(s: Seq<char>) -> (b: Seq<char>)
    ensures
        is_blank(b),
        s == trimmed_end(s) + b,
        trimmed_end(s).len() > 0 ==> !is_white_space(trimmed_end(s).last()),
    decreases s.len(),
{
    if s.len() > 0 && is_white_space(s.last()) {
        let rest = lemma_trimmed_end_parts(s.drop_last());
        let b = rest.push(s.last());
        assert(s =~= s.drop_last().push(s.last()));
        assert((trimmed_end(s) + rest).push(s.last()) =~= trimmed_end(s) + b);
        b
    } else {
        assert(s =~= s + Seq::empty());
        Seq::empty()
    }
}

/// Two numbers have the same decimal only if they are the same number.
pub proof fn law_decimals_differ(a: nat, b: nat)
    requires
        decimal(a) == decimal(b),
    ensures
        a == b,
{
    lemma_decimal_value(a);
    lemma_decimal_value(b);
}

/// The last index of a character is where it stands and does not stand behind; there is
/// none exactly where it does not occur.
pub proof fn law_last_index(s: Seq<char>, c: char)
    ensures
        last_index(s, c) >= 0 <==> s.contains(c),
        last_index(s, c) >= 0 ==> last_index(s, c) < s.len() && s[last_index(s, c)] == c && !s.skip(
            last_index(s, c) + 1,
        ).contains(c),
    decreases s.len(),
{
    if s.len() > 0 {
        let shorter = s.drop_last();
        let k = last_index(s, c);
        if s.last() == c {
            assert(s[s.len() - 1] == c);
        } else {
            law_last_index(shorter, c);
            if s.contains(c) {
                let i = choose|i: int| 0 <= i < s.len() && s[i] == c;
                assert(shorter[i] == c);
            }
            if k >= 0 {
                assert(s[k] == shorter[k]);
                let behind = s.skip(k + 1);
                assert forall|i: int| 0 <= i < behind.len() implies #[trigger] behind[i] != c by {
                    if i < shorter.skip(k + 1).len() {
                        assert(shorter.skip(k + 1)[i] == behind[i]);
                        assert(shorter.skip(k + 1).contains(behind[i]));
                    }
                }
            }
        }
    }
}

/// A text that begins with another is that one and what is left without it.
pub proof fn law_prefixes(s: Seq<char>, prefix: Seq<char>, rest: Seq<char>)
    ensures
        has_prefix(prefix + rest, prefix),
        has_prefix(s, prefix) ==> s == prefix + s.skip(prefix.len() as int),
{
    assert((prefix + rest).take(prefix.len() as int) =~= prefix);
    if has_prefix(s, prefix) {
        assert(s =~= s.take(prefix.len() as int) + s.skip(prefix.len() as int));
    }
}

/// Once every repetition of a start is taken off, none is left; one more at the front
/// makes no difference, and a text that does not begin so stays as it is.
pub proof fn law_prefixes_taken_off(s: Seq<char>, prefix: Seq<char>)
    requires
        prefix.len() > 0,
    ensures
        !has_prefix(without_prefixes(s, prefix), prefix),
        without_prefixes(prefix + s, prefix) == without_prefixes(s, prefix),
        !has_prefix(s, prefix) ==> without_prefixes(s, prefix) == s,
    decreases s.len(),
{
    if has_prefix(s, prefix) {
        law_prefixes_taken_off(s.skip(prefix.len() as int), prefix);
    }
    law_prefixes(s, prefix, s);
    assert((prefix + s).skip(prefix.len() as int) =~= s);
}

/// Case is that of the letters from A to Z, and of no other characters.
pub proof fn law_lower_case(c: char)
    ensures
        65 <= c as u32 <= 90 ==> ascii_lower(c) as u32 == c as u32 + 32,
        !(65 <= c as u32 <= 90) ==> ascii_lower(c) == c,
        ascii_lower(ascii_lower(c)) == ascii_lower(c),
{
}

/// Texts that differ only in case are of one length. It does not matter which of them is
/// named first, and two that are like a third are like each other.
pub proof fn law_ignoring_case(a: Seq<char>, b: Seq<char>, c: Seq<char>)
    ensures
        equal_ignoring_case(a, a),
        equal_ignoring_case(a, b) ==> a.len() == b.len() && equal_ignoring_case(b, a),
        equal_ignoring_case(a, b) && equal_ignoring_case(b, c) ==> equal_ignoring_case(a, c),
        has_prefix_ignoring_case(a, b) ==> b.len() <= a.len() && equal_ignoring_case(
            a.take(b.len() as int),
            b,
        ),
{
    if equal_ignoring_case(a, b) {
        assert forall|i: int| 0 <= i < b.len() implies ascii_lower(#[trigger] b[i]) == ascii_lower(
            a[i],
        ) by {
            assert(ascii_lower(a[i]) == ascii_lower(b[i]));
        }
        if equal_ignoring_case(b, c) {
            assert forall|i: int| 0 <= i < a.len() implies ascii_lower(#[trigger] a[i])
                == ascii_lower(c[i]) by {
                assert(ascii_lower(b[i]) == ascii_lower(c[i]));
            }
        }
    }
    if has_prefix_ignoring_case(a, b) {
        let head = a.take(b.len() as int);
        assert forall|i: int| 0 <= i < head.len() implies ascii_lower(#[trigger] head[i])
            == ascii_lower(b[i]) by {
            assert(ascii_lower(a[i]) == b[i]);
            law_lower_case(a[i]);
        }
    }
}

/// A digit more makes a number tenfold and adds the digit. A plus sign before it makes
/// no difference. What has another character in it, or no digit, is no number.
pub proof fn law_numbers_read(s: Seq<char>, d: nat, c: char)
    requires
        d < 10,
    ensures
        number_in(seq![(48 + d) as char]) == Some(d),
        s.len() > 0 && all_digits(s) ==> number_in(s) is Some && number_in(
            s.push((48 + d) as char),
        ) == Some((10 * number_in(s)->0 + d) as nat) && number_in(seq!['+'] + s) == number_in(s),
        number_in(Seq::empty()) is None,
        number_in(seq!['+']) is None,
        !(48 <= c as u32 <= 57) ==> number_in(s.push(c)) is None,
{
    let one = (48 + d) as char;
    assert(is_digit(one));
    assert(one as u32 - '0' as u32 == d);
    let single = seq![one];
    assert(single.drop_last() =~= Seq::empty());
    assert(digits_value(Seq::<char>::empty()) == 0);
    assert(single.last() == one);
    assert(digits_value(single) == d);
    if s.len() > 0 && all_digits(s) {
        let more = s.push(one);
        assert(is_digit(s[0]));
        assert(more[0] == s[0]);
        assert forall|i: int| 0 <= i < more.len() implies is_digit(#[trigger] more[i]) by {
            if i < s.len() {
                assert(is_digit(s[i]));
            }
        }
        assert(more.drop_last() =~= s);
        assert((seq!['+'] + s).skip(1) =~= s);
    }
    assert(seq!['+'].skip(1) =~= Seq::<char>::empty());
    if !(48 <= c as u32 <= 57) {
        let more = s.push(c);
        let bare = without_sign(more);
        if bare.len() > 0 {
            assert(bare.last() == c);
            assert(bare[bare.len() - 1] == c);
            assert(!is_digit(c));
        }
    }
}

/// White space is the blank and the characters of Unicode that are like it, by their
/// numbers.
pub proof fn law_white_space(c: char)
    ensures
        ({
            let n = c as u32;
            is_white_space(c) <==> n == 32 || 9 <= n <= 13 || n == 133 || n == 160 || n == 5760
                || 8192 <= n <= 8202 || n == 8232 || n == 8233 || n == 8239 || n == 8287 || n
                == 12288
        }),
{
}

// ---- The operations ----

/// `String::push` appends one character.
pub assume_specification[ String::push ](s: &mut String, c: char)
    ensures
        final(s)@ == old(s)@.push(c),
;

/// Whether two texts hold the same characters.
pub fn same_text(a: &str, b: &str) -> (r: bool)
    ensures
        r == (a@ == b@),
{
    let x: &[u8] = a.as_bytes();
    let y: &[u8] = b.as_bytes();
    if x.len() != y.len() {
        return false;
    }
    let mut i: usize = 0;
    while i < x.len()
        invariant
            i <= x.len(),
            x@ == a.spec_bytes(),
            y@ == b.spec_bytes(),
            x@.len() == y@.len(),
            forall|j: int| 0 <= j < i ==> x@[j] == y@[j],
        decreases x.len() - i,
    {
        if x[i] != y[i] {
            return false;
        }
        i = i + 1;
    }
    proof {
        broadcast use encode_utf8_decode_utf8;
        assert(x@ =~= y@);
        assert(decode_utf8(encode_utf8(a@)) == a@);
        assert(decode_utf8(encode_utf8(b@)) == b@);
    }
    true
}

/// One text after another.
pub fn joined(a: &str, b: &str) -> (r: String)
    ensures
        r@ == a@ + b@,
{
    let mut out = a.to_owned();
    out.append(b);
    out
}

/// The characters of a text.
pub fn to_chars(s: &str) -> (r: Vec<char>)
    ensures
        r@ == s@,
{
    let mut out: Vec<char> = Vec::new();
    for c in it: s.chars()
        invariant
            out@ == it.seq().take(it.index()),
            it.seq() == s@,
    {
        out.push(c);
    }
    out
}

/// The text made of the characters from index `from` up to `to`.
pub fn from_chars(chars: &Vec<char>, from: usize, to: usize) -> (r: String)
    requires
        from <= to <= chars.len(),
    ensures
        r@ == chars@.subrange(from as int, to as int),
{
    let mut out = String::new();
    let mut i: usize = from;
    while i < to
        invariant
            from <= i <= to <= chars.len(),
            out@ == chars@.subrange(from as int, i as int),
        decreases to - i,
    {
        out.push(chars[i]);
        i = i + 1;
    }
    out
}

/// Whether a character is white space.
pub fn white_space(c: char) -> (r: bool)
    ensures
        r == is_white_space(c),
{
    ('\u{9}' <= c && c <= '\u{d}') || c == ' ' || c == '\u{85}' || c == '\u{a0}' || c == '\u{1680}'
        || ('\u{2000}' <= c && c <= '\u{200a}') || c == '\u{2028}' || c == '\u{2029}' || c
        == '\u{202f}' || c == '\u{205f}' || c == '\u{3000}'
}

/// `s` without its trailing white space.
pub fn trim_end(s: &str) -> (r: String)
    ensures
        r@ == trimmed_end(s@),
{
    let chars = to_chars(s);
    let mut to: usize = chars.len();
    assert(chars@.take(to as int) =~= s@);
    while to > 0 && white_space(chars[to - 1])
        invariant
            to <= chars.len(),
            chars@ == s@,
            trimmed_end(s@) == trimmed_end(chars@.take(to as int)),
        decreases to,
    {
        assert(chars@.take(to as int).drop_last() =~= chars@.take(to - 1));
        to = to - 1;
    }
    assert(chars@.subrange(0, to as int) =~= chars@.take(to as int));
    from_chars(&chars, 0, to)
}

/// `s` without white space at either end.
pub fn trim(s: &str) -> (r: String)
    ensures
        r@ == trimmed(s@),
{
    let chars = to_chars(s);
    let mut from: usize = 0;
    assert(chars@.skip(0) =~= s@);
    while from < chars.len() && white_space(chars[from])
        invariant
            from <= chars.len(),
            chars@ == s@,
            trimmed_start(s@) == trimmed_start(chars@.skip(from as int)),
        decreases chars.len() - from,
    {
        assert(chars@.skip(from as int).skip(1) =~= chars@.skip(from + 1));
        from = from + 1;
    }
    assert(chars@.subrange(from as int, chars@.len() as int) =~= chars@.skip(from as int));
    let rest = from_chars(&chars, from, chars.len());
    trim_end(rest.as_str())
}

/// Whether `s` begins with `prefix`.
pub fn starts_with(s: &str, prefix: &str) -> (r: bool)
    ensures
        r == has_prefix(s@, prefix@),
{
    let a = to_chars(s);
    let b = to_chars(prefix);
    if b.len() > a.len() {
        return false;
    }
    let mut i: usize = 0;
    while i < b.len()
        invariant
            i <= b.len() <= a.len(),
            a@ == s@,
            b@ == prefix@,
            forall|j: int| 0 <= j < i ==> a@[j] == b@[j],
        decreases b.len() - i,
    {
        if a[i] != b[i] {
            assert(s@.take(prefix@.len() as int)[i as int] != prefix@[i as int]);
            return false;
        }
        i = i + 1;
    }
    assert(s@.take(prefix@.len() as int) =~= prefix@);
    true
}

/// `s` from the character at index `n` on.
pub fn skip(s: &str, n: usize) -> (r: String)
    requires
        n <= s@.len(),
    ensures
        r@ == s@.skip(n as int),
{
    let chars = to_chars(s);
    assert(chars@.subrange(n as int, chars@.len() as int) =~= chars@.skip(n as int));
    from_chars(&chars, n, chars.len())
}

/// `s` without `prefix` at its start, or `None` if it does not begin with it.
pub fn strip_prefix(s: &str, prefix: &str) -> (r: Option<String>)
    ensures
        match r {
            Some(rest) => has_prefix(s@, prefix@) && rest@ == s@.skip(prefix@.len() as int),
            None => !has_prefix(s@, prefix@),
        },
{
    if starts_with(s, prefix) {
        Some(skip(s, to_chars(prefix).len()))
    } else {
        None
    }
}

/// `s` without every repetition of `prefix` at its start.
pub fn strip_prefixes(s: &str, prefix: &str) -> (r: String)
    requires
        prefix@.len() > 0,
    ensures
        r@ == without_prefixes(s@, prefix@),
{
    let mut rest: String = s.to_owned();
    while starts_with(rest.as_str(), prefix)
        invariant
            prefix@.len() > 0,
            without_prefixes(s@, prefix@) == without_prefixes(rest@, prefix@),
        decreases rest@.len(),
    {
        rest = skip(rest.as_str(), to_chars(prefix).len());
    }
    rest
}

/// An ASCII letter in lower case.
pub fn to_ascii_lower(c: char) -> (r: char)
    ensures
        r == ascii_lower(c),
{
    if 'A' <= c && c <= 'Z' {
        ((c as u8) + 32) as char
    } else {
        c
    }
}

/// Whether `s` begins with `prefix`, in lower or upper case.
pub fn starts_with_ignoring_case(s: &str, prefix: &str) -> (r: bool)
    ensures
        r == has_prefix_ignoring_case(s@, prefix@),
{
    let a = to_chars(s);
    let b = to_chars(prefix);
    if b.len() > a.len() {
        return false;
    }
    let mut i: usize = 0;
    while i < b.len()
        invariant
            i <= b.len() <= a.len(),
            a@ == s@,
            b@ == prefix@,
            forall|j: int| 0 <= j < i ==> ascii_lower(#[trigger] s@[j]) == prefix@[j],
        decreases b.len() - i,
    {
        if to_ascii_lower(a[i]) != b[i] {
            assert(ascii_lower(s@[i as int]) != prefix@[i as int]);
            return false;
        }
        i = i + 1;
    }
    true
}

/// Whether two texts differ at most in the case of ASCII letters.
pub fn same_ignoring_case(a: &str, b: &str) -> (r: bool)
    ensures
        r == equal_ignoring_case(a@, b@),
{
    let x = to_chars(a);
    let y = to_chars(b);
    if x.len() != y.len() {
        return false;
    }
    let mut i: usize = 0;
    while i < x.len()
        invariant
            i <= x.len(),
            x.len() == y.len(),
            x@ == a@,
            y@ == b@,
            forall|j: int| 0 <= j < i ==> ascii_lower(#[trigger] a@[j]) == ascii_lower(b@[j]),
        decreases x.len() - i,
    {
        if to_ascii_lower(x[i]) != to_ascii_lower(y[i]) {
            assert(ascii_lower(a@[i as int]) != ascii_lower(b@[i as int]));
            return false;
        }
        i = i + 1;
    }
    true
}

/// The index of the first `c` in `s`.
pub fn find(s: &str, c: char) -> (r: Option<usize>)
    ensures
        match r {
            Some(i) => i < s@.len() && i < usize::MAX && first_index(s@, c, 0) == i,
            None => first_index(s@, c, 0) == s@.len(),
        },
{
    let chars = to_chars(s);
    let mut i: usize = 0;
    while i < chars.len()
        invariant
            i <= chars.len(),
            chars@ == s@,
            first_index(s@, c, 0) == first_index(s@, c, i as int),
        decreases chars.len() - i,
    {
        if chars[i] == c {
            return Some(i);
        }
        i = i + 1;
    }
    None
}

/// The index of the last `c` in `s`.
pub fn rfind(s: &str, c: char) -> (r: Option<usize>)
    ensures
        match r {
            Some(i) => i < s@.len() && i < usize::MAX && last_index(s@, c) == i,
            None => last_index(s@, c) == -1,
        },
{
    let chars = to_chars(s);
    let mut to: usize = chars.len();
    assert(s@.take(to as int) =~= s@);
    while to > 0
        invariant
            to <= chars.len(),
            chars@ == s@,
            last_index(s@, c) == last_index(s@.take(to as int), c),
        decreases to,
    {
        if chars[to - 1] == c {
            return Some(to - 1);
        }
        assert(s@.take(to as int).drop_last() =~= s@.take(to - 1));
        to = to - 1;
    }
    None
}

/// What stands before the first `c` in `s`; all of `s` if there is none.
pub fn until(s: &str, c: char) -> (r: String)
    ensures
        r@ == before(s@, c),
{
    let chars = to_chars(s);
    match find(s, c) {
        Some(i) => {
            assert(chars@.subrange(0, i as int) =~= before(s@, c));
            from_chars(&chars, 0, i)
        },
        None => {
            assert(before(s@, c) =~= s@);
            s.to_owned()
        },
    }
}

/// The pieces of `s` between the characters `c`.
pub fn split(s: &str, c: char) -> (r: Vec<String>)
    ensures
        texts(r@) == pieces(s@, c),
        r.len() > 0,
{
    let chars = to_chars(s);
    let mut out: Vec<String> = Vec::new();
    let mut start: usize = 0;
    let mut i: usize = 0;
    assert(s@.skip(0) =~= s@);
    assert(texts(out@) + pieces(s@, c) =~= pieces(s@, c));
    while i < chars.len()
        invariant
            start <= i <= chars.len(),
            chars@ == s@,
            forall|j: int| start <= j < i ==> s@[j] != c,
            texts(out@) + pieces(s@.skip(start as int), c) == pieces(s@, c),
        decreases chars.len() - i,
    {
        if chars[i] == c {
            let ghost rest = s@.skip(start as int);
            let ghost done = texts(out@);
            proof {
                lemma_first_index_is(rest, c, 0, i - start);
                assert(rest.skip(i - start + 1) =~= s@.skip(i + 1));
            }
            out.push(from_chars(&chars, start, i));
            proof {
                assert(chars@.subrange(start as int, i as int) =~= rest.take(i - start));
                assert(texts(out@) =~= done.push(rest.take(i - start)));
                assert(texts(out@) + pieces(s@.skip(i + 1), c) =~= done + (seq![rest.take(i - start)]
                    + pieces(s@.skip(i + 1), c)));
            }
            start = i + 1;
        }
        i = i + 1;
    }
    let ghost rest = s@.skip(start as int);
    let ghost done = texts(out@);
    proof {
        lemma_first_index_is(rest, c, 0, rest.len() as int);
    }
    out.push(from_chars(&chars, start, chars.len()));
    proof {
        assert(chars@.subrange(start as int, chars@.len() as int) =~= rest);
        assert(texts(out@) =~= done + seq![rest]);
    }
    out
}

/// Texts with a separator between them.
pub fn join(list: &Vec<String>, separator: &str) -> (r: String)
    ensures
        r@ == joined_by(texts(list@), separator@),
{
    let ghost all = texts(list@);
    let mut out = String::new();
    let mut i: usize = 0;
    assert(out@ =~= Seq::empty());
    while i < list.len()
        invariant
            i <= list.len(),
            all == texts(list@),
            out@ == joined_by(all.take(i as int), separator@),
        decreases list.len() - i,
    {
        assert(all.take(i + 1).drop_last() =~= all.take(i as int));
        assert(all.take(i + 1).last() == list[i as int]@);
        if i > 0 {
            out.append(separator);
        }
        out.append(list[i].as_str());
        assert(i == 0 ==> out@ =~= all.take(1)[0]);
        i = i + 1;
    }
    assert(all.take(i as int) =~= all);
    out
}

/// A number in decimal.
pub fn number_text(n: u64) -> (r: String)
    ensures
        r@ == decimal(n as nat),
    decreases n,
{
    let last: char = (48 + (n % 10) as u8) as char;
    if n < 10 {
        let mut out = String::new();
        out.push(last);
        assert(out@ =~= seq![digit(n as nat)]);
        out
    } else {
        let mut out = number_text(n / 10);
        out.push(last);
        out
    }
}

/// The number that a text stands for, if it is at most `max`.
pub fn parse_number(s: &str, max: u64) -> (r: Option<u64>)
    ensures
        match r {
            Some(n) => number_in(s@) == Some(n as nat) && n <= max,
            None => number_in(s@) matches Some(n) ==> n > max,
        },
{
    let chars = to_chars(s);
    let from: usize = if chars.len() > 0 && chars[0] == '+' { 1 } else { 0 };
    let ghost digits = without_sign(s@);
    assert(digits =~= s@.skip(from as int));
    if from == chars.len() {
        return None;
    }
    let mut value: u64 = 0;
    let mut i: usize = from;
    let mut fits: bool = true;
    assert(digits.take(0) =~= Seq::empty());
    while i < chars.len()
        invariant
            from <= i <= chars.len(),
            chars@ == s@,
            digits == s@.skip(from as int),
            digits == without_sign(s@),
            forall|j: int| 0 <= j < i - from ==> is_digit(#[trigger] digits[j]),
            fits ==> value == digits_value(digits.take(i - from)) && value <= max,
            !fits ==> digits_value(digits.take(i - from)) > max,
        decreases chars.len() - i,
    {
        let c: char = chars[i];
        assert(digits[i - from] == c);
        if c < '0' || '9' < c {
            assert(!is_digit(digits[i - from]));
            return None;
        }
        let d: u64 = c as u64 - 48;
        assert(digits.take(i - from + 1).drop_last() =~= digits.take(i - from));
        if fits {
            if d > max || value > (max - d) / 10 {
                fits = false;
            } else {
                value = value * 10 + d;
            }
        }
        i = i + 1;
    }
    assert(digits.take(i - from) =~= digits);
    if fits {
        Some(value)
    } else {
        None
    }
}

} // verus!
