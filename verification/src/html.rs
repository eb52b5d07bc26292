use vstd::prelude::*;
use vstd::std_specs::iter::IteratorSpec;
use vstd::string::{StringExecFns, StrSliceExecFns};

verus! {

/// What one character becomes in escaped HTML: `&`, `<` and `>` always, and
/// `"` as well when the text is an attribute value.
pub open spec fn escape_char(c: char, attr: bool) -> Seq<char> {
    if c == '&' {
        seq!['&', 'a', 'm', 'p', ';']
    } else if c == '<' {
        seq!['&', 'l', 't', ';']
    } else if c == '>' {
        seq!['&', 'g', 't', ';']
    } else if c == '"' && attr {
        seq!['&', 'q', 'u', 'o', 't', ';']
    } else {
        seq![c]
    }
}

/// The escaped form of a text: each character replaced by its escape.
pub open spec fn escape(s: Seq<char>, attr: bool) -> Seq<char>
    decreases s.len(),
{
    if s.len() == 0 {
        Seq::empty()
    } else {
        escape(s.drop_last(), attr) + escape_char(s.last(), attr)
    }
}

/// Text escaped for the body of an element.
pub open spec fn escape_text(s: Seq<char>) -> Seq<char> {
    escape(s, false)
}

/// Text escaped for a double-quoted attribute value.
pub open spec fn escape_attr(s: Seq<char>) -> Seq<char> {
    escape(s, true)
}

/// A character allowed in a tag name: an ASCII letter or digit, `-` or `_`.
pub open spec fn is_tag_name_char(c: char) -> bool {
    ('a' <= c <= 'z') || ('A' <= c <= 'Z') || ('0' <= c <= '9') || c == '-' || c == '_'
}

/// A tag name that can be rendered: not empty, and made of ASCII letters,
/// digits, `-` and `_` alone.
pub open spec fn valid_tag_name(s: Seq<char>) -> bool {
    s.len() > 0 && forall|i: int| 0 <= i < s.len() ==> is_tag_name_char(#[trigger] s[i])
}

/// A character with the Unicode `White_Space` property.
pub open spec fn is_whitespace(c: char) -> bool {
    ('\t' <= c <= '\r') || c == ' ' || c == '\u{85}' || c == '\u{a0}' || c == '\u{1680}'
        || ('\u{2000}' <= c <= '\u{200a}') || c == '\u{2028}' || c == '\u{2029}'
        || c == '\u{202f}' || c == '\u{205f}' || c == '\u{3000}'
}

/// A character allowed in an attribute name: no whitespace, quote, `>`,
/// `<`, `=`, `/` or backtick.
pub open spec fn is_attr_name_char(c: char) -> bool {
    !is_whitespace(c) && c != '"' && c != '\'' && c != '>' && c != '<' && c != '=' && c != '/'
        && c != '`'
}

/// An attribute name that can be rendered: not empty, and made of allowed
/// characters alone.
pub open spec fn valid_attr_name(s: Seq<char>) -> bool {
    s.len() > 0 && forall|i: int| 0 <= i < s.len() ==> is_attr_name_char(#[trigger] s[i])
}

/// A character with ASCII upper case letters mapped to lower case.
pub open spec fn ascii_lower(c: char) -> char {
    if 'A' <= c <= 'Z' {
        ((c as u32) + 32) as char
    } else {
        c
    }
}

pub open spec fn ascii_lowercase(s: Seq<char>) -> Seq<char> {
    s.map_values(|c: char| ascii_lower(c))
}

/// The HTML void elements, which have no end tag.
pub open spec fn void_tag_names() -> Seq<Seq<char>> {
    seq![
        "area"@, "base"@, "br"@, "col"@, "embed"@, "hr"@, "img"@, "input"@, "link"@, "meta"@,
        "param"@, "source"@, "track"@, "wbr"@,
    ]
}

/// A void element's name, in any ASCII case.
pub open spec fn is_void_tag_name(s: Seq<char>) -> bool {
    void_tag_names().contains(ascii_lowercase(s))
}

/// Appends one character to a string (`String::push`).
#[verifier::external_body]
pub(crate) fn push_char(out: &mut String, ch: char)
    ensures
        final(out)@ == old(out)@.push(ch),
{
    out.push(ch);
}

/// Whether two strings hold the same characters.
pub(crate) fn str_eq(a: &str, b: &str) -> (r: bool)
    ensures
        r == (a@ == b@),
{
    broadcast use vstd::string::group_string_axioms;

    let n = a.unicode_len();
    if n != b.unicode_len() {
        return false;
    }
    let mut i: usize = 0;
    for ch in it: a.chars()
        invariant
            it.seq() == a@,
            a@.len() == b@.len(),
            n == a@.len(),
            i == it.index(),
            forall|j: int| 0 <= j < it.index() ==> a@[j] == b@[j],
    {
        if ch != b.get_char(i) {
            return false;
        }
        i = i + 1;
    }
    assert(a@ == b@);
    true
}

pub proof fn lemma_escape_take(s: Seq<char>, attr: bool, i: int)
    requires
        0 <= i < s.len(),
    ensures
        escape(s.take(i + 1), attr) == escape(s.take(i), attr) + escape_char(s[i], attr),
{
    assert(s.take(i + 1).drop_last() == s.take(i));
}

/// Appends `value` to `out`, escaped for text, or for an attribute value
/// when `attr` holds.
fn escape_with(value: &str, out: &mut String, attr: bool)
    ensures
        final(out)@ == old(out)@ + escape(value@, attr),
{
    broadcast use vstd::string::group_string_axioms;

    let ghost start = out@;
    for ch in it: value.chars()
        invariant
            it.seq() == value@,
            out@ == start + escape(value@.take(it.index() as int), attr),
    {
        proof {
            lemma_escape_take(value@, attr, it.index() as int);
        }
        if ch == '&' {
            proof {
                reveal_strlit("&amp;");
            }
            out.append("&amp;");
        } else if ch == '<' {
            proof {
                reveal_strlit("&lt;");
            }
            out.append("&lt;");
        } else if ch == '>' {
            proof {
                reveal_strlit("&gt;");
            }
            out.append("&gt;");
        } else if ch == '"' && attr {
            proof {
                reveal_strlit("&quot;");
            }
            out.append("&quot;");
        } else {
            push_char(out, ch);
        }
    }
    assert(value@.take(value@.len() as int) == value@);
}

/// Appends `value` to `out` with `&`, `<` and `>` escaped.
pub fn escape_text_into(value: &str, out: &mut String)
    ensures
        final(out)@ == old(out)@ + escape_text(value@),
{
    escape_with(value, out, false);
}

/// Appends `value` to `out` with `&`, `<`, `>` and `"` escaped.
pub fn escape_attr_value_into(value: &str, out: &mut String)
    ensures
        final(out)@ == old(out)@ + escape_attr(value@),
{
    escape_with(value, out, true);
}

/// Whether `name` can be rendered as a tag name.
pub fn is_valid_tag_name(name: &str) -> (b: bool)
    ensures
        b == valid_tag_name(name@),
{
    broadcast use vstd::string::group_string_axioms;

    let mut nonempty = false;
    for ch in it: name.chars()
        invariant
            it.seq() == name@,
            nonempty == (it.index() > 0),
            forall|j: int| 0 <= j < it.index() ==> is_tag_name_char(#[trigger] name@[j]),
    {
        if !(('a' <= ch && ch <= 'z') || ('A' <= ch && ch <= 'Z') || ('0' <= ch && ch <= '9')
            || ch == '-' || ch == '_') {
            return false;
        }
        nonempty = true;
    }
    nonempty
}

/// Whether `ch` has the Unicode `White_Space` property.
pub fn is_whitespace_char(ch: char) -> (b: bool)
    ensures
        b == is_whitespace(ch),
{
    ('\t' <= ch && ch <= '\r') || ch == ' ' || ch == '\u{85}' || ch == '\u{a0}' || ch == '\u{1680}'
        || ('\u{2000}' <= ch && ch <= '\u{200a}') || ch == '\u{2028}' || ch == '\u{2029}'
        || ch == '\u{202f}' || ch == '\u{205f}' || ch == '\u{3000}'
}

/// Whether `name` can be rendered as an attribute name.
pub fn is_valid_attr_name(name: &str) -> (b: bool)
    ensures
        b == valid_attr_name(name@),
{
    broadcast use vstd::string::group_string_axioms;

    let mut nonempty = false;
    for ch in it: name.chars()
        invariant
            it.seq() == name@,
            nonempty == (it.index() > 0),
            forall|j: int| 0 <= j < it.index() ==> is_attr_name_char(#[trigger] name@[j]),
    {
        if is_whitespace_char(ch) || ch == '"' || ch == '\'' || ch == '>' || ch == '<' || ch == '='
            || ch == '/' || ch == '`' {
            return false;
        }
        nonempty = true;
    }
    nonempty
}

/// `name` with ASCII upper case letters mapped to lower case.
fn to_ascii_lowercase(name: &str) -> (r: String)
    ensures
        r@ == ascii_lowercase(name@),
{
    broadcast use vstd::string::group_string_axioms;

    let mut out = String::new();
    for ch in it: name.chars()
        invariant
            it.seq() == name@,
            out@ == ascii_lowercase(name@.take(it.index() as int)),
    {
        let ghost i = it.index() as int;
        let lower = if 'A' <= ch && ch <= 'Z' {
            ((ch as u8) + 32) as char
        } else {
            ch
        };
        proof {
            assert(ascii_lowercase(name@.take(i + 1)) == ascii_lowercase(name@.take(i)).push(ascii_lower(ch)));
        }
        push_char(&mut out, lower);
    }
    assert(name@.take(name@.len() as int) == name@);
    out
}

/// Whether `name` is the name of a void element, in any ASCII case.
pub fn is_void_tag(name: &str) -> (b: bool)
    ensures
        b == is_void_tag_name(name@),
{
    let lower = to_ascii_lowercase(name);
    let l = lower.as_str();
    let r = str_eq(l, "area") || str_eq(l, "base") || str_eq(l, "br") || str_eq(l, "col")
        || str_eq(l, "embed") || str_eq(l, "hr") || str_eq(l, "img") || str_eq(l, "input")
        || str_eq(l, "link") || str_eq(l, "meta") || str_eq(l, "param") || str_eq(l, "source")
        || str_eq(l, "track") || str_eq(l, "wbr");
    proof {
        let names = void_tag_names();
        if r {
            assert(names.contains(l@));
        } else {
            assert forall|i: int| 0 <= i < names.len() implies names[i] != l@ by {}
        }
    }
    r
}

/// Escaping leaves nothing just when there was nothing.
pub proof fn lemma_escape_empty(s: Seq<char>, attr: bool)
    ensures
        (escape(s, attr).len() == 0) == (s.len() == 0),
{
    if s.len() > 0 {
        assert(escape(s, attr) == escape(s.drop_last(), attr) + escape_char(s.last(), attr));
        assert(escape_char(s.last(), attr).len() > 0);
    }
}

/// Escaping a concatenation escapes each part.
pub proof fn lemma_escape_concat(a: Seq<char>, b: Seq<char>, attr: bool)
    ensures
        escape(a + b, attr) == escape(a, attr) + escape(b, attr),
    decreases b.len(),
{
    if b.len() == 0 {
        assert(a + b == a);
        assert(escape(a, attr) + Seq::<char>::empty() == escape(a, attr));
    } else {
        lemma_escape_concat(a, b.drop_last(), attr);
        assert((a + b).drop_last() == a + b.drop_last());
        assert((a + b).last() == b.last());
        assert(escape(a, attr) + escape(b.drop_last(), attr) + escape_char(b.last(), attr)
            == escape(a, attr) + (escape(b.drop_last(), attr) + escape_char(b.last(), attr)));
    }
}

/// Escaped text holds no `<` and no `>`, and an escaped attribute value no
/// `"`: escaped content cannot open or close a tag or end an attribute.
pub proof fn law_escape_is_safe(s: Seq<char>, attr: bool)
    ensures
        forall|i: int| 0 <= i < escape(s, attr).len() ==> {
            let c = #[trigger] escape(s, attr)[i];
            c != '<' && c != '>' && (attr ==> c != '"')
        },
    decreases s.len(),
{
    if s.len() > 0 {
        law_escape_is_safe(s.drop_last(), attr);
        let e = escape(s, attr);
        let front = escape(s.drop_last(), attr);
        let back = escape_char(s.last(), attr);
        assert forall|i: int| 0 <= i < e.len() implies {
            let c = #[trigger] e[i];
            c != '<' && c != '>' && (attr ==> c != '"')
        } by {
            if i < front.len() {
                assert(e[i] == front[i]);
            } else {
                assert(e[i] == back[i - front.len()]);
            }
        }
    }
}

/// A character that escaping leaves as it is.
pub open spec fn is_plain(c: char, attr: bool) -> bool {
    c != '&' && c != '<' && c != '>' && !(attr && c == '"')
}

/// Text without characters to escape is left as it is.
pub proof fn law_escape_keeps_plain_text(s: Seq<char>, attr: bool)
    requires
        forall|i: int| 0 <= i < s.len() ==> is_plain(#[trigger] s[i], attr),
    ensures
        escape(s, attr) == s,
    decreases s.len(),
{
    if s.len() > 0 {
        assert(is_plain(s[s.len() - 1], attr));
        law_escape_keeps_plain_text(s.drop_last(), attr);
        assert(s.drop_last().push(s.last()) == s);
    }
}

/// Decodes the entities that escaping writes (`&amp;`, `&lt;`, `&gt;` and
/// `&quot;`), reading from the front; any other character stays as it is.
pub open spec fn unescape(s: Seq<char>) -> Seq<char>
    decreases s.len(),
{
    if s.len() == 0 {
        Seq::empty()
    } else if s.len() >= 5 && s.subrange(0, 5) == seq!['&', 'a', 'm', 'p', ';'] {
        seq!['&'] + unescape(s.subrange(5, s.len() as int))
    } else if s.len() >= 4 && s.subrange(0, 4) == seq!['&', 'l', 't', ';'] {
        seq!['<'] + unescape(s.subrange(4, s.len() as int))
    } else if s.len() >= 4 && s.subrange(0, 4) == seq!['&', 'g', 't', ';'] {
        seq!['>'] + unescape(s.subrange(4, s.len() as int))
    } else if s.len() >= 6 && s.subrange(0, 6) == seq!['&', 'q', 'u', 'o', 't', ';'] {
        seq!['"'] + unescape(s.subrange(6, s.len() as int))
    } else {
        seq![s[0]] + unescape(s.subrange(1, s.len() as int))
    }
}

/// Decoding the escape of one character, followed by anything, gives the
/// character back, followed by the decoding of the rest.
proof fn lemma_unescape_char(c: char, attr: bool, rest: Seq<char>)
    ensures
        unescape(escape_char(c, attr) + rest) == seq![c] + unescape(rest),
{
    let e = escape_char(c, attr);
    let s = e + rest;
    assert(s.subrange(e.len() as int, s.len() as int) == rest);
    assert(s.len() >= e.len());
    assert(s.subrange(0, e.len() as int) == e);
    if c == '&' {
    } else if c == '<' {
        assert(s[1] == 'l');
        if s.len() >= 5 {
            assert(s.subrange(0, 5)[1] == s[1]);
        }
    } else if c == '>' {
        assert(s[1] == 'g');
        if s.len() >= 5 {
            assert(s.subrange(0, 5)[1] == s[1]);
        }
        assert(s.subrange(0, 4)[1] == s[1]);
    } else if c == '"' && attr {
        assert(s[1] == 'q');
        assert(s.subrange(0, 5)[1] == s[1]);
        assert(s.subrange(0, 4)[1] == s[1]);
    } else {
        assert(s[0] == c);
        if s.len() >= 5 {
            assert(s.subrange(0, 5)[0] == s[0]);
        }
        if s.len() >= 4 {
            assert(s.subrange(0, 4)[0] == s[0]);
        }
        if s.len() >= 6 {
            assert(s.subrange(0, 6)[0] == s[0]);
        }
    }
}

/// Escaping loses nothing: decoding the escaped text gives the text back,
/// for element text and for attribute values alike.
pub proof fn law_unescape_escape(s: Seq<char>, attr: bool)
    ensures
        unescape(escape(s, attr)) == s,
    decreases s.len(),
{
    if s.len() > 0 {
        let rest = s.subrange(1, s.len() as int);
        assert(s == seq![s[0]] + rest);
        lemma_escape_concat(seq![s[0]], rest, attr);
        let one = seq![s[0]];
        assert(one.drop_last() == Seq::<char>::empty());
        assert(one.last() == s[0]);
        assert(escape(Seq::<char>::empty(), attr) == Seq::<char>::empty());
        assert(escape(one, attr) == Seq::<char>::empty() + escape_char(s[0], attr));
        assert(Seq::<char>::empty() + escape_char(s[0], attr) == escape_char(s[0], attr));
        law_unescape_escape(rest, attr);
        lemma_unescape_char(s[0], attr, escape(rest, attr));
    }
}

/// The decimal digit for `d`, from 0 to 9.
pub open spec fn digit_char(d: int) -> char {
    ((48 + d) as u8) as char
}

/// The decimal digits of a natural number, without leading zeros.
pub open spec fn digits(n: nat) -> Seq<char>
    decreases n,
{
    if n < 10 {
        seq![digit_char(n as int)]
    } else {
        digits(n / 10) + seq![digit_char((n % 10) as int)]
    }
}

/// An integer as `Display` writes it: its digits, after `-` when negative.
pub open spec fn decimal(n: int) -> Seq<char> {
    if n < 0 {
        seq!['-'] + digits((-n) as nat)
    } else {
        digits(n as nat)
    }
}

/// Whether `c` is one of the decimal digits `0` to `9`.
pub open spec fn is_digit(c: char) -> bool {
    '0' <= c && c <= '9'
}

/// The number that a run of decimal digits stands for, read from the left.
pub open spec fn digits_value(s: Seq<char>) -> int
    decreases s.len(),
{
    if s.len() == 0 {
        0
    } else {
        digits_value(s.drop_last()) * 10 + (s.last() as int - 48)
    }
}

/// The integer that a numeral reads as: a run of digits, after `-` when
/// the number is negative.
pub open spec fn numeral_value(s: Seq<char>) -> int {
    if s.len() > 0 && s[0] == '-' {
        -digits_value(s.drop_first())
    } else {
        digits_value(s)
    }
}

proof fn lemma_digit_char(d: int)
    requires
        0 <= d < 10,
    ensures
        digit_char(d) as int == 48 + d,
        is_digit(digit_char(d)),
{
    let b: u8 = (48 + d) as u8;
    assert(b == 48 + d);
    assert(b as char as int == b as int);
}

proof fn lemma_digits_read_back(n: nat)
    ensures
        digits_value(digits(n)) == n,
        digits(n).len() > 0,
        forall|i: int| 0 <= i < digits(n).len() ==> is_digit(#[trigger] digits(n)[i]),
        n > 0 ==> digits(n)[0] != '0',
        digits(n).len() > 1 ==> n >= 10,
    decreases n,
{
    if n < 10 {
        lemma_digit_char(n as int);
        let s = digits(n);
        assert(s.drop_last() == Seq::<char>::empty());
        assert(digits_value(Seq::<char>::empty()) == 0);
        assert(digits_value(s) == digits_value(s.drop_last()) * 10 + (s.last() as int - 48));
    } else {
        lemma_digits_read_back(n / 10);
        let d = (n % 10) as int;
        lemma_digit_char(d);
        let s = digits(n);
        assert(s.drop_last() == digits(n / 10));
        assert(s.last() == digit_char(d));
        assert(n == (n / 10) * 10 + d);
        assert(digits_value(s) == digits_value(s.drop_last()) * 10 + (s.last() as int - 48));
        assert forall|i: int| 0 <= i < s.len() implies is_digit(#[trigger] s[i]) by {
            if i < digits(n / 10).len() {
                assert(s[i] == digits(n / 10)[i]);
            }
        }
        assert(s[0] == digits(n / 10)[0]);
    }
}

/// Reading back what `decimal` writes gives the number again: the numeral
/// of every integer is made of decimal digits, with `-` in front exactly
/// when the integer is negative and no leading zero.
pub proof fn law_decimal_reads_back(n: int)
    ensures
        numeral_value(decimal(n)) == n,
        decimal(n).len() > 0,
        (decimal(n)[0] == '-') == (n < 0),
        forall|i: int| 0 <= i < decimal(n).len() && !(i == 0 && n < 0) ==> is_digit(#[trigger] decimal(n)[i]),
{
    if n < 0 {
        let m = (-n) as nat;
        lemma_digits_read_back(m);
        let s = decimal(n);
        assert(s.drop_first() == digits(m));
        assert forall|i: int| 0 <= i < s.len() && !(i == 0 && n < 0) implies is_digit(#[trigger] s[i]) by {
            assert(s[i] == digits(m)[i - 1]);
        }
    } else {
        lemma_digits_read_back(n as nat);
        assert(is_digit(decimal(n)[0]));
    }
}

/// `true` or `false`, as `Display` writes a `bool`.
pub open spec fn bool_text(b: bool) -> Seq<char> {
    if b {
        seq!['t', 'r', 'u', 'e']
    } else {
        seq!['f', 'a', 'l', 's', 'e']
    }
}

fn push_digits(out: &mut String, n: u128)
    ensures
        final(out)@ == old(out)@ + digits(n as nat),
    decreases n,
{
    if n >= 10 {
        push_digits(out, n / 10);
    }
    let d = (n % 10) as u8;
    push_char(out, (48u8 + d) as char);
    proof {
        assert(old(out)@ + digits(n as nat) == old(out)@ + digits((n / 10) as nat) + seq![digit_char((n % 10) as int)]
            || n < 10);
    }
}

/// Appends the decimal form of an unsigned integer.
pub fn push_unsigned(out: &mut String, n: u128)
    ensures
        final(out)@ == old(out)@ + decimal(n as int),
{
    push_digits(out, n);
}

/// Appends the decimal form of a signed integer.
pub fn push_signed(out: &mut String, n: i128)
    ensures
        final(out)@ == old(out)@ + decimal(n as int),
{
    if n < 0 {
        push_char(out, '-');
        let magnitude: u128 = ((-(n + 1)) as u128) + 1;
        push_digits(out, magnitude);
        assert(old(out)@.push('-') + digits(magnitude as nat) == old(out)@ + (seq!['-'] + digits(magnitude as nat)));
    } else {
        push_digits(out, n as u128);
    }
}

/// Appends `true` or `false`.
pub fn push_bool(out: &mut String, b: bool)
    ensures
        final(out)@ == old(out)@ + bool_text(b),
{
    if b {
        proof {
            reveal_strlit("true");
        }
        out.append("true");
    } else {
        proof {
            reveal_strlit("false");
        }
        out.append("false");
    }
}

} // verus!
