//! Text: decimal numbers and the pieces that messages are built from.
use vstd::prelude::*;
use vstd::string::StringExecFns;

verus! {

/// `String::push` appends one character.
pub assume_specification[ String::push ](s: &mut String, c: char)
    ensures
        final(s)@ == old(s)@.push(c),
;

/// The decimal digit of a number below ten.
pub open spec fn digit(n: int) -> char {
    ('0' as int + n) as char
}

/// A natural number in decimal, without leading zeros.
pub open spec fn dec(n: nat) -> Seq<char>
    decreases n,
{
    if n < 10 {
        seq![digit(n as int)]
    } else {
        dec(n / 10).push(digit((n % 10) as int))
    }
}

/// An integer in decimal, with a sign when it is negative.
pub open spec fn dec_int(i: int) -> Seq<char> {
    if i < 0 {
        seq!['-'] + dec((-i) as nat)
    } else {
        dec(i as nat)
    }
}

/// The digit of a number below ten.
fn digit_char(n: u64) -> (c: char)
    requires
        n < 10,
    ensures
        c == digit(n as int),
{
    (48u8 + n as u8) as char
}

/// Appends one digit.
pub fn push_digit(out: &mut String, n: u64)
    requires
        n < 10,
    ensures
        final(out)@ == old(out)@.push(digit(n as int)),
{
    out.push(digit_char(n));
}

/// Appends a number in decimal.
pub fn push_dec(out: &mut String, n: u64)
    ensures
        final(out)@ == old(out)@ + dec(n as nat),
    decreases n,
{
    let ghost before = out@;
    if n < 10 {
        out.push(digit_char(n));
        assert(out@ =~= before + dec(n as nat));
    } else {
        push_dec(out, n / 10);
        out.push(digit_char(n % 10));
        assert(out@ =~= before + dec(n as nat));
    }
}

/// Appends a wide number in decimal.
pub fn push_dec_wide(out: &mut String, n: u128)
    ensures
        final(out)@ == old(out)@ + dec(n as nat),
    decreases n,
{
    let ghost before = out@;
    if n < 10 {
        out.push(digit_char(n as u64));
    } else {
        push_dec_wide(out, n / 10);
        out.push(digit_char((n % 10) as u64));
    }
    assert(out@ =~= before + dec(n as nat));
}

/// Appends a signed number in decimal.
pub fn push_dec_int(out: &mut String, i: i64)
    ensures
        final(out)@ == old(out)@ + dec_int(i as int),
{
    let ghost before = out@;
    if i < 0 {
        out.push('-');
        let magnitude: u64 = if i == i64::MIN {
            9223372036854775808
        } else {
            (-i) as u64
        };
        push_dec(out, magnitude);
        assert(out@ =~= before + dec_int(i as int));
    } else {
        push_dec(out, i as u64);
    }
}

/// A number in decimal.
pub fn dec_string(n: u64) -> (s: String)
    ensures
        s@ == dec(n as nat),
{
    let mut s: String = String::new();
    push_dec(&mut s, n);
    assert(s@ =~= dec(n as nat));
    s
}

/// A signed number in decimal.
pub fn dec_int_string(i: i64) -> (s: String)
    ensures
        s@ == dec_int(i as int),
{
    let mut s: String = String::new();
    push_dec_int(&mut s, i);
    assert(s@ =~= dec_int(i as int));
    s
}

/// Appends text.
pub fn push_text(out: &mut String, s: &str)
    ensures
        final(out)@ == old(out)@ + s@,
{
    out.append(s);
}

/// Whether two texts are the same.
pub fn same(a: &str, b: &str) -> (yes: bool)
    ensures
        yes == (a@ == b@),
{
    a.to_owned() == b.to_owned()
}

/// How Rust's `Debug` writes a text: in quotes, with escapes.
pub uninterp spec fn debug_text(s: Seq<char>) -> Seq<char>;

/// Formats a text with `{:?}`. The result is named, not described: it depends
/// on the text alone.
#[verifier::external_body]
pub(crate) fn debug_string(s: &str) -> (out: String)
    ensures
        out@ == debug_text(s@),
{
    format!("{:?}", s)
}

/// The characters of an optional text.
pub open spec fn opt_view(s: Option<String>) -> Option<Seq<char>> {
    match s {
        Some(s) => Some(s@),
        None => None,
    }
}

/// Calls `String::from_utf8`, which gives the text that some bytes encode in
/// UTF-8, and an error exactly when they encode none.
#[verifier::external_body]
pub(crate) fn from_utf8(data: &[u8]) -> (text: Option<String>)
    ensures
        opt_view(text) == (if vstd::utf8::valid_utf8(data@) {
            Some(vstd::utf8::decode_utf8(data@))
        } else {
            None
        }),
{
    String::from_utf8(data.to_vec()).ok()
}

/// Texts as sequences of characters.
pub open spec fn texts(v: Seq<String>) -> Seq<Seq<char>> {
    Seq::new(v.len(), |i: int| v[i]@)
}

/// Whether a text is among others.
pub fn among(v: &Vec<String>, s: &str) -> (yes: bool)
    ensures
        yes == texts(v@).contains(s@),
{
    let mut i: usize = 0;
    while i < v.len()
        invariant
            i <= v@.len(),
            forall|j: int| 0 <= j < i ==> (#[trigger] texts(v@)[j]) != s@,
        decreases v@.len() - i,
    {
        if same(v[i].as_str(), s) {
            assert(texts(v@)[i as int] == s@);
            return true;
        }
        i = i + 1;
    }
    false
}

/// The characters of a text.
pub fn chars_of(s: &str) -> (chars: Vec<char>)
    ensures
        chars@ == s@,
{
    let mut chars: Vec<char> = Vec::new();
    for c in it: s.chars()
        invariant
            it.seq() == s@,
            chars@ == s@.take(it.index() as int),
    {
        chars.push(c);
        assert(chars@ =~= s@.take(it.index() as int + 1));
    }
    assert(s@.take(s@.len() as int) =~= s@);
    chars
}

/// The parts of a text between separators: one more than there are separators.
pub open spec fn fields(s: Seq<char>, sep: char) -> Seq<Seq<char>>
    decreases s.len(),
{
    if s.len() == 0 {
        seq![s]
    } else {
        let before = fields(s.drop_last(), sep);
        if s.last() == sep {
            before.push(Seq::empty())
        } else {
            before.drop_last().push(before.last().push(s.last()))
        }
    }
}

/// The parts of a text between separators.
pub fn split(s: &str, sep: char) -> (parts: Vec<String>)
    ensures
        texts(parts@) == fields(s@, sep),
        parts@.len() > 0,
{
    let chars = chars_of(s);
    let mut parts: Vec<String> = Vec::new();
    let mut part: String = String::new();
    let mut i: usize = 0;
    assert(s@.take(0) =~= part@);
    assert(texts(parts@).push(part@) =~= fields(s@.take(0), sep));
    while i < chars.len()
        invariant
            chars@ == s@,
            i <= s@.len(),
            texts(parts@).push(part@) == fields(s@.take(i as int), sep),
        decreases s@.len() - i,
    {
        let c: char = chars[i];
        let ghost before = fields(s@.take(i as int), sep);
        let ghost was = parts@;
        let ghost done = part@;
        assert(s@.take(i as int + 1).drop_last() =~= s@.take(i as int));
        assert(s@.take(i as int + 1).last() == c);
        assert(before.drop_last() =~= texts(was));
        assert(before.last() == done);
        if c == sep {
            parts.push(part);
            part = String::new();
            assert(texts(parts@) =~= texts(was).push(done));
            assert(part@ =~= Seq::empty());
        } else {
            part.push(c);
        }
        i = i + 1;
    }
    assert(s@.take(s@.len() as int) =~= s@);
    let ghost was = parts@;
    let ghost done = part@;
    parts.push(part);
    assert(texts(parts@) =~= texts(was).push(done));
    parts
}

/// A text with each capital letter of ASCII made small.
pub open spec fn ascii_lowercase(s: Seq<char>) -> Seq<char> {
    Seq::new(
        s.len(),
        |i: int|
            if 'A' <= s[i] <= 'Z' {
                (s[i] as u32 + 32) as char
            } else {
                s[i]
            },
    )
}

/// A text in lower case.
pub uninterp spec fn lowercase_text(s: Seq<char>) -> Seq<char>;

/// Calls `str::to_lowercase`. A text of ASCII characters keeps its length, and
/// each capital letter becomes the small one; what other characters become is
/// left unsaid.
#[verifier::external_body]
pub(crate) fn to_lowercase(s: &str) -> (lower: String)
    ensures
        lower@ == lowercase_text(s@),
        vstd::utf8::is_ascii_chars(s@) ==> lower@ == ascii_lowercase(s@),
{
    s.to_lowercase()
}

/// Whether a character has Unicode's `White_Space` property.
pub open spec fn is_white_space(c: char) -> bool {
    ||| '\u{9}' <= c <= '\u{d}'
    ||| c == ' '
    ||| c == '\u{85}'
    ||| c == '\u{a0}'
    ||| c == '\u{1680}'
    ||| '\u{2000}' <= c <= '\u{200a}'
    ||| c == '\u{2028}'
    ||| c == '\u{2029}'
    ||| c == '\u{202f}'
    ||| c == '\u{205f}'
    ||| c == '\u{3000}'
}

/// A text from its first character on that is no white space.
pub open spec fn trimmed_start(s: Seq<char>) -> Seq<char>
    decreases s.len(),
{
    if s.len() > 0 && is_white_space(s[0]) {
        trimmed_start(s.skip(1))
    } else {
        s
    }
}

/// A text up to its last character that is no white space.
pub open spec fn trimmed_end(s: Seq<char>) -> Seq<char>
    decreases s.len(),
{
    if s.len() > 0 && is_white_space(s.last()) {
        trimmed_end(s.drop_last())
    } else {
        s
    }
}

/// A text without the white space around it.
pub open spec fn trimmed_text(s: Seq<char>) -> Seq<char> {
    trimmed_end(trimmed_start(s))
}

/// Calls `str::trim`, which cuts every character with Unicode's `White_Space`
/// property off both ends and leaves the rest as it is.
#[verifier::external_body]
pub(crate) fn trim(s: &str) -> (part: String)
    ensures
        part@ == trimmed_text(s@),
{
    s.trim().to_owned()
}

/// Texts without the white space around them.
pub open spec fn trimmed_texts(v: Seq<String>) -> Seq<Seq<char>> {
    Seq::new(v.len(), |i: int| trimmed_text(v[i]@))
}

/// Cuts the white space off every text.
pub fn trim_all(v: &Vec<String>) -> (parts: Vec<String>)
    ensures
        texts(parts@) == trimmed_texts(v@),
{
    let mut parts: Vec<String> = Vec::new();
    let mut i: usize = 0;
    while i < v.len()
        invariant
            i <= v@.len(),
            texts(parts@) == trimmed_texts(v@).take(i as int),
        decreases v@.len() - i,
    {
        let ghost was = parts@;
        parts.push(trim(v[i].as_str()));
        assert(texts(parts@) =~= texts(was).push(trimmed_text(v@[i as int]@)));
        assert(trimmed_texts(v@).take(i as int + 1) =~= trimmed_texts(v@).take(i as int).push(
            trimmed_text(v@[i as int]@),
        ));
        i = i + 1;
    }
    assert(trimmed_texts(v@).take(v@.len() as int) =~= trimmed_texts(v@));
    parts
}

/// Some bytes as text, with what is no UTF-8 replaced.
pub uninterp spec fn lossy_text(data: Seq<u8>) -> Seq<char>;

/// Calls `String::from_utf8_lossy`. Bytes that are UTF-8 become the text that
/// they encode; what the replacement of others looks like is left unsaid.
#[verifier::external_body]
pub(crate) fn from_utf8_lossy(data: &[u8]) -> (text: String)
    ensures
        text@ == lossy_text(data@),
        vstd::utf8::valid_utf8(data@) ==> text@ == vstd::utf8::decode_utf8(data@),
{
    String::from_utf8_lossy(data).into_owned()
}

// ── Laws ────────────────────────────────────────────────────────────────────

/// The number that decimal digits stand for.
pub open spec fn number_of(s: Seq<char>) -> int
    decreases s.len(),
{
    if s.len() == 0 {
        0
    } else {
        10 * number_of(s.drop_last()) + (s.last() as int - '0' as int)
    }
}

/// A number in decimal is made of digits, stands for the number, and has no zero in
/// front but for zero itself.
pub proof fn law_decimal_stands_for_its_number(n: nat)
    ensures
        number_of(dec(n)) == n,
        dec(n).len() > 0,
        forall|i: int| 0 <= i < dec(n).len() ==> '0' <= #[trigger] dec(n)[i] <= '9',
        n > 0 ==> dec(n)[0] != '0',
        n == 0 ==> dec(n) == seq!['0'],
    decreases n,
{
    if n >= 10 {
        law_decimal_stands_for_its_number(n / 10);
        assert(dec(n).drop_last() =~= dec(n / 10));
        assert(dec(n).last() == digit((n % 10) as int));
        assert(dec(n)[0] == dec(n / 10)[0]);
    } else {
        assert(dec(n).drop_last() =~= Seq::empty());
        assert(number_of(dec(n).drop_last()) == 0);
        assert(dec(n).last() == digit(n as int));
    }
}

/// A negative number has a minus sign in front of its digits.
pub proof fn law_negative_numbers_have_a_sign(n: nat)
    ensures
        dec_int(n as int) == dec(n),
        n > 0 ==> dec_int(-n) == seq!['-'] + dec(n),
{
}

/// Fields with a separator between each two of them.
pub open spec fn rejoined(parts: Seq<Seq<char>>, sep: char) -> Seq<char>
    decreases parts.len(),
{
    if parts.len() == 0 {
        Seq::empty()
    } else if parts.len() == 1 {
        parts[0]
    } else {
        rejoined(parts.drop_last(), sep) + seq![sep] + parts.last()
    }
}

/// The fields of a text make up the text, with the separators between them, and none
/// of them holds a separator.
pub proof fn law_fields_make_up_the_text(s: Seq<char>, sep: char)
    ensures
        fields(s, sep).len() > 0,
        rejoined(fields(s, sep), sep) == s,
        forall|i: int|
            0 <= i < fields(s, sep).len() ==> !(#[trigger] fields(s, sep)[i]).contains(sep),
    decreases s.len(),
{
    if s.len() == 0 {
        assert(fields(s, sep) == seq![s]);
        assert(rejoined(fields(s, sep), sep) =~= s);
    } else {
        let init = s.drop_last();
        let c = s.last();
        law_fields_make_up_the_text(init, sep);
        let before = fields(init, sep);
        let after = fields(s, sep);
        assert(init.push(c) =~= s);
        if c == sep {
            assert(after.drop_last() =~= before);
            assert(rejoined(after, sep) =~= s);
        } else {
            let front = before.drop_last();
            let last = before.last();
            assert(after.drop_last() =~= front);
            assert(after.last() == last.push(c));
            if before.len() == 1 {
                assert(rejoined(after, sep) =~= s);
            } else {
                assert(rejoined(before, sep) == rejoined(front, sep) + seq![sep] + last);
                assert(rejoined(after, sep) =~= rejoined(front, sep) + seq![sep] + last.push(c));
                assert(rejoined(after, sep) =~= s);
            }
            assert forall|i: int| 0 <= i < after.len() implies !(#[trigger] after[i]).contains(
                sep,
            ) by {
                if i < front.len() {
                    assert(after[i] == before[i]);
                } else {
                    assert(!before[before.len() - 1].contains(sep));
                    if after[i].contains(sep) {
                        let k = choose|k: int| 0 <= k < after[i].len() && after[i][k] == sep;
                        assert(last[k] == sep);
                    }
                }
            }
        }
    }
}

/// The plain values of texts are theirs, in order; white space is cut off each of them.
pub proof fn law_texts_are_theirs(v: Seq<String>, s: String, i: int)
    requires
        0 <= i < v.len(),
    ensures
        texts(v).len() == v.len(),
        texts(v)[i] == v[i]@,
        trimmed_texts(v).len() == v.len(),
        trimmed_texts(v)[i] == trimmed_text(v[i]@),
        opt_view(Some(s)) == Some(s@),
        opt_view(None) is None,
{
}

/// The characters that count as white space, by their code points.
pub proof fn law_white_space(c: char)
    ensures
        is_white_space(c) <==> (9 <= c as u32 <= 13) || c as u32 == 0x20 || c as u32 == 0x85
            || c as u32 == 0xa0 || c as u32 == 0x1680 || (0x2000 <= c as u32 <= 0x200a) || c as u32
            == 0x2028 || c as u32 == 0x2029 || c as u32 == 0x202f || c as u32 == 0x205f || c as u32
            == 0x3000,
{
}

/// White space is cut off both ends and only there: what is left neither starts nor
/// ends with it, and a text that neither starts nor ends with it stays as it is.
pub proof fn law_white_space_is_cut_off(s: Seq<char>)
    ensures
        ({
            let t = trimmed_text(s);
            &&& t.len() > 0 ==> !is_white_space(t[0]) && !is_white_space(t.last())
            &&& s.len() > 0 && !is_white_space(s[0]) && !is_white_space(s.last()) ==> t == s
        }),
{
    lemma_start_cut(s);
    lemma_end_cut(trimmed_start(s));
}

proof fn lemma_start_cut(s: Seq<char>)
    ensures
        trimmed_start(s).len() > 0 ==> !is_white_space(trimmed_start(s)[0]),
    decreases s.len(),
{
    if s.len() > 0 && is_white_space(s[0]) {
        lemma_start_cut(s.skip(1));
    }
}

proof fn lemma_end_cut(s: Seq<char>)
    ensures
        trimmed_end(s).len() > 0 ==> !is_white_space(trimmed_end(s).last()),
        trimmed_end(s).len() > 0 ==> trimmed_end(s)[0] == s[0],
    decreases s.len(),
{
    if s.len() > 0 && is_white_space(s.last()) {
        lemma_end_cut(s.drop_last());
    }
}

} // verus!
